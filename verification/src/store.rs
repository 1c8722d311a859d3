//! The backing store of a substitution: a small-vector of bindings,
//! seen through trusted declarations.
//!
//! The store is `smallvec::SmallVec`, a growable sequence that keeps a
//! few elements inline before spilling to the heap — a performance
//! refinement only.  The spec function [`sv_pairs`] names what the
//! vector holds, in order, and every wrapper here speaks of it.

use vstd::prelude::*;
use crate::id::Id;
use crate::var::Var;

verus! {

/// The binding buffer a substitution holds: a `smallvec::SmallVec`
/// keeping up to three pairs inline.  The vector's generic bound keeps
/// it from being declared to the verifier directly, so this struct
/// holds it opaquely and the wrappers below are its only doors.
#[verifier::external_body]
pub struct PairBuf {
    inner: smallvec::SmallVec<[(Var, Id); 3]>,
}

/// The elements the buffer holds, in order.
pub uninterp spec fn sv_pairs(v: PairBuf) -> Seq<(Var, Id)>;

/// Relies on `smallvec::SmallVec::with_capacity`: a new vector holding
/// nothing; the capacity is a performance hint only.
#[verifier::external_body]
pub(crate) fn sv_with_capacity(capacity: usize) -> (r: PairBuf)
    ensures
        sv_pairs(r) == Seq::<(Var, Id)>::empty(),
{
    PairBuf { inner: smallvec::SmallVec::with_capacity(capacity) }
}

/// Relies on `smallvec::SmallVec::push`: appends one element at the
/// back and moves nothing else.
#[verifier::external_body]
pub(crate) fn sv_push(v: &mut PairBuf, p: (Var, Id))
    ensures
        sv_pairs(*final(v)) == sv_pairs(*old(v)).push(p),
{
    v.inner.push(p)
}

/// Relies on slice length through `smallvec`'s `Deref`: how many
/// elements the vector holds.
#[verifier::external_body]
pub(crate) fn sv_len(v: &PairBuf) -> (n: usize)
    ensures
        n == sv_pairs(*v).len(),
{
    v.inner.len()
}

/// Relies on slice indexing through `smallvec`'s `Deref`: the element
/// at the given position, copied out.
#[verifier::external_body]
pub(crate) fn sv_get(v: &PairBuf, i: usize) -> (p: (Var, Id))
    requires
        i < sv_pairs(*v).len(),
    ensures
        p == sv_pairs(*v)[i as int],
{
    v.inner[i]
}

/// Relies on mutable slice indexing through `smallvec`'s `DerefMut`:
/// replaces the element at the given position in place.
#[verifier::external_body]
pub(crate) fn sv_set(v: &mut PairBuf, i: usize, p: (Var, Id))
    requires
        i < sv_pairs(*old(v)).len(),
    ensures
        sv_pairs(*final(v)) == sv_pairs(*old(v)).update(i as int, p),
{
    v.inner[i] = p;
}

/// Relies on `Clone` for `smallvec::SmallVec`: an element-for-element
/// copy (the elements here are `Copy`).
#[verifier::external_body]
pub(crate) fn sv_clone(v: &PairBuf) -> (r: PairBuf)
    ensures
        sv_pairs(r) == sv_pairs(*v),
{
    PairBuf { inner: v.inner.clone() }
}

} // verus!
