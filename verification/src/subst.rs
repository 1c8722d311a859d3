//! Substitutions: order-preserving maps from variables to class
//! identifiers.
//!
//! A substitution is a short sequence of `(Var, Id)` bindings whose
//! keys are pairwise distinct.  A key keeps the position of its first
//! insertion through later re-bindings, and lookup is a linear scan —
//! substitutions are small by construction.  The model is the sequence
//! of pairs itself; [`lookup`], [`contains_key`] and [`first_index`]
//! read it by first occurrence, so every contract below also makes
//! sense on sequences that still carry duplicates.

use vstd::prelude::*;
use vstd::pervasive::unreached;
use vstd::string::StringExecFns;
use crate::digits::dec_digits;
use crate::digits::push_decimal;
use crate::id::Id;
use crate::store::sv_clone;
use crate::store::sv_get;
use crate::store::sv_len;
use crate::store::sv_pairs;
use crate::store::sv_push;
use crate::store::sv_set;
use crate::store::sv_with_capacity;
use crate::store::PairBuf;
use crate::var::key_display;
use crate::var::Var;
use crate::var::VarKey;

verus! {

/// Whether some binding in `s` has the key `k`.
pub open spec fn contains_key(s: Seq<(Var, Id)>, k: VarKey) -> bool {
    exists|i: int| 0 <= i < s.len() && (#[trigger] s[i]).0@ == k
}

/// The identifier bound to `k` by the first binding that carries it,
/// if any.
pub open spec fn lookup(s: Seq<(Var, Id)>, k: VarKey) -> Option<Id>
    decreases s.len(),
{
    if s.len() == 0 {
        None
    } else if s[0].0@ == k {
        Some(s[0].1)
    } else {
        lookup(s.skip(1), k)
    }
}

/// The position of the first binding that carries `k`; the length of
/// `s` if none does.
pub open spec fn first_index(s: Seq<(Var, Id)>, k: VarKey) -> int
    decreases s.len(),
{
    if s.len() == 0 {
        0
    } else if s[0].0@ == k {
        0
    } else {
        1 + first_index(s.skip(1), k)
    }
}

/// Whether the keys of `s` are pairwise distinct.
pub open spec fn distinct_keys(s: Seq<(Var, Id)>) -> bool {
    forall|i: int, j: int|
        0 <= i < j < s.len() ==> (#[trigger] s[i]).0@ != (#[trigger] s[j]).0@
}

/// What inserting `(var, id)` leaves behind: if the key is present,
/// its first binding gets the new identifier in place (the stored key
/// and the position stay); otherwise the pair is appended at the end.
pub open spec fn upsert(s: Seq<(Var, Id)>, var: Var, id: Id) -> Seq<(Var, Id)> {
    if contains_key(s, var@) {
        s.update(first_index(s, var@), (s[first_index(s, var@)].0, id))
    } else {
        s.push((var, id))
    }
}

/// `s` with every binding dropped whose key already occurred earlier:
/// the first occurrence of each key wins, and first occurrences keep
/// their relative order.
pub open spec fn dedup_first(s: Seq<(Var, Id)>) -> Seq<(Var, Id)>
    decreases s.len(),
{
    if s.len() == 0 {
        s
    } else {
        let d = dedup_first(s.drop_last());
        if contains_key(d, s.last().0@) {
            d
        } else {
            d.push(s.last())
        }
    }
}

proof fn lemma_contains_skip1(s: Seq<(Var, Id)>, k: VarKey)
    requires
        s.len() > 0,
        s[0].0@ != k,
    ensures
        contains_key(s, k) == contains_key(s.skip(1), k),
{
    if contains_key(s, k) {
        let i = choose|i: int| 0 <= i < s.len() && (#[trigger] s[i]).0@ == k;
        assert(i > 0);
        assert(s.skip(1)[i - 1] == s[i]);
        assert(contains_key(s.skip(1), k));
    }
    if contains_key(s.skip(1), k) {
        let i = choose|i: int| 0 <= i < s.skip(1).len() && (#[trigger] s.skip(1)[i]).0@ == k;
        assert(s[i + 1] == s.skip(1)[i]);
        assert(contains_key(s, k));
    }
}

/// A key is bound exactly when lookup finds something for it.
pub proof fn lemma_lookup_contains(s: Seq<(Var, Id)>, k: VarKey)
    ensures
        (lookup(s, k) is Some) == contains_key(s, k),
    decreases s.len(),
{
    if s.len() == 0 {
    } else if s[0].0@ == k {
        assert(contains_key(s, k));
    } else {
        lemma_lookup_contains(s.skip(1), k);
        lemma_contains_skip1(s, k);
    }
}

/// What `first_index` points at: for a bound key, the first binding
/// that carries it; for an unbound key, the end of the sequence.
pub proof fn lemma_first_index(s: Seq<(Var, Id)>, k: VarKey)
    ensures
        contains_key(s, k) ==> 0 <= first_index(s, k) < s.len() && s[first_index(s, k)].0@ == k
            && (forall|j: int| 0 <= j < first_index(s, k) ==> (#[trigger] s[j]).0@ != k),
        !contains_key(s, k) ==> first_index(s, k) == s.len(),
    decreases s.len(),
{
    if s.len() == 0 {
    } else if s[0].0@ == k {
        assert(contains_key(s, k));
    } else {
        lemma_first_index(s.skip(1), k);
        lemma_contains_skip1(s, k);
        if contains_key(s, k) {
            let fi = first_index(s, k);
            assert(fi == 1 + first_index(s.skip(1), k));
            assert(s[fi] == s.skip(1)[fi - 1]);
            assert(forall|j: int|
                1 <= j < fi ==> (#[trigger] s[j]).0@ == s.skip(1)[j - 1].0@);
        }
    }
}

/// Lookup returns the identifier stored at the first index of the key.
pub proof fn lemma_lookup_first(s: Seq<(Var, Id)>, k: VarKey)
    ensures
        lookup(s, k) == (if contains_key(s, k) {
            Some(s[first_index(s, k)].1)
        } else {
            None::<Id>
        }),
    decreases s.len(),
{
    if s.len() == 0 {
    } else if s[0].0@ == k {
        assert(contains_key(s, k));
    } else {
        lemma_lookup_first(s.skip(1), k);
        lemma_contains_skip1(s, k);
        if contains_key(s, k) {
            lemma_first_index(s.skip(1), k);
            let fi1 = first_index(s.skip(1), k);
            assert(0 <= fi1 < s.skip(1).len());
            assert(s.skip(1)[fi1] == s[fi1 + 1]);
        }
    }
}

proof fn lemma_lookup_push(s: Seq<(Var, Id)>, p: (Var, Id), k: VarKey)
    ensures
        lookup(s.push(p), k) == (if contains_key(s, k) {
            lookup(s, k)
        } else if p.0@ == k {
            Some(p.1)
        } else {
            None::<Id>
        }),
    decreases s.len(),
{
    if s.len() == 0 {
        assert(s.push(p)[0] == p);
        assert(s.push(p).skip(1) =~= Seq::<(Var, Id)>::empty());
        assert(lookup(Seq::<(Var, Id)>::empty(), k) is None);
        if p.0@ == k {
            assert(lookup(s.push(p), k) == Some(p.1));
        } else {
            assert(lookup(s.push(p), k) is None);
        }
    } else {
        assert(s.push(p)[0] == s[0]);
        if s[0].0@ == k {
            assert(contains_key(s, k));
        } else {
            assert(s.push(p).skip(1) =~= s.skip(1).push(p));
            lemma_lookup_push(s.skip(1), p, k);
            lemma_contains_skip1(s, k);
            assert(lookup(s.push(p), k) == lookup(s.skip(1).push(p), k));
            assert(lookup(s, k) == lookup(s.skip(1), k));
        }
    }
}

proof fn lemma_lookup_update(s: Seq<(Var, Id)>, i: int, q: (Var, Id), k: VarKey)
    requires
        0 <= i < s.len(),
        forall|j: int| 0 <= j < i ==> (#[trigger] s[j]).0@ != s[i].0@,
        q.0@ == s[i].0@,
    ensures
        lookup(s.update(i, q), k) == (if k == q.0@ {
            Some(q.1)
        } else {
            lookup(s, k)
        }),
    decreases s.len(),
{
    let u = s.update(i, q);
    if i == 0 {
        assert(u[0] == q);
        if k == q.0@ {
        } else {
            assert(u.skip(1) =~= s.skip(1));
        }
    } else {
        assert(u[0] == s[0]);
        assert(s[0].0@ != s[i].0@);
        if k == s[0].0@ {
            assert(k != q.0@);
        } else {
            assert(u.skip(1) =~= s.skip(1).update(i - 1, q));
            assert(forall|j: int|
                0 <= j < i - 1 ==> (#[trigger] s.skip(1)[j]).0@ == s[j + 1].0@);
            assert(s.skip(1)[i - 1] == s[i]);
            lemma_lookup_update(s.skip(1), i - 1, q, k);
        }
    }
}

/// What one insertion does, stated over the model (the sequence of
/// bindings): the key ends up bound to the new identifier, every other
/// key keeps its binding, distinctness of keys is preserved, the
/// length grows by one exactly for a fresh key, a fresh pair lands at
/// the end, and no binding changes its position or its stored key.
pub proof fn lemma_upsert(s: Seq<(Var, Id)>, var: Var, id: Id)
    requires
        distinct_keys(s),
    ensures
        distinct_keys(upsert(s, var, id)),
        lookup(upsert(s, var, id), var@) == Some(id),
        forall|k: VarKey| k != var@ ==> lookup(upsert(s, var, id), k) == lookup(s, k),
        contains_key(s, var@) ==> upsert(s, var, id).len() == s.len(),
        !contains_key(s, var@) ==> upsert(s, var, id).len() == s.len() + 1,
        forall|j: int| 0 <= j < s.len() ==> (#[trigger] upsert(s, var, id)[j]).0 == s[j].0,
        !contains_key(s, var@) ==> upsert(s, var, id)[s.len() as int] == (var, id),
{
    lemma_first_index(s, var@);
    if contains_key(s, var@) {
        let fi = first_index(s, var@);
        let q = (s[fi].0, id);
        assert(q.0@ == s[fi].0@);
        lemma_lookup_update(s, fi, q, var@);
        assert(lookup(upsert(s, var, id), var@) == Some(id));
        assert forall|k: VarKey| k != var@ implies lookup(upsert(s, var, id), k) == lookup(
            s,
            k,
        ) by {
            lemma_lookup_update(s, fi, q, k);
        }
    } else {
        lemma_lookup_push(s, (var, id), var@);
        lemma_lookup_contains(s, var@);
        assert forall|k: VarKey| k != var@ implies lookup(upsert(s, var, id), k) == lookup(
            s,
            k,
        ) by {
            lemma_lookup_push(s, (var, id), k);
            lemma_lookup_contains(s, k);
        }
        assert(forall|j: int|
            0 <= j < s.len() ==> (#[trigger] s[j]).0@ != var@);
    }
}

proof fn lemma_contains_unlast(s: Seq<(Var, Id)>, k: VarKey)
    requires
        s.len() > 0,
    ensures
        contains_key(s, k) == (contains_key(s.drop_last(), k) || s.last().0@ == k),
{
    if contains_key(s, k) {
        let i = choose|i: int| 0 <= i < s.len() && (#[trigger] s[i]).0@ == k;
        if i < s.len() - 1 {
            assert(s.drop_last()[i] == s[i]);
            assert(contains_key(s.drop_last(), k));
        }
    }
    if contains_key(s.drop_last(), k) {
        let i = choose|i: int|
            0 <= i < s.drop_last().len() && (#[trigger] s.drop_last()[i]).0@ == k;
        assert(s[i] == s.drop_last()[i]);
        assert(contains_key(s, k));
    }
    if s.last().0@ == k {
        assert((#[trigger] s[s.len() - 1]).0@ == k);
        assert(contains_key(s, k));
    }
}

/// Keeping first occurrences only loses no key, introduces none, and
/// binds every key to exactly what the first binding that carried it
/// bound; what remains has pairwise distinct keys.
pub proof fn lemma_dedup_first(s: Seq<(Var, Id)>)
    ensures
        distinct_keys(dedup_first(s)),
        forall|k: VarKey| contains_key(dedup_first(s), k) == contains_key(s, k),
        forall|k: VarKey| lookup(dedup_first(s), k) == lookup(s, k),
    decreases s.len(),
{
    if s.len() == 0 {
    } else {
        lemma_dedup_first(s.drop_last());
        let d = dedup_first(s.drop_last());
        let p = s.last();
        assert(s =~= s.drop_last().push(p));
        assert forall|k: VarKey| contains_key(dedup_first(s), k) == contains_key(s, k) by {
            lemma_contains_unlast(s, k);
            if !contains_key(d, p.0@) {
                lemma_contains_push(d, p, k);
            }
        }
        assert forall|k: VarKey| lookup(dedup_first(s), k) == lookup(s, k) by {
            lemma_lookup_push(s.drop_last(), p, k);
            lemma_lookup_contains(s.drop_last(), k);
            lemma_lookup_contains(d, k);
            if !contains_key(d, p.0@) {
                lemma_lookup_push(d, p, k);
            }
        }
        if !contains_key(d, p.0@) {
            assert(forall|j: int| 0 <= j < d.len() ==> (#[trigger] d[j]).0@ != p.0@);
            assert(distinct_keys(d.push(p)));
        }
    }
}

proof fn lemma_contains_push(s: Seq<(Var, Id)>, p: (Var, Id), k: VarKey)
    ensures
        contains_key(s.push(p), k) == (contains_key(s, k) || p.0@ == k),
{
    assert(s.push(p).drop_last() =~= s);
    lemma_contains_unlast(s.push(p), k);
}

/// A substitution mapping variables to equivalence-class identifiers.
pub struct Subst {
    vec: PairBuf,
}

impl View for Subst {
    type V = Seq<(Var, Id)>;

    closed spec fn view(&self) -> Seq<(Var, Id)> {
        sv_pairs(self.vec)
    }
}

impl Subst {
    /// Well-formed: no two bindings share a key.  Every constructor
    /// here establishes this and every method preserves it.
    pub open spec fn wf(&self) -> bool {
        distinct_keys(self@)
    }

    /// Create a substitution with the given initial capacity; the
    /// capacity is a performance hint with no semantic effect.
    pub fn with_capacity(capacity: usize) -> (r: Self)
        ensures
            r@ == Seq::<(Var, Id)>::empty(),
            r.wf(),
    {
        Subst { vec: sv_with_capacity(capacity) }
    }

    /// Bind `var` to `id`.  If `var` was already bound, its first
    /// binding takes the new identifier in place — same position, same
    /// stored key — and the previous identifier comes back; otherwise
    /// the new pair is appended and nothing comes back.
    pub fn insert(&mut self, var: Var, id: Id) -> (r: Option<Id>)
        ensures
            final(self)@ == upsert(old(self)@, var, id),
            r == lookup(old(self)@, var@),
            old(self).wf() ==> final(self).wf(),
    {
        let n = sv_len(&self.vec);
        let mut i: usize = 0;
        while i < n
            invariant
                0 <= i <= n,
                *self == *old(self),
                n == self@.len(),
                forall|j: int| 0 <= j < i ==> (#[trigger] self@[j]).0@ != var@,
            decreases n - i,
        {
            let p = sv_get(&self.vec, i);
            if p.0 == var {
                sv_set(&mut self.vec, i, (p.0, id));
                proof {
                    let s = old(self)@;
                    assert(contains_key(s, var@));
                    lemma_first_index(s, var@);
                    let fi = first_index(s, var@);
                    assert(!(fi < i) && !(fi > i));
                    lemma_lookup_first(s, var@);
                    if distinct_keys(s) {
                        lemma_upsert(s, var, id);
                    }
                }
                return Some(p.1);
            }
            i = i + 1;
        }
        sv_push(&mut self.vec, (var, id));
        proof {
            let s = old(self)@;
            assert(!contains_key(s, var@));
            lemma_lookup_contains(s, var@);
            if distinct_keys(s) {
                lemma_upsert(s, var, id);
            }
        }
        None
    }

    /// The identifier bound to `var`, or nothing if `var` is unbound.
    pub fn get(&self, var: Var) -> (r: Option<Id>)
        ensures
            r == lookup(self@, var@),
    {
        let n = sv_len(&self.vec);
        let mut i: usize = 0;
        proof {
            assert(self@.skip(0) =~= self@);
        }
        while i < n
            invariant
                0 <= i <= n,
                n == self@.len(),
                lookup(self@, var@) == lookup(self@.skip(i as int), var@),
            decreases n - i,
        {
            let p = sv_get(&self.vec, i);
            proof {
                assert(self@.skip(i as int)[0] == self@[i as int]);
            }
            if p.0 == var {
                return Some(p.1);
            }
            proof {
                assert(self@.skip(i as int).skip(1) =~= self@.skip(i + 1));
            }
            i = i + 1;
        }
        proof {
            assert(self@.skip(n as int) =~= Seq::<(Var, Id)>::empty());
        }
        None
    }

    /// The number of distinct bindings.
    pub fn len(&self) -> (n: usize)
        ensures
            n == self@.len(),
    {
        sv_len(&self.vec)
    }

    /// Whether the substitution binds no variable at all.
    #[must_use]
    pub fn is_empty(&self) -> (r: bool)
        ensures
            r == (self@.len() == 0),
    {
        self.len() == 0
    }

    /// The bindings in insertion order.  The result is determined by
    /// the current contents alone, so unmutated repeated calls yield
    /// identical sequences.
    pub fn iter(&self) -> (r: Vec<(Var, Id)>)
        ensures
            r@ == self@,
    {
        let n = sv_len(&self.vec);
        let mut out: Vec<(Var, Id)> = Vec::with_capacity(n);
        let mut i: usize = 0;
        while i < n
            invariant
                0 <= i <= n,
                n == self@.len(),
                out@ == self@.take(i as int),
            decreases n - i,
        {
            let p = sv_get(&self.vec, i);
            out.push(p);
            proof {
                assert(self@.take(i + 1) =~= self@.take(i as int).push(self@[i as int]));
            }
            i = i + 1;
        }
        proof {
            assert(self@.take(n as int) =~= self@);
        }
        out
    }

    /// The identifier bound to `var`, for callers who already
    /// guarantee that `var` is bound.  Speculative lookup must use
    /// [`Subst::get`] instead.
    pub fn index(&self, var: Var) -> (r: Id)
        requires
            contains_key(self@, var@),
        ensures
            Some(r) == lookup(self@, var@),
    {
        let r = self.get(var);
        match r {
            Some(id) => id,
            None => {
                proof {
                    lemma_lookup_contains(self@, var@);
                }
                unreached()
            },
        }
    }

    /// Build a substitution from a sequence of pairs, keeping only the
    /// first occurrence of each distinct key and preserving the
    /// relative order of first occurrences.
    pub fn from_pairs(pairs: &Vec<(Var, Id)>) -> (r: Self)
        ensures
            r@ == dedup_first(pairs@),
            r.wf(),
    {
        let mut r = Subst { vec: sv_with_capacity(pairs.len()) };
        let n = pairs.len();
        let mut i: usize = 0;
        proof {
            assert(pairs@.take(0) =~= Seq::<(Var, Id)>::empty());
        }
        while i < n
            invariant
                0 <= i <= n,
                n == pairs@.len(),
                r@ == dedup_first(pairs@.take(i as int)),
            decreases n - i,
        {
            let p = pairs[i];
            let bound = r.get(p.0);
            proof {
                lemma_lookup_contains(r@, p.0@);
                let t = pairs@.take(i + 1);
                assert(t.drop_last() =~= pairs@.take(i as int));
                assert(t.last() == pairs@[i as int]);
            }
            if bound.is_none() {
                sv_push(&mut r.vec, p);
            }
            i = i + 1;
        }
        proof {
            assert(pairs@.take(n as int) =~= pairs@);
            lemma_dedup_first(pairs@);
        }
        r
    }

    /// The brace-delimited rendering of the bindings, in order:
    /// `{var: id, var: id}` with no trailing separator.
    pub fn debug_string(&self) -> (r: String)
        ensures
            r@ == seq!['{'] + entries_text(self@) + seq!['}'],
    {
        let n = sv_len(&self.vec);
        let mut out = String::from_str("{");
        proof {
            reveal_strlit("{");
            assert(out@ =~= seq!['{'] + entries_text(self@.take(0)));
        }
        let mut i: usize = 0;
        while i < n
            invariant
                0 <= i <= n,
                n == self@.len(),
                out@ == seq!['{'] + entries_text(self@.take(i as int)),
            decreases n - i,
        {
            if i > 0 {
                out.append(", ");
            }
            let p = sv_get(&self.vec, i);
            let vs = p.0.display_string();
            out.append(vs.as_str());
            out.append(": ");
            push_decimal(&mut out, p.1.value());
            proof {
                reveal_strlit(", ");
                reveal_strlit(": ");
                let t = self@.take(i + 1);
                assert(t.drop_last() =~= self@.take(i as int));
                assert(t.last() == self@[i as int]);
                assert(out@ =~= seq!['{'] + entries_text(t));
            }
            i = i + 1;
        }
        out.append("}");
        proof {
            reveal_strlit("}");
            assert(self@.take(n as int) =~= self@);
            assert(out@ =~= seq!['{'] + entries_text(self@) + seq!['}']);
        }
        out
    }
}

impl Default for Subst {
    /// An empty substitution.
    fn default() -> (r: Self)
        ensures
            r@ == Seq::<(Var, Id)>::empty(),
            r.wf(),
    {
        Subst { vec: sv_with_capacity(0) }
    }
}

impl Clone for Subst {
    /// An independent copy holding the same bindings.
    fn clone(&self) -> (r: Self)
        ensures
            r@ == self@,
    {
        Subst { vec: sv_clone(&self.vec) }
    }
}

/// The rendering of one binding: the variable's display text, a colon
/// and space, and the identifier's decimal value.
pub open spec fn entry_text(p: (Var, Id)) -> Seq<char> {
    key_display(p.0@) + seq![':', ' '] + dec_digits(p.1.0 as nat)
}

/// The comma-space-separated renderings of all bindings, in order.
pub open spec fn entries_text(s: Seq<(Var, Id)>) -> Seq<char>
    decreases s.len(),
{
    if s.len() == 0 {
        Seq::empty()
    } else if s.len() == 1 {
        entry_text(s[0])
    } else {
        entries_text(s.drop_last()) + seq![',', ' '] + entry_text(s.last())
    }
}

} // verus!
