//! The opaque equivalence-class identifier that a variable binds to.

use vstd::prelude::*;

verus! {

/// An identifier for an equivalence class, the value a pattern
/// variable is bound to by a match.  The substitution imposes no
/// structure on it beyond copying and comparing it.
#[derive(Copy, Clone, Debug, PartialEq, Eq, Hash, Structural)]
pub struct Id(pub u32);

impl Id {
    /// The numeric payload of the identifier.
    pub fn value(self) -> (r: u32)
        ensures
            r == self.0,
    {
        self.0
    }
}

} // verus!
