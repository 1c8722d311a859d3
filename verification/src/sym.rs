//! The process-wide symbol table, seen through trusted declarations.
//!
//! A [`Symbol`] is a cheap, copyable handle for an interned string.
//! The table hands out one handle per distinct string and resolves a
//! handle back to exactly the string that was interned, so the spec
//! function [`sym_text`] — the text a handle stands for — is what every
//! contract here speaks of.

use vstd::prelude::*;

verus! {

/// A handle into the process-wide string-interning table.
pub type Symbol = symbol_table::GlobalSymbol;

#[verifier::external_type_specification]
#[verifier::external_body]
pub struct ExGlobalSymbol(symbol_table::GlobalSymbol);

/// The text that an interned handle stands for in the process-wide
/// table, for the table's lifetime.
pub uninterp spec fn sym_text(s: symbol_table::GlobalSymbol) -> Seq<char>;

/// Relies on `symbol_table::GlobalSymbol::from(&str)`: interning hands
/// back a handle that resolves to exactly the interned string.
#[verifier::external_body]
pub(crate) fn intern(s: &str) -> (r: Symbol)
    ensures
        sym_text(r) == s@,
{
    symbol_table::GlobalSymbol::from(s)
}

/// Relies on `symbol_table::GlobalSymbol::as_str`: resolving a handle
/// returns the exact string that was interned for it.
#[verifier::external_body]
pub(crate) fn sym_as_str(s: Symbol) -> (r: &'static str)
    ensures
        r@ == sym_text(s),
{
    s.as_str()
}

/// Relies on `PartialEq` for `symbol_table::GlobalSymbol`: the global
/// table is canonical — it hands out one handle per distinct string —
/// so handles compare equal exactly when their texts are equal.
#[verifier::external_body]
pub(crate) fn sym_eq(a: Symbol, b: Symbol) -> (r: bool)
    ensures
        r == (sym_text(a) == sym_text(b)),
{
    a == b
}

/// What std's `Debug` formatting prints for a string slice: the text
/// quoted and escaped, a function of the characters alone.
pub uninterp spec fn debug_quoted(s: Seq<char>) -> Seq<char>;

/// Relies on the `Debug` impl for `str`: its output depends on the
/// characters of the slice alone.
#[verifier::external_body]
pub(crate) fn str_debug_quote(s: &str) -> (r: String)
    ensures
        r@ == debug_quoted(s@),
{
    format!("{:?}", s)
}

} // verus!
