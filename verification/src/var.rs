//! Pattern variables: identity, parsing and rendering.
//!
//! A variable is either backed by an interned symbol whose text starts
//! with `?`, or is a raw 32-bit number written `?#N`.  The two variants
//! never compare equal to one another.

use vstd::prelude::*;
use vstd::string::StrSliceExecFns;
use vstd::string::StringExecFns;
use crate::digits::all_digits;
use crate::digits::dec_digits;
use crate::digits::digits_val;
use crate::digits::is_digit;
use crate::digits::lemma_digits_val_extend;
use crate::digits::push_decimal;
use crate::sym::debug_quoted;
use crate::sym::intern;
use crate::sym::str_debug_quote;
use crate::sym::sym_as_str;
use crate::sym::sym_eq;
use crate::sym::sym_text;
use crate::sym::Symbol;

verus! {

/// The mathematical identity of a variable: which variant it is, and
/// the payload — the interned text, or the number.
pub enum VarKey {
    Sym(Seq<char>),
    Num(u32),
}

/// What a variable of the given identity displays as: a symbol shows
/// its interned text, a number shows `?#` and its canonical decimal.
pub open spec fn key_display(k: VarKey) -> Seq<char> {
    match k {
        VarKey::Sym(t) => t,
        VarKey::Num(n) => seq!['?', '#'] + dec_digits(n as nat),
    }
}

#[derive(Copy, Clone, PartialEq, Eq, Hash, Debug)]
enum VarInner {
    Sym(Symbol),
    Num(u32),
}

/// A variable for use in patterns and substitutions.
///
/// Parsing accepts only text with a leading `?`.
#[derive(Copy, Clone, Eq, Hash, Debug)]
pub struct Var(VarInner);

impl View for Var {
    type V = VarKey;

    closed spec fn view(&self) -> VarKey {
        match self.0 {
            VarInner::Sym(h) => VarKey::Sym(sym_text(h)),
            VarInner::Num(n) => VarKey::Num(n),
        }
    }
}

impl PartialEq for Var {
    fn eq(&self, other: &Self) -> (r: bool) {
        match (&self.0, &other.0) {
            (VarInner::Sym(a), VarInner::Sym(b)) => sym_eq(*a, *b),
            (VarInner::Num(a), VarInner::Num(b)) => *a == *b,
            _ => false,
        }
    }
}

impl vstd::std_specs::cmp::PartialEqSpecImpl for Var {
    open spec fn obeys_eq_spec() -> bool {
        true
    }

    open spec fn eq_spec(&self, other: &Var) -> bool {
        self@ == other@
    }
}

impl Var {
    /// Create a new variable from a u32, bypassing the symbol table.
    /// Such a variable parses from and displays as `?#` syntax.
    pub fn from_u32(num: u32) -> (r: Self)
        ensures
            r@ == VarKey::Num(num),
    {
        Var(VarInner::Num(num))
    }

    /// Build a variable from an interned symbol.  This does not check
    /// that the symbol's text has the `?`-leading shape the parser
    /// demands; callers pass only symbols known to be valid.
    pub fn from_symbol(s: Symbol) -> (r: Self)
        ensures
            r@ == VarKey::Sym(sym_text(s)),
    {
        Var(VarInner::Sym(s))
    }

    /// If this variable was created from a u32, get it back out.
    pub fn as_u32(&self) -> (r: Option<u32>)
        ensures
            r == (match self@ {
                VarKey::Num(n) => Some(n),
                VarKey::Sym(_) => None::<u32>,
            }),
    {
        match self.0 {
            VarInner::Num(num) => Some(num),
            _ => None,
        }
    }

    /// Exposes the content of a variable as plain data.
    pub fn expose(&self) -> (r: VarExposed)
        ensures
            r@ == self@,
    {
        match self.0 {
            VarInner::Sym(h) => VarExposed::Sym(sym_as_str(h)),
            VarInner::Num(n) => VarExposed::Num(n),
        }
    }

    /// Parse a variable from text.
    ///
    /// `?#` followed by one or more decimal digits is a numeric
    /// variable, with leading zeros permitted and insignificant;
    /// any other `?`-led text of length over one is a symbol variable
    /// that keeps the whole text, leading `?` included; everything
    /// else is rejected.  A parsed symbol variable displays as exactly
    /// the text it was parsed from.
    pub fn parse(s: &str) -> (r: Result<Var, VarParseError>)
        ensures
            (s@.len() <= 1 || s@[0] != '?') ==> (r matches Err(
                VarParseError::MissingQuestionMark(t),
            ) && t@ == s@),
            (s@.len() > 1 && s@[0] == '?' && s@[1] != '#') ==> (r matches Ok(v) && v@
                == VarKey::Sym(s@) && key_display(v@) == s@),
            (s@.len() > 1 && s@[0] == '?' && s@[1] == '#' && numeric_digits(s@)) ==> (r matches Ok(
                v,
            ) && v@ == VarKey::Num(digits_val(s@.skip(2)) as u32)),
            (s@.len() > 1 && s@[0] == '?' && s@[1] == '#' && !numeric_digits(s@)) ==> (r matches Err(
                VarParseError::BadNumber(t),
            ) && t@ == s@),
    {
        let n = s.unicode_len();
        if n == 0 {
            return Err(VarParseError::MissingQuestionMark(s.to_owned()));
        }
        if s.get_char(0) != '?' {
            return Err(VarParseError::MissingQuestionMark(s.to_owned()));
        }
        if n == 1 {
            return Err(VarParseError::MissingQuestionMark(s.to_owned()));
        }
        if s.get_char(1) != '#' {
            return Ok(Var(VarInner::Sym(intern(s))));
        }
        let mut acc: u32 = 0;
        let mut i: usize = 2;
        if n == 2 {
            return Err(VarParseError::BadNumber(s.to_owned()));
        }
        while i < n
            invariant
                2 <= i <= n,
                n == s@.len(),
                s@.len() > 2,
                s@[0] == '?',
                s@[1] == '#',
                all_digits(s@.subrange(2, i as int)),
                acc == digits_val(s@.subrange(2, i as int)),
            decreases n - i,
        {
            let c = s.get_char(i);
            let cv = c as u32;
            if cv < 48 || cv > 57 {
                proof {
                    assert(!is_digit(s@[i as int]));
                    assert(s@.skip(2)[i - 2] == s@[i as int]);
                    assert(!all_digits(s@.skip(2)));
                }
                return Err(VarParseError::BadNumber(s.to_owned()));
            }
            let d = cv - 48;
            proof {
                let pre = s@.subrange(2, i as int);
                let ext = s@.subrange(2, i + 1 as int);
                assert(ext.drop_last() =~= pre);
                assert(ext.last() == s@[i as int]);
                assert(digits_val(ext) == acc * 10 + d);
            }
            if acc > (u32::MAX - d) / 10 {
                proof {
                    let ext = s@.subrange(2, i + 1 as int);
                    assert(acc * 10 + d > u32::MAX) by (nonlinear_arith)
                        requires
                            acc > (u32::MAX - d) / 10,
                            d <= 9,
                    ;
                    lemma_digits_val_extend(ext, s@.skip(2).skip(i - 2 + 1));
                    assert(ext + s@.skip(2).skip(i - 2 + 1) =~= s@.skip(2));
                    assert(digits_val(s@.skip(2)) > u32::MAX);
                }
                return Err(VarParseError::BadNumber(s.to_owned()));
            }
            proof {
                assert(acc * 10 + d <= u32::MAX) by (nonlinear_arith)
                    requires
                        acc <= (u32::MAX - d) / 10,
                        d <= 9,
                ;
            }
            acc = acc * 10 + d;
            i = i + 1;
        }
        proof {
            assert(s@.subrange(2, n as int) =~= s@.skip(2));
        }
        Ok(Var(VarInner::Num(acc)))
    }

    /// The text this variable displays as: the interned text for a
    /// symbol variable, `?#` and the canonical decimal for a numeric
    /// one.
    pub fn display_string(&self) -> (r: String)
        ensures
            r@ == key_display(self@),
    {
        match self.0 {
            VarInner::Sym(h) => {
                let t = sym_as_str(h);
                t.to_owned()
            },
            VarInner::Num(n) => {
                let mut out = String::from_str("?#");
                push_decimal(&mut out, n);
                proof {
                    reveal_strlit("?#");
                    assert("?#"@ =~= seq!['?', '#']);
                }
                out
            },
        }
    }

    /// The text this variable debug-renders as: like display, except
    /// that a symbol variable shows its text debug-quoted.
    pub fn debug_string(&self) -> (r: String)
        ensures
            r@ == (match self@ {
                VarKey::Sym(t) => debug_quoted(t),
                VarKey::Num(_) => key_display(self@),
            }),
    {
        match self.0 {
            VarInner::Sym(h) => str_debug_quote(sym_as_str(h)),
            VarInner::Num(_) => self.display_string(),
        }
    }
}

/// Which strings after the `?#` marker denote a number: at least one
/// character, digits only, and a value that fits in a u32.
pub open spec fn numeric_digits(s: Seq<char>) -> bool {
    s.len() > 2 && all_digits(s.skip(2)) && digits_val(s.skip(2)) <= u32::MAX
}

impl core::str::FromStr for Var {
    type Err = VarParseError;

    fn from_str(s: &str) -> Result<Self, Self::Err> {
        Var::parse(s)
    }
}

/// A read-only view of how a variable was built: from a string, or
/// from a number.
#[derive(Debug, Copy, Clone, PartialEq, Eq, Hash)]
pub enum VarExposed {
    Sym(&'static str),
    Num(u32),
}

impl View for VarExposed {
    type V = VarKey;

    open spec fn view(&self) -> VarKey {
        match self {
            VarExposed::Sym(t) => VarKey::Sym(t@),
            VarExposed::Num(n) => VarKey::Num(*n),
        }
    }
}

impl VarExposed {
    /// The interned text, if this view is of a symbol variable; the
    /// view itself otherwise.
    #[must_use]
    pub fn try_into_sym(self) -> (r: Result<&'static str, Self>)
        ensures
            self is Sym ==> (r matches Ok(t) && t@ == self@->Sym_0),
            self is Num ==> (r matches Err(e) && e == self),
    {
        if let Self::Sym(v) = self {
            Ok(v)
        } else {
            Err(self)
        }
    }

    /// The number, if this view is of a numeric variable; the view
    /// itself otherwise.
    #[must_use]
    pub fn try_into_num(self) -> (r: Result<u32, Self>)
        ensures
            self is Num ==> (r matches Ok(n) && n == self@->Num_0),
            self is Sym ==> (r matches Err(e) && e == self),
    {
        if let Self::Num(v) = self {
            Ok(v)
        } else {
            Err(self)
        }
    }
}

/// Why a string failed to parse as a variable.  Each variant carries
/// the offending text unchanged.
#[derive(Debug, PartialEq, Eq)]
pub enum VarParseError {
    /// The text did not begin with `?`, or was `?` alone.
    MissingQuestionMark(String),
    /// The text began with `?#` but the rest was not a valid unsigned
    /// decimal number.
    BadNumber(String),
}

impl VarParseError {
    /// The diagnostic line for this error, naming the offending text.
    pub fn message(&self) -> (r: String)
        ensures
            r@ == (match self {
                VarParseError::MissingQuestionMark(t) => "pattern variable "@ + debug_quoted(t@)
                    + " should have a leading question mark"@,
                VarParseError::BadNumber(t) => "number pattern variable "@ + debug_quoted(t@)
                    + " was malformed"@,
            }),
    {
        match self {
            VarParseError::MissingQuestionMark(t) => {
                let mut out = String::from_str("pattern variable ");
                let q = str_debug_quote(t.as_str());
                out.append(q.as_str());
                out.append(" should have a leading question mark");
                out
            },
            VarParseError::BadNumber(t) => {
                let mut out = String::from_str("number pattern variable ");
                let q = str_debug_quote(t.as_str());
                out.append(q.as_str());
                out.append(" was malformed");
                out
            },
        }
    }
}

} // verus!
