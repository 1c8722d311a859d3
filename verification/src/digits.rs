//! Decimal digit runs: their value, and the canonical rendering of a
//! number (no leading zeros), both executable and proved.

use vstd::prelude::*;
use vstd::arithmetic::div_mod::lemma_fundamental_div_mod;
use vstd::string::StringExecFns;

verus! {

/// Whether `c` is a decimal digit `'0'..='9'`.
pub open spec fn is_digit(c: char) -> bool {
    48 <= c as int && c as int <= 57
}

/// The numeric value of a digit character.
pub open spec fn digit_of(c: char) -> nat
    recommends
        is_digit(c),
{
    (c as int - 48) as nat
}

/// The digit character for a value below ten.
pub open spec fn digit_char(d: nat) -> char
    recommends
        d < 10,
{
    if d == 0 {
        '0'
    } else if d == 1 {
        '1'
    } else if d == 2 {
        '2'
    } else if d == 3 {
        '3'
    } else if d == 4 {
        '4'
    } else if d == 5 {
        '5'
    } else if d == 6 {
        '6'
    } else if d == 7 {
        '7'
    } else if d == 8 {
        '8'
    } else {
        '9'
    }
}

/// Whether every character of `s` is a decimal digit.
pub open spec fn all_digits(s: Seq<char>) -> bool {
    forall|i: int| 0 <= i < s.len() ==> is_digit(#[trigger] s[i])
}

/// The value of `s` read as a decimal numeral, most significant digit
/// first.  Leading zeros do not change the value.
pub open spec fn digits_val(s: Seq<char>) -> nat
    decreases s.len(),
{
    if s.len() == 0 {
        0
    } else {
        digits_val(s.drop_last()) * 10 + digit_of(s.last())
    }
}

/// The canonical decimal rendering of `n`: no leading zeros, and `"0"`
/// for zero itself.
pub open spec fn dec_digits(n: nat) -> Seq<char>
    decreases n,
{
    if n < 10 {
        seq![digit_char(n)]
    } else {
        dec_digits(n / 10).push(digit_char(n % 10))
    }
}

proof fn lemma_digit_char(d: nat)
    requires
        d < 10,
    ensures
        is_digit(digit_char(d)),
        digit_of(digit_char(d)) == d,
{
}

/// The canonical rendering round-trips: the digits shown for `n` are
/// all digits, read back as the value `n`, and carry no leading zero
/// (a zero first digit appears only for `n == 0`, which renders as
/// `"0"`).
pub proof fn lemma_dec_digits(n: nat)
    ensures
        dec_digits(n).len() >= 1,
        all_digits(dec_digits(n)),
        digits_val(dec_digits(n)) == n,
        n > 0 ==> dec_digits(n)[0] != '0',
        n == 0 ==> dec_digits(n) == seq!['0'],
    decreases n,
{
    if n < 10 {
        lemma_digit_char(n);
        let s = seq![digit_char(n)];
        assert(s.drop_last() =~= Seq::<char>::empty());
        assert(s.last() == digit_char(n));
        assert(digits_val(s) == digits_val(s.drop_last()) * 10 + digit_of(s.last()));
        assert(digits_val(s) == n);
    } else {
        lemma_dec_digits(n / 10);
        lemma_digit_char(n % 10);
        let p = dec_digits(n / 10);
        let s = p.push(digit_char(n % 10));
        assert(s.drop_last() =~= p);
        assert(s.last() == digit_char(n % 10));
        lemma_fundamental_div_mod(n as int, 10);
        assert(digits_val(s) == (n / 10) * 10 + n % 10);
        assert(s[0] == p[0]);
        assert(forall|i: int| 0 <= i < s.len() ==> is_digit(#[trigger] s[i]));
    }
}

/// A leading zero never changes the value of a digit run.
pub proof fn lemma_leading_zero(d: Seq<char>)
    ensures
        digits_val(seq!['0'] + d) == digits_val(d),
    decreases d.len(),
{
    if d.len() == 0 {
        assert(seq!['0'] + d =~= seq!['0']);
        assert((seq!['0']).drop_last() =~= Seq::<char>::empty());
        assert((seq!['0']).last() == '0');
        assert(digits_val(seq!['0']) == digits_val(Seq::<char>::empty()) * 10 + digit_of('0'));
    } else {
        lemma_leading_zero(d.drop_last());
        assert((seq!['0'] + d).drop_last() =~= seq!['0'] + d.drop_last());
        assert((seq!['0'] + d).last() == d.last());
    }
}

/// A longer digit run is worth at least as much as any prefix of it.
pub proof fn lemma_digits_val_extend(s: Seq<char>, t: Seq<char>)
    ensures
        digits_val(s + t) >= digits_val(s),
    decreases t.len(),
{
    if t.len() == 0 {
        assert(s + t =~= s);
    } else {
        lemma_digits_val_extend(s, t.drop_last());
        assert((s + t).drop_last() =~= s + t.drop_last());
        assert(digits_val(s + t) == digits_val(s + t.drop_last()) * 10 + digit_of((s + t).last()));
    }
}

/// The one-character string for a digit value.
pub fn digit_str(d: u32) -> (r: &'static str)
    requires
        d < 10,
    ensures
        r@ == seq![digit_char(d as nat)],
{
    let r: &'static str = if d == 0 {
        proof {
            reveal_strlit("0");
        }
        "0"
    } else if d == 1 {
        proof {
            reveal_strlit("1");
        }
        "1"
    } else if d == 2 {
        proof {
            reveal_strlit("2");
        }
        "2"
    } else if d == 3 {
        proof {
            reveal_strlit("3");
        }
        "3"
    } else if d == 4 {
        proof {
            reveal_strlit("4");
        }
        "4"
    } else if d == 5 {
        proof {
            reveal_strlit("5");
        }
        "5"
    } else if d == 6 {
        proof {
            reveal_strlit("6");
        }
        "6"
    } else if d == 7 {
        proof {
            reveal_strlit("7");
        }
        "7"
    } else if d == 8 {
        proof {
            reveal_strlit("8");
        }
        "8"
    } else {
        proof {
            reveal_strlit("9");
        }
        "9"
    };
    proof {
        assert(r@ =~= seq![digit_char(d as nat)]);
    }
    r
}

/// Appends the canonical decimal rendering of `n` to `out`.
pub fn push_decimal(out: &mut String, n: u32)
    ensures
        final(out)@ == old(out)@ + dec_digits(n as nat),
    decreases n,
{
    if n < 10 {
        let d = digit_str(n);
        out.append(d);
        proof {
            assert(old(out)@ + d@ =~= old(out)@ + dec_digits(n as nat));
        }
    } else {
        push_decimal(out, n / 10);
        let d = digit_str(n % 10);
        out.append(d);
        proof {
            let whole = old(out)@ + dec_digits(n as nat);
            assert((old(out)@ + dec_digits((n / 10) as nat)) + d@ =~= whole);
        }
    }
}

} // verus!
