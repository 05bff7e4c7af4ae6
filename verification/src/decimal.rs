//! Decimal notation for natural numbers, as it appears in the text formats.

use vstd::prelude::*;

verus! {

/// An ASCII decimal digit.
pub open spec fn is_digit(c: char) -> bool {
    '0' <= c && c <= '9'
}

/// The number a digit stands for.
pub open spec fn digit_value(c: char) -> nat {
    (c as int - '0' as int) as nat
}

/// The character that stands for a number below ten.
pub open spec fn digit_char(d: nat) -> char {
    (d + '0' as nat) as char
}

/// Every character of `s` is a decimal digit.
pub open spec fn all_digits(s: Seq<char>) -> bool {
    forall|i: int| 0 <= i < s.len() ==> is_digit(#[trigger] s[i])
}

/// The value of a digit string read in base ten; the empty string reads as 0.
pub open spec fn digits_value(s: Seq<char>) -> nat
    decreases s.len(),
{
    if s.len() == 0 {
        0
    } else {
        digits_value(s.drop_last()) * 10 + digit_value(s.last())
    }
}

/// The digits of a token once an optional leading `+` is taken away.
pub open spec fn unsigned_part(s: Seq<char>) -> Seq<char> {
    if s.len() > 0 && s[0] == '+' {
        s.drop_first()
    } else {
        s
    }
}

/// The natural number that a token denotes: an optional `+`, then one or more
/// decimal digits and nothing else. Leading zeros are accepted.
pub open spec fn parse_decimal(s: Seq<char>) -> Option<nat> {
    let d = unsigned_part(s);
    if d.len() > 0 && all_digits(d) {
        Some(digits_value(d))
    } else {
        None
    }
}

/// The machine integer that a token denotes, where it denotes one that fits.
pub open spec fn parse_usize(s: Seq<char>) -> Option<usize> {
    match parse_decimal(s) {
        Some(v) => if v <= usize::MAX {
            Some(v as usize)
        } else {
            None
        },
        None => None,
    }
}

/// The shortest decimal notation of `v`: no sign, no leading zeros.
pub open spec fn decimal(v: nat) -> Seq<char>
    decreases v,
{
    if v < 10 {
        seq![digit_char(v)]
    } else {
        decimal(v / 10).push(digit_char(v % 10))
    }
}

/// A longer digit string never has a smaller value than its prefix.
pub proof fn lemma_digits_value_prefix(s: Seq<char>, k: int)
    requires
        0 <= k <= s.len(),
    ensures
        digits_value(s.take(k)) <= digits_value(s),
    decreases s.len(),
{
    if k == s.len() {
        assert(s.take(k) =~= s);
    } else {
        lemma_digits_value_prefix(s.drop_last(), k);
        assert(s.drop_last().take(k) =~= s.take(k));
    }
}

/// The notation of a number consists of digits only, is not empty, and reads
/// back as the number.
pub proof fn lemma_decimal_digits(v: nat)
    ensures
        decimal(v).len() > 0,
        all_digits(decimal(v)),
        digits_value(decimal(v)) == v,
    decreases v,
{
    if v < 10 {
        let s = decimal(v);
        assert(s.drop_last() =~= Seq::<char>::empty());
        assert(digits_value(s.drop_last()) == 0);
    } else {
        lemma_decimal_digits(v / 10);
        let s = decimal(v);
        assert(s.drop_last() =~= decimal(v / 10));
        assert(s.last() == digit_char(v % 10));
    }
}

/// Writing a number and reading it back gives the number.
pub proof fn lemma_parse_decimal_of_decimal(v: nat)
    ensures
        parse_decimal(decimal(v)) == Some(v),
{
    lemma_decimal_digits(v);
    let s = decimal(v);
    assert(is_digit(s[0]));
    assert(unsigned_part(s) == s);
}

/// Reads a token as a machine integer.
///
/// The token is an optional `+` followed by at least one decimal digit; it is
/// refused where anything else occurs in it or its value does not fit.
pub fn parse_token(s: &str) -> (r: Option<usize>)
    ensures
        r == parse_usize(s@),
{
    let mut acc: usize = 0;
    let mut any: bool = false;
    let mut signed: bool = false;
    let ghost mut seen: int = 0;
    for c in it: s.chars()
        invariant
            it.seq() == s@,
            signed ==> it.index() >= 1 && s@[0] == '+',
            !signed && it.index() >= 1 ==> s@[0] != '+',
            seen == it.index() - (if signed { 1int } else { 0int }),
            any == (seen > 0),
            all_digits(unsigned_part(s@).take(seen)),
            acc == digits_value(unsigned_part(s@).take(seen)),
    {
        let ghost d = unsigned_part(s@);
        if !any && !signed && c == '+' {
            signed = true;
        } else {
            proof {
                assert(d[seen] == c);
                assert(d.take(seen + 1).drop_last() =~= d.take(seen));
                assert(d.take(seen + 1).last() == c);
            }
            if !('0' <= c && c <= '9') {
                assert(!all_digits(d)) by {
                    assert(!is_digit(d[seen]));
                }
                return None;
            }
            let v: usize = (c as u32 - '0' as u32) as usize;
            assert(v == digit_value(c));
            if acc > (usize::MAX - v) / 10 {
                proof {
                    lemma_digits_value_prefix(d, seen + 1);
                }
                return None;
            }
            acc = acc * 10 + v;
            any = true;
            proof {
                seen = seen + 1;
                assert forall|i: int| 0 <= i < seen implies is_digit(#[trigger] d.take(seen)[i]) by {
                    if i < seen - 1 {
                        assert(d.take(seen)[i] == d.take(seen - 1)[i]);
                    }
                }
            }
        }
    }
    assert(unsigned_part(s@).take(seen) =~= unsigned_part(s@));
    if any {
        Some(acc)
    } else {
        None
    }
}

/// The character for a single digit.
fn digit(d: usize) -> (c: char)
    requires
        d < 10,
    ensures
        c == digit_char(d as nat),
{
    (d as u8 + '0' as u8) as char
}

/// Appends the decimal notation of `v` to `s`.
pub fn push_decimal(s: &mut String, v: usize)
    ensures
        final(s)@ == old(s)@ + decimal(v as nat),
    decreases v,
{
    if v >= 10 {
        push_decimal(s, v / 10);
    }
    s.push(digit(v % 10));
}

/// The decimal notation of `v` as a string.
pub fn decimal_string(v: usize) -> (s: String)
    ensures
        s@ == decimal(v as nat),
{
    let mut s = String::new();
    push_decimal(&mut s, v);
    s
}

} // verus!
