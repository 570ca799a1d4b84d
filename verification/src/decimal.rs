//! Unsigned decimal text: what a run of digits is worth, how a number is
//! written, and arithmetic that reports overflow instead of wrapping.

use vstd::prelude::*;
use vstd::arithmetic::power::pow;

verus! {

/// `c` is one of the ten ASCII digits.
pub open spec fn is_digit(c: char) -> bool {
    '0' <= c && c <= '9'
}

/// Every character of `s` is an ASCII digit.
pub open spec fn all_digits(s: Seq<char>) -> bool {
    forall|i: int| 0 <= i < s.len() ==> is_digit(#[trigger] s[i])
}

/// The number that the digit `c` stands for.
pub open spec fn digit_value(c: char) -> nat {
    (c as u32 - '0' as u32) as nat
}

/// The digit that stands for `d`, for `d` below ten.
pub open spec fn digit_char(d: nat) -> char {
    (d + '0' as u32) as char
}

/// The number that a run of digits denotes, most significant digit first;
/// the empty run denotes zero.
pub open spec fn decimal_value(s: Seq<char>) -> nat
    decreases s.len(),
{
    if s.len() == 0 {
        0
    } else {
        decimal_value(s.drop_last()) * 10 + digit_value(s.last())
    }
}

/// The shortest decimal writing of `n`: no leading zero, and `0` for zero.
pub open spec fn decimal_text(n: nat) -> Seq<char>
    decreases n,
{
    if n < 10 {
        seq![digit_char(n)]
    } else {
        decimal_text(n / 10).push(digit_char(n % 10))
    }
}

/// What a text denotes as an unsigned decimal no greater than `max`: it must
/// be a non-empty run of digits; a sign, a blank or any other character, and
/// a value above `max`, leave it without meaning.
pub open spec fn parse_decimal(s: Seq<char>, max: nat) -> Option<nat> {
    if s.len() > 0 && all_digits(s) && decimal_value(s) <= max {
        Some(decimal_value(s))
    } else {
        None
    }
}

/// A longer run of digits is worth at least as much as any of its prefixes.
pub proof fn lemma_decimal_value_prefix(s: Seq<char>, k: int)
    requires
        0 <= k <= s.len(),
    ensures
        decimal_value(s.take(k)) <= decimal_value(s),
    decreases s.len(),
{
    if k == s.len() {
        assert(s.take(k) =~= s);
    } else {
        assert(s.drop_last().take(k) =~= s.take(k));
        lemma_decimal_value_prefix(s.drop_last(), k);
    }
}

/// Writing a number and reading the text back gives the number: the text is a
/// non-empty run of digits worth `n`.
pub proof fn lemma_decimal_text_round_trip(n: nat)
    ensures
        decimal_text(n).len() > 0,
        all_digits(decimal_text(n)),
        decimal_value(decimal_text(n)) == n,
    decreases n,
{
    if n < 10 {
        let s = decimal_text(n);
        assert(s.drop_last() =~= Seq::<char>::empty());
        assert(decimal_value(s.drop_last()) == 0);
    } else {
        lemma_decimal_text_round_trip(n / 10);
        let s = decimal_text(n);
        assert(s.drop_last() =~= decimal_text(n / 10));
        assert forall|i: int| 0 <= i < s.len() implies is_digit(#[trigger] s[i]) by {
            if i < s.len() - 1 {
                assert(s[i] == decimal_text(n / 10)[i]);
            }
        }
    }
}

/// Whether `c` is an ASCII digit.
pub fn is_ascii_digit(c: char) -> (r: bool)
    ensures
        r == is_digit(c),
{
    '0' <= c && c <= '9'
}

/// The value of the digit `c`.
fn digit_to_value(c: char) -> (r: u128)
    requires
        is_digit(c),
    ensures
        r == digit_value(c),
{
    (c as u32 - '0' as u32) as u128
}

/// The digit for `d`.
fn digit_from_value(d: u128) -> (r: char)
    requires
        d < 10,
    ensures
        r == digit_char(d as nat),
{
    if d == 0 {
        '0'
    } else if d == 1 {
        '1'
    } else if d == 2 {
        '2'
    } else if d == 3 {
        '3'
    } else if d == 4 {
        '4'
    } else if d == 5 {
        '5'
    } else if d == 6 {
        '6'
    } else if d == 7 {
        '7'
    } else if d == 8 {
        '8'
    } else {
        '9'
    }
}

/// Reads `text` as an unsigned decimal no greater than `max`.
pub fn parse_bounded(text: &str, max: u128) -> (r: Option<u128>)
    ensures
        r == match parse_decimal(text@, max as nat) {
            Some(v) => Some(v as u128),
            None => None,
        },
{
    let mut value: u128 = 0;
    let mut seen = false;
    let chars = text.chars();
    for c in iter: chars
        invariant
            iter.seq() == text@,
            iter.index() <= text@.len(),
            seen == (iter.index() > 0),
            all_digits(text@.take(iter.index() as int)),
            value == decimal_value(text@.take(iter.index() as int)),
            value <= max,
    {
        let ghost k = iter.index() as int;
        proof {
            assert(text@.take(k + 1).drop_last() =~= text@.take(k));
            assert(text@.take(k + 1).last() == c);
            lemma_decimal_value_prefix(text@, k + 1);
        }
        if !is_ascii_digit(c) {
            return None;
        }
        let d = digit_to_value(c);
        let next = match value.checked_mul(10) {
            Some(tens) => tens.checked_add(d),
            None => None,
        };
        match next {
            Some(v) => {
                if v > max {
                    return None;
                }
                value = v;
            },
            None => {
                return None;
            },
        }
        proof {
            assert forall|i: int| 0 <= i < k + 1 implies is_digit(#[trigger] text@.take(k + 1)[i]) by {
                if i < k {
                    assert(text@.take(k)[i] == text@.take(k + 1)[i]);
                }
            }
        }
        seen = true;
    }
    proof {
        assert(text@.take(text@.len() as int) =~= text@);
    }
    if seen {
        Some(value)
    } else {
        None
    }
}

/// Reads `text` as an unsigned 128-bit decimal.
pub fn parse_u128(text: &str) -> (r: Option<u128>)
    ensures
        r == match parse_decimal(text@, u128::MAX as nat) {
            Some(v) => Some(v as u128),
            None => None,
        },
{
    parse_bounded(text, u128::MAX)
}

/// Appends the decimal writing of `value` to `out`.
fn push_decimal(out: &mut String, value: u128)
    ensures
        final(out)@ == old(out)@ + decimal_text(value as nat),
    decreases value,
{
    if value >= 10 {
        push_decimal(out, value / 10);
    }
    out.push(digit_from_value(value % 10));
    proof {
        assert(final(out)@ =~= old(out)@ + decimal_text(value as nat));
    }
}

/// The decimal writing of `value`.
pub fn u128_to_string(value: u128) -> (r: String)
    ensures
        r@ == decimal_text(value as nat),
{
    let mut out = String::new();
    push_decimal(&mut out, value);
    proof {
        assert(out@ =~= decimal_text(value as nat));
    }
    out
}

/// `base` raised to `exponent`, or `None` where that does not fit in 128
/// bits. Zero raised to zero is one. However large the exponent, the work
/// is bounded: a base of two or more overflows within 128 multiplications.
pub fn checked_pow(base: u128, exponent: u128) -> (r: Option<u128>)
    ensures
        r == if pow(base as int, exponent as nat) <= u128::MAX {
            Some(pow(base as int, exponent as nat) as u128)
        } else {
            None
        },
{
    broadcast use vstd::arithmetic::power::lemma_pow0, vstd::arithmetic::power::lemma_pow1;
    if exponent == 0 {
        return Some(1);
    }
    if base <= 1 {
        proof {
            if base == 0 {
                vstd::arithmetic::power::lemma0_pow(exponent as nat);
            } else {
                vstd::arithmetic::power::lemma1_pow(exponent as nat);
            }
        }
        return Some(base);
    }
    let mut result: u128 = base;
    let mut done: u128 = 1;
    while done < exponent
        invariant
            2 <= base,
            1 <= done <= exponent,
            result == pow(base as int, done as nat),
        decreases exponent - done,
    {
        proof {
            let next = (done + 1) as nat;
            vstd::arithmetic::power::lemma_pow_adds(base as int, done as nat, 1);
            vstd::arithmetic::power::lemma_pow1(base as int);
            assert(pow(base as int, next) == pow(base as int, done as nat) * pow(base as int, 1));
            assert(pow(base as int, next) == result * base);
            vstd::arithmetic::power::lemma_pow_increases(base as nat, next, exponent as nat);
        }
        match result.checked_mul(base) {
            Some(v) => {
                result = v;
            },
            None => {
                return None;
            },
        }
        done = done + 1;
    }
    Some(result)
}

} // verus!
