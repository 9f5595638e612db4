//! Decimal integers as the protocol reads and writes them.

use crate::text::lemma_push_char;
use vstd::prelude::*;
use vstd::std_specs::iter::IteratorSpec;

verus! {

pub open spec fn is_digit(c: char) -> bool {
    0x30 <= c as u32 <= 0x39
}

pub open spec fn digit_value(c: char) -> nat {
    (c as u32 - 0x30) as nat
}

/// The character for a digit below ten.
pub open spec fn digit_char(d: nat) -> char {
    (0x30 + d) as char
}

pub open spec fn all_digits(s: Seq<char>) -> bool {
    forall|i: int| 0 <= i < s.len() ==> is_digit(#[trigger] s[i])
}

/// The number that a run of digits denotes in base ten.
pub open spec fn digits_value(s: Seq<char>) -> nat
    decreases s.len(),
{
    if s.len() == 0 {
        0
    } else {
        digits_value(s.drop_last()) * 10 + digit_value(s.last())
    }
}

/// The shortest run of digits that denotes `n`.
pub open spec fn decimal(n: nat) -> Seq<char>
    decreases n,
{
    if n < 10 {
        seq![digit_char(n)]
    } else {
        decimal(n / 10).push(digit_char(n % 10))
    }
}

/// An integer as the protocol writes it: a minus sign if it is negative,
/// then its magnitude in decimal.
pub open spec fn integer_text(i: int) -> Seq<char> {
    if i < 0 {
        seq!['-'] + decimal((-i) as nat)
    } else {
        decimal(i as nat)
    }
}

/// Whether `s` starts with a sign that the reader accepts.
pub open spec fn has_sign(s: Seq<char>, signed: bool) -> bool {
    s.len() > 0 && (s[0] == '+' || (signed && s[0] == '-'))
}

/// The magnitude of a number written as an optional sign and at least
/// one digit, with nothing before, between or after.
pub open spec fn magnitude(s: Seq<char>, signed: bool) -> Option<nat> {
    let digits = if has_sign(s, signed) {
        s.drop_first()
    } else {
        s
    };
    if digits.len() > 0 && all_digits(digits) {
        Some(digits_value(digits))
    } else {
        None
    }
}

/// The unsigned 64-bit number that `s` denotes: an optional `+`, then
/// digits, and a value that fits.
pub open spec fn parse_u64(s: Seq<char>) -> Option<u64> {
    match magnitude(s, false) {
        Some(m) => if m <= u64::MAX {
            Some(m as u64)
        } else {
            None
        },
        None => None,
    }
}

/// The signed 64-bit number that `s` denotes: an optional `+` or `-`,
/// then digits, and a value that fits.
pub open spec fn parse_i64(s: Seq<char>) -> Option<i64> {
    match magnitude(s, true) {
        Some(m) => if s[0] == '-' {
            if m <= 0x8000_0000_0000_0000 {
                Some((-m) as i64)
            } else {
                None
            }
        } else {
            if m <= i64::MAX {
                Some(m as i64)
            } else {
                None
            }
        },
        None => None,
    }
}

/// Longer runs of digits do not denote smaller numbers.
proof fn lemma_digits_value_grows(s: Seq<char>)
    requires
        s.len() > 0,
    ensures
        digits_value(s) >= digits_value(s.drop_last()),
{
}

/// The decimal form of a number is made of digits and denotes that number.
pub proof fn lemma_decimal_round_trip(n: nat)
    ensures
        decimal(n).len() > 0,
        all_digits(decimal(n)),
        digits_value(decimal(n)) == n,
    decreases n,
{
    if n < 10 {
        let s = decimal(n);
        assert(s.drop_last() =~= Seq::<char>::empty());
        assert(digits_value(s.drop_last()) == 0);
    } else {
        lemma_decimal_round_trip(n / 10);
        let s = decimal(n);
        assert(s.drop_last() =~= decimal(n / 10));
    }
}

/// Reading back what was written gives the number that was written.
pub proof fn lemma_integer_text_round_trip(i: int)
    ensures
        i64::MIN <= i <= i64::MAX ==> parse_i64(integer_text(i)) == Some(i as i64),
        0 <= i <= u64::MAX ==> parse_u64(integer_text(i)) == Some(i as u64),
{
    if i < 0 {
        let m = (-i) as nat;
        lemma_decimal_round_trip(m);
        let s = integer_text(i);
        assert(s[0] == '-');
        assert(s.drop_first() =~= decimal(m));
    } else {
        lemma_decimal_round_trip(i as nat);
        let s = integer_text(i);
        assert(is_digit(s[0]));
    }
}

/// The value of `text` as an unsigned or signed magnitude, or `None`
/// when it is not a number or its magnitude is beyond 64 bits.
fn read_magnitude(text: &str, signed: bool) -> (result: Option<(bool, u64)>)
    ensures
        match result {
            Some((negative, m)) => {
                &&& magnitude(text@, signed) == Some(m as nat)
                &&& negative == (text@[0] == '-')
            },
            None => match magnitude(text@, signed) {
                Some(m) => m > u64::MAX,
                None => true,
            },
        },
{
    let mut chars = text.chars();
    let first = match chars.next() {
        None => {
            return None;
        },
        Some(c) => c,
    };
    let negative = first == '-';
    let ghost digits = if has_sign(text@, signed) {
        text@.drop_first()
    } else {
        text@
    };
    let ghost mut at: int = 0;
    let mut value: u64 = 0;
    let mut valid = true;
    let mut too_large = false;
    let mut any = false;
    if first == '+' || (signed && negative) {
        assert(digits.take(0) =~= Seq::<char>::empty());
    } else {
        any = true;
        if 0x30 <= first as u32 && first as u32 <= 0x39 {
            value = (first as u32 - 0x30) as u64;
            assert(digits.take(1) =~= seq![first]);
            assert(digits.take(1).drop_last() =~= Seq::<char>::empty());
            assert(digits_value(digits.take(1).drop_last()) == 0);
        } else {
            assert(!is_digit(digits[0]));
            valid = false;
        }
        proof {
            at = 1;
        }
    }
    loop
        invariant
            0 <= at <= digits.len(),
            chars.remaining() == digits.skip(at),
            any == (at > 0),
            valid ==> all_digits(digits.take(at)),
            !valid ==> !all_digits(digits),
            valid && !too_large ==> value == digits_value(digits.take(at)),
            valid && too_large ==> digits_value(digits.take(at)) > u64::MAX,
        ensures
            at == digits.len(),
        decreases digits.len() - at,
    {
        match chars.next() {
            None => {
                break ;
            },
            Some(c) => {
                assert(c == digits[at]);
                assert(digits.skip(at).drop_first() =~= digits.skip(at + 1));
                assert(digits.take(at + 1).drop_last() =~= digits.take(at));
                any = true;
                if 0x30 <= c as u32 && c as u32 <= 0x39 {
                    if valid {
                        proof {
                            lemma_digits_value_grows(digits.take(at + 1));
                        }
                        let d: u64 = (c as u32 - 0x30) as u64;
                        if too_large || value > (u64::MAX - d) / 10 {
                            too_large = true;
                        } else {
                            value = value * 10 + d;
                        }
                    }
                } else {
                    assert(!is_digit(digits[at]));
                    valid = false;
                }
                proof {
                    at = at + 1;
                }
            },
        }
    }
    assert(digits.take(at) =~= digits);
    if any && valid && !too_large {
        Some((negative, value))
    } else {
        None
    }
}

/// Reads an unsigned 64-bit number.
pub fn read_u64(text: &str) -> (result: Option<u64>)
    ensures
        result == parse_u64(text@),
{
    match read_magnitude(text, false) {
        Some((_, m)) => Some(m),
        None => None,
    }
}

/// Reads a signed 64-bit number.
pub fn read_i64(text: &str) -> (result: Option<i64>)
    ensures
        result == parse_i64(text@),
{
    match read_magnitude(text, true) {
        Some((negative, m)) => {
            if negative {
                if m <= 0x7FFF_FFFF_FFFF_FFFF {
                    Some(-(m as i64))
                } else if m == 0x8000_0000_0000_0000 {
                    Some(i64::MIN)
                } else {
                    None
                }
            } else {
                if m <= 0x7FFF_FFFF_FFFF_FFFF {
                    Some(m as i64)
                } else {
                    None
                }
            }
        },
        None => None,
    }
}

/// Writes a natural number in decimal at the end of `out`.
pub fn write_decimal(out: &mut String, n: u128)
    ensures
        final(out)@ == old(out)@ + decimal(n as nat),
{
    let mut digits: Vec<char> = Vec::new();
    let mut rest: u128 = n;
    assert(decimal(n as nat) + digits@.reverse() =~= decimal(n as nat));
    while rest >= 10
        invariant
            decimal(n as nat) == decimal(rest as nat) + digits@.reverse(),
        decreases rest,
    {
        let c: char = (0x30u8 + (rest % 10) as u8) as char;
        proof {
            assert(c == digit_char((rest % 10) as nat));
            assert(digits@.push(c).reverse() =~= seq![c] + digits@.reverse());
            assert(decimal((rest / 10) as nat).push(c) + digits@.reverse() =~= decimal(
                (rest / 10) as nat,
            ) + (seq![c] + digits@.reverse()));
        }
        digits.push(c);
        rest = rest / 10;
    }
    let c: char = (0x30u8 + rest as u8) as char;
    proof {
        assert(c == digit_char(rest as nat));
        assert(digits@.push(c).reverse() =~= seq![c] + digits@.reverse());
    }
    digits.push(c);
    assert(decimal(n as nat) == digits@.reverse());
    let mut i: usize = digits.len();
    while i > 0
        invariant
            i <= digits@.len(),
            out@ == old(out)@ + digits@.reverse().take(digits@.len() - i),
        decreases i,
    {
        i -= 1;
        proof {
            let r = digits@.reverse();
            let k = digits@.len() - i - 1;
            assert(r[k] == digits@[i as int]);
            assert(r.take(k + 1) =~= r.take(k).push(r[k]));
            lemma_push_char(old(out)@, r.take(k), r[k]);
        }
        out.push(digits[i]);
    }
    assert(digits@.reverse().take(digits@.len() as int) =~= digits@.reverse());
}

/// Writes an integer at the end of `out`.
pub fn write_integer(out: &mut String, i: i128)
    ensures
        final(out)@ == old(out)@ + integer_text(i as int),
{
    if i < 0 {
        out.push('-');
        let m: u128 = ((-(i + 1)) as u128) + 1;
        write_decimal(out, m);
        assert(old(out)@.push('-') + decimal(m as nat) =~= old(out)@ + (seq!['-'] + decimal(
            m as nat,
        )));
    } else {
        write_decimal(out, i as u128);
    }
}

} // verus!
