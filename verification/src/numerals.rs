//! Parsing of decimal numerals, used for the operands of `LOAD_VAL` and
//! `LOOP`.
//!
//! A numeral is an optional sign followed by one or more ASCII digits; its
//! value must fit the target type.  [`parse_i32`] accepts `+` or `-`,
//! [`parse_u32`] accepts only `+`, mirroring how the host language reads
//! signed and unsigned integers.

use vstd::prelude::*;

verus! {

/// An ASCII decimal digit.
pub open spec fn is_digit_char(c: char) -> bool {
    48 <= c as u32 <= 57
}

/// The numeric value of one digit.
pub open spec fn digit_value(c: char) -> nat {
    (c as u32 - 48) as nat
}

/// Every character of `s` is a digit.
pub open spec fn all_digits(s: Seq<char>) -> bool {
    forall|i: int| 0 <= i < s.len() ==> is_digit_char(#[trigger] s[i])
}

/// The value of a digit string read most-significant first.
pub open spec fn digits_value(s: Seq<char>) -> nat
    decreases s.len(),
{
    if s.len() == 0 {
        0
    } else {
        digits_value(s.drop_last()) * 10 + digit_value(s.last())
    }
}

/// What `LOAD_VAL`'s operand means: an optional `+` or `-` sign, then one or
/// more digits, with the signed value in the range of `i32`.
pub open spec fn parse_i32_spec(s: Seq<char>) -> Option<i32> {
    let negative = s.len() > 0 && s[0] == '-';
    let body = if s.len() > 0 && (s[0] == '-' || s[0] == '+') {
        s.drop_first()
    } else {
        s
    };
    if body.len() > 0 && all_digits(body) {
        if negative {
            if digits_value(body) <= 0x8000_0000 {
                Some((0 - digits_value(body)) as i32)
            } else {
                None
            }
        } else {
            if digits_value(body) <= 0x7fff_ffff {
                Some(digits_value(body) as i32)
            } else {
                None
            }
        }
    } else {
        None
    }
}

/// What `LOOP`'s operand means: an optional `+` sign, then one or more
/// digits, with the value in the range of `u32`.
pub open spec fn parse_u32_spec(s: Seq<char>) -> Option<u32> {
    let body = if s.len() > 0 && s[0] == '+' {
        s.drop_first()
    } else {
        s
    };
    if body.len() > 0 && all_digits(body) && digits_value(body) <= 0xffff_ffff {
        Some(digits_value(body) as u32)
    } else {
        None
    }
}

/// Reads the digit string `s[start..]` and returns its value, or `None` if it
/// is empty, holds a non-digit, or exceeds `u32::MAX` (no numeral accepted by
/// the decoder is larger).
fn digits_value_from(s: &str, start: usize) -> (r: Option<u64>)
    requires
        start <= s@.len(),
    ensures
        r == (if s@.skip(start as int).len() > 0 && all_digits(s@.skip(start as int))
            && digits_value(s@.skip(start as int)) <= 0xffff_ffff {
            Some(digits_value(s@.skip(start as int)) as u64)
        } else {
            None::<u64>
        }),
{
    let n = s.unicode_len();
    if start >= n {
        assert(s@.skip(start as int).len() == 0);
        return None;
    }
    let mut i: usize = start;
    let mut acc: u64 = 0;
    let mut over: bool = false;
    while i < n
        invariant
            start <= i <= n,
            n == s@.len(),
            forall|j: int| start <= j < i ==> is_digit_char(#[trigger] s@[j]),
            !over ==> acc == digits_value(s@.subrange(start as int, i as int)) && acc
                <= 0xffff_ffff,
            over ==> digits_value(s@.subrange(start as int, i as int)) > 0xffff_ffff,
        decreases n - i,
    {
        let c = s.get_char(i);
        let code = c as u32;
        if code < 48 || code > 57 {
            assert(!all_digits(s@.skip(start as int))) by {
                assert(s@.skip(start as int)[i - start] == s@[i as int]);
            }
            return None;
        }
        proof {
            assert(s@.subrange(start as int, i + 1).drop_last() =~= s@.subrange(
                start as int,
                i as int,
            ));
            assert(s@.subrange(start as int, i + 1).last() == s@[i as int]);
        }
        let ghost prev = digits_value(s@.subrange(start as int, i as int));
        assert(digits_value(s@.subrange(start as int, i + 1)) == prev * 10 + digit_value(
            s@[i as int],
        ));
        if over {
            assert(prev * 10 + digit_value(s@[i as int]) > 0xffff_ffff);
        } else {
            acc = acc * 10 + (code - 48) as u64;
            if acc > 0xffff_ffff {
                over = true;
            }
        }
        i += 1;
    }
    proof {
        assert(s@.subrange(start as int, n as int) =~= s@.skip(start as int));
    }
    if over {
        None
    } else {
        Some(acc)
    }
}

/// Parses `s` as a signed 32-bit numeral.
///
/// Returns `Some(v)` exactly when `s` is an optional sign followed by one or
/// more digits whose signed value fits `i32`, and `None` otherwise.
pub fn parse_i32(s: &str) -> (r: Option<i32>)
    ensures
        r == parse_i32_spec(s@),
{
    let n = s.unicode_len();
    if n == 0 {
        return None;
    }
    let first = s.get_char(0);
    let (negative, start): (bool, usize) = if first == '-' {
        (true, 1)
    } else if first == '+' {
        (false, 1)
    } else {
        (false, 0)
    };
    proof {
        if start == 1 {
            assert(s@.skip(1) =~= s@.drop_first());
        } else {
            assert(s@.skip(0) =~= s@);
        }
    }
    match digits_value_from(s, start) {
        None => None,
        Some(v) => {
            if negative {
                if v <= 0x8000_0000 {
                    Some((0 - v as i64) as i32)
                } else {
                    None
                }
            } else {
                if v <= 0x7fff_ffff {
                    Some(v as i32)
                } else {
                    None
                }
            }
        },
    }
}

/// Parses `s` as an unsigned 32-bit numeral.
///
/// Returns `Some(v)` exactly when `s` is an optional `+` followed by one or
/// more digits whose value fits `u32`, and `None` otherwise.
pub fn parse_u32(s: &str) -> (r: Option<u32>)
    ensures
        r == parse_u32_spec(s@),
{
    let n = s.unicode_len();
    if n == 0 {
        return None;
    }
    let first = s.get_char(0);
    let start: usize = if first == '+' {
        1
    } else {
        0
    };
    proof {
        if start == 1 {
            assert(s@.skip(1) =~= s@.drop_first());
        } else {
            assert(s@.skip(0) =~= s@);
        }
    }
    match digits_value_from(s, start) {
        None => None,
        Some(v) => Some(v as u32),
    }
}

} // verus!
