//! ASCII-decimal numerals as they appear on the wire: an unsigned 64-bit
//! size written as bare digits, and a signed 64-bit integer written as
//! digits with an optional leading minus sign. No surrounding whitespace
//! and no leading plus sign are tolerated.

use vstd::prelude::*;
use vstd::slice::slice_index_get;
use vstd::slice::slice_subrange;

verus! {

/// Whether `b` is the ASCII code of a decimal digit (`'0'` to `'9'`).
pub open spec fn is_ascii_digit(b: u8) -> bool {
    48 <= b && b <= 57
}

/// The numeric value of the digit `b`; zero for a byte that is no digit.
pub open spec fn digit_value(b: u8) -> nat {
    if is_ascii_digit(b) {
        (b - 48) as nat
    } else {
        0
    }
}

/// Whether every byte of `s` is a decimal digit.
pub open spec fn all_digits(s: Seq<u8>) -> bool {
    forall|i: int| 0 <= i < s.len() ==> is_ascii_digit(s[i])
}

/// The value of the digit string `s`, read most significant digit first;
/// the empty string denotes zero.
pub open spec fn digits_value(s: Seq<u8>) -> nat
    decreases s.len(),
{
    if s.len() == 0 {
        0
    } else {
        digits_value(s.drop_last()) * 10 + digit_value(s.last())
    }
}

/// The `u64` denoted by `s` as an unsigned decimal numeral: at least one
/// byte, digits only, and a value that fits in a `u64`; `None` otherwise.
pub open spec fn u64_of_decimal(s: Seq<u8>) -> Option<u64> {
    if s.len() > 0 && all_digits(s) && digits_value(s) <= u64::MAX {
        Some(digits_value(s) as u64)
    } else {
        None
    }
}

/// The `i64` denoted by `s` as a signed decimal numeral: an optional
/// leading minus sign (ASCII 45), then at least one digit, with a value
/// that fits in an `i64`; `None` otherwise.
pub open spec fn i64_of_decimal(s: Seq<u8>) -> Option<i64> {
    if s.len() > 0 && s[0] == 45 {
        let mag = s.subrange(1, s.len() as int);
        if mag.len() > 0 && all_digits(mag) && digits_value(mag) <= 0x8000000000000000 {
            Some((0 - digits_value(mag)) as i64)
        } else {
            None
        }
    } else if s.len() > 0 && all_digits(s) && digits_value(s) <= i64::MAX {
        Some(digits_value(s) as i64)
    } else {
        None
    }
}

/// Extending a digit string by one byte multiplies its value by ten and
/// adds the new digit.
proof fn lemma_digits_value_step(s: Seq<u8>, i: int)
    requires
        0 <= i < s.len(),
    ensures
        digits_value(s.subrange(0, i + 1)) == digits_value(s.subrange(0, i)) * 10 + digit_value(
            s[i],
        ),
{
    assert(s.subrange(0, i + 1).drop_last() =~= s.subrange(0, i));
    assert(s.subrange(0, i + 1).last() == s[i]);
}

/// The value of a digit string is at least the value of any of its prefixes.
proof fn lemma_digits_value_prefix(s: Seq<u8>, i: int)
    requires
        0 <= i <= s.len(),
    ensures
        digits_value(s.subrange(0, i)) <= digits_value(s),
    decreases s.len() - i,
{
    if i == s.len() {
        assert(s.subrange(0, i) =~= s);
    } else {
        lemma_digits_value_step(s, i);
        lemma_digits_value_prefix(s, i + 1);
    }
}

/// Parses `s` as an unsigned decimal numeral: digits only, no sign, no
/// surrounding whitespace, rejecting the empty string and values beyond
/// `u64::MAX`.
pub fn parse_u64(s: &[u8]) -> (r: Option<u64>)
    ensures
        r == u64_of_decimal(s@),
{
    if s.len() == 0 {
        return None;
    }
    let mut acc: u64 = 0;
    let mut i: usize = 0;
    while i < s.len()
        invariant
            0 < s@.len(),
            0 <= i <= s@.len(),
            forall|j: int| 0 <= j < i ==> is_ascii_digit(s@[j]),
            acc == digits_value(s@.subrange(0, i as int)),
        decreases s@.len() - i,
    {
        let b: u8 = *slice_index_get(s, i);
        if b < 48 || b > 57 {
            assert(!is_ascii_digit(s@[i as int]));
            return None;
        }
        let d: u64 = (b - 48) as u64;
        proof {
            lemma_digits_value_step(s@, i as int);
        }
        if acc > (u64::MAX - d) / 10 {
            proof {
                assert(acc * 10 + d > u64::MAX) by (nonlinear_arith)
                    requires
                        acc > (u64::MAX - d) / 10,
                        0 <= d <= 9,
                ;
                lemma_digits_value_prefix(s@, i + 1);
            }
            return None;
        }
        proof {
            assert(acc * 10 + d <= u64::MAX) by (nonlinear_arith)
                requires
                    acc <= (u64::MAX - d) / 10,
                    0 <= d <= 9,
            ;
        }
        acc = acc * 10 + d;
        i = i + 1;
    }
    proof {
        assert(s@.subrange(0, s@.len() as int) =~= s@);
    }
    Some(acc)
}

/// Parses `s` as a signed decimal numeral: an optional leading minus sign,
/// then digits, rejecting the empty string, a bare sign, and values outside
/// the `i64` range.
pub fn parse_i64(s: &[u8]) -> (r: Option<i64>)
    ensures
        r == i64_of_decimal(s@),
{
    if s.len() == 0 {
        return None;
    }
    if *slice_index_get(s, 0) == 45 {
        let mag = slice_subrange(s, 1, s.len());
        match parse_u64(mag) {
            None => None,
            Some(m) => {
                if m < 9223372036854775808 {
                    Some(-(m as i64))
                } else if m == 9223372036854775808 {
                    Some(i64::MIN)
                } else {
                    None
                }
            },
        }
    } else {
        match parse_u64(s) {
            None => None,
            Some(m) => if m <= 9223372036854775807 {
                Some(m as i64)
            } else {
                None
            },
        }
    }
}

} // verus!
