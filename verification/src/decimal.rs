//! Decimal integers in text: an optional sign, then digits and nothing else.

use crate::text::to_chars;
use vstd::prelude::*;

verus! {

/// Whether `c` is one of `0` to `9`.
pub open spec fn is_digit(c: char) -> bool {
    '0' <= c && c <= '9'
}

/// The number that the digit `c` stands for.
pub open spec fn digit_value(c: char) -> nat {
    (c as int - '0' as int) as nat
}

/// Whether every character of `s` is a digit.
pub open spec fn all_digits(s: Seq<char>) -> bool {
    forall|i: int| 0 <= i < s.len() ==> is_digit(#[trigger] s[i])
}

/// The number that a run of digits denotes, the first digit weighing most.
pub open spec fn decimal_value(digits: Seq<char>) -> nat
    decreases digits.len(),
{
    if digits.len() == 0 {
        0
    } else {
        decimal_value(digits.drop_last()) * 10 + digit_value(digits.last())
    }
}

/// The integer that `s` denotes, where it denotes one between `lo` and `hi`.
///
/// `s` is a sign followed by at least one digit and nothing else. The sign
/// is empty or `+`, or, where `signed`, `-`. Leading zeros count for nothing.
pub open spec fn parse_decimal(s: Seq<char>, signed: bool, lo: int, hi: int) -> Option<int> {
    if s.len() == 0 {
        None
    } else {
        let negative = signed && s[0] == '-';
        let digits = if s[0] == '+' || negative {
            s.skip(1)
        } else {
            s
        };
        let value = if negative {
            -(decimal_value(digits) as int)
        } else {
            decimal_value(digits) as int
        };
        if digits.len() > 0 && all_digits(digits) && lo <= value <= hi {
            Some(value)
        } else {
            None
        }
    }
}

/// A longer run of digits denotes no smaller a number.
pub proof fn lemma_decimal_value_grows(digits: Seq<char>, more: Seq<char>)
    ensures
        decimal_value(digits) <= decimal_value(digits + more),
    decreases more.len(),
{
    if more.len() == 0 {
        assert(digits + more =~= digits);
    } else {
        lemma_decimal_value_grows(digits, more.drop_last());
        assert((digits + more).drop_last() =~= digits + more.drop_last());
    }
}

/// The largest magnitude that `parse_bounded` tells apart from "too large".
const MAGNITUDE_CAP: u64 = 0x1_0000_0000;

/// The value of the digits `chars[from..]`, `None` where that range is empty,
/// holds something other than a digit, or denotes more than `limit`.
fn parse_magnitude(chars: &Vec<char>, from: usize, limit: u64) -> (r: Option<u64>)
    requires
        from <= chars.len(),
        limit <= MAGNITUDE_CAP,
    ensures
        ({
            let digits = chars@.skip(from as int);
            let ok = digits.len() > 0 && all_digits(digits) && decimal_value(digits) <= limit;
            match r {
                Some(v) => ok && v == decimal_value(digits),
                None => !ok,
            }
        }),
{
    let n = chars.len();
    let ghost digits = chars@.skip(from as int);
    if from == n {
        return None;
    }
    let mut value: u64 = 0;
    let mut i: usize = from;
    while i < n
        invariant
            from <= i <= n,
            n == chars.len(),
            digits == chars@.skip(from as int),
            limit <= MAGNITUDE_CAP,
            all_digits(digits.take(i - from)),
            value == decimal_value(digits.take(i - from)),
            value <= limit,
        decreases n - i,
    {
        let c = chars[i];
        if !('0' <= c && c <= '9') {
            proof {
                assert(digits[i - from] == c);
            }
            return None;
        }
        let d: u64 = (c as u64) - ('0' as u64);
        let next: u64 = value * 10 + d;
        proof {
            let longer = digits.take(i - from + 1);
            assert(longer.drop_last() =~= digits.take(i - from));
            assert(longer.last() == c);
            assert(next == decimal_value(longer));
            assert forall|j: int| 0 <= j < longer.len() implies is_digit(#[trigger] longer[j]) by {
                if j < i - from {
                    assert(digits.take(i - from)[j] == longer[j]);
                }
            }
        }
        if next > limit {
            proof {
                let longer = digits.take(i - from + 1);
                lemma_decimal_value_grows(longer, digits.skip(i - from + 1));
                assert(longer + digits.skip(i - from + 1) =~= digits);
            }
            return None;
        }
        value = next;
        i += 1;
    }
    proof {
        assert(digits.take(n - from) =~= digits);
    }
    Some(value)
}

/// The integer that `s` denotes, where it denotes one between `lo` and `hi`.
fn parse_bounded(s: &str, signed: bool, lo: i64, hi: i64) -> (r: Option<i64>)
    requires
        -(MAGNITUDE_CAP as int) <= lo <= 0 <= hi <= MAGNITUDE_CAP as int,
    ensures
        match r {
            Some(v) => parse_decimal(s@, signed, lo as int, hi as int) == Some(v as int),
            None => parse_decimal(s@, signed, lo as int, hi as int) is None,
        },
{
    let chars = to_chars(s);
    if chars.len() == 0 {
        return None;
    }
    let first = chars[0];
    let negative = signed && first == '-';
    let from: usize = if first == '+' || negative {
        1
    } else {
        0
    };
    proof {
        assert(s@.skip(0) =~= s@);
    }
    if negative {
        match parse_magnitude(&chars, from, (-lo) as u64) {
            Some(m) => Some(-(m as i64)),
            None => None,
        }
    } else {
        match parse_magnitude(&chars, from, hi as u64) {
            Some(m) => Some(m as i64),
            None => None,
        }
    }
}

/// The `u8` that `s` denotes, if any.
pub fn parse_u8(s: &str) -> (r: Option<u8>)
    ensures
        match r {
            Some(v) => parse_decimal(s@, false, 0, 0xff) == Some(v as int),
            None => parse_decimal(s@, false, 0, 0xff) is None,
        },
{
    match parse_bounded(s, false, 0, 0xff) {
        Some(v) => Some(v as u8),
        None => None,
    }
}

/// The `u16` that `s` denotes, if any.
pub fn parse_u16(s: &str) -> (r: Option<u16>)
    ensures
        match r {
            Some(v) => parse_decimal(s@, false, 0, 0xffff) == Some(v as int),
            None => parse_decimal(s@, false, 0, 0xffff) is None,
        },
{
    match parse_bounded(s, false, 0, 0xffff) {
        Some(v) => Some(v as u16),
        None => None,
    }
}

/// The `u32` that `s` denotes, if any.
pub fn parse_u32(s: &str) -> (r: Option<u32>)
    ensures
        match r {
            Some(v) => parse_decimal(s@, false, 0, 0xffff_ffff) == Some(v as int),
            None => parse_decimal(s@, false, 0, 0xffff_ffff) is None,
        },
{
    match parse_bounded(s, false, 0, 0xffff_ffff) {
        Some(v) => Some(v as u32),
        None => None,
    }
}

/// The `i32` that `s` denotes, if any.
pub fn parse_i32(s: &str) -> (r: Option<i32>)
    ensures
        match r {
            Some(v) => parse_decimal(s@, true, -0x8000_0000, 0x7fff_ffff) == Some(v as int),
            None => parse_decimal(s@, true, -0x8000_0000, 0x7fff_ffff) is None,
        },
{
    match parse_bounded(s, true, -0x8000_0000, 0x7fff_ffff) {
        Some(v) => Some(v as i32),
        None => None,
    }
}

} // verus!
