//! Reading an entry's identifier: a decimal integer of 64 bits.

use crate::text::to_chars;
use vstd::prelude::*;

verus! {

/// One of the ten decimal digits.
pub open spec fn is_digit(c: char) -> bool {
    0x30 <= c as u32 <= 0x39
}

/// What a decimal digit counts.
pub open spec fn digit_value(c: char) -> int {
    c as u32 - 0x30
}

/// Every character of `s` is a decimal digit.
pub open spec fn all_digits(s: Seq<char>) -> bool {
    forall|i: int| 0 <= i < s.len() ==> is_digit(#[trigger] s[i])
}

/// The number that a run of decimal digits writes.
pub open spec fn decimal(s: Seq<char>) -> int
    decreases s.len(),
{
    if s.len() == 0 {
        0
    } else {
        10 * decimal(s.drop_last()) + digit_value(s.last())
    }
}

/// The digits of a numeral: what is left once one leading sign is taken
/// off.
pub open spec fn numeral_digits(s: Seq<char>) -> Seq<char> {
    if s.len() > 0 && (s[0] == '-' || s[0] == '+') {
        s.skip(1)
    } else {
        s
    }
}

/// The integer that `s` writes: an optional sign, `+` or `-`, then one or
/// more decimal digits and nothing else.
pub open spec fn numeral(s: Seq<char>) -> Option<int> {
    let digits = numeral_digits(s);
    if digits.len() == 0 || !all_digits(digits) {
        None
    } else if s[0] == '-' {
        Some(-decimal(digits))
    } else {
        Some(decimal(digits))
    }
}

/// The integer that `s` writes, where 64 bits hold it.
pub open spec fn numeral_i64(s: Seq<char>) -> Option<i64> {
    match numeral(s) {
        Some(n) => if i64::MIN <= n <= i64::MAX {
            Some(n as i64)
        } else {
            None
        },
        None => None,
    }
}

/// Reads a decimal integer of 64 bits: an optional sign, then digits. Any
/// other character, a sign alone, the empty string and a number out of
/// range give nothing.
pub fn parse_i64(s: &str) -> (number: Option<i64>)
    ensures
        number == numeral_i64(s@),
{
    let chars = to_chars(s);
    let n = chars.len();
    if n == 0 {
        return None;
    }
    let negative = chars[0] == '-';
    let start: usize = if chars[0] == '-' || chars[0] == '+' {
        1
    } else {
        0
    };
    let ghost digits = numeral_digits(s@);
    assert(digits == chars@.skip(start as int));
    let mut magnitude: u128 = 0;
    let mut beyond: bool = false;
    let mut i: usize = start;
    while i < n
        invariant
            start <= i <= n,
            n == chars.len(),
            digits == chars@.skip(start as int),
            digits == numeral_digits(s@),
            all_digits(digits.take(i - start)),
            beyond ==> decimal(digits.take(i - start)) > 0x8000_0000_0000_0000,
            !beyond ==> magnitude == decimal(digits.take(i - start)),
            magnitude <= 0x8000_0000_0000_0000,
        decreases n - i,
    {
        let c = chars[i];
        let code: u32 = c as u32;
        assert(digits[i - start] == c);
        if code < 0x30 || code > 0x39 {
            assert(!is_digit(digits[i - start]));
            return None;
        }
        proof {
            let longer = digits.take(i - start + 1);
            assert(longer.drop_last() == digits.take(i - start));
            assert(longer.last() == chars@[i as int]);
            assert forall|k: int| 0 <= k < longer.len() implies is_digit(#[trigger] longer[k]) by {
                if k < i - start {
                    assert(is_digit(digits.take(i - start)[k]));
                }
            }
        }
        if !beyond {
            let next: u128 = magnitude * 10 + (code - 0x30) as u128;
            if next > 0x8000_0000_0000_0000 {
                beyond = true;
            } else {
                magnitude = next;
            }
        }
        i += 1;
    }
    assert(digits.take(digits.len() as int) == digits);
    if i == start || beyond {
        None
    } else if negative {
        if magnitude == 0x8000_0000_0000_0000 {
            Some(i64::MIN)
        } else {
            Some(-(magnitude as i64))
        }
    } else if magnitude > 0x7fff_ffff_ffff_ffff {
        None
    } else {
        Some(magnitude as i64)
    }
}

} // verus!
