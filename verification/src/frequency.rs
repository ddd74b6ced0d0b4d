//! Interval strings such as `15m`, `1h` or `30s`.

use crate::error::ConfigError;
use vstd::prelude::*;

verus! {

pub open spec fn is_digit(c: char) -> bool {
    '0' <= c && c <= '9'
}

pub open spec fn digit_value(c: char) -> nat {
    (c as u32 - 48) as nat
}

/// The number that a sequence of decimal digits writes.
pub open spec fn digits_value(s: Seq<char>) -> nat
    decreases s.len(),
{
    if s.len() == 0 {
        0
    } else {
        digits_value(s.drop_last()) * 10 + digit_value(s.last())
    }
}

pub open spec fn all_digits(s: Seq<char>) -> bool {
    forall|i: int| 0 <= i < s.len() ==> is_digit(#[trigger] s[i])
}

/// Seconds in one unit: `s`, `m` or `h`.
pub open spec fn unit_seconds(c: char) -> Option<nat> {
    if c == 's' {
        Some(1nat)
    } else if c == 'm' {
        Some(60nat)
    } else if c == 'h' {
        Some(3600nat)
    } else {
        None
    }
}

/// The duration in seconds that a frequency string denotes: one or more
/// decimal digits followed by one unit letter, strictly positive and within
/// 64 bits. `None` for every other string.
pub open spec fn frequency_seconds(s: Seq<char>) -> Option<nat> {
    if s.len() >= 2 && all_digits(s.drop_last()) && unit_seconds(s.last()) is Some {
        let n = digits_value(s.drop_last()) * unit_seconds(s.last()).unwrap();
        if 1 <= n <= u64::MAX {
            Some(n)
        } else {
            None
        }
    } else {
        None
    }
}

/// A prefix of a digit string never writes a larger number than the whole.
pub proof fn lemma_prefix_value_le(s: Seq<char>, i: int)
    requires
        0 <= i <= s.len(),
    ensures
        digits_value(s.subrange(0, i)) <= digits_value(s),
    decreases s.len(),
{
    if i == s.len() {
        assert(s.subrange(0, i) =~= s);
    } else {
        lemma_prefix_value_le(s.drop_last(), i);
        assert(s.drop_last().subrange(0, i) =~= s.subrange(0, i));
    }
}

/// Parses a frequency string into seconds.
pub fn parse_frequency(s: &str) -> (r: Result<u64, ConfigError>)
    ensures
        match frequency_seconds(s@) {
            Some(n) => r == Ok::<u64, ConfigError>(n as u64),
            None => r == Err::<u64, ConfigError>(ConfigError::InvalidFrequency),
        },
{
    let len: usize = s.unicode_len();
    if len < 2 {
        return Err(ConfigError::InvalidFrequency);
    }
    let unit = s.get_char(len - 1);
    let mult: u64 = if unit == 's' {
        1
    } else if unit == 'm' {
        60
    } else if unit == 'h' {
        3600
    } else {
        return Err(ConfigError::InvalidFrequency);
    };
    let ghost digits = s@.drop_last();
    let mut acc: u64 = 0;
    let mut i: usize = 0;
    while i < len - 1
        invariant
            len == s@.len(),
            len >= 2,
            i <= len - 1,
            digits == s@.drop_last(),
            unit_seconds(s@.last()) == Some(mult as nat),
            mult == 1 || mult == 60 || mult == 3600,
            all_digits(digits.subrange(0, i as int)),
            acc == digits_value(digits.subrange(0, i as int)),
        decreases len - 1 - i,
    {
        let c = s.get_char(i);
        if !(c >= '0' && c <= '9') {
            assert(digits[i as int] == c);
            return Err(ConfigError::InvalidFrequency);
        }
        let d: u64 = (c as u32 - 48) as u64;
        proof {
            assert(digits.subrange(0, i + 1).drop_last() =~= digits.subrange(0, i as int));
            assert(digits.subrange(0, i + 1).last() == c);
            assert(digits_value(digits.subrange(0, i + 1)) == acc * 10 + d);
        }
        if acc > (u64::MAX - d) / 10 {
            proof {
                lemma_prefix_value_le(digits, i + 1);
                assert(digits_value(digits) * mult > u64::MAX) by (nonlinear_arith)
                    requires
                        digits_value(digits) > u64::MAX,
                        mult >= 1,
                ;
            }
            return Err(ConfigError::InvalidFrequency);
        }
        acc = acc * 10 + d;
        i += 1;
    }
    proof {
        assert(digits.subrange(0, len - 1) =~= digits);
    }
    if acc == 0 {
        return Err(ConfigError::InvalidFrequency);
    }
    if acc > u64::MAX / mult {
        proof {
            assert(acc * mult > u64::MAX) by (nonlinear_arith)
                requires
                    acc > u64::MAX / mult,
                    mult == 1 || mult == 60 || mult == 3600,
            ;
        }
        return Err(ConfigError::InvalidFrequency);
    }
    proof {
        assert(1 <= acc * mult <= u64::MAX) by (nonlinear_arith)
            requires
                acc >= 1,
                acc <= u64::MAX / mult,
                mult == 1 || mult == 60 || mult == 3600,
        ;
    }
    Ok(acc * mult)
}

} // verus!
