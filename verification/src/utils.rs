//! Parsing of time-interval strings such as `"5m"`, `"4h"` or `"1d"`:
//! a signed decimal count followed by a one-letter unit.

use vstd::prelude::*;

verus! {

use vstd::string::StrSliceExecFns;

/// The unit letter of an interval string.
#[derive(Clone, Copy, Debug, PartialEq, Eq, Structural)]
pub enum IntervalUnit {
    Minutes,
    Hours,
    Days,
}

/// Why an interval string was refused.
#[derive(Clone, Copy, Debug, PartialEq, Eq, Structural)]
pub enum IntervalError {
    /// The part before the unit letter is not an optionally signed,
    /// nonempty run of decimal digits.
    InvalidNumber,
    /// The count does not fit a signed 64-bit integer.
    NumberOutOfRange,
    /// The final character is not a recognised unit letter.
    InvalidUnit,
}

/// An ASCII decimal digit.
pub open spec fn is_digit_char(c: char) -> bool {
    48 <= c as u32 <= 57
}

/// The numeric value of one digit.
pub open spec fn digit_val(c: char) -> int {
    c as u32 - 48
}

/// Every character is a decimal digit.
pub open spec fn all_digits(s: Seq<char>) -> bool {
    forall|i: int| 0 <= i < s.len() ==> is_digit_char(#[trigger] s[i])
}

/// The value of a run of decimal digits, most significant first.
pub open spec fn digits_value(s: Seq<char>) -> int
    decreases s.len(),
{
    if s.len() == 0 {
        0
    } else {
        digits_value(s.drop_last()) * 10 + digit_val(s.last())
    }
}

/// The digit run of a numeric token, with any single leading sign removed.
pub open spec fn spec_number_digits(num: Seq<char>) -> Seq<char> {
    if num.len() > 0 && (num[0] == '+' || num[0] == '-') {
        num.subrange(1, num.len() as int)
    } else {
        num
    }
}

/// Whether a numeric token carries a leading minus sign.
pub open spec fn spec_number_negative(num: Seq<char>) -> bool {
    num.len() > 0 && num[0] == '-'
}

/// A numeric token: an optional sign followed by at least one digit.
pub open spec fn spec_number_wellformed(num: Seq<char>) -> bool {
    spec_number_digits(num).len() > 0 && all_digits(spec_number_digits(num))
}

/// The signed value of a well-formed numeric token.
pub open spec fn spec_number_value(num: Seq<char>) -> int {
    if spec_number_negative(num) {
        -digits_value(spec_number_digits(num))
    } else {
        digits_value(spec_number_digits(num))
    }
}

/// The unit a trailing letter denotes, if any.
pub open spec fn spec_unit_of(c: char) -> Option<IntervalUnit> {
    if c == 'm' {
        Some(IntervalUnit::Minutes)
    } else if c == 'h' {
        Some(IntervalUnit::Hours)
    } else if c == 'd' {
        Some(IntervalUnit::Days)
    } else {
        None
    }
}

/// A run of digits has a nonnegative value.
pub proof fn lemma_digits_value_nonneg(s: Seq<char>)
    requires
        all_digits(s),
    ensures
        digits_value(s) >= 0,
    decreases s.len(),
{
    if s.len() > 0 {
        assert(all_digits(s.drop_last()));
        lemma_digits_value_nonneg(s.drop_last());
    }
}

/// Extending a digit run can only grow its value.
pub proof fn lemma_digits_value_prefix_le(s: Seq<char>, k: int)
    requires
        all_digits(s),
        0 <= k <= s.len(),
    ensures
        digits_value(s.subrange(0, k)) <= digits_value(s),
    decreases s.len() - k,
{
    if k == s.len() {
        assert(s.subrange(0, k) =~= s);
    } else {
        let t: Seq<char> = s.subrange(0, k + 1);
        assert(t.drop_last() =~= s.subrange(0, k));
        assert(all_digits(s.subrange(0, k)));
        lemma_digits_value_nonneg(s.subrange(0, k));
        assert(digits_value(t) == digits_value(s.subrange(0, k)) * 10 + digit_val(s[k]));
        lemma_digits_value_prefix_le(s, k + 1);
    }
}

/// Parses an interval string: an optionally signed decimal count followed
/// by a unit letter (`m`, `h` or `d`).  The count is validated first, then
/// sized, then the unit letter is read, mirroring the reading order of the
/// string; nothing else is accepted.
#[verifier::loop_isolation(false)]
pub fn parse_interval(interval: &str) -> (res: Result<(i64, IntervalUnit), IntervalError>)
    requires
        interval@.len() >= 1,
    ensures
        ({
            let num = interval@.subrange(0, interval@.len() - 1);
            let unit = spec_unit_of(interval@[interval@.len() - 1]);
            match res {
                Ok(pair) => {
                    &&& spec_number_wellformed(num)
                    &&& i64::MIN <= spec_number_value(num) <= i64::MAX
                    &&& pair.0 == spec_number_value(num)
                    &&& unit == Some(pair.1)
                },
                Err(IntervalError::InvalidNumber) => !spec_number_wellformed(num),
                Err(IntervalError::NumberOutOfRange) => spec_number_wellformed(num)
                    && !(i64::MIN <= spec_number_value(num) <= i64::MAX),
                Err(IntervalError::InvalidUnit) => spec_number_wellformed(num)
                    && i64::MIN <= spec_number_value(num) <= i64::MAX && unit is None,
            }
        }),
{
    let n: usize = interval.unicode_len();
    let ghost num: Seq<char> = interval@.subrange(0, n as int - 1);
    let mut idx: usize = 0;
    let mut neg: bool = false;
    if n >= 2 {
        let c0: char = interval.get_char(0);
        if c0 == '+' {
            idx = 1;
        } else if c0 == '-' {
            neg = true;
            idx = 1;
        }
    }
    let ghost digits: Seq<char> = spec_number_digits(num);
    proof {
        assert(digits =~= interval@.subrange(idx as int, n as int - 1));
    }
    if n - 1 <= idx {
        return Err(IntervalError::InvalidNumber);
    }
    let mut i: usize = idx;
    while i < n - 1
        invariant
            n as int == interval@.len(),
            idx <= i <= n - 1,
            digits =~= interval@.subrange(idx as int, n as int - 1),
            forall|j: int| idx <= j < i ==> is_digit_char(#[trigger] interval@[j]),
        decreases n - 1 - i,
    {
        let c: char = interval.get_char(i);
        let v: u32 = c as u32;
        if v < 48 || v > 57 {
            proof {
                assert(digits[i - idx] == interval@[i as int]);
                assert(!is_digit_char(digits[i - idx]));
                assert(!all_digits(digits));
                assert(!spec_number_wellformed(num));
            }
            return Err(IntervalError::InvalidNumber);
        }
        i += 1;
    }
    proof {
        assert forall|j: int| 0 <= j < digits.len() implies is_digit_char(#[trigger] digits[j]) by {
            assert(digits[j] == interval@[j + idx]);
        }
        assert(spec_number_wellformed(num));
    }
    let lim: u64 = if neg {
        9_223_372_036_854_775_808
    } else {
        9_223_372_036_854_775_807
    };
    let mut mag: u64 = 0;
    let mut k: usize = idx;
    while k < n - 1
        invariant
            n as int == interval@.len(),
            idx <= k <= n - 1,
            digits =~= interval@.subrange(idx as int, n as int - 1),
            all_digits(digits),
            spec_number_wellformed(num),
            lim == if neg { 9_223_372_036_854_775_808u64 } else { 9_223_372_036_854_775_807u64 },
            mag as int == digits_value(interval@.subrange(idx as int, k as int)),
            mag <= lim,
        decreases n - 1 - k,
    {
        let c: char = interval.get_char(k);
        proof {
            assert(digits[k - idx] == interval@[k as int]);
            assert(is_digit_char(interval@[k as int]));
        }
        let d: u64 = (c as u32 - 48) as u64;
        let ghost pre: Seq<char> = interval@.subrange(idx as int, k as int);
        let ghost ext: Seq<char> = interval@.subrange(idx as int, k as int + 1);
        proof {
            assert(ext.drop_last() =~= pre);
            assert(ext.last() == interval@[k as int]);
            assert(digits_value(ext) == digits_value(pre) * 10 + digit_val(interval@[k as int]));
        }
        if mag > (lim - d) / 10 {
            proof {
                // the value grew past the limit already at this digit, and
                // appending the rest only grows it further
                assert(mag as int * 10 + d as int > lim as int) by {
                    vstd::arithmetic::div_mod::lemma_fundamental_div_mod(
                        lim as int - d as int,
                        10,
                    );
                    vstd::arithmetic::div_mod::lemma_mod_division_less_than_divisor(
                        lim as int - d as int,
                        10,
                    );
                };
                assert(ext =~= digits.subrange(0, k as int + 1 - idx as int));
                lemma_digits_value_prefix_le(digits, k as int + 1 - idx as int);
                assert(digits_value(digits) > lim as int);
                assert(spec_number_negative(num) == neg);
                assert(spec_number_value(num) == if neg {
                    -digits_value(digits)
                } else {
                    digits_value(digits)
                });
                assert(!(i64::MIN <= spec_number_value(num) <= i64::MAX));
            }
            return Err(IntervalError::NumberOutOfRange);
        }
        proof {
            assert(mag as int * 10 + d as int <= lim as int) by {
                vstd::arithmetic::div_mod::lemma_fundamental_div_mod(lim as int - d as int, 10);
                vstd::arithmetic::div_mod::lemma_mod_division_less_than_divisor(
                    lim as int - d as int,
                    10,
                );
            };
        }
        mag = mag * 10 + d;
        k += 1;
    }
    proof {
        assert(interval@.subrange(idx as int, n as int - 1) =~= digits);
        assert(mag as int == digits_value(digits));
    }
    let value: i64 = if neg {
        if mag == 9_223_372_036_854_775_808 {
            i64::MIN
        } else {
            -(mag as i64)
        }
    } else {
        mag as i64
    };
    let unit_char: char = interval.get_char(n - 1);
    let unit: IntervalUnit = if unit_char == 'm' {
        IntervalUnit::Minutes
    } else if unit_char == 'h' {
        IntervalUnit::Hours
    } else if unit_char == 'd' {
        IntervalUnit::Days
    } else {
        return Err(IntervalError::InvalidUnit);
    };
    Ok((value, unit))
}


} // verus!
