//! The operator tool's request/discovery timeout policy. The timeout may be
//! supplied as a human-readable duration string (such as `1m` or `2h 37min`)
//! or, as a fallback, as a bare integer number of seconds; with neither, a
//! fixed default of one minute applies. Timeouts are carried as whole
//! milliseconds.

use vstd::prelude::*;

use crate::text::{all_digits, is_digit};

verus! {

/// The default timeout when nothing usable was supplied: one minute.
pub const DEFAULT_TIMEOUT_MILLIS: u64 = 60000;

/// The most decimal digits a string may hold, in total, to be handed to the
/// duration parser (see `parse_human_duration` for why).
pub const MAX_DURATION_DIGITS: usize = 10;

/// How many decimal digit characters `s` holds, in total.
pub open spec fn digit_count(s: Seq<char>) -> int
    decreases s.len(),
{
    if s.len() == 0 {
        0
    } else {
        digit_count(s.drop_last()) + if is_digit(s[s.len() - 1]) {
            1int
        } else {
            0
        }
    }
}

/// Count the decimal digit characters of `v`.
pub fn count_digits(v: &Vec<char>) -> (n: usize)
    ensures
        n == digit_count(v@),
{
    let mut n: usize = 0;
    let mut i: usize = 0;
    proof {
        assert(v@.subrange(0, 0) =~= Seq::<char>::empty());
    }
    while i < v.len()
        invariant
            i <= v@.len(),
            n <= i,
            n == digit_count(v@.subrange(0, i as int)),
        decreases v@.len() - i,
    {
        let c = v[i];
        proof {
            assert(v@.subrange(0, i + 1).drop_last() =~= v@.subrange(0, i as int));
            assert(v@.subrange(0, i + 1)[i as int] == v@[i as int]);
        }
        if '0' <= c && c <= '9' {
            n = n + 1;
        }
        i = i + 1;
    }
    proof {
        assert(v@.subrange(0, v@.len() as int) =~= v@);
    }
    n
}

/// What `humantime::parse_duration` yields on a given string, in whole
/// milliseconds: `None` where the parse fails or where the millisecond count
/// does not fit in a `u64`.
pub uninterp spec fn human_duration_millis(s: Seq<char>) -> Option<u64>;

/// Relies on `humantime::parse_duration`: parses a human-readable duration
/// string such as `1m` or `4.2s`. Its result depends on the characters of
/// the input alone; here it is converted to whole milliseconds, with `None`
/// for a failed parse or a millisecond count beyond `u64`.
///
/// The `requires` keeps the call away from the parser's one panic. Inside
/// `parse_duration` every multiplication, addition and division is checked
/// and turns overflow into an error; the one unchecked step is the final
/// carry in std's `Duration::new`, reached with a nanosecond total of
/// exactly one billion, which panics only when the accumulated seconds
/// are already exactly `u64::MAX`. With at most ten decimal digits in the
/// whole input, the parsed numbers sum to below `10^10`; the seconds they
/// can accumulate stay below `10^10` times the largest unit multiplier
/// (31_557_600, a year), plus one unit per fractional part and the
/// nanosecond carries — under `4 * 10^17` in all, far below `u64::MAX` —
/// so the carry cannot overflow and the call returns normally.
#[verifier::external_body]
fn parse_human_duration(s: &str) -> (r: Option<u64>)
    requires
        digit_count(s@) <= MAX_DURATION_DIGITS as int,
    ensures
        r == human_duration_millis(s@),
{
    match humantime::parse_duration(s) {
        Ok(d) => u64::try_from(d.as_millis()).ok(),
        Err(_) => None,
    }
}

/// The numeric value of a digit character.
pub open spec fn digit_value(c: char) -> int {
    c as int - '0' as int
}

/// The value of a sequence of decimal digit characters.
pub open spec fn digits_value(s: Seq<char>) -> int
    decreases s.len(),
{
    if s.len() == 0 {
        0
    } else {
        digits_value(s.drop_last()) * 10 + digit_value(s[s.len() - 1])
    }
}

/// Digit sequences have nonnegative values, and extending a digit sequence
/// never shrinks its value.
proof fn lemma_digits_value_nonneg(s: Seq<char>)
    requires
        all_digits(s),
    ensures
        digits_value(s) >= 0,
    decreases s.len(),
{
    if s.len() > 0 {
        assert(forall|i: int| 0 <= i < s.len() - 1 ==> s[i] == #[trigger] s.drop_last()[i]);
        lemma_digits_value_nonneg(s.drop_last());
    }
}

/// The value of a prefix of a digit sequence is at most the value of the
/// whole sequence.
proof fn lemma_digits_value_prefix(s: Seq<char>, k: int)
    requires
        all_digits(s),
        0 <= k <= s.len(),
    ensures
        digits_value(s.subrange(0, k)) <= digits_value(s),
    decreases s.len() - k,
{
    if k < s.len() {
        lemma_digits_value_prefix(s, k + 1);
        let p = s.subrange(0, k + 1);
        assert(p.drop_last() =~= s.subrange(0, k));
        assert(forall|i: int| 0 <= i < p.len() ==> p[i] == #[trigger] s[i]);
        lemma_digits_value_nonneg(s.subrange(0, k));
        assert(digits_value(s.subrange(0, k)) * 10 >= digits_value(s.subrange(0, k))) by {
            let d = digits_value(s.subrange(0, k));
            assert(d * 10 == d * 9 + d);
            assert(d * 9 >= 0) by (nonlinear_arith)
                requires
                    d >= 0,
            ;
        }
    } else {
        assert(s.subrange(0, k) =~= s);
    }
}

/// Parse a sequence of ASCII decimal digits as a `u64`. Yields `Some` exactly
/// on a nonempty all-digit sequence whose value fits in a `u64`.
pub fn parse_u64_digits(v: &Vec<char>) -> (r: Option<u64>)
    ensures
        match r {
            Some(n) => v@.len() > 0 && all_digits(v@) && n == digits_value(v@),
            None => v@.len() == 0 || !all_digits(v@) || digits_value(v@) > u64::MAX,
        },
{
    if v.len() == 0 {
        return None;
    }
    let mut acc: u64 = 0;
    let mut i: usize = 0;
    proof {
        assert(v@.subrange(0, 0) =~= Seq::<char>::empty());
    }
    while i < v.len()
        invariant
            i <= v@.len(),
            all_digits(v@.subrange(0, i as int)),
            acc == digits_value(v@.subrange(0, i as int)),
        decreases v@.len() - i,
    {
        let c = v[i];
        if !('0' <= c && c <= '9') {
            assert(!is_digit(v@[i as int]));
            return None;
        }
        let d: u64 = (c as u32 as u64) - 48;
        proof {
            assert(v@.subrange(0, i + 1).drop_last() =~= v@.subrange(0, i as int));
            assert(v@.subrange(0, i + 1)[i as int] == v@[i as int]);
            assert(forall|j: int|
                0 <= j < i + 1 ==> v@.subrange(0, i + 1)[j] == #[trigger] v@[j]);
        }
        if acc > (u64::MAX - d) / 10 {
            proof {
                assert(acc * 10 + d > u64::MAX) by (nonlinear_arith)
                    requires
                        acc > (u64::MAX - d) / 10,
                        0 <= d <= 9,
                        acc >= 0,
                ;
                assert(digits_value(v@.subrange(0, i + 1)) > u64::MAX);
                if all_digits(v@) {
                    lemma_digits_value_prefix(v@, i + 1);
                }
            }
            return None;
        }
        proof {
            assert(acc * 10 + d <= u64::MAX) by (nonlinear_arith)
                requires
                    acc <= (u64::MAX - d) / 10,
                    0 <= d <= 9,
                    acc >= 0,
            ;
        }
        acc = acc * 10 + d;
        i = i + 1;
    }
    proof {
        assert(v@.subrange(0, v@.len() as int) =~= v@);
    }
    Some(acc)
}

/// The timeout policy on an optionally supplied setting: a parsable duration
/// string wins, provided it holds no more than `MAX_DURATION_DIGITS` decimal
/// digits in total (longer ones are treated as unusable duration strings);
/// a bare all-digit string of any length counts as seconds (saturating at
/// the largest representable millisecond count); anything else, or no
/// setting at all, falls back to the one-minute default.
pub open spec fn spec_default_timeout_millis(v: Option<Seq<char>>) -> int {
    match v {
        None => DEFAULT_TIMEOUT_MILLIS as int,
        Some(s) => {
            let human = if digit_count(s) <= MAX_DURATION_DIGITS as int {
                human_duration_millis(s)
            } else {
                None
            };
            match human {
                Some(ms) => ms as int,
                None => if s.len() > 0 && all_digits(s) && digits_value(s) <= u64::MAX {
                    if digits_value(s) * 1000 <= u64::MAX {
                        digits_value(s) * 1000
                    } else {
                        u64::MAX as int
                    }
                } else {
                    DEFAULT_TIMEOUT_MILLIS as int
                },
            }
        },
    }
}

/// Determine the timeout, in milliseconds, from an optionally supplied
/// setting string.
pub fn default_timeout_millis(value: &Option<String>) -> (r: u64)
    ensures
        r == spec_default_timeout_millis(
            match value {
                Some(s) => Some(s@),
                None => None,
            },
        ),
{
    match value {
        None => DEFAULT_TIMEOUT_MILLIS,
        Some(s) => {
            let chars = crate::text::str_chars(s.as_str());
            let human = if count_digits(&chars) <= MAX_DURATION_DIGITS {
                parse_human_duration(s.as_str())
            } else {
                None
            };
            match human {
                Some(ms) => ms,
                None => {
                    match parse_u64_digits(&chars) {
                        Some(secs) => {
                            if secs > u64::MAX / 1000 {
                                proof {
                                    assert(secs * 1000 > u64::MAX) by (nonlinear_arith)
                                        requires
                                            secs > u64::MAX / 1000,
                                            secs >= 0,
                                    ;
                                }
                                u64::MAX
                            } else {
                                proof {
                                    assert(secs * 1000 <= u64::MAX) by (nonlinear_arith)
                                        requires
                                            secs <= u64::MAX / 1000,
                                            secs >= 0,
                                    ;
                                }
                                secs * 1000
                            }
                        },
                        None => DEFAULT_TIMEOUT_MILLIS,
                    }
                },
            }
        },
    }
}

} // verus!
