use vstd::prelude::*;
use crate::rate::{all_digits, digit_run_end, digits_value, is_digit, sign_len};

verus! {

/// The averaging window, in days, when none is given.
pub const DEFAULT_WINDOW_DAYS: i64 = 360;

/// A value above every `i64` magnitude, where reading digits stops growing.
const MAGNITUDE_CAP: i128 = 9_223_372_036_854_775_809;

/// The integer that `s` spells as `[+-]digits`, where it fits in an `i64`.
pub open spec fn integer_of(s: Seq<char>) -> Option<i64> {
    let digits = s.subrange(sign_len(s), s.len() as int);
    let negative = s.len() > 0 && s[0] == '-';
    if digits.len() > 0 && all_digits(digits) {
        if negative && -digits_value(digits) >= i64::MIN {
            Some((-digits_value(digits)) as i64)
        } else if !negative && digits_value(digits) <= i64::MAX {
            Some(digits_value(digits) as i64)
        } else {
            None
        }
    } else {
        None
    }
}

/// The window that an optional argument asks for: its integer, or the
/// default where it is absent or no integer.
pub open spec fn window_of(arg: Option<Seq<char>>) -> i64 {
    match arg {
        Some(s) => match integer_of(s) {
            Some(n) => n,
            None => DEFAULT_WINDOW_DAYS,
        },
        None => DEFAULT_WINDOW_DAYS,
    }
}

/// Reads an integer such as `360` or `-7`.
pub fn parse_integer(s: &str) -> (r: Option<i64>)
    ensures
        r == integer_of(s@),
{
    let n = s.unicode_len();
    let negative = n > 0 && s.get_char(0) == '-';
    let start: usize = if n > 0 && (s.get_char(0) == '-' || s.get_char(0) == '+') { 1 } else { 0 };
    let ghost digits = s@.subrange(start as int, n as int);
    if start == n {
        return None;
    }
    let mut acc: i128 = 0;
    let mut i: usize = start;
    while i < n
        invariant
            start <= i <= n,
            n == s@.len(),
            start == sign_len(s@),
            digits == s@.subrange(start as int, n as int),
            0 <= acc,
            all_digits(s@.subrange(start as int, i as int)),
            acc == if digits_value(s@.subrange(start as int, i as int)) < MAGNITUDE_CAP {
                digits_value(s@.subrange(start as int, i as int))
            } else {
                MAGNITUDE_CAP as int
            },
        decreases n - i,
    {
        let c = s.get_char(i);
        if !('0' <= c && c <= '9') {
            assert(!all_digits(digits)) by {
                assert(digits[i - start] == c);
            }
            return None;
        }
        proof {
            let pre = s@.subrange(start as int, i as int);
            let post = s@.subrange(start as int, i as int + 1);
            assert(post.drop_last() =~= pre);
            assert(post.last() == c);
            crate::rate::lemma_digits_nonneg(pre);
            assert(all_digits(post)) by {
                assert forall|j: int| 0 <= j < post.len() implies is_digit(#[trigger] post[j]) by {
                    if j < pre.len() {
                        assert(post[j] == pre[j]);
                    }
                }
            }
        }
        let d: i128 = (c as u32 - '0' as u32) as i128;
        let next: i128 = acc * 10 + d;
        acc = if next < MAGNITUDE_CAP { next } else { MAGNITUDE_CAP };
        i = i + 1;
    }
    assert(s@.subrange(start as int, i as int) =~= digits);
    if negative {
        if acc <= 9_223_372_036_854_775_808 {
            Some((-acc) as i64)
        } else {
            None
        }
    } else {
        if acc <= i64::MAX as i128 {
            Some(acc as i64)
        } else {
            None
        }
    }
}

/// The averaging window for an optional argument: its integer, or 360
/// days where it is absent or no integer.
pub fn window_days_of(arg: Option<&str>) -> (w: i64)
    ensures
        w == window_of(
            match arg {
                Some(s) => Some(s@),
                None => None,
            },
        ),
{
    match arg {
        Some(s) => match parse_integer(s) {
            Some(n) => n,
            None => DEFAULT_WINDOW_DAYS,
        },
        None => DEFAULT_WINDOW_DAYS,
    }
}

} // verus!
