use vstd::prelude::*;

verus! {

/// Billionths of a percentage point in one percentage point.
pub const NANOS_PER_POINT: i128 = 1_000_000_000;

/// Largest integer part for which a rate still fits in an `i64`, plus one.
const INT_PART_CAP: i128 = 9_223_372_037;

pub open spec fn is_digit(c: char) -> bool {
    '0' <= c && c <= '9'
}

pub open spec fn digit_value(c: char) -> int {
    c as int - '0' as int
}

/// The number that a run of decimal digits spells.
pub open spec fn digits_value(s: Seq<char>) -> int
    decreases s.len(),
{
    if s.len() == 0 {
        0
    } else {
        digits_value(s.drop_last()) * 10 + digit_value(s.last())
    }
}

pub open spec fn pow10(k: nat) -> int
    decreases k,
{
    if k == 0 {
        1
    } else {
        10 * pow10((k - 1) as nat)
    }
}

/// End of the run of digits that starts at `i`.
pub open spec fn digit_run_end(s: Seq<char>, i: int) -> int
    decreases s.len() - i,
{
    if 0 <= i < s.len() && is_digit(s[i]) {
        digit_run_end(s, i + 1)
    } else {
        i
    }
}

pub open spec fn all_digits(s: Seq<char>) -> bool {
    forall|i: int| 0 <= i < s.len() ==> is_digit(#[trigger] s[i])
}

/// Length of the sign in front of a decimal: one for `+` or `-`.
pub open spec fn sign_len(s: Seq<char>) -> int {
    if s.len() > 0 && (s[0] == '-' || s[0] == '+') {
        1
    } else {
        0
    }
}

/// The integer digits of a decimal text.
pub open spec fn int_digits(s: Seq<char>) -> Seq<char> {
    s.subrange(sign_len(s), digit_run_end(s, sign_len(s)))
}

/// What follows the integer digits of a decimal text.
pub open spec fn after_int(s: Seq<char>) -> Seq<char> {
    s.subrange(digit_run_end(s, sign_len(s)), s.len() as int)
}

/// The fraction digits: what follows the decimal point, if there is one.
pub open spec fn frac_digits(s: Seq<char>) -> Seq<char> {
    if after_int(s).len() > 0 {
        after_int(s).subrange(1, after_int(s).len() as int)
    } else {
        Seq::empty()
    }
}

/// The text has the form `[+-]digits[.digits]`, with at least one digit
/// and at most nine after the point.
pub open spec fn decimal_shape(s: Seq<char>) -> bool {
    &&& (after_int(s).len() == 0 || after_int(s)[0] == '.')
    &&& all_digits(frac_digits(s))
    &&& int_digits(s).len() + frac_digits(s).len() >= 1
    &&& frac_digits(s).len() <= 9
}

/// The size of the number, in billionths.
pub open spec fn decimal_magnitude(s: Seq<char>) -> int {
    digits_value(int_digits(s)) * 1_000_000_000 + digits_value(frac_digits(s)) * pow10(
        (9 - frac_digits(s).len()) as nat,
    )
}

/// The value of a decimal text in billionths, where it has the decimal
/// shape and fits in an `i64`.
pub open spec fn decimal_of(s: Seq<char>) -> Option<i64> {
    if decimal_shape(s) && decimal_magnitude(s) <= i64::MAX {
        if s.len() > 0 && s[0] == '-' {
            Some((-decimal_magnitude(s)) as i64)
        } else {
            Some(decimal_magnitude(s) as i64)
        }
    } else {
        None
    }
}

pub(crate) proof fn lemma_digits_nonneg(s: Seq<char>)
    requires
        all_digits(s),
    ensures
        digits_value(s) >= 0,
    decreases s.len(),
{
    if s.len() > 0 {
        assert(all_digits(s.drop_last())) by {
            assert forall|i: int| 0 <= i < s.drop_last().len() implies is_digit(
                #[trigger] s.drop_last()[i],
            ) by {
                assert(s.drop_last()[i] == s[i]);
            }
        }
        assert(is_digit(s[s.len() - 1]));
        lemma_digits_nonneg(s.drop_last());
    }
}

proof fn lemma_run_end_bounds(s: Seq<char>, i: int)
    requires
        0 <= i <= s.len(),
    ensures
        i <= digit_run_end(s, i) <= s.len(),
        forall|j: int| i <= j < digit_run_end(s, i) ==> is_digit(#[trigger] s[j]),
        digit_run_end(s, i) < s.len() ==> !is_digit(s[digit_run_end(s, i)]),
    decreases s.len() - i,
{
    if i < s.len() && is_digit(s[i]) {
        lemma_run_end_bounds(s, i + 1);
    }
}

/// Reads the digits of `s` from `from` to `to`, capping the value at
/// `INT_PART_CAP`.
fn read_digits(s: &str, from: usize, to: usize) -> (r: i128)
    requires
        from <= to <= s@.len(),
        all_digits(s@.subrange(from as int, to as int)),
    ensures
        r == if digits_value(s@.subrange(from as int, to as int)) < INT_PART_CAP {
            digits_value(s@.subrange(from as int, to as int))
        } else {
            INT_PART_CAP as int
        },
{
    let mut acc: i128 = 0;
    let mut i: usize = from;
    while i < to
        invariant
            from <= i <= to <= s@.len(),
            all_digits(s@.subrange(from as int, to as int)),
            acc == if digits_value(s@.subrange(from as int, i as int)) < INT_PART_CAP {
                digits_value(s@.subrange(from as int, i as int))
            } else {
                INT_PART_CAP as int
            },
        decreases to - i,
    {
        let c = s.get_char(i);
        proof {
            let pre = s@.subrange(from as int, i as int);
            let post = s@.subrange(from as int, i as int + 1);
            assert(post.drop_last() =~= pre);
            assert(post.last() == c);
            assert(s@.subrange(from as int, to as int)[i - from] == c);
            assert(all_digits(pre)) by {
                assert forall|j: int| 0 <= j < pre.len() implies is_digit(#[trigger] pre[j]) by {
                    assert(pre[j] == s@.subrange(from as int, to as int)[j]);
                }
            }
            lemma_digits_nonneg(pre);
        }
        let d: i128 = (c as u32 - '0' as u32) as i128;
        let next: i128 = acc * 10 + d;
        acc = if next < INT_PART_CAP { next } else { INT_PART_CAP };
        i = i + 1;
    }
    acc
}

/// Parses a decimal rate text such as `3.125` or `-0.5` into billionths
/// of a percentage point.
pub fn parse_decimal(s: &str) -> (r: Option<i64>)
    ensures
        r == decimal_of(s@),
{
    let n = s.unicode_len();
    let sign: usize = if n > 0 && (s.get_char(0) == '-' || s.get_char(0) == '+') { 1 } else { 0 };
    let negative = n > 0 && s.get_char(0) == '-';
    let mut p: usize = sign;
    while p < n && '0' <= s.get_char(p) && s.get_char(p) <= '9'
        invariant
            sign <= p <= n,
            n == s@.len(),
            sign == sign_len(s@),
            digit_run_end(s@, sign as int) == digit_run_end(s@, p as int),
        decreases n - p,
    {
        p = p + 1;
    }
    proof {
        lemma_run_end_bounds(s@, sign as int);
        assert(p == digit_run_end(s@, sign as int));
    }
    let ghost int_part = int_digits(s@);
    let ghost rest = after_int(s@);
    assert(rest.len() == n - p);
    if p < n && s.get_char(p) != '.' {
        assert(rest[0] == s@[p as int]);
        return None;
    }
    let frac_start: usize = if p < n { p + 1 } else { n };
    proof {
        if p < n {
            assert(frac_digits(s@) =~= s@.subrange(frac_start as int, n as int));
        } else {
            assert(frac_digits(s@) =~= s@.subrange(frac_start as int, n as int));
        }
        assert(int_part =~= s@.subrange(sign as int, p as int));
        assert(all_digits(int_part));
    }
    let frac_len: usize = n - frac_start;
    if frac_len > 9 || (p - sign) + frac_len == 0 {
        return None;
    }
    let mut q: usize = frac_start;
    while q < n
        invariant
            frac_start <= q <= n,
            n == s@.len(),
            frac_digits(s@) =~= s@.subrange(frac_start as int, n as int),
            forall|j: int| frac_start <= j < q ==> is_digit(#[trigger] s@[j]),
        decreases n - q,
    {
        let c = s.get_char(q);
        if !('0' <= c && c <= '9') {
            assert(frac_digits(s@)[q - frac_start] == c);
            return None;
        }
        q = q + 1;
    }
    assert(all_digits(frac_digits(s@))) by {
        assert forall|j: int| 0 <= j < frac_digits(s@).len() implies is_digit(
            #[trigger] frac_digits(s@)[j],
        ) by {
            assert(frac_digits(s@)[j] == s@[frac_start + j]);
        }
    }
    assert(decimal_shape(s@));
    let int_val = read_digits(s, sign, p);
    let frac_val = read_digits(s, frac_start, n);
    proof {
        lemma_digits_nonneg(int_part);
        lemma_digits_nonneg(frac_digits(s@));
        lemma_frac_small(frac_digits(s@));
        lemma_pow10_mono(frac_len as nat, 9);
        lemma_pow10_9();
        assert(int_part =~= s@.subrange(sign as int, p as int));
    }
    assert(int_val >= 0);
    assert(frac_val == digits_value(frac_digits(s@)));
    let mut scaled: i128 = frac_val;
    let mut k: usize = frac_len;
    while k < 9
        invariant
            frac_len <= k <= 9,
            frac_len == frac_digits(s@).len(),
            0 <= frac_val < pow10(frac_len as nat),
            frac_val == digits_value(frac_digits(s@)),
            scaled == frac_val * pow10((k - frac_len) as nat),
            0 <= scaled < pow10(k as nat),
        decreases 9 - k,
    {
        proof {
            lemma_pow10_step((k - frac_len) as nat);
            lemma_pow10_step(k as nat);
            assert(scaled * 10 == frac_val * pow10((k + 1 - frac_len) as nat)) by (nonlinear_arith)
                requires
                    scaled == frac_val * pow10((k - frac_len) as nat),
                    pow10((k + 1 - frac_len) as nat) == 10 * pow10((k - frac_len) as nat),
            ;
            lemma_pow10_nine(k as nat);
        }
        scaled = scaled * 10;
        k = k + 1;
    }
    if int_val >= INT_PART_CAP {
        proof {
            assert(decimal_magnitude(s@) >= INT_PART_CAP * 1_000_000_000) by (nonlinear_arith)
                requires
                    digits_value(int_part) >= INT_PART_CAP,
                    decimal_magnitude(s@) == digits_value(int_part) * 1_000_000_000 + scaled,
                    scaled >= 0,
            ;
        }
        return None;
    }
    let magnitude: i128 = int_val * NANOS_PER_POINT + scaled;
    if magnitude > i64::MAX as i128 {
        return None;
    }
    if negative {
        Some((-magnitude) as i64)
    } else {
        Some(magnitude as i64)
    }
}

proof fn lemma_pow10_step(k: nat)
    ensures
        pow10(k + 1) == 10 * pow10(k),
{
}

proof fn lemma_pow10_nine(k: nat)
    requires
        k < 9,
    ensures
        pow10(k + 1) <= 1_000_000_000,
        pow10(k) >= 1,
{
    lemma_pow10_mono(k + 1, 9);
    lemma_pow10_mono(0, k);
    lemma_pow10_9();
}

proof fn lemma_pow10_9()
    ensures
        pow10(9) == 1_000_000_000,
{
    reveal_with_fuel(pow10, 10);
}

proof fn lemma_pow10_mono(k: nat, j: nat)
    requires
        k <= j,
    ensures
        1 <= pow10(k) <= pow10(j),
    decreases j,
{
    if j > k {
        lemma_pow10_mono(k, (j - 1) as nat);
    } else if k > 0 {
        lemma_pow10_mono((k - 1) as nat, (k - 1) as nat);
    }
}

proof fn lemma_frac_small(s: Seq<char>)
    requires
        all_digits(s),
    ensures
        digits_value(s) < pow10(s.len()),
    decreases s.len(),
{
    if s.len() > 0 {
        assert(all_digits(s.drop_last())) by {
            assert forall|i: int| 0 <= i < s.drop_last().len() implies is_digit(
                #[trigger] s.drop_last()[i],
            ) by {
                assert(s.drop_last()[i] == s[i]);
            }
        }
        assert(is_digit(s[s.len() - 1]));
        lemma_frac_small(s.drop_last());
        lemma_pow10_step((s.len() - 1) as nat);
    }
}

} // verus!
