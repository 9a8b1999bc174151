use vstd::prelude::*;
use crate::series::{max_of, min_of, rate_on, Observation, SeriesSet};
use crate::tenor::{Tenor, TENOR_COUNT};

verus! {

/// A period-weighted average kept as an exact fraction: the sum of
/// rate times weight over the sampled days, and the sum of the weights.
/// A weight of zero stands for the average zero.
#[derive(Clone, Copy, Debug, PartialEq, Eq, Structural)]
pub struct Average {
    pub weighted_sum: i128,
    pub weight_days: i64,
}

impl Average {
    /// The average, rounded down to a whole billionth of a percentage point.
    pub open spec fn spec_mean(self) -> int {
        if self.weight_days > 0 {
            self.weighted_sum as int / self.weight_days as int
        } else {
            0
        }
    }
}

/// Averages of the five tenors for every day from `start_day` to
/// `end_day`, and the day `mark_day` from which on the window is cut
/// short by the end of the data.
pub struct AveragedSeries {
    pub start_day: i32,
    pub end_day: i32,
    pub mark_day: i64,
    pub days: Vec<[Average; 5]>,
}

/// Weighted sum and total weight of the samples taken every `period`
/// days from `c` through `last`; a sample on day `c` weighs the period,
/// cut at `end`.
pub open spec fn window_total(obs: Seq<Observation>, c: int, last: int, period: int, end: int) -> (
    int,
    int,
)
    decreases
            (if c <= last {
                last + 1 - c
            } else {
                0
            }),
{
    if period < 1 || c > last {
        (0, 0)
    } else {
        let rest = window_total(obs, c + period, last, period, end);
        match rate_on(obs, c) {
            Some(r) => {
                let w = min_of(period, end - c + 1);
                (rest.0 + r * w, rest.1 + w)
            },
            None => rest,
        }
    }
}

/// The last day that the window opened on `day` reaches.
pub open spec fn window_last(day: int, end: int, window: int) -> int {
    day + min_of(window, end - day + 1) - 1
}

/// The average of one tenor on one day, as (weighted sum, weight).
pub open spec fn average_on(obs: Seq<Observation>, day: int, end: int, window: int, period: int) -> (
    int,
    int,
) {
    window_total(obs, day, window_last(day, end, window), period, end)
}

/// The day from which on the averaging window is cut short.
pub open spec fn spec_mark_day(end: int, window: int) -> int {
    end - window
}

/// What `calculate_average_rates` returns for a series set and a window.
pub open spec fn averaged_as_specified(set: SeriesSet, window: int, r: AveragedSeries) -> bool {
    let start = set.spec_start_day();
    let end = set.spec_end_day();
    &&& r.start_day == start
    &&& r.end_day == end
    &&& r.mark_day == spec_mark_day(end, window)
    &&& r.days@.len() == (if start <= end {
        end - start + 1
    } else {
        0
    })
    &&& forall|i: int, k: int|
        0 <= i < r.days@.len() && 0 <= k < 5 ==> {
            let cell = #[trigger] r.days@[i][k];
            let t = Tenor::spec_at(k);
            average_on(set.spec_series(t), start + i, end, window, t.spec_period_days())
                == (cell.weighted_sum as int, cell.weight_days as int)
        }
}

/// Dense lookup of a series over the days `start..=end`.
pub fn rate_table(obs: &Vec<Observation>, start: i32, end: i32) -> (table: Vec<Option<i64>>)
    requires
        start <= end,
        end - start < usize::MAX,
    ensures
        table@.len() == end - start + 1,
        forall|i: int| 0 <= i < table@.len() ==> #[trigger] table@[i] == rate_on(obs@, start + i),
{
    let n: usize = (end as i64 - start as i64 + 1) as usize;
    let mut table: Vec<Option<i64>> = Vec::new();
    let mut j: usize = 0;
    while j < n
        invariant
            n == end - start + 1,
            j <= n,
            table@.len() == j,
            forall|i: int| 0 <= i < j ==> #[trigger] table@[i] == rate_on(obs@.subrange(0, 0), start + i),
        decreases n - j,
    {
        table.push(None);
        j = j + 1;
    }
    let mut k: usize = 0;
    while k < obs.len()
        invariant
            n == end - start + 1,
            k <= obs@.len(),
            table@.len() == n,
            forall|i: int| 0 <= i < n ==> #[trigger] table@[i] == rate_on(obs@.subrange(0, k as int), start + i),
        decreases obs@.len() - k,
    {
        let o = obs[k];
        proof {
            let pre = obs@.subrange(0, k as int);
            let post = obs@.subrange(0, k as int + 1);
            assert(post.drop_last() =~= pre);
            assert(post.last() == o);
        }
        if start <= o.day && o.day <= end {
            let idx: usize = (o.day as i64 - start as i64) as usize;
            table.set(idx, Some(o.rate));
        }
        k = k + 1;
    }
    assert(obs@.subrange(0, obs@.len() as int) =~= obs@);
    table
}

proof fn lemma_weighted_step(sum: int, acc: int, r: int, w: int, m: int)
    requires
        -m * acc <= sum <= m * acc,
        -m <= r <= m,
        0 <= w,
    ensures
        -m * (acc + w) <= sum + r * w <= m * (acc + w),
{
    assert(-m * w <= r * w <= m * w) by (nonlinear_arith)
        requires
            -m <= r <= m,
            0 <= w,
    ;
    assert(m * (acc + w) == m * acc + m * w) by (nonlinear_arith);
    assert(-m * (acc + w) == -m * acc + -m * w) by (nonlinear_arith);
}

proof fn lemma_bound_fits(acc: int, m: int)
    requires
        0 <= acc <= 0x4_0000_0000,
        m == 0x8000_0000_0000_0000,
    ensures
        m * acc <= 0x7fff_ffff_ffff_ffff_ffff_ffff_ffff_ffff,
{
    assert(m * acc <= m * 0x4_0000_0000) by (nonlinear_arith)
        requires
            0 <= acc <= 0x4_0000_0000,
            m >= 0,
    ;
}

/// The average of one tenor on one day, read from its dense table.
fn average_at(
    table: &Vec<Option<i64>>,
    obs: Ghost<Seq<Observation>>,
    start: i32,
    end: i32,
    day: i64,
    window: i64,
    period: i64,
) -> (a: Average)
    requires
        start <= day <= end,
        1 <= period <= 360,
        table@.len() == end - start + 1,
        forall|i: int| 0 <= i < table@.len() ==> #[trigger] table@[i] == rate_on(obs@, start + i),
    ensures
        average_on(obs@, day as int, end as int, window as int, period as int) == (
            a.weighted_sum as int,
            a.weight_days as int,
        ),
{
    let remaining: i64 = end as i64 - day + 1;
    let span: i64 = if window < remaining { window } else { remaining };
    if span < 1 {
        return Average { weighted_sum: 0, weight_days: 0 };
    }
    let last: i64 = day + span - 1;
    let ghost m: int = 0x8000_0000_0000_0000;
    let mut sum: i128 = 0;
    let mut weight: i64 = 0;
    let mut c: i64 = day;
    while c <= last
        invariant
            start <= day <= c,
            day <= last <= end,
            c <= last + period,
            1 <= period <= 360,
            table@.len() == end - start + 1,
            forall|i: int| 0 <= i < table@.len() ==> #[trigger] table@[i] == rate_on(obs@, start + i),
            last == window_last(day as int, end as int, window as int),
            0 <= weight <= c - day,
            -m * weight <= sum <= m * weight,
            m == 0x8000_0000_0000_0000,
            window_total(obs@, day as int, last as int, period as int, end as int) == (
                sum + window_total(obs@, c as int, last as int, period as int, end as int).0,
                weight + window_total(obs@, c as int, last as int, period as int, end as int).1,
            ),
        decreases last + period - c,
    {
        let idx: usize = (c - start as i64) as usize;
        assert(table@[idx as int] == rate_on(obs@, c as int));
        match table[idx] {
            Some(r) => {
                let cut: i64 = end as i64 - c + 1;
                let w: i64 = if period < cut { period } else { cut };
                proof {
                    lemma_weighted_step(sum as int, weight as int, r as int, w as int, m);
                    lemma_bound_fits(weight + w, m);
                }
                sum = sum + (r as i128) * (w as i128);
                weight = weight + w;
            },
            None => {},
        }
        c = c + period;
    }
    Average { weighted_sum: sum, weight_days: weight }
}

/// Averages every tenor of `set` over every day of its span, with
/// windows of `window_days` days cut at the end of the data.
pub fn calculate_average_rates(set: &SeriesSet, window_days: i64) -> (r: AveragedSeries)
    requires
        set.well_formed(),
        set.spec_end_day() - set.spec_start_day() < usize::MAX,
        i64::MIN <= set.spec_end_day() - window_days <= i64::MAX,
    ensures
        averaged_as_specified(*set, window_days as int, r),
{
    let start = set.start_day();
    let end = set.end_day();
    let mark_day: i64 = end as i64 - window_days;
    let mut days: Vec<[Average; 5]> = Vec::new();
    if start <= end {
        let t0 = rate_table(&set.w1, start, end);
        let t1 = rate_table(&set.m1, start, end);
        let t2 = rate_table(&set.m3, start, end);
        let t3 = rate_table(&set.m6, start, end);
        let t4 = rate_table(&set.m12, start, end);
        let mut d: i64 = start as i64;
        while d <= end as i64
            invariant
                start <= d <= end as i64 + 1,
                start == set.spec_start_day(),
                end == set.spec_end_day(),
                days@.len() == d - start,
                t0@.len() == end - start + 1,
                t1@.len() == end - start + 1,
                t2@.len() == end - start + 1,
                t3@.len() == end - start + 1,
                t4@.len() == end - start + 1,
                forall|i: int| 0 <= i < t0@.len() ==> #[trigger] t0@[i] == rate_on(set.w1@, start + i),
                forall|i: int| 0 <= i < t1@.len() ==> #[trigger] t1@[i] == rate_on(set.m1@, start + i),
                forall|i: int| 0 <= i < t2@.len() ==> #[trigger] t2@[i] == rate_on(set.m3@, start + i),
                forall|i: int| 0 <= i < t3@.len() ==> #[trigger] t3@[i] == rate_on(set.m6@, start + i),
                forall|i: int| 0 <= i < t4@.len() ==> #[trigger] t4@[i] == rate_on(set.m12@, start + i),
                forall|i: int, k: int|
                    0 <= i < days@.len() && 0 <= k < 5 ==> {
                        let cell = #[trigger] days@[i][k];
                        let t = Tenor::spec_at(k);
                        average_on(set.spec_series(t), start + i, end as int, window_days as int, t.spec_period_days())
                            == (cell.weighted_sum as int, cell.weight_days as int)
                    },
            decreases end as i64 + 1 - d,
        {
            let row: [Average; 5] = [
                average_at(&t0, Ghost(set.w1@), start, end, d, window_days, Tenor::W1.period_days()),
                average_at(&t1, Ghost(set.m1@), start, end, d, window_days, Tenor::M1.period_days()),
                average_at(&t2, Ghost(set.m3@), start, end, d, window_days, Tenor::M3.period_days()),
                average_at(&t3, Ghost(set.m6@), start, end, d, window_days, Tenor::M6.period_days()),
                average_at(&t4, Ghost(set.m12@), start, end, d, window_days, Tenor::M12.period_days()),
            ];
            let ghost before = days@;
            days.push(row);
            proof {
                assert forall|i: int, k: int|
                    0 <= i < days@.len() && 0 <= k < 5 implies {
                        let cell = #[trigger] days@[i][k];
                        let t = Tenor::spec_at(k);
                        average_on(set.spec_series(t), start + i, end as int, window_days as int, t.spec_period_days())
                            == (cell.weighted_sum as int, cell.weight_days as int)
                    } by {
                    if i < before.len() {
                        assert(days@[i] == before[i]);
                    } else {
                        assert(days@[i] == row);
                    }
                }
            }
            d = d + 1;
        }
    }
    AveragedSeries { start_day: start, end_day: end, mark_day, days }
}

proof fn lemma_constant_window(obs: Seq<Observation>, c: int, last: int, period: int, end: int, rate: int)
    requires
        1 <= period,
        last <= end,
        forall|x: int| c <= x <= last ==> #[trigger] rate_on(obs, x) == Some(rate as i64),
        i64::MIN <= rate <= i64::MAX,
    ensures
        window_total(obs, c, last, period, end).0 == rate * window_total(obs, c, last, period, end).1,
        c <= last ==> window_total(obs, c, last, period, end).1 > 0,
    decreases
            (if c <= last {
                last + 1 - c
            } else {
                0
            }),
{
    if c <= last {
        lemma_constant_window(obs, c + period, last, period, end, rate);
        let rest = window_total(obs, c + period, last, period, end);
        let w = min_of(period, end - c + 1);
        assert(rate_on(obs, c) == Some(rate as i64));
        assert(rest.0 + rate * w == rate * (rest.1 + w)) by (nonlinear_arith)
            requires
                rest.0 == rate * rest.1,
        ;
        lemma_positive_weight(obs, c + period, last, period, end);
    }
}

proof fn lemma_positive_weight(obs: Seq<Observation>, c: int, last: int, period: int, end: int)
    requires
        1 <= period,
        last <= end,
    ensures
        window_total(obs, c, last, period, end).1 >= 0,
    decreases
            (if c <= last {
                last + 1 - c
            } else {
                0
            }),
{
    if c <= last {
        lemma_positive_weight(obs, c + period, last, period, end);
    }
}

proof fn lemma_empty_window(obs: Seq<Observation>, c: int, last: int, period: int, end: int)
    requires
        1 <= period,
        forall|j: int| 0 <= j && c + j * period <= last ==> #[trigger] rate_on(obs, c + j * period) is None,
    ensures
        window_total(obs, c, last, period, end) == (0int, 0int),
    decreases
            (if c <= last {
                last + 1 - c
            } else {
                0
            }),
{
    if c <= last {
        assert(rate_on(obs, c + 0 * period) is None);
        assert(c + 0 * period == c);
        assert forall|j: int| 0 <= j && (c + period) + j * period <= last implies #[trigger] rate_on(
            obs,
            (c + period) + j * period,
        ) is None by {
            assert((c + period) + j * period == c + (j + 1) * period) by (nonlinear_arith);
            assert(rate_on(obs, c + (j + 1) * period) is None);
        }
        lemma_empty_window(obs, c + period, last, period, end);
    }
}

/// There is one row of averages for each day from the first day of the
/// set through its last.
pub proof fn lemma_one_row_per_day(set: SeriesSet, window: int, r: AveragedSeries)
    requires
        set.well_formed(),
        set.spec_start_day() <= set.spec_end_day(),
        averaged_as_specified(set, window, r),
    ensures
        r.days@.len() == set.spec_end_day() - set.spec_start_day() + 1,
{
}

/// A tenor quoted at one constant rate on every day of the span averages
/// to exactly that rate on every day, whatever the (positive) window.
pub proof fn lemma_constant_rate(set: SeriesSet, window: int, r: AveragedSeries, t: Tenor, rate: i64, i: int)
    requires
        set.well_formed(),
        window >= 1,
        averaged_as_specified(set, window, r),
        forall|d: int|
            set.spec_start_day() <= d <= set.spec_end_day() ==> #[trigger] rate_on(set.spec_series(t), d)
                == Some(rate),
        0 <= i < r.days@.len(),
    ensures
        r.days@[i][t.spec_index()].weight_days > 0,
        r.days@[i][t.spec_index()].weighted_sum == rate * r.days@[i][t.spec_index()].weight_days,
        r.days@[i][t.spec_index()].spec_mean() == rate,
{
    let k = t.spec_index();
    assert(Tenor::spec_at(k) == t);
    let cell = r.days@[i][k];
    let start = set.spec_start_day();
    let end = set.spec_end_day();
    let day = start + i;
    let last = window_last(day, end, window);
    lemma_constant_window(set.spec_series(t), day, last, t.spec_period_days(), end, rate as int);
    let w = cell.weight_days as int;
    let s = cell.weighted_sum as int;
    assert(s == rate * w);
    assert(s / w == rate as int) by (nonlinear_arith)
        requires
            s == rate * w,
            w > 0,
    ;
}

/// A tenor with no quote on any day that the window of day `i` samples
/// averages to zero on that day.
pub proof fn lemma_no_sample_is_zero(set: SeriesSet, window: int, r: AveragedSeries, t: Tenor, i: int)
    requires
        set.well_formed(),
        averaged_as_specified(set, window, r),
        0 <= i < r.days@.len(),
        forall|j: int|
            0 <= j && set.spec_start_day() + i + j * t.spec_period_days() <= window_last(
                set.spec_start_day() + i,
                set.spec_end_day(),
                window,
            ) ==> #[trigger] rate_on(set.spec_series(t), set.spec_start_day() + i + j * t.spec_period_days())
                is None,
    ensures
        r.days@[i][t.spec_index()].weighted_sum == 0,
        r.days@[i][t.spec_index()].weight_days == 0,
        r.days@[i][t.spec_index()].spec_mean() == 0,
{
    let k = t.spec_index();
    assert(Tenor::spec_at(k) == t);
    let cell = r.days@[i][k];
    let start = set.spec_start_day();
    let end = set.spec_end_day();
    lemma_empty_window(
        set.spec_series(t),
        start + i,
        window_last(start + i, end, window),
        t.spec_period_days(),
        end,
    );
}

/// The mark lies `window` days before the last day of the set, whatever
/// the quotes.
pub proof fn lemma_mark_day(set: SeriesSet, window: int, r: AveragedSeries)
    requires
        set.well_formed(),
        averaged_as_specified(set, window, r),
    ensures
        r.mark_day == set.spec_end_day() - window,
{
}

} // verus!
