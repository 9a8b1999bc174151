use vstd::prelude::*;
use crate::averager::{Average, AveragedSeries};
use crate::series::{Observation, SeriesSet};
use crate::tenor::{Tenor, TENOR_COUNT};

verus! {

/// How a trace's line is drawn.
#[derive(Clone, Copy, Debug, PartialEq, Eq, Structural)]
pub enum LineDash {
    Solid,
    Dot,
    Dash,
}

/// The plot type of a trace.
#[derive(Clone, Copy, Debug, PartialEq, Eq, Structural)]
pub enum PlotKind {
    /// A line plot drawn through WebGL, for long series.
    ScatterGl,
    /// A plain line plot.
    Scatter,
}

/// The y values of a trace: averages, or rates in billionths of a
/// percentage point.
pub enum TraceValues {
    Averages(Vec<Average>),
    Rates(Vec<i64>),
}

/// One line of the chart.
pub struct Trace {
    pub x: Vec<String>,
    pub y: TraceValues,
    pub kind: PlotKind,
    pub name: String,
    pub color: String,
    pub width: u32,
    pub dash: LineDash,
    /// Whether the trace asks for its legend entry explicitly.
    pub show_legend: bool,
}

/// The `YYYY-MM-DD` text of a day number, where the day is in chrono's range.
pub uninterp spec fn iso_text_of(day: int) -> Option<Seq<char>>;

/// Relies on chrono's `NaiveDate::from_num_days_from_ce_opt` and on its
/// `format("%Y-%m-%d")`: the text of the day, or none outside the range
/// of dates.
#[verifier::external_body]
fn day_text(day: i64) -> (r: Option<String>)
    ensures
        match r {
            Some(t) => iso_text_of(day as int) == Some(t@),
            None => iso_text_of(day as int) is None,
        },
{
    let date = chrono::NaiveDate::from_num_days_from_ce_opt(i32::try_from(day).ok()?)?;
    Some(date.format("%Y-%m-%d").to_string())
}

/// Decimal digits of a natural number.
pub open spec fn nat_text(n: nat) -> Seq<char>
    decreases n,
{
    if n < 10 {
        seq![digit_char(n)]
    } else {
        nat_text(n / 10).push(digit_char(n % 10))
    }
}

pub open spec fn digit_char(d: nat) -> char {
    if d == 0 {
        '0'
    } else if d == 1 {
        '1'
    } else if d == 2 {
        '2'
    } else if d == 3 {
        '3'
    } else if d == 4 {
        '4'
    } else if d == 5 {
        '5'
    } else if d == 6 {
        '6'
    } else if d == 7 {
        '7'
    } else if d == 8 {
        '8'
    } else {
        '9'
    }
}

/// The decimal text of an integer, with a minus sign when it is negative.
pub open spec fn int_text(n: int) -> Seq<char> {
    if n < 0 {
        seq!['-'] + nat_text((-n) as nat)
    } else {
        nat_text(n as nat)
    }
}

/// Relies on `i64`'s `Display` (through `to_string`): its decimal text.
#[verifier::external_body]
fn decimal_text(n: i64) -> (r: String)
    ensures
        r@ == int_text(n as int),
{
    n.to_string()
}

/// Every day of `days` has a date text.
pub open spec fn all_dated(days: Seq<i64>) -> bool {
    forall|j: int| 0 <= j < days.len() ==> (#[trigger] iso_text_of(days[j] as int)) is Some
}

/// `x` holds the date texts of `days`, in order.
pub open spec fn texts_of(x: Seq<String>, days: Seq<i64>) -> bool {
    &&& x.len() == days.len()
    &&& forall|j: int| 0 <= j < days.len() ==> Some((#[trigger] x[j])@) == iso_text_of(days[j] as int)
}

/// The date texts of `days`, or none where one of them has no date.
pub fn day_texts(days: &Vec<i64>) -> (r: Option<Vec<String>>)
    ensures
        r is Some <==> all_dated(days@),
        r is Some ==> texts_of(r->Some_0@, days@),
{
    let mut out: Vec<String> = Vec::new();
    let mut j: usize = 0;
    while j < days.len()
        invariant
            j <= days@.len(),
            out@.len() == j,
            forall|i: int| 0 <= i < j ==> Some((#[trigger] out@[i])@) == iso_text_of(days@[i] as int),
        decreases days@.len() - j,
    {
        match day_text(days[j]) {
            Some(t) => {
                out.push(t);
            },
            None => {
                assert(!all_dated(days@)) by {
                    assert(iso_text_of(days@[j as int] as int) is None);
                }
                return None;
            },
        }
        j = j + 1;
    }
    assert(all_dated(days@)) by {
        assert forall|i: int| 0 <= i < days@.len() implies (#[trigger] iso_text_of(days@[i] as int)) is Some by {
            assert(Some(out@[i]@) == iso_text_of(days@[i] as int));
        }
    }
    Some(out)
}

/// The days `start`, `start + 1`, ... of a run of `count` days.
pub open spec fn day_run(start: int, count: nat) -> Seq<i64> {
    Seq::new(count, |j: int| (start + j) as i64)
}

fn run_of_days(start: i32, count: usize) -> (r: Vec<i64>)
    requires
        count <= u32::MAX,
    ensures
        r@ == day_run(start as int, count as nat),
{
    let mut r: Vec<i64> = Vec::new();
    let mut j: usize = 0;
    while j < count
        invariant
            j <= count,
            count <= u32::MAX,
            r@ == day_run(start as int, j as nat),
        decreases count - j,
    {
        r.push(start as i64 + j as i64);
        j = j + 1;
        assert(r@ =~= day_run(start as int, j as nat));
    }
    r
}

/// The days of a series.
pub open spec fn days_of(obs: Seq<Observation>) -> Seq<i64> {
    obs.map_values(|o: Observation| o.day as i64)
}

/// The rates of a series.
pub open spec fn rates_of(obs: Seq<Observation>) -> Seq<i64> {
    obs.map_values(|o: Observation| o.rate)
}

fn series_days(obs: &Vec<Observation>) -> (r: Vec<i64>)
    ensures
        r@ == days_of(obs@),
{
    let mut r: Vec<i64> = Vec::new();
    let mut j: usize = 0;
    while j < obs.len()
        invariant
            j <= obs@.len(),
            r@ == days_of(obs@.subrange(0, j as int)),
        decreases obs@.len() - j,
    {
        r.push(obs[j].day as i64);
        j = j + 1;
        assert(r@ =~= days_of(obs@.subrange(0, j as int)));
    }
    assert(obs@.subrange(0, obs@.len() as int) =~= obs@);
    r
}

fn series_rates(obs: &Vec<Observation>) -> (r: Vec<i64>)
    ensures
        r@ == rates_of(obs@),
{
    let mut r: Vec<i64> = Vec::new();
    let mut j: usize = 0;
    while j < obs.len()
        invariant
            j <= obs@.len(),
            r@ == rates_of(obs@.subrange(0, j as int)),
        decreases obs@.len() - j,
    {
        r.push(obs[j].rate);
        j = j + 1;
        assert(r@ =~= rates_of(obs@.subrange(0, j as int)));
    }
    assert(obs@.subrange(0, obs@.len() as int) =~= obs@);
    r
}

/// The averages of tenor position `k` on every day.
pub open spec fn column(days: Seq<[Average; 5]>, k: int) -> Seq<Average> {
    days.map_values(|row: [Average; 5]| row[k])
}

fn averages_column(days: &Vec<[Average; 5]>, k: usize) -> (r: Vec<Average>)
    requires
        k < TENOR_COUNT,
    ensures
        r@ == column(days@, k as int),
{
    let mut r: Vec<Average> = Vec::new();
    let mut j: usize = 0;
    while j < days.len()
        invariant
            j <= days@.len(),
            k < 5,
            r@ == column(days@.subrange(0, j as int), k as int),
        decreases days@.len() - j,
    {
        let row: &[Average; 5] = &days[j];
        r.push(row[k]);
        j = j + 1;
        assert(r@ =~= column(days@.subrange(0, j as int), k as int));
    }
    assert(days@.subrange(0, days@.len() as int) =~= days@);
    r
}

/// The largest rate of a non-empty series.
pub open spec fn seq_max_rate(obs: Seq<Observation>) -> int
    decreases obs.len(),
{
    if obs.len() <= 1 {
        obs[0].rate as int
    } else {
        let m = seq_max_rate(obs.drop_last());
        if obs.last().rate > m {
            obs.last().rate as int
        } else {
            m
        }
    }
}

/// The largest rate over the five series of a set.
pub open spec fn set_max_rate(set: SeriesSet) -> int {
    crate::series::max_of(
        crate::series::max_of(
            crate::series::max_of(seq_max_rate(set.w1@), seq_max_rate(set.m1@)),
            seq_max_rate(set.m3@),
        ),
        crate::series::max_of(seq_max_rate(set.m6@), seq_max_rate(set.m12@)),
    )
}

proof fn lemma_max_is_bound(obs: Seq<Observation>)
    requires
        obs.len() > 0,
    ensures
        forall|i: int| 0 <= i < obs.len() ==> #[trigger] obs[i].rate <= seq_max_rate(obs),
        exists|i: int| 0 <= i < obs.len() && #[trigger] obs[i].rate == seq_max_rate(obs),
    decreases obs.len(),
{
    if obs.len() > 1 {
        lemma_max_is_bound(obs.drop_last());
        assert forall|i: int| 0 <= i < obs.len() implies #[trigger] obs[i].rate <= seq_max_rate(obs) by {
            if i < obs.len() - 1 {
                assert(obs[i] == obs.drop_last()[i]);
            }
        }
        if obs.last().rate <= seq_max_rate(obs.drop_last()) {
            let i = choose|i: int| 0 <= i < obs.drop_last().len() && #[trigger] obs.drop_last()[i].rate
                == seq_max_rate(obs.drop_last());
            assert(obs[i] == obs.drop_last()[i]);
        } else {
            assert(obs[obs.len() - 1].rate == seq_max_rate(obs));
        }
    } else {
        assert(obs[0].rate == seq_max_rate(obs));
    }
}

/// The largest rate of a non-empty series.
pub fn max_rate(obs: &Vec<Observation>) -> (m: i64)
    requires
        obs@.len() > 0,
    ensures
        m == seq_max_rate(obs@),
{
    let mut m: i64 = obs[0].rate;
    let mut j: usize = 1;
    assert(obs@.subrange(0, 1).len() == 1);
    while j < obs.len()
        invariant
            1 <= j <= obs@.len(),
            m == seq_max_rate(obs@.subrange(0, j as int)),
        decreases obs@.len() - j,
    {
        proof {
            let post = obs@.subrange(0, j as int + 1);
            assert(post.drop_last() =~= obs@.subrange(0, j as int));
            assert(post.last() == obs@[j as int]);
        }
        if obs[j].rate > m {
            m = obs[j].rate;
        }
        j = j + 1;
    }
    assert(obs@.subrange(0, obs@.len() as int) =~= obs@);
    m
}

/// The name of a tenor's averaged line.
pub open spec fn average_name(t: Tenor, window: int) -> Seq<char> {
    t.spec_label() + " ("@ + int_text(window) + "d rlz avg)"@
}

/// The name of a tenor's line of daily quotes.
pub open spec fn daily_name(t: Tenor) -> Seq<char> {
    t.spec_label() + " (daily value)"@
}

/// The name of the line at the mark day.
pub open spec fn mark_name() -> Seq<char> {
    "Full forward data end point"@
}

/// The days that the chart writes as dates: every day of the averages,
/// every day of each series, and the mark day.
pub open spec fn chart_dated(set: SeriesSet, averaged: AveragedSeries) -> bool {
    &&& all_dated(day_run(averaged.start_day as int, averaged.days@.len()))
    &&& forall|t: Tenor| all_dated(#[trigger] days_of(set.spec_series(t)))
    &&& iso_text_of(averaged.mark_day as int) is Some
}

/// The averaged line of tenor `t`.
pub open spec fn is_average_trace(tr: Trace, t: Tenor, averaged: AveragedSeries, window: int) -> bool {
    &&& texts_of(tr.x@, day_run(averaged.start_day as int, averaged.days@.len()))
    &&& is_average_line(tr, t, averaged.days@, window)
}

/// The averaged line of tenor `t`, its dates aside.
pub open spec fn is_average_line(tr: Trace, t: Tenor, days: Seq<[Average; 5]>, window: int) -> bool {
    &&& tr.y matches TraceValues::Averages(v) && v@ == column(days, t.spec_index())
    &&& tr.kind == PlotKind::ScatterGl
    &&& tr.name@ == average_name(t, window)
    &&& tr.color@ == t.spec_color()
    &&& tr.width == 2
    &&& tr.dash == LineDash::Solid
    &&& !tr.show_legend
}

/// The line of daily quotes of tenor `t`.
pub open spec fn is_daily_trace(tr: Trace, t: Tenor, set: SeriesSet) -> bool {
    &&& texts_of(tr.x@, days_of(set.spec_series(t)))
    &&& is_daily_line(tr, t, set.spec_series(t))
}

/// The line of daily quotes `obs` of tenor `t`, its dates aside.
pub open spec fn is_daily_line(tr: Trace, t: Tenor, obs: Seq<Observation>) -> bool {
    &&& tr.y matches TraceValues::Rates(v) && v@ == rates_of(obs)
    &&& tr.kind == PlotKind::ScatterGl
    &&& tr.name@ == daily_name(t)
    &&& tr.color@ == t.spec_color()
    &&& tr.width == 1
    &&& tr.dash == LineDash::Dot
    &&& !tr.show_legend
}

/// The vertical line at the mark day, from zero to the largest rate.
pub open spec fn is_mark_trace(tr: Trace, set: SeriesSet, averaged: AveragedSeries) -> bool {
    &&& texts_of(tr.x@, seq![averaged.mark_day, averaged.mark_day])
    &&& is_mark_line(tr, set_max_rate(set))
}

/// The vertical line from zero to `top`, its dates aside.
pub open spec fn is_mark_line(tr: Trace, top: int) -> bool {
    &&& tr.y matches TraceValues::Rates(v) && v@ == seq![0i64, top as i64]
    &&& tr.kind == PlotKind::Scatter
    &&& tr.name@ == mark_name()
    &&& tr.color@ == "gray"@
    &&& tr.width == 1
    &&& tr.dash == LineDash::Dash
    &&& tr.show_legend
}

/// The chart: for each tenor in order its averaged line and its line of
/// daily quotes, then the line at the mark day.
pub open spec fn is_chart(traces: Seq<Trace>, set: SeriesSet, averaged: AveragedSeries, window: int) -> bool {
    &&& traces.len() == 2 * TENOR_COUNT + 1
    &&& forall|k: int|
        0 <= k < TENOR_COUNT ==> is_average_trace(#[trigger] traces[2 * k], Tenor::spec_at(k), averaged, window)
    &&& forall|k: int|
        0 <= k < TENOR_COUNT ==> is_daily_trace(#[trigger] traces[2 * k + 1], Tenor::spec_at(k), set)
    &&& is_mark_trace(traces[2 * TENOR_COUNT as int], set, averaged)
}

fn average_name_text(t: Tenor, window: i64) -> (r: String)
    ensures
        r@ == average_name(t, window as int),
{
    let mut name = String::from_str(t.label());
    name.append(" (");
    let digits = decimal_text(window);
    name.append(digits.as_str());
    name.append("d rlz avg)");
    name
}

fn daily_name_text(t: Tenor) -> (r: String)
    ensures
        r@ == daily_name(t),
{
    let mut name = String::from_str(t.label());
    name.append(" (daily value)");
    name
}

/// The largest rate over the five series of a set.
pub fn set_max(set: &SeriesSet) -> (m: i64)
    requires
        set.well_formed(),
    ensures
        m == set_max_rate(*set),
{
    let a = max_rate(&set.w1);
    let b = max_rate(&set.m1);
    let c = max_rate(&set.m3);
    let d = max_rate(&set.m6);
    let e = max_rate(&set.m12);
    let ab = if a >= b { a } else { b };
    let abc = if ab >= c { ab } else { c };
    let de = if d >= e { d } else { e };
    if abc >= de { abc } else { de }
}

/// The averaged line of tenor `t` over the dates `x`.
pub fn average_trace(t: Tenor, days: &Vec<[Average; 5]>, window_days: i64, x: Vec<String>) -> (tr: Trace)
    ensures
        tr.x@ == x@,
        is_average_line(tr, t, days@, window_days as int),
{
    Trace {
        x,
        y: TraceValues::Averages(averages_column(days, t.index())),
        kind: PlotKind::ScatterGl,
        name: average_name_text(t, window_days),
        color: String::from_str(t.color()),
        width: 2,
        dash: LineDash::Solid,
        show_legend: false,
    }
}

/// The line of the daily quotes `obs` of tenor `t` over the dates `x`.
pub fn daily_trace(t: Tenor, obs: &Vec<Observation>, x: Vec<String>) -> (tr: Trace)
    ensures
        tr.x@ == x@,
        is_daily_line(tr, t, obs@),
{
    Trace {
        x,
        y: TraceValues::Rates(series_rates(obs)),
        kind: PlotKind::ScatterGl,
        name: daily_name_text(t),
        color: String::from_str(t.color()),
        width: 1,
        dash: LineDash::Dot,
        show_legend: false,
    }
}

/// The vertical line from zero to `top` over the dates `x`.
pub fn mark_trace(top: i64, x: Vec<String>) -> (tr: Trace)
    ensures
        tr.x@ == x@,
        is_mark_line(tr, top as int),
{
    let y: Vec<i64> = vec![0, top];
    assert(y@ =~= seq![0i64, top]);
    Trace {
        x,
        y: TraceValues::Rates(y),
        kind: PlotKind::Scatter,
        name: String::from_str("Full forward data end point"),
        color: String::from_str("gray"),
        width: 1,
        dash: LineDash::Dash,
        show_legend: true,
    }
}

/// Builds the chart of a series set and its averages over `window_days`
/// days: none where a day to be written falls outside the range of dates.
pub fn create_chart_data(set: &SeriesSet, averaged: &AveragedSeries, window_days: i64) -> (r: Option<Vec<Trace>>)
    requires
        set.well_formed(),
        averaged.days@.len() <= u32::MAX,
    ensures
        r is Some <==> chart_dated(*set, *averaged),
        r is Some ==> is_chart(r->Some_0@, *set, *averaged, window_days as int),
{
    let run = run_of_days(averaged.start_day, averaged.days.len());
    let mut traces: Vec<Trace> = Vec::new();
    let mut k: usize = 0;
    while k < TENOR_COUNT
        invariant
            k <= TENOR_COUNT,
            set.well_formed(),
            run@ == day_run(averaged.start_day as int, averaged.days@.len()),
            k > 0 ==> all_dated(run@),
            traces@.len() == 2 * k,
            forall|i: int| 0 <= i < k ==> all_dated(#[trigger] days_of(set.spec_series(Tenor::spec_at(i)))),
            forall|i: int|
                0 <= i < k ==> is_average_trace(#[trigger] traces@[2 * i], Tenor::spec_at(i), *averaged, window_days as int),
            forall|i: int| 0 <= i < k ==> is_daily_trace(#[trigger] traces@[2 * i + 1], Tenor::spec_at(i), *set),
        decreases TENOR_COUNT - k,
    {
        let t = Tenor::at(k);
        let x_avg = match day_texts(&run) {
            Some(x) => x,
            None => {
                return None;
            },
        };
        let obs = set.series(t);
        let obs_days = series_days(obs);
        let x_daily = match day_texts(&obs_days) {
            Some(x) => x,
            None => {
                assert(!all_dated(days_of(set.spec_series(t))));
                return None;
            },
        };
        let avg = average_trace(t, &averaged.days, window_days, x_avg);
        let daily = daily_trace(t, obs, x_daily);
        let ghost before = traces@;
        traces.push(avg);
        traces.push(daily);
        proof {
            assert(traces@[2 * k as int] == avg);
            assert(traces@[2 * k as int + 1] == daily);
            assert forall|i: int| 0 <= i < k implies #[trigger] traces@[2 * i] == before[2 * i] && traces@[2 * i + 1]
                == before[2 * i + 1] by {}
        }
        k = k + 1;
    }
    let mark_days: Vec<i64> = vec![averaged.mark_day, averaged.mark_day];
    let x_mark = match day_texts(&mark_days) {
        Some(x) => x,
        None => {
            assert(iso_text_of(mark_days@[0] as int) is None);
            return None;
        },
    };
    assert(mark_days@ =~= seq![averaged.mark_day, averaged.mark_day]);
    let mark = mark_trace(set_max(set), x_mark);
    traces.push(mark);
    proof {
        assert forall|t: Tenor| all_dated(#[trigger] days_of(set.spec_series(t))) by {
            assert(Tenor::spec_at(t.spec_index()) == t);
        }
    }
    Some(traces)
}

} // verus!
