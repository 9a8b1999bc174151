use euribor_chart::averager::{calculate_average_rates, Average};
use euribor_chart::chart::{average_trace, create_chart_data, daily_trace, mark_trace, LineDash, PlotKind, TraceValues};
use euribor_chart::tenor::Tenor;
use euribor_chart::series::{Observation, SeriesSet};

const DAY_2024_01_01: i32 = 738_886;
const ONE: i64 = 1_000_000_000;

fn daily(from: i32, to: i32, rate: i64) -> Vec<Observation> {
    (from..=to).map(|day| Observation { day, rate }).collect()
}

#[test]
fn chart_lines_in_tenor_order() {
    let d = DAY_2024_01_01;
    let set = SeriesSet {
        w1: daily(d, d + 2, ONE),
        m1: daily(d, d + 1, 2 * ONE),
        m3: daily(d + 1, d + 2, 4 * ONE),
        m6: daily(d, d, ONE / 2),
        m12: daily(d + 2, d + 2, -ONE),
    };
    let averaged = calculate_average_rates(&set, 360);
    let traces = create_chart_data(&set, &averaged, 360).unwrap();
    assert_eq!(traces.len(), 11);
    assert_eq!(traces[0].name, "1w (360d rlz avg)");
    assert_eq!(traces[1].name, "1w (daily value)");
    assert_eq!(traces[8].name, "12m (360d rlz avg)");
    assert_eq!(traces[9].name, "12m (daily value)");
    assert_eq!(traces[0].x, vec!["2024-01-01", "2024-01-02", "2024-01-03"]);
    assert_eq!(traces[5].x, vec!["2024-01-02", "2024-01-03"]);
    assert_eq!(traces[2].color, "#ff7f0e");
    assert_eq!(traces[3].color, "#ff7f0e");
    assert_eq!((traces[0].width, traces[0].dash, traces[0].kind), (2, LineDash::Solid, PlotKind::ScatterGl));
    assert_eq!((traces[1].width, traces[1].dash, traces[1].kind), (1, LineDash::Dot, PlotKind::ScatterGl));
    match &traces[3].y {
        TraceValues::Rates(v) => assert_eq!(v, &vec![2 * ONE, 2 * ONE]),
        TraceValues::Averages(_) => panic!("daily line holds averages"),
    }
    match &traces[2].y {
        TraceValues::Averages(v) => assert_eq!(v, &vec![averaged.days[0][1], averaged.days[1][1], averaged.days[2][1]]),
        TraceValues::Rates(_) => panic!("averaged line holds rates"),
    }
    let mark = &traces[10];
    assert_eq!(mark.name, "Full forward data end point");
    assert_eq!(mark.x, vec!["2023-01-08", "2023-01-08"]);
    assert_eq!(mark.color, "gray");
    assert_eq!((mark.width, mark.dash, mark.kind, mark.show_legend), (1, LineDash::Dash, PlotKind::Scatter, true));
    match &mark.y {
        TraceValues::Rates(v) => assert_eq!(v, &vec![0, 4 * ONE]),
        TraceValues::Averages(_) => panic!("mark line holds averages"),
    }
}

#[test]
fn mark_date_for_mid_year_end() {
    let end = DAY_2024_01_01 + 181;
    let set = SeriesSet {
        w1: daily(end, end, ONE),
        m1: daily(end, end, ONE),
        m3: daily(end, end, ONE),
        m6: daily(end, end, ONE),
        m12: daily(end, end, ONE),
    };
    let averaged = calculate_average_rates(&set, 360);
    let traces = create_chart_data(&set, &averaged, 360).unwrap();
    assert_eq!(traces[0].x, vec!["2024-06-30"]);
    assert_eq!(traces[10].x, vec!["2023-07-06", "2023-07-06"]);
}

#[test]
fn window_in_line_names() {
    let set = SeriesSet {
        w1: daily(1000, 1001, ONE),
        m1: daily(1000, 1001, ONE),
        m3: daily(1000, 1001, ONE),
        m6: daily(1000, 1001, ONE),
        m12: daily(1000, 1001, ONE),
    };
    let averaged = calculate_average_rates(&set, -15);
    let traces = create_chart_data(&set, &averaged, -15).unwrap();
    assert_eq!(traces[4].name, "3m (-15d rlz avg)");
}

#[test]
fn mark_out_of_date_range_gives_none() {
    let set = SeriesSet {
        w1: daily(1, 1, ONE),
        m1: daily(1, 1, ONE),
        m3: daily(1, 1, ONE),
        m6: daily(1, 1, ONE),
        m12: daily(1, 1, ONE),
    };
    let averaged = calculate_average_rates(&set, 1_000_000_000);
    assert!(create_chart_data(&set, &averaged, 1_000_000_000).is_none());
}

#[test]
fn trace_builders_keep_given_dates() {
    let cell = |s: i128| Average { weighted_sum: s, weight_days: 1 };
    let days = vec![[cell(1), cell(2), cell(3), cell(4), cell(5)], [cell(6), cell(7), cell(8), cell(9), cell(10)]];
    let x = vec!["a".to_string(), "b".to_string()];
    let avg = average_trace(Tenor::M6, &days, 90, x.clone());
    assert_eq!(avg.x, x);
    assert_eq!(avg.name, "6m (90d rlz avg)");
    assert_eq!(avg.color, "#d62728");
    match &avg.y {
        TraceValues::Averages(v) => assert_eq!(v, &vec![cell(4), cell(9)]),
        TraceValues::Rates(_) => panic!("averaged line holds rates"),
    }
    let obs = vec![Observation { day: 3, rate: 17 }];
    let d = daily_trace(Tenor::W1, &obs, vec!["c".to_string()]);
    assert_eq!(d.name, "1w (daily value)");
    assert_eq!(d.x, vec!["c"]);
    let m = mark_trace(42, vec!["m".to_string(), "m".to_string()]);
    match &m.y {
        TraceValues::Rates(v) => assert_eq!(v, &vec![0, 42]),
        TraceValues::Averages(_) => panic!("mark line holds averages"),
    }
    assert!(m.show_legend);
}
