use euribor_chart::averager::{calculate_average_rates, Average};
use euribor_chart::loader::load_series;
use euribor_chart::series::{Observation, SeriesSet};

const DAY_2024_01_01: i32 = 738_886;
const ONE: i64 = 1_000_000_000;

fn daily(from: i32, to: i32, rate: i64) -> Vec<Observation> {
    (from..=to).map(|day| Observation { day, rate }).collect()
}

fn set_of(w1: Vec<Observation>, m1: Vec<Observation>, m3: Vec<Observation>, m6: Vec<Observation>, m12: Vec<Observation>) -> SeriesSet {
    SeriesSet { w1, m1, m3, m6, m12 }
}

fn mean(a: &Average) -> i128 {
    if a.weight_days > 0 {
        a.weighted_sum / a.weight_days as i128
    } else {
        0
    }
}

#[test]
fn one_row_per_day_of_the_span() {
    let set = set_of(
        daily(10, 12, ONE),
        daily(5, 5, ONE),
        daily(8, 20, ONE),
        daily(9, 9, ONE),
        daily(11, 14, ONE),
    );
    let r = calculate_average_rates(&set, 30);
    assert_eq!(r.start_day, 5);
    assert_eq!(r.end_day, 20);
    assert_eq!(r.days.len(), 16);
}

#[test]
fn constant_rate_averages_to_itself() {
    let rate = 3_250_000_000;
    for window in [1, 2, 7, 45, 360, 10_000] {
        let set = set_of(
            daily(100, 500, rate),
            daily(100, 500, rate),
            daily(100, 500, rate),
            daily(100, 500, rate),
            daily(100, 500, rate),
        );
        let r = calculate_average_rates(&set, window);
        assert_eq!(r.days.len(), 401);
        for row in &r.days {
            for cell in row {
                assert!(cell.weight_days > 0);
                assert_eq!(mean(cell), rate as i128);
            }
        }
    }
}

#[test]
fn no_sample_gives_zero() {
    // the 1w series is quoted on day 0 only; days 1..=6 sample days 1..=6,
    // 8..=13 and so on, which hold no quote
    let set = set_of(
        vec![Observation { day: 0, rate: 4 * ONE }],
        daily(0, 20, ONE),
        daily(0, 20, ONE),
        daily(0, 20, ONE),
        daily(0, 20, ONE),
    );
    let r = calculate_average_rates(&set, 10);
    assert_eq!(r.days[0][0], Average { weighted_sum: 4 * ONE as i128 * 7, weight_days: 7 });
    for i in 1..7 {
        assert_eq!(r.days[i][0], Average { weighted_sum: 0, weight_days: 0 });
        assert_eq!(mean(&r.days[i][0]), 0);
    }
}

#[test]
fn weights_are_cut_at_the_end() {
    // 1m tenor, window 100, data from day 0 to day 39
    let set = set_of(daily(0, 39, ONE), daily(0, 39, 2 * ONE), daily(0, 39, ONE), daily(0, 39, ONE), daily(0, 39, ONE));
    let r = calculate_average_rates(&set, 100);
    // day 0 samples days 0 and 30, weighted 30 and 10
    assert_eq!(r.days[0][1], Average { weighted_sum: 2 * ONE as i128 * 40, weight_days: 40 });
    // day 39 samples day 39 only, weighted 1
    assert_eq!(r.days[39][1], Average { weighted_sum: 2 * ONE as i128, weight_days: 1 });
}

#[test]
fn weighted_mean_of_two_rates() {
    // 1w tenor, window 14 on day 0: samples day 0 (rate 1) and day 7 (rate 3)
    let mut w1 = daily(0, 6, ONE);
    w1.extend(daily(7, 30, 3 * ONE));
    let set = set_of(w1, daily(0, 30, ONE), daily(0, 30, ONE), daily(0, 30, ONE), daily(0, 30, ONE));
    let r = calculate_average_rates(&set, 14);
    assert_eq!(r.days[0][0], Average { weighted_sum: (ONE as i128) * 7 + 3 * (ONE as i128) * 7, weight_days: 14 });
    assert_eq!(mean(&r.days[0][0]), 2 * ONE as i128);
}

#[test]
fn later_quote_of_a_day_wins() {
    let w1 = vec![Observation { day: 0, rate: ONE }, Observation { day: 0, rate: 5 * ONE }];
    let set = set_of(w1, daily(0, 0, ONE), daily(0, 0, ONE), daily(0, 0, ONE), daily(0, 0, ONE));
    let r = calculate_average_rates(&set, 1);
    assert_eq!(r.days[0][0], Average { weighted_sum: 5 * ONE as i128, weight_days: 1 });
}

#[test]
fn non_positive_window_gives_zeros() {
    let set = set_of(daily(0, 3, ONE), daily(0, 3, ONE), daily(0, 3, ONE), daily(0, 3, ONE), daily(0, 3, ONE));
    let r = calculate_average_rates(&set, 0);
    assert_eq!(r.mark_day, 3);
    for row in &r.days {
        for cell in row {
            assert_eq!(*cell, Average { weighted_sum: 0, weight_days: 0 });
        }
    }
}

#[test]
fn mark_day_is_end_minus_window() {
    let end = DAY_2024_01_01 + 181; // 2024-06-30
    let set = set_of(daily(end - 3, end, ONE), daily(end, end, ONE), daily(end - 1, end, 2 * ONE), daily(end, end, ONE), daily(end, end, ONE));
    let r = calculate_average_rates(&set, 360);
    assert_eq!(r.mark_day, end as i64 - 360);
    assert_eq!(r.mark_day, 738_707); // 2023-07-06
}

#[test]
fn five_files_three_rows_window_two() {
    let mut text = String::new();
    for i in 0..9 {
        text.push_str(&format!("header line {}\n", i));
    }
    text.push_str("2024-01-01,1.0\n2024-01-02,.\n2024-01-03,2.0\n");
    let load = || load_series(text.as_bytes()).unwrap();
    let set = set_of(load(), load(), load(), load(), load());
    let r = calculate_average_rates(&set, 2);
    assert_eq!(r.days.len(), 3);
    for k in 0..5 {
        assert_eq!(mean(&r.days[2][k]), 2 * ONE as i128);
        assert_eq!(r.days[2][k].weight_days, 1);
        // the first day samples only itself: rate 1.0 over the three days left
        assert_eq!(r.days[0][k], Average { weighted_sum: 3 * ONE as i128, weight_days: 3 });
        assert_eq!(r.days[1][k], Average { weighted_sum: 2 * ONE as i128, weight_days: 2 });
    }
}
