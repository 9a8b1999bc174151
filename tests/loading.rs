use euribor_chart::loader::{fill_forward, load_series, rows_from_records, LoadError, RawRow};
use euribor_chart::series::Observation;

const DAY_2024_01_01: i32 = 738_886;

fn file_with(rows: &[&str]) -> Vec<u8> {
    let mut text = String::new();
    for i in 0..9 {
        text.push_str(&format!("meta {},info\n", i));
    }
    for row in rows {
        text.push_str(row);
        text.push('\n');
    }
    text.into_bytes()
}

#[test]
fn loads_rows_past_preamble() {
    let bytes = file_with(&["2024-01-01,1.0", "2024-01-02,.", "2024-01-03,2.0"]);
    let series = load_series(&bytes).unwrap();
    assert_eq!(
        series,
        vec![
            Observation { day: DAY_2024_01_01, rate: 1_000_000_000 },
            Observation { day: DAY_2024_01_01 + 1, rate: 1_000_000_000 },
            Observation { day: DAY_2024_01_01 + 2, rate: 2_000_000_000 },
        ]
    );
}

#[test]
fn leading_missing_rate_is_skipped() {
    let bytes = file_with(&["2024-01-01,.", "2024-01-02,No value available", "2024-01-03,2.0", "2024-01-04,"]);
    let series = load_series(&bytes).unwrap();
    assert_eq!(
        series,
        vec![
            Observation { day: DAY_2024_01_01 + 2, rate: 2_000_000_000 },
            Observation { day: DAY_2024_01_01 + 3, rate: 2_000_000_000 },
        ]
    );
}

#[test]
fn short_rows_and_extra_columns() {
    let bytes = file_with(&["2024-01-01", "2024-01-02,3.5,extra,fields", "junk"]);
    let series = load_series(&bytes).unwrap();
    assert_eq!(series, vec![Observation { day: DAY_2024_01_01 + 1, rate: 3_500_000_000 }]);
}

#[test]
fn malformed_date_fails() {
    let bytes = file_with(&["2024-01-01,1.0", "2024-13-40,2.0", "2024-01-03,2.0"]);
    assert_eq!(load_series(&bytes), Err(LoadError::Parse { record: 10 }));
}

#[test]
fn preamble_is_not_read() {
    let bytes = file_with(&["2024-01-01,1.0"]);
    assert!(bytes.starts_with(b"meta 0,info"));
    assert_eq!(load_series(&bytes).unwrap().len(), 1);
}

#[test]
fn no_rate_is_empty() {
    let bytes = file_with(&["2024-01-01,.", "2024-01-02,"]);
    assert_eq!(load_series(&bytes), Err(LoadError::Empty));
    assert_eq!(load_series(b""), Err(LoadError::Empty));
}

#[test]
fn invalid_text_fails() {
    let mut bytes = file_with(&["2024-01-01,1.0"]);
    bytes.extend_from_slice(b"2024-01-02,\xff\xfe\n");
    assert_eq!(load_series(&bytes), Err(LoadError::Parse { record: 10 }));
}

#[test]
fn records_to_rows() {
    let mut records: Vec<Option<Vec<String>>> = (0..9).map(|_| Some(vec!["x".to_string()])).collect();
    records.push(Some(vec!["2024-01-02".to_string(), " 4.25 ".to_string()]));
    records.push(Some(vec!["2024-01-03".to_string(), "no value".to_string()]));
    let rows = rows_from_records(&records).unwrap();
    assert_eq!(
        rows,
        vec![
            RawRow { day: DAY_2024_01_01 + 1, rate: Some(4_250_000_000) },
            RawRow { day: DAY_2024_01_01 + 2, rate: None },
        ]
    );
    records.push(None);
    assert_eq!(rows_from_records(&records), Err(LoadError::Parse { record: 11 }));
}

#[test]
fn carry_forward_uses_read_rates_only() {
    let rows = vec![
        RawRow { day: 1, rate: None },
        RawRow { day: 2, rate: Some(5) },
        RawRow { day: 3, rate: None },
        RawRow { day: 4, rate: Some(7) },
        RawRow { day: 5, rate: None },
    ];
    let out = fill_forward(&rows);
    assert_eq!(
        out,
        vec![
            Observation { day: 2, rate: 5 },
            Observation { day: 3, rate: 5 },
            Observation { day: 4, rate: 7 },
            Observation { day: 5, rate: 7 },
        ]
    );
    for o in &out {
        assert!(rows.iter().any(|r| r.rate == Some(o.rate)));
    }
    assert_eq!(fill_forward(&rows[1..].to_vec()), out);
}
