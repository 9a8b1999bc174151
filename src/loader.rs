use vstd::prelude::*;
use crate::series::Observation;
use crate::text::{field_rate, rate_of_field};

verus! {

/// Number of records of metadata in front of the quotes of a file.
pub const PREAMBLE_RECORDS: usize = 9;

/// A quote row as read: its day, and its rate where the field held one.
#[derive(Clone, Copy, Debug, PartialEq, Eq, Structural)]
pub struct RawRow {
    pub day: i32,
    pub rate: Option<i64>,
}

/// Why a file yields no series.
#[derive(Clone, Copy, Debug, PartialEq, Eq, Structural)]
pub enum LoadError {
    /// The record at this position (counted from zero, preamble included)
    /// is not well-formed CSV or does not start with an ISO date.
    Parse { record: usize },
    /// No row of the file carries a rate.
    Empty,
}

/// The last rate that `rows` carry, if any.
pub open spec fn last_rate(rows: Seq<RawRow>) -> Option<i64>
    decreases rows.len(),
{
    if rows.len() == 0 {
        None
    } else if rows.last().rate is Some {
        rows.last().rate
    } else {
        last_rate(rows.drop_last())
    }
}

/// The observations of `rows`: each row with the last rate seen up to and
/// including it, where there is one.
pub open spec fn filled(rows: Seq<RawRow>) -> Seq<Observation>
    decreases rows.len(),
{
    if rows.len() == 0 {
        Seq::empty()
    } else {
        match last_rate(rows) {
            Some(r) => filled(rows.drop_last()).push(Observation { day: rows.last().day, rate: r }),
            None => filled(rows.drop_last()),
        }
    }
}

/// Turns rows into observations, carrying the last rate forward over rows
/// without one and dropping rows before the first rate.
pub fn fill_forward(rows: &Vec<RawRow>) -> (r: Vec<Observation>)
    ensures
        r@ == filled(rows@),
{
    let mut out: Vec<Observation> = Vec::new();
    let mut last: Option<i64> = None;
    let mut k: usize = 0;
    while k < rows.len()
        invariant
            k <= rows@.len(),
            out@ == filled(rows@.subrange(0, k as int)),
            last == last_rate(rows@.subrange(0, k as int)),
        decreases rows@.len() - k,
    {
        let row = rows[k];
        proof {
            let post = rows@.subrange(0, k as int + 1);
            assert(post.drop_last() =~= rows@.subrange(0, k as int));
            assert(post.last() == row);
        }
        if let Some(r) = row.rate {
            last = Some(r);
        }
        if let Some(r) = last {
            out.push(Observation { day: row.day, rate: r });
        }
        k = k + 1;
    }
    assert(rows@.subrange(0, rows@.len() as int) =~= rows@);
    out
}

/// What a quote file's records are, as the CSV reader splits them: the
/// fields of each record, or none where the record is malformed.
pub uninterp spec fn csv_records_of(bytes: Seq<u8>) -> Seq<Option<Seq<Seq<char>>>>;

/// The day number of an ISO `YYYY-MM-DD` date text, where it is one.
pub uninterp spec fn iso_day_of(text: Seq<char>) -> Option<i32>;

/// Relies on csv's `Reader::records` (no header row, records of any
/// length): the records of the bytes, in order, each with its fields or
/// its error.
#[verifier::external_body]
fn csv_records(bytes: &[u8]) -> (r: Vec<Option<Vec<String>>>)
    ensures
        r.deep_view() == csv_records_of(bytes@),
{
    let mut reader = csv::ReaderBuilder::new().has_headers(false).flexible(true).from_reader(bytes);
    reader.records().map(|rec| rec.ok().map(|fields| fields.iter().map(String::from).collect())).collect()
}

/// Relies on chrono's `NaiveDate::parse_from_str` with format `%Y-%m-%d`,
/// and on `Datelike::num_days_from_ce` for the day number.
#[verifier::external_body]
fn parse_iso_day(text: &str) -> (r: Option<i32>)
    ensures
        r == iso_day_of(text@),
{
    let date = chrono::NaiveDate::parse_from_str(text, "%Y-%m-%d").ok();
    date.map(|d| chrono::Datelike::num_days_from_ce(&d))
}

/// The rows of records `k..`, or the position of the first record there
/// that is malformed or has a first field that is no date. Records with
/// fewer than two fields are passed over.
pub open spec fn scan_rows(records: Seq<Option<Seq<Seq<char>>>>, k: int) -> Result<Seq<RawRow>, usize>
    decreases records.len() - k,
{
    if k < 0 || k >= records.len() {
        Ok(Seq::empty())
    } else {
        match records[k] {
            None => Err(k as usize),
            Some(fields) => if fields.len() < 2 {
                scan_rows(records, k + 1)
            } else {
                match iso_day_of(fields[0]) {
                    None => Err(k as usize),
                    Some(day) => match scan_rows(records, k + 1) {
                        Ok(rest) => Ok(seq![RawRow { day, rate: field_rate(fields[1]) }] + rest),
                        Err(e) => Err(e),
                    },
                }
            },
        }
    }
}

/// The rows of a file's records, past the preamble.
pub open spec fn rows_of_records(records: Seq<Option<Seq<Seq<char>>>>) -> Result<Seq<RawRow>, usize> {
    scan_rows(records, PREAMBLE_RECORDS as int)
}

/// Reads the quote rows out of a file's records.
pub fn rows_from_records(records: &Vec<Option<Vec<String>>>) -> (r: Result<Vec<RawRow>, LoadError>)
    ensures
        match rows_of_records(records.deep_view()) {
            Ok(rows) => r == Ok::<Vec<RawRow>, LoadError>(r->Ok_0) && r->Ok_0@ == rows,
            Err(k) => r == Err::<Vec<RawRow>, LoadError>(LoadError::Parse { record: k }),
        },
{
    let ghost recs = records.deep_view();
    let mut rows: Vec<RawRow> = Vec::new();
    let mut k: usize = PREAMBLE_RECORDS;
    while k < records.len()
        invariant
            recs == records.deep_view(),
            PREAMBLE_RECORDS <= k,
            rows_of_records(recs) == match scan_rows(recs, k as int) {
                Ok(rest) => Ok::<Seq<RawRow>, usize>(rows@ + rest),
                Err(e) => Err(e),
            },
        decreases records@.len() - k,
    {
        assert(recs[k as int] == records@[k as int].deep_view());
        match &records[k] {
            None => {
                return Err(LoadError::Parse { record: k });
            },
            Some(fields) => {
                assert(fields.deep_view() == fields@.map_values(|f: String| f@));
                if fields.len() >= 2 {
                    let day = parse_iso_day(fields[0].as_str());
                    match day {
                        None => {
                            return Err(LoadError::Parse { record: k });
                        },
                        Some(d) => {
                            let row = RawRow { day: d, rate: rate_of_field(fields[1].as_str()) };
                            let ghost before = rows@;
                            rows.push(row);
                            proof {
                                match scan_rows(recs, k + 1) {
                                    Ok(rest) => {
                                        assert(before + (seq![row] + rest) =~= rows@ + rest);
                                    },
                                    Err(e) => {},
                                }
                            }
                        },
                    }
                }
            },
        }
        k = k + 1;
    }
    assert(rows@ + Seq::<RawRow>::empty() =~= rows@);
    Ok(rows)
}

/// Reads the series of a quote file: its rows past the preamble, with
/// missing rates carried forward. A file that yields no observation is
/// refused.
pub fn load_series(bytes: &[u8]) -> (r: Result<Vec<Observation>, LoadError>)
    ensures
        match rows_of_records(csv_records_of(bytes@)) {
            Ok(rows) => if filled(rows).len() == 0 {
                r == Err::<Vec<Observation>, LoadError>(LoadError::Empty)
            } else {
                r == Ok::<Vec<Observation>, LoadError>(r->Ok_0) && r->Ok_0@ == filled(rows)
            },
            Err(k) => r == Err::<Vec<Observation>, LoadError>(LoadError::Parse { record: k }),
        },
{
    let records = csv_records(bytes);
    let rows = rows_from_records(&records)?;
    let series = fill_forward(&rows);
    if series.len() == 0 {
        Err(LoadError::Empty)
    } else {
        Ok(series)
    }
}

proof fn lemma_last_rate_seen(rows: Seq<RawRow>)
    ensures
        last_rate(rows) is Some ==> exists|j: int| 0 <= j < rows.len() && #[trigger] rows[j].rate == last_rate(rows),
    decreases rows.len(),
{
    if rows.len() > 0 {
        if rows.last().rate is Some {
            assert(rows[rows.len() - 1].rate == last_rate(rows));
        } else {
            lemma_last_rate_seen(rows.drop_last());
            if last_rate(rows) is Some {
                let j = choose|j: int| 0 <= j < rows.drop_last().len() && #[trigger] rows.drop_last()[j].rate == last_rate(rows.drop_last());
                assert(rows[j] == rows.drop_last()[j]);
            }
        }
    }
}

/// Every observation that carrying forward emits has a rate that some
/// row carried itself: a missing quote never becomes a rate of its own.
pub proof fn lemma_filled_rates_are_read(rows: Seq<RawRow>)
    ensures
        forall|i: int|
            0 <= i < filled(rows).len() ==> exists|j: int|
                0 <= j < rows.len() && rows[j].rate == Some(#[trigger] filled(rows)[i].rate),
    decreases rows.len(),
{
    if rows.len() > 0 {
        let prev = rows.drop_last();
        lemma_filled_rates_are_read(prev);
        lemma_last_rate_seen(rows);
        assert forall|i: int| 0 <= i < filled(rows).len() implies exists|j: int|
            0 <= j < rows.len() && rows[j].rate == Some(#[trigger] filled(rows)[i].rate) by {
            if i < filled(prev).len() {
                assert(filled(rows)[i] == filled(prev)[i]);
                let j = choose|j: int| 0 <= j < prev.len() && prev[j].rate == Some(#[trigger] filled(prev)[i].rate);
                assert(rows[j] == prev[j]);
            } else {
                let j = choose|j: int| 0 <= j < rows.len() && #[trigger] rows[j].rate == last_rate(rows);
                assert(rows[j].rate == Some(filled(rows)[i].rate));
            }
        }
    }
}

/// A first row without a rate emits nothing: the rows yield what they
/// yield without it.
pub proof fn lemma_leading_gap_emits_nothing(rows: Seq<RawRow>)
    requires
        rows.len() > 0,
        rows[0].rate is None,
    ensures
        filled(rows) == filled(rows.subrange(1, rows.len() as int)),
        last_rate(rows) == last_rate(rows.subrange(1, rows.len() as int)),
    decreases rows.len(),
{
    let tail = rows.subrange(1, rows.len() as int);
    if rows.len() == 1 {
        assert(rows.drop_last() =~= Seq::<RawRow>::empty());
        assert(tail =~= Seq::<RawRow>::empty());
    } else {
        let prev = rows.drop_last();
        lemma_leading_gap_emits_nothing(prev);
        assert(prev.subrange(1, prev.len() as int) =~= tail.drop_last());
        assert(tail.last() == rows.last());
    }
}

proof fn lemma_bad_date_from(records: Seq<Option<Seq<Seq<char>>>>, k0: int, k: int)
    requires
        0 <= k0 <= k < records.len(),
        records[k] is Some,
        records[k]->Some_0.len() >= 2,
        iso_day_of(records[k]->Some_0[0]) is None,
    ensures
        scan_rows(records, k0) is Err,
    decreases k - k0,
{
    if k0 < k {
        lemma_bad_date_from(records, k0 + 1, k);
    }
}

/// A record past the preamble whose first field is no date makes the
/// whole file fail to parse.
pub proof fn lemma_bad_date_fails(records: Seq<Option<Seq<Seq<char>>>>, k: int)
    requires
        PREAMBLE_RECORDS <= k < records.len(),
        records[k] is Some,
        records[k]->Some_0.len() >= 2,
        iso_day_of(records[k]->Some_0[0]) is None,
    ensures
        rows_of_records(records) is Err,
{
    lemma_bad_date_from(records, PREAMBLE_RECORDS as int, k);
}

} // verus!
