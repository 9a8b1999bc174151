use vstd::prelude::*;
use crate::tenor::Tenor;

verus! {

/// One quote of a series: a day number and a rate in billionths of a
/// percentage point.
#[derive(Clone, Copy, Debug, PartialEq, Eq, Structural)]
pub struct Observation {
    pub day: i32,
    pub rate: i64,
}

/// The rate quoted on `day`: the last observation of that day, if any.
pub open spec fn rate_on(obs: Seq<Observation>, day: int) -> Option<i64>
    decreases obs.len(),
{
    if obs.len() == 0 {
        None
    } else if obs.last().day == day {
        Some(obs.last().rate)
    } else {
        rate_on(obs.drop_last(), day)
    }
}

pub open spec fn min_of(a: int, b: int) -> int {
    if a <= b {
        a
    } else {
        b
    }
}

pub open spec fn max_of(a: int, b: int) -> int {
    if a >= b {
        a
    } else {
        b
    }
}

/// The five series of a chart, one per tenor.
pub struct SeriesSet {
    pub w1: Vec<Observation>,
    pub m1: Vec<Observation>,
    pub m3: Vec<Observation>,
    pub m6: Vec<Observation>,
    pub m12: Vec<Observation>,
}

impl SeriesSet {
    pub open spec fn spec_series(&self, t: Tenor) -> Seq<Observation> {
        match t {
            Tenor::W1 => self.w1@,
            Tenor::M1 => self.m1@,
            Tenor::M3 => self.m3@,
            Tenor::M6 => self.m6@,
            Tenor::M12 => self.m12@,
        }
    }

    /// Every series holds at least one observation.
    pub open spec fn well_formed(&self) -> bool {
        &&& self.w1@.len() > 0
        &&& self.m1@.len() > 0
        &&& self.m3@.len() > 0
        &&& self.m6@.len() > 0
        &&& self.m12@.len() > 0
    }

    /// The earliest first day over the five series.
    pub open spec fn spec_start_day(&self) -> int {
        min_of(
            min_of(min_of(self.w1@[0].day as int, self.m1@[0].day as int), self.m3@[0].day as int),
            min_of(self.m6@[0].day as int, self.m12@[0].day as int),
        )
    }

    /// The latest last day over the five series.
    pub open spec fn spec_end_day(&self) -> int {
        max_of(
            max_of(
                max_of(self.w1@.last().day as int, self.m1@.last().day as int),
                self.m3@.last().day as int,
            ),
            max_of(self.m6@.last().day as int, self.m12@.last().day as int),
        )
    }

    pub fn series(&self, t: Tenor) -> (r: &Vec<Observation>)
        ensures
            r@ == self.spec_series(t),
    {
        match t {
            Tenor::W1 => &self.w1,
            Tenor::M1 => &self.m1,
            Tenor::M3 => &self.m3,
            Tenor::M6 => &self.m6,
            Tenor::M12 => &self.m12,
        }
    }

    pub fn start_day(&self) -> (d: i32)
        requires
            self.well_formed(),
        ensures
            d == self.spec_start_day(),
    {
        let a = if self.w1[0].day <= self.m1[0].day { self.w1[0].day } else { self.m1[0].day };
        let b = if a <= self.m3[0].day { a } else { self.m3[0].day };
        let c = if self.m6[0].day <= self.m12[0].day { self.m6[0].day } else { self.m12[0].day };
        if b <= c { b } else { c }
    }

    pub fn end_day(&self) -> (d: i32)
        requires
            self.well_formed(),
        ensures
            d == self.spec_end_day(),
    {
        let w1 = self.w1[self.w1.len() - 1].day;
        let m1 = self.m1[self.m1.len() - 1].day;
        let m3 = self.m3[self.m3.len() - 1].day;
        let m6 = self.m6[self.m6.len() - 1].day;
        let m12 = self.m12[self.m12.len() - 1].day;
        let a = if w1 >= m1 { w1 } else { m1 };
        let b = if a >= m3 { a } else { m3 };
        let c = if m6 >= m12 { m6 } else { m12 };
        if b >= c { b } else { c }
    }
}

} // verus!
