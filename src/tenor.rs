use vstd::prelude::*;

verus! {

/// The five Euribor tenors of a chart, in their fixed order.
#[derive(Clone, Copy, Debug, PartialEq, Eq, Structural)]
pub enum Tenor {
    W1,
    M1,
    M3,
    M6,
    M12,
}

/// Number of tenors in a series set.
pub const TENOR_COUNT: usize = 5;

impl Tenor {
    /// Position of the tenor in the fixed order.
    pub open spec fn spec_index(self) -> int {
        match self {
            Tenor::W1 => 0,
            Tenor::M1 => 1,
            Tenor::M3 => 2,
            Tenor::M6 => 3,
            Tenor::M12 => 4,
        }
    }

    /// The tenor at a position of the fixed order.
    pub open spec fn spec_at(i: int) -> Tenor {
        if i == 0 {
            Tenor::W1
        } else if i == 1 {
            Tenor::M1
        } else if i == 2 {
            Tenor::M3
        } else if i == 3 {
            Tenor::M6
        } else {
            Tenor::M12
        }
    }

    /// Nominal length of the tenor's period, in days.
    pub open spec fn spec_period_days(self) -> int {
        match self {
            Tenor::W1 => 7,
            Tenor::M1 => 30,
            Tenor::M3 => 90,
            Tenor::M6 => 180,
            Tenor::M12 => 360,
        }
    }

    /// The tenor's short label.
    pub open spec fn spec_label(self) -> Seq<char> {
        match self {
            Tenor::W1 => "1w"@,
            Tenor::M1 => "1m"@,
            Tenor::M3 => "3m"@,
            Tenor::M6 => "6m"@,
            Tenor::M12 => "12m"@,
        }
    }

    /// The colour of the tenor's lines.
    pub open spec fn spec_color(self) -> Seq<char> {
        match self {
            Tenor::W1 => "#1f77b4"@,
            Tenor::M1 => "#ff7f0e"@,
            Tenor::M3 => "#2ca02c"@,
            Tenor::M6 => "#d62728"@,
            Tenor::M12 => "#9467bd"@,
        }
    }

    pub fn at(i: usize) -> (t: Tenor)
        requires
            i < TENOR_COUNT,
        ensures
            t == Tenor::spec_at(i as int),
            t.spec_index() == i,
    {
        if i == 0 {
            Tenor::W1
        } else if i == 1 {
            Tenor::M1
        } else if i == 2 {
            Tenor::M3
        } else if i == 3 {
            Tenor::M6
        } else {
            Tenor::M12
        }
    }

    pub fn index(&self) -> (i: usize)
        ensures
            i == self.spec_index(),
            i < TENOR_COUNT,
            Tenor::spec_at(i as int) == *self,
    {
        match self {
            Tenor::W1 => 0,
            Tenor::M1 => 1,
            Tenor::M3 => 2,
            Tenor::M6 => 3,
            Tenor::M12 => 4,
        }
    }

    pub fn period_days(&self) -> (p: i64)
        ensures
            p == self.spec_period_days(),
            1 <= p <= 360,
    {
        match self {
            Tenor::W1 => 7,
            Tenor::M1 => 30,
            Tenor::M3 => 90,
            Tenor::M6 => 180,
            Tenor::M12 => 360,
        }
    }

    pub fn label(&self) -> (s: &'static str)
        ensures
            s@ == self.spec_label(),
    {
        match self {
            Tenor::W1 => "1w",
            Tenor::M1 => "1m",
            Tenor::M3 => "3m",
            Tenor::M6 => "6m",
            Tenor::M12 => "12m",
        }
    }

    pub fn color(&self) -> (s: &'static str)
        ensures
            s@ == self.spec_color(),
    {
        match self {
            Tenor::W1 => "#1f77b4",
            Tenor::M1 => "#ff7f0e",
            Tenor::M3 => "#2ca02c",
            Tenor::M6 => "#d62728",
            Tenor::M12 => "#9467bd",
        }
    }
}

} // verus!
