//! Calendar timestamps as plain integer fields, UTC, second precision.
//!
//! Carts carry their creation time in this form; it is rendered as
//! `YYYY-MM-DD HH:MM:SS` for storage and compared field by field, most
//! significant field first — the order in which the instants occur.

use crate::digits::append_padded;
use crate::digits::padded_dec;
use vstd::prelude::*;
use vstd::string::StringExecFns;

verus! {

/// A wall-clock instant: calendar date plus time of day, UTC.
#[derive(Clone, Copy, PartialEq, Eq, Structural, Debug)]
pub struct Timestamp {
    pub year: u32,
    pub month: u32,
    pub day: u32,
    pub hour: u32,
    pub minute: u32,
    pub second: u32,
}

pub open spec fn is_leap_year(y: int) -> bool {
    (y % 4 == 0 && y % 100 != 0) || y % 400 == 0
}

/// Number of days in the given month of the given year.
pub open spec fn days_in_month(y: int, m: int) -> int {
    if m == 2 {
        if is_leap_year(y) {
            29
        } else {
            28
        }
    } else if m == 4 || m == 6 || m == 9 || m == 11 {
        30
    } else {
        31
    }
}

impl Timestamp {
    /// A valid calendar date with a valid time of day.
    pub open spec fn wf(self) -> bool {
        &&& 1 <= self.month <= 12
        &&& 1 <= self.day <= days_in_month(self.year as int, self.month as int)
        &&& self.hour < 24
        &&& self.minute < 60
        &&& self.second < 60
    }

    /// Strict lexicographic order on (year, month, day, hour, minute, second);
    /// the order in which the instants occur.
    pub open spec fn is_before(self, other: Timestamp) -> bool {
        if self.year != other.year {
            self.year < other.year
        } else if self.month != other.month {
            self.month < other.month
        } else if self.day != other.day {
            self.day < other.day
        } else if self.hour != other.hour {
            self.hour < other.hour
        } else if self.minute != other.minute {
            self.minute < other.minute
        } else {
            self.second < other.second
        }
    }

    /// Same calendar date, ignoring the time of day.
    pub open spec fn same_day(self, other: Timestamp) -> bool {
        self.year == other.year && self.month == other.month && self.day == other.day
    }

    /// The `YYYY-MM-DD HH:MM:SS` rendering, as a character sequence.
    pub open spec fn rendered(self) -> Seq<char> {
        padded_dec(self.year as nat, 4) + seq!['-'] + padded_dec(self.month as nat, 2) + seq!['-']
            + padded_dec(self.day as nat, 2) + seq![' '] + padded_dec(self.hour as nat, 2)
            + seq![':'] + padded_dec(self.minute as nat, 2) + seq![':'] + padded_dec(
            self.second as nat,
            2,
        )
    }

    /// The `YYYYMMDD` rendering of the date, as used in invoice identifiers.
    pub open spec fn date_code(self) -> Seq<char> {
        padded_dec(self.year as nat, 4) + padded_dec(self.month as nat, 2) + padded_dec(
            self.day as nat,
            2,
        )
    }

    /// Builds a timestamp after checking every field, `None` if the fields do
    /// not name a valid instant.
    pub fn new(year: u32, month: u32, day: u32, hour: u32, minute: u32, second: u32) -> (r: Option<
        Timestamp,
    >)
        ensures
            ({
                let t = Timestamp { year, month, day, hour, minute, second };
                r == if t.wf() {
                    Some(t)
                } else {
                    None::<Timestamp>
                }
            }),
    {
        let t = Timestamp { year, month, day, hour, minute, second };
        if 1 <= month && month <= 12 && 1 <= day && day <= month_length(year, month) && hour < 24
            && minute < 60 && second < 60 {
            Some(t)
        } else {
            None
        }
    }

    /// Whether `self` occurs strictly before `other`.
    pub fn before(&self, other: &Timestamp) -> (r: bool)
        ensures
            r == self.is_before(*other),
    {
        if self.year != other.year {
            self.year < other.year
        } else if self.month != other.month {
            self.month < other.month
        } else if self.day != other.day {
            self.day < other.day
        } else if self.hour != other.hour {
            self.hour < other.hour
        } else if self.minute != other.minute {
            self.minute < other.minute
        } else {
            self.second < other.second
        }
    }

    /// Whether the two timestamps fall on the same calendar date.
    pub fn on_same_day(&self, other: &Timestamp) -> (r: bool)
        ensures
            r == self.same_day(*other),
    {
        self.year == other.year && self.month == other.month && self.day == other.day
    }

    /// Appends the `YYYY-MM-DD HH:MM:SS` rendering to `out`.
    #[verifier::rlimit(50)]
    pub fn append_rendered(&self, out: &mut String)
        ensures
            final(out)@ == old(out)@ + self.rendered(),
    {
        proof {
            reveal_strlit("-");
            reveal_strlit(" ");
            reveal_strlit(":");
        }
        append_padded(out, self.year as u64, 4);
        out.append("-");
        append_padded(out, self.month as u64, 2);
        out.append("-");
        append_padded(out, self.day as u64, 2);
        out.append(" ");
        append_padded(out, self.hour as u64, 2);
        out.append(":");
        append_padded(out, self.minute as u64, 2);
        out.append(":");
        append_padded(out, self.second as u64, 2);
        proof {
            assert(out@ =~= old(out)@ + self.rendered());
        }
    }

    /// The `YYYY-MM-DD HH:MM:SS` rendering, the storage format of creation
    /// times.
    pub fn render(&self) -> (r: String)
        ensures
            r@ == self.rendered(),
    {
        let mut out = String::new();
        self.append_rendered(&mut out);
        proof {
            assert(out@ =~= self.rendered());
        }
        out
    }

    /// Appends the `YYYYMMDD` date code to `out`.
    pub fn append_date_code(&self, out: &mut String)
        ensures
            final(out)@ == old(out)@ + self.date_code(),
    {
        append_padded(out, self.year as u64, 4);
        append_padded(out, self.month as u64, 2);
        append_padded(out, self.day as u64, 2);
        proof {
            assert(out@ =~= old(out)@ + self.date_code());
        }
    }
}

/// Number of days in the given month.
pub fn month_length(year: u32, month: u32) -> (r: u32)
    requires
        1 <= month <= 12,
    ensures
        r == days_in_month(year as int, month as int),
{
    if month == 2 {
        if (year % 4 == 0 && year % 100 != 0) || year % 400 == 0 {
            29
        } else {
            28
        }
    } else if month == 4 || month == 6 || month == 9 || month == 11 {
        30
    } else {
        31
    }
}

} // verus!
