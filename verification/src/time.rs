//! A plain model of a UTC instant.
//!
//! The scheduler only ever reads the calendar date, the weekday and the hour
//! of "now", so an instant is carried as those plain fields. The clock that
//! fills them in lives outside the crate.

use vstd::prelude::*;

verus! {

/// A UTC instant reduced to the fields the bot reads: the calendar date,
/// the weekday (0 = Monday .. 6 = Sunday) and the hour of day.
#[derive(Debug, Clone, Copy, PartialEq, Eq, Structural)]
pub struct Timestamp {
    pub year: i32,
    pub month: u32,
    pub day: u32,
    pub weekday: u32,
    pub hour: u32,
}

impl Timestamp {
    /// The ranges a calendar produces; the clock outside upholds them.
    pub open spec fn valid(self) -> bool {
        &&& 1 <= self.month <= 12
        &&& 1 <= self.day <= 31
        &&& self.weekday < 7
        &&& self.hour < 24
    }
}

/// Two instants fall on the same calendar day.
pub open spec fn spec_same_date(a: Timestamp, b: Timestamp) -> bool {
    a.year == b.year && a.month == b.month && a.day == b.day
}

/// Compares the calendar dates of two instants, ignoring weekday and hour.
pub fn same_date(a: &Timestamp, b: &Timestamp) -> (r: bool)
    ensures
        r == spec_same_date(*a, *b),
{
    a.year == b.year && a.month == b.month && a.day == b.day
}

/// The short English name of a weekday, 0 = Monday .. 6 = Sunday.
pub open spec fn spec_weekday_name(d: int) -> Seq<char> {
    if d == 0 { "Mon"@ } else if d == 1 { "Tue"@ } else if d == 2 { "Wed"@ } else if d == 3 {
        "Thu"@
    } else if d == 4 { "Fri"@ } else if d == 5 { "Sat"@ } else { "Sun"@ }
}

/// Renders a weekday's short name.
pub fn weekday_name(d: u32) -> (r: String)
    requires
        d < 7,
    ensures
        r@ == spec_weekday_name(d as int),
{
    let s: &str = if d == 0 { "Mon" } else if d == 1 { "Tue" } else if d == 2 { "Wed" } else if d
        == 3 { "Thu" } else if d == 4 { "Fri" } else if d == 5 { "Sat" } else { "Sun" };
    s.to_owned()
}

} // verus!
