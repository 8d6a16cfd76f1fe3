//! Calendar dates, parsed and resolved by chrono.
//!
//! The library holds a date as plain values: its year, month and day, and
//! its day number in the proleptic Gregorian calendar. Day arithmetic is
//! then ordinary integer arithmetic, verified here; the calendar itself is
//! chrono's work.

use vstd::prelude::*;

verus! {

/// What chrono makes of a text under the "%Y-%m-%d" pattern: on success the
/// date's year, month and day, and its day number counted in the proleptic
/// Gregorian calendar (January 1 of year 1 CE is day 1); on failure the text
/// of chrono's error. The outcome depends on the input characters alone.
pub uninterp spec fn chrono_date_of(s: Seq<char>) -> Result<(i32, u32, u32, i32), Seq<char>>;

/// A calendar date, as chrono parsed it.
#[derive(Debug, Clone, Copy, PartialEq, Eq, Structural)]
pub struct Date {
    pub year: i32,
    pub month: u32,
    pub day: u32,
    /// Day number in the proleptic Gregorian calendar; the difference of two
    /// day numbers is the whole-day span between the dates.
    pub day_number: i32,
}

/// The `Date` carrying the plain values of a successful chrono parse.
pub open spec fn spec_date_of_parts(t: (i32, u32, u32, i32)) -> Date {
    Date { year: t.0, month: t.1, day: t.2, day_number: t.3 }
}

/// Relies on chrono::NaiveDate::parse_from_str with the "%Y-%m-%d" pattern,
/// and on chrono::Datelike::{year, month, day, num_days_from_ce} to read the
/// parsed date back as plain values; chrono's date parsing and its error
/// rendering depend on the input characters alone.
#[verifier::external_body]
pub(crate) fn parse_date(s: &str) -> (r: Result<Date, String>)
    ensures
        r is Ok <==> chrono_date_of(s@) is Ok,
        r is Ok ==> r->Ok_0 == spec_date_of_parts(chrono_date_of(s@)->Ok_0),
        r is Err ==> r->Err_0@ == chrono_date_of(s@)->Err_0,
{
    match chrono::NaiveDate::parse_from_str(s, "%Y-%m-%d") {
        Ok(d) => Ok(Date {
            year: chrono::Datelike::year(&d),
            month: chrono::Datelike::month(&d),
            day: chrono::Datelike::day(&d),
            day_number: chrono::Datelike::num_days_from_ce(&d),
        }),
        Err(e) => Err(format!("{}", e)),
    }
}

} // verus!
