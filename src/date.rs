use vstd::prelude::*;

verus! {

/// The number of the day `year-month-day` of the proleptic Gregorian
/// calendar, counting 0001-01-01 as day 1, where that date exists.
pub uninterp spec fn ce_day_number(year: int, month: int, day: int) -> Option<int>;

/// A calendar date, held as its day number (0001-01-01 is day 1).
#[derive(Clone, Copy, Debug, PartialEq, Eq, Structural)]
pub struct CalendarDate {
    pub day_number: i32,
}

impl CalendarDate {
    /// The date `year-month-day`, or `None` where no such date exists.
    pub fn from_ymd_opt(year: i32, month: u32, day: u32) -> (r: Option<CalendarDate>)
        ensures
            r is Some <==> ce_day_number(year as int, month as int, day as int) is Some,
            r is Some ==> r->0.day_number == ce_day_number(
                year as int,
                month as int,
                day as int,
            )->0,
            month < 1 || month > 12 || day < 1 ==> r is None,
    {
        match day_number_of(year, month, day) {
            Some(n) => Some(CalendarDate { day_number: n }),
            None => None,
        }
    }

    /// The signed number of days from `earlier` to `self`.
    pub fn days_since(&self, earlier: &CalendarDate) -> (r: i64)
        ensures
            r == self.day_number - earlier.day_number,
    {
        self.day_number as i64 - earlier.day_number as i64
    }
}

/// Relies on `chrono::NaiveDate::from_ymd_opt` (which refuses a month outside
/// 1..=12 and a day 0) and `chrono::Datelike::num_days_from_ce`.
#[verifier::external_body]
fn day_number_of(year: i32, month: u32, day: u32) -> (r: Option<i32>)
    ensures
        r is Some <==> ce_day_number(year as int, month as int, day as int) is Some,
        r is Some ==> r->0 == ce_day_number(year as int, month as int, day as int)->0,
        month < 1 || month > 12 || day < 1 ==> r is None,
{
    chrono::NaiveDate::from_ymd_opt(year, month, day).map(|d| chrono::Datelike::num_days_from_ce(&d))
}

} // verus!
