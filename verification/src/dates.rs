use vstd::prelude::*;
use chrono::{Datelike, NaiveDate, TimeDelta, Utc};
use crate::domain::{CalendarDate, day_number, first_date, last_date};

verus! {

/// The date that `NaiveDate::parse_from_str(text, "%Y-%m-%d")` reads, if it
/// reads one.
pub uninterp spec fn parsed_ymd_date(text: Seq<char>) -> Option<CalendarDate>;

/// Whether the date `days` days before `date` is one that can be written.
pub open spec fn look_back_in_range(date: CalendarDate, days: int) -> bool {
    day_number(first_date()) <= day_number(date) - days <= day_number(last_date())
}

/// `NaiveDate::parse_from_str(text, "%Y-%m-%d")`. Claimed: the result is
/// `parsed_ymd_date(text)`, and a date it gives is a real date within
/// `NaiveDate`'s range of years (every `NaiveDate` is one).
#[verifier::external_body]
pub(crate) fn parse_ymd(text: &str) -> (d: Option<CalendarDate>)
    ensures
        d == parsed_ymd_date(text@),
        d matches Some(day) ==> day.wf(),
{
    NaiveDate::parse_from_str(text, "%Y-%m-%d").ok().map(
        |d| CalendarDate { year: d.year(), month: d.month(), day: d.day() },
    )
}

/// `Utc::now().date_naive()`: today's date in UTC. Claimed only that it is
/// a real date within `NaiveDate`'s range; which day it is depends on the
/// clock.
#[verifier::external_body]
pub(crate) fn today_utc() -> (d: CalendarDate)
    ensures
        d.wf(),
{
    let d = Utc::now().date_naive();
    CalendarDate { year: d.year(), month: d.month(), day: d.day() }
}

/// `NaiveDate::checked_sub_signed` with `TimeDelta::try_days(days)`: the
/// date `days` days before `date`, or `None` where `date - TimeDelta::days(days)`
/// panics. Claimed, as chrono documents it ("subtracts the number of whole
/// days"; `None` "if the resulting date would be out of range"): there is a
/// result exactly when that date lies within `NaiveDate`'s range, and it is
/// the real date whose day count is `days` less. Within that range `days`
/// stays far below `TimeDelta`'s and `i32`'s limits, so those add no case.
#[verifier::external_body]
pub(crate) fn days_before(date: CalendarDate, days: i64) -> (r: Option<CalendarDate>)
    requires
        date.wf(),
    ensures
        r is Some <==> look_back_in_range(date, days as int),
        r matches Some(d) ==> d.wf() && day_number(d) == day_number(date) - days,
{
    let start = NaiveDate::from_ymd_opt(date.year, date.month, date.day).unwrap();
    let delta = TimeDelta::try_days(days)?;
    start.checked_sub_signed(delta).map(
        |d| CalendarDate { year: d.year(), month: d.month(), day: d.day() },
    )
}

} // verus!
