use vstd::prelude::*;
use crate::query::CalendarQuery;

verus! {

/// What a calendar lists.
#[derive(Debug, Clone, Copy, PartialEq, Eq, Structural)]
pub enum CalendarKind {
    GameRelease,
}

/// Where a calendar's entries come from.
#[derive(Debug, Clone, Copy, PartialEq, Eq, Structural)]
pub enum CalendarDataSource {
    BangumiUserCollection,
}

/// The format a calendar is written in.
#[derive(Debug, Clone, Copy, PartialEq, Eq, Structural)]
pub enum OutputFormat {
    Ics,
}

/// A request for one user's calendar.
#[derive(Debug, Clone)]
pub struct CalendarRequest {
    pub kind: CalendarKind,
    pub source: CalendarDataSource,
    pub format: OutputFormat,
    /// The user whose collection the calendar shows.
    pub owner: String,
    pub query: CalendarQuery,
}

/// The plain content of a [`CalendarRequest`].
pub struct RequestView {
    pub kind: CalendarKind,
    pub source: CalendarDataSource,
    pub format: OutputFormat,
    pub owner: Seq<char>,
    pub query: CalendarQuery,
}

impl View for CalendarRequest {
    type V = RequestView;

    open spec fn view(&self) -> RequestView {
        RequestView {
            kind: self.kind,
            source: self.source,
            format: self.format,
            owner: self.owner@,
            query: self.query,
        }
    }
}

/// A day of the proleptic Gregorian calendar.
#[derive(Debug, Clone, Copy, PartialEq, Eq, Structural)]
pub struct CalendarDate {
    pub year: i32,
    /// 1 to 12.
    pub month: u32,
    /// 1 to the length of the month.
    pub day: u32,
}

/// The earliest year that a date can have.
pub const MIN_YEAR: i32 = -262143;

/// The latest year that a date can have.
pub const MAX_YEAR: i32 = 262142;

/// Leap years of the proleptic Gregorian calendar.
pub open spec fn is_leap_year(year: int) -> bool {
    year % 4 == 0 && (year % 100 != 0 || year % 400 == 0)
}

/// The number of days in a month of a year.
pub open spec fn days_in_month(year: int, month: int) -> int {
    if month == 2 {
        if is_leap_year(year) {
            29
        } else {
            28
        }
    } else if month == 4 || month == 6 || month == 9 || month == 11 {
        30
    } else {
        31
    }
}

/// The number of days in a year.
pub open spec fn year_length(year: int) -> int {
    if is_leap_year(year) {
        366
    } else {
        365
    }
}

/// The days of all years before `year`, counted from the start of year 1.
pub open spec fn days_before_year(year: int) -> int {
    let p = year - 1;
    365 * p + p / 4 - p / 100 + p / 400
}

/// The days of the months of `year` before `month`.
pub open spec fn days_before_month(year: int, month: int) -> int
    decreases month,
{
    if month <= 1 {
        0
    } else {
        days_before_month(year, month - 1) + days_in_month(year, month - 1)
    }
}

/// The day count of a date, as `NaiveDate::num_days_from_ce` counts it:
/// 0001-01-01 is day 1.
pub open spec fn day_number(d: CalendarDate) -> int {
    days_before_year(d.year as int) + days_before_month(d.year as int, d.month as int) + d.day
}

/// The first date that can be written: -262143-01-01.
pub open spec fn first_date() -> CalendarDate {
    CalendarDate { year: MIN_YEAR, month: 1, day: 1 }
}

/// The last date that can be written: 262142-12-31.
pub open spec fn last_date() -> CalendarDate {
    CalendarDate { year: MAX_YEAR, month: 12, day: 31 }
}

/// `a` comes strictly before `b`.
pub open spec fn date_lt(a: CalendarDate, b: CalendarDate) -> bool {
    a.year < b.year || (a.year == b.year && (a.month < b.month || (a.month == b.month && a.day
        < b.day)))
}

impl CalendarDate {
    /// A real date within the years that dates can have.
    pub open spec fn wf(self) -> bool {
        &&& MIN_YEAR <= self.year <= MAX_YEAR
        &&& 1 <= self.month <= 12
        &&& 1 <= self.day <= days_in_month(self.year as int, self.month as int)
    }

    /// The last date that can be written.
    pub open spec fn is_last(self) -> bool {
        self.year == MAX_YEAR && self.month == 12 && self.day == 31
    }

    /// The day after this one.
    pub open spec fn spec_next_day(self) -> CalendarDate {
        if (self.day as int) < days_in_month(self.year as int, self.month as int) {
            CalendarDate { day: (self.day + 1) as u32, ..self }
        } else if self.month < 12 {
            CalendarDate { month: (self.month + 1) as u32, day: 1, ..self }
        } else {
            CalendarDate { year: (self.year + 1) as i32, month: 1, day: 1 }
        }
    }

    /// Whether `year` is a leap year.
    pub fn leap_year(year: i32) -> (b: bool)
        requires
            MIN_YEAR <= year <= MAX_YEAR,
        ensures
            b == is_leap_year(year as int),
    {
        // Shifted by a multiple of 400 so that `%` works on a non-negative number.
        let y: i64 = year as i64 + 400000;
        assert(y % 4 == year % 4 && y % 100 == year % 100 && y % 400 == year % 400) by (nonlinear_arith)
            requires y == year + 400000;
        y % 4 == 0 && (y % 100 != 0 || y % 400 == 0)
    }

    /// The number of days in this date's month.
    pub fn month_length(&self) -> (n: u32)
        requires
            MIN_YEAR <= self.year <= MAX_YEAR,
        ensures
            n == days_in_month(self.year as int, self.month as int),
    {
        if self.month == 2 {
            if Self::leap_year(self.year) {
                29
            } else {
                28
            }
        } else if self.month == 4 || self.month == 6 || self.month == 9 || self.month == 11 {
            30
        } else {
            31
        }
    }

    /// The day after this one.
    pub fn next_day(&self) -> (d: CalendarDate)
        requires
            self.wf(),
            !self.is_last(),
        ensures
            d == self.spec_next_day(),
            d.wf(),
    {
        if self.day < self.month_length() {
            CalendarDate { year: self.year, month: self.month, day: self.day + 1 }
        } else if self.month < 12 {
            CalendarDate { year: self.year, month: self.month + 1, day: 1 }
        } else {
            CalendarDate { year: self.year + 1, month: 1, day: 1 }
        }
    }

    /// Whether this is a real date within the years that dates can have.
    pub fn is_valid(&self) -> (b: bool)
        ensures
            b == self.wf(),
    {
        MIN_YEAR <= self.year && self.year <= MAX_YEAR && 1 <= self.month && self.month <= 12
            && 1 <= self.day && self.day <= self.month_length()
    }

    /// Whether this is the last date that can be written.
    pub fn is_last_date(&self) -> (b: bool)
        ensures
            b == self.is_last(),
    {
        self.year == MAX_YEAR && self.month == 12 && self.day == 31
    }

    /// Whether this date comes strictly before `other`.
    pub fn before(&self, other: &CalendarDate) -> (b: bool)
        ensures
            b == date_lt(*self, *other),
    {
        self.year < other.year || (self.year == other.year && (self.month < other.month || (
        self.month == other.month && self.day < other.day)))
    }
}

/// One entry of a calendar: an all-day event.
#[derive(Debug, Clone)]
pub struct CalendarEvent {
    /// The event's id.
    pub uid: String,
    pub title: String,
    pub date: CalendarDate,
    pub url: Option<String>,
    pub description: Option<String>,
}

/// The plain content of a [`CalendarEvent`].
pub struct EventView {
    pub uid: Seq<char>,
    pub title: Seq<char>,
    pub date: CalendarDate,
    pub url: Option<Seq<char>>,
    pub description: Option<Seq<char>>,
}

/// The text of an optional string.
pub open spec fn opt_view(s: Option<String>) -> Option<Seq<char>> {
    match s {
        Some(t) => Some(t@),
        None => None,
    }
}

impl View for CalendarEvent {
    type V = EventView;

    open spec fn view(&self) -> EventView {
        EventView {
            uid: self.uid@,
            title: self.title@,
            date: self.date,
            url: opt_view(self.url),
            description: opt_view(self.description),
        }
    }
}

/// A named list of events.
#[derive(Debug, Clone)]
pub struct CalendarDocument {
    pub name: String,
    pub events: Vec<CalendarEvent>,
}

/// The plain content of a [`CalendarDocument`].
pub struct DocumentView {
    pub name: Seq<char>,
    pub events: Seq<EventView>,
}

/// The plain content of a list of events.
pub open spec fn events_view(events: Seq<CalendarEvent>) -> Seq<EventView> {
    events.map_values(|e: CalendarEvent| e@)
}

impl View for CalendarDocument {
    type V = DocumentView;

    open spec fn view(&self) -> DocumentView {
        DocumentView { name: self.name@, events: events_view(self.events@) }
    }
}

/// A calendar written out, with the media type of its text.
pub struct RenderedCalendar {
    pub body: String,
    pub content_type: &'static str,
}

/// The next day of a real date is the day right after it: later than it,
/// with no real date in between, and a real date itself unless the date was
/// the last one.
pub proof fn lemma_next_day_is_successor(d: CalendarDate, x: CalendarDate)
    requires
        d.wf(),
        x.wf(),
    ensures
        date_lt(d, d.spec_next_day()),
        !(date_lt(d, x) && date_lt(x, d.spec_next_day())),
        !d.is_last() ==> d.spec_next_day().wf(),
{
}

proof fn lemma_days_before_month_step(year: int, m1: int, m2: int)
    requires
        1 <= m1 < m2 <= 13,
    ensures
        days_before_month(year, m1) + days_in_month(year, m1) <= days_before_month(year, m2),
    decreases m2 - m1,
{
    if m2 > m1 + 1 {
        lemma_days_before_month_step(year, m1, m2 - 1);
    }
}

proof fn lemma_days_before_month_nonneg(year: int, month: int)
    ensures
        days_before_month(year, month) >= 0,
    decreases month,
{
    if month > 1 {
        lemma_days_before_month_nonneg(year, month - 1);
    }
}

proof fn lemma_year_of_months(year: int)
    ensures
        days_before_month(year, 13) == year_length(year),
{
    reveal_with_fuel(days_before_month, 13);
}

proof fn lemma_div_step(y: int, k: int)
    requires
        k > 0,
    ensures
        y / k - (y - 1) / k == if y % k == 0 {
            1int
        } else {
            0int
        },
{
    vstd::arithmetic::div_mod::lemma_fundamental_div_mod(y, k);
    vstd::arithmetic::div_mod::lemma_fundamental_div_mod(y - 1, k);
    let q = y / k;
    let r = y % k;
    vstd::arithmetic::div_mod::lemma_mod_bound(y, k);
    assert(0 <= r < k);
    if r == 0 {
        vstd::arithmetic::div_mod::lemma_div_pos_is_pos(0, k);
        assert(y - 1 == (q - 1) * k + (k - 1)) by (nonlinear_arith)
            requires
                y == k * q + r,
                r == 0,
        ;
        vstd::arithmetic::div_mod::lemma_fundamental_div_mod_converse(y - 1, k, q - 1, k - 1);
    } else {
        assert(y - 1 == q * k + (r - 1)) by (nonlinear_arith)
            requires
                y == k * q + r,
        ;
        vstd::arithmetic::div_mod::lemma_fundamental_div_mod_converse(y - 1, k, q, r - 1);
    }
}

proof fn lemma_year_step(year: int)
    ensures
        days_before_year(year + 1) == days_before_year(year) + year_length(year),
{
    lemma_div_step(year, 4);
    lemma_div_step(year, 100);
    lemma_div_step(year, 400);
}

proof fn lemma_days_before_year_grows(y1: int, y2: int)
    requires
        y1 < y2,
    ensures
        days_before_year(y1) + year_length(y1) <= days_before_year(y2),
    decreases y2 - y1,
{
    lemma_year_step(y1);
    if y2 > y1 + 1 {
        lemma_days_before_year_grows(y1 + 1, y2);
        lemma_year_step(y1 + 1);
    }
}

/// A real date's day count stays within its year.
proof fn lemma_day_number_in_year(d: CalendarDate)
    requires
        d.wf(),
    ensures
        days_before_year(d.year as int) < day_number(d),
        day_number(d) <= days_before_year(d.year as int) + year_length(d.year as int),
{
    lemma_days_before_month_nonneg(d.year as int, d.month as int);
    lemma_year_of_months(d.year as int);
    if d.month < 12 {
        lemma_days_before_month_step(d.year as int, d.month as int, 13);
    } else {
        assert(days_before_month(d.year as int, 13) == days_before_month(d.year as int, 12)
            + days_in_month(d.year as int, 12));
    }
}

/// Day counts follow the order of dates: a real date before another has a
/// smaller day count.
pub proof fn lemma_day_number_order(a: CalendarDate, b: CalendarDate)
    requires
        a.wf(),
        b.wf(),
    ensures
        date_lt(a, b) ==> day_number(a) < day_number(b),
        day_number(a) == day_number(b) ==> a == b,
{
    lemma_day_number_in_year(a);
    lemma_day_number_in_year(b);
    if a.year < b.year {
        lemma_days_before_year_grows(a.year as int, b.year as int);
    } else if b.year < a.year {
        lemma_days_before_year_grows(b.year as int, a.year as int);
    } else if a.month < b.month {
        lemma_days_before_month_step(a.year as int, a.month as int, b.month as int);
    } else if b.month < a.month {
        lemma_days_before_month_step(b.year as int, b.month as int, a.month as int);
    }
}

/// The next day of a real date is one day later in the day count, which is
/// how `NaiveDate` adds a day.
pub proof fn lemma_next_day_adds_one(d: CalendarDate)
    requires
        d.wf(),
        !d.is_last(),
    ensures
        day_number(d.spec_next_day()) == day_number(d) + 1,
{
    if (d.day as int) < days_in_month(d.year as int, d.month as int) {
    } else if d.month < 12 {
        assert(days_before_month(d.year as int, d.month + 1) == days_before_month(d.year as int, d.month as int)
            + days_in_month(d.year as int, d.month as int));
    } else {
        lemma_year_of_months(d.year as int);
        lemma_year_step(d.year as int);
        assert(days_before_month(d.year as int, 13) == days_before_month(d.year as int, 12)
            + days_in_month(d.year as int, 12));
    }
}

/// Looking back a number of days that fits in the years since the first
/// date stays within the dates that can be written: every day count from 0
/// to 365 days for each year since -262143 can be subtracted from a real date.
pub proof fn lemma_look_back_stays_in_range(today: CalendarDate, days: int)
    requires
        today.wf(),
        0 <= days <= 365 * (today.year - MIN_YEAR),
    ensures
        day_number(first_date()) <= day_number(today) - days <= day_number(last_date()),
{
    lemma_day_number_in_year(today);
    lemma_day_number_in_year(last_date());
    assert(first_date().wf());
    assert(last_date().wf());
    lemma_day_number_order(today, last_date());
    if today.year > MIN_YEAR {
        lemma_days_at_least_365(MIN_YEAR as int, today.year as int);
    }
    assert(day_number(first_date()) == days_before_year(MIN_YEAR as int) + 1);
}

proof fn lemma_days_at_least_365(y1: int, y2: int)
    requires
        y1 < y2,
    ensures
        days_before_year(y2) - days_before_year(y1) >= 365 * (y2 - y1),
    decreases y2 - y1,
{
    lemma_year_step(y1);
    if y2 > y1 + 1 {
        lemma_days_at_least_365(y1 + 1, y2);
    }
}

} // verus!
