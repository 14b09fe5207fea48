//! Dates, times of day and instants, and the numbers that columns hold them as.

use chrono::{Datelike, NaiveDate, NaiveTime, TimeZone, Timelike, Utc};
use vstd::prelude::*;

use crate::text::{decimal, padded};

verus! {

/// A date of the Gregorian calendar, extended to all years.
pub struct CivilDate {
    pub year: int,
    pub month: int,
    pub day: int,
}

/// A time of day.
pub struct CivilTime {
    pub hour: int,
    pub minute: int,
    pub second: int,
    pub nanosecond: int,
}

/// Whether `year` has a February 29.
pub open spec fn is_leap(year: int) -> bool {
    year % 4 == 0 && (year % 100 != 0 || year % 400 == 0)
}

/// The number of days of a month.
pub open spec fn days_in_month(year: int, month: int) -> int {
    if month == 2 {
        if is_leap(year) {
            29
        } else {
            28
        }
    } else if month == 4 || month == 6 || month == 9 || month == 11 {
        30
    } else {
        31
    }
}

/// The number of days from January 1 of the year 1 to January 1 of `year`.
pub open spec fn days_before_year(year: int) -> int {
    365 * (year - 1) + (year - 1) / 4 - (year - 1) / 100 + (year - 1) / 400
}

/// The number of days from January 1 to the first of `month`.
pub open spec fn days_before_month(year: int, month: int) -> int
    decreases month,
{
    if month <= 1 {
        0
    } else {
        days_before_month(year, month - 1) + days_in_month(year, month - 1)
    }
}

/// The number of days from January 1, 1970 to `date`.
pub open spec fn day_number(date: CivilDate) -> int {
    days_before_year(date.year) + days_before_month(date.year, date.month) + date.day - 1 - 719_162
}

/// Whether `date` is in the calendar, and in a year that dates are kept for.
pub open spec fn valid_date(date: CivilDate) -> bool {
    &&& -262_143 <= date.year <= 262_142
    &&& 1 <= date.month <= 12
    &&& 1 <= date.day <= days_in_month(date.year, date.month)
}

/// Whether `time` is a time of day.
pub open spec fn valid_time(time: CivilTime) -> bool {
    &&& 0 <= time.hour < 24
    &&& 0 <= time.minute < 60
    &&& 0 <= time.second < 60
    &&& 0 <= time.nanosecond < 1_000_000_000
}

/// The date `days` days after January 1, 1970.
pub open spec fn date_of(days: int) -> CivilDate {
    choose|date: CivilDate| valid_date(date) && #[trigger] day_number(date) == days
}

/// Whether `a` comes before `b` in the calendar.
pub open spec fn earlier(a: CivilDate, b: CivilDate) -> bool {
    a.year < b.year || a.year == b.year && (a.month < b.month || a.month == b.month && a.day < b.day)
}

/// The day number of the first date that is kept, January 1 of the year -262143.
pub const FIRST_DAY: i64 = -96_465_292;

/// The day number of the last date that is kept, December 31 of the year 262142.
pub const LAST_DAY: i64 = 95_026_236;

/// Whether the day `days` days after January 1, 1970 is in a year that dates are kept for.
pub open spec fn day_in_range(days: int) -> bool {
    FIRST_DAY <= days <= LAST_DAY
}

/// The time of day `secs` seconds and `nanos` nanoseconds after midnight.
pub open spec fn clock(secs: int, nanos: int) -> CivilTime {
    CivilTime {
        hour: secs / 3600,
        minute: secs / 60 % 60,
        second: secs % 60,
        nanosecond: nanos,
    }
}

/// A year: four digits from 0 to 9999, a sign and at least four digits for any other.
pub open spec fn year_text(year: int) -> Seq<char> {
    if 0 <= year <= 9999 {
        padded(year as nat, 4)
    } else if year > 9999 {
        seq!['+'] + decimal(year as nat)
    } else if year >= -9999 {
        seq!['-'] + padded((-year) as nat, 4)
    } else {
        seq!['-'] + decimal((-year) as nat)
    }
}

/// `year-month-day`, the month and the day of two digits each.
pub open spec fn date_text(date: CivilDate) -> Seq<char> {
    year_text(date.year) + seq!['-'] + padded(date.month as nat, 2) + seq!['-'] + padded(
        date.day as nat,
        2,
    )
}

/// Nanoseconds, unless they are zero: a dot and a fraction of three, six or nine digits, as few as
/// hold them.
pub open spec fn fraction_text(nanos: nat) -> Seq<char> {
    if nanos == 0 {
        Seq::empty()
    } else if nanos % 1_000_000 == 0 {
        seq!['.'] + padded(nanos / 1_000_000, 3)
    } else if nanos % 1_000 == 0 {
        seq!['.'] + padded(nanos / 1_000, 6)
    } else {
        seq!['.'] + padded(nanos, 9)
    }
}

/// `hour:minute:second`, two digits each, and then the nanoseconds as a fraction.
pub open spec fn time_text(time: CivilTime) -> Seq<char> {
    padded(time.hour as nat, 2) + seq![':'] + padded(time.minute as nat, 2) + seq![':'] + padded(
        time.second as nat,
        2,
    ) + fraction_text(time.nanosecond as nat)
}

/// The date, the time of day, and that they are in Universal Time.
pub open spec fn datetime_text(date: CivilDate, time: CivilTime) -> Seq<char> {
    date_text(date) + seq![' '] + time_text(time) + seq![' ', 'U', 'T', 'C']
}

/// `Utc.timestamp_millis` of the `chrono` crate: the date and the time of day in Universal Time
/// `ms` milliseconds after the start of 1970. It panics outside the years that dates are kept for.
#[allow(deprecated)]
#[verifier::external_body]
fn utc_fields(ms: i64) -> (r: (i64, i64, i64, i64, i64, i64, i64))
    requires
        day_in_range(ms as int / 86_400_000),
    ensures
        valid_date((CivilDate { year: r.0 as int, month: r.1 as int, day: r.2 as int })),
        day_number((CivilDate { year: r.0 as int, month: r.1 as int, day: r.2 as int })) == ms as int
            / 86_400_000,
        (CivilTime {
            hour: r.3 as int,
            minute: r.4 as int,
            second: r.5 as int,
            nanosecond: r.6 as int,
        }) == clock(ms as int % 86_400_000 / 1000, ms as int % 1000 * 1_000_000),
{
    let t = Utc.timestamp_millis(ms).naive_utc();
    let (year, month, day) = (t.year().into(), t.month().into(), t.day().into());
    let (hour, minute, second) = (t.hour().into(), t.minute().into(), t.second().into());
    (year, month, day, hour, minute, second, t.nanosecond().into())
}

/// `NaiveTime::from_num_seconds_from_midnight` of the `chrono` crate: the time of day so many
/// seconds and nanoseconds after midnight. It panics from the end of the day on.
#[allow(deprecated)]
#[verifier::external_body]
fn clock_fields(secs: u32, nanos: u32) -> (r: (i64, i64, i64, i64))
    requires
        secs < 86_400,
        nanos < 1_000_000_000,
    ensures
        (CivilTime {
            hour: r.0 as int,
            minute: r.1 as int,
            second: r.2 as int,
            nanosecond: r.3 as int,
        }) == clock(secs as int, nanos as int),
{
    let t = NaiveTime::from_num_seconds_from_midnight(secs, nanos);
    (t.hour().into(), t.minute().into(), t.second().into(), t.nanosecond().into())
}

/// `Display` of `NaiveDate` of the `chrono` crate: year, month and day with hyphens between them,
/// the year with a sign outside the years from 0 to 9999.
#[verifier::external_body]
fn write_date(date: &Date) -> (r: String)
    requires
        valid_date(date@),
    ensures
        r@ == date_text(date@),
{
    let (year, month, day) = (date.year as i32, date.month as u32, date.day as u32);
    format!("{}", NaiveDate::from_ymd_opt(year, month, day).unwrap())
}

/// `Display` of `NaiveTime` of the `chrono` crate: hour, minute and second with colons between them,
/// and the nanoseconds as a fraction of three, six or nine digits unless they are zero.
#[verifier::external_body]
fn write_time(time: &Time) -> (r: String)
    requires
        valid_time(time@),
    ensures
        r@ == time_text(time@),
{
    let (hour, minute) = (time.hour as u32, time.minute as u32);
    let (second, nanosecond) = (time.second as u32, time.nanosecond as u32);
    format!("{}", NaiveTime::from_hms_nano_opt(hour, minute, second, nanosecond).unwrap())
}

/// `Display` of `DateTime<Utc>` of the `chrono` crate: the date, the time of day and `UTC`, with
/// spaces between them.
#[verifier::external_body]
fn write_datetime(date: &Date, time: &Time) -> (r: String)
    requires
        valid_date(date@),
        valid_time(time@),
    ensures
        r@ == datetime_text(date@, time@),
{
    let (year, month, day) = (date.year as i32, date.month as u32, date.day as u32);
    let (hour, minute) = (time.hour as u32, time.minute as u32);
    let (second, nanosecond) = (time.second as u32, time.nanosecond as u32);
    let day = NaiveDate::from_ymd_opt(year, month, day).unwrap();
    format!("{}", day.and_hms_nano_opt(hour, minute, second, nanosecond).unwrap().and_utc())
}

/// A date.
#[derive(Clone, Copy, Debug)]
pub struct Date {
    year: i64,
    month: i64,
    day: i64,
}

/// A time of day.
#[derive(Clone, Copy, Debug)]
pub struct Time {
    hour: i64,
    minute: i64,
    second: i64,
    nanosecond: i64,
}

/// An instant, as its date and time of day in Universal Time.
#[derive(Clone, Copy, Debug)]
pub struct DateTime {
    date: Date,
    time: Time,
}

impl View for Date {
    type V = CivilDate;

    closed spec fn view(&self) -> CivilDate {
        CivilDate { year: self.year as int, month: self.month as int, day: self.day as int }
    }
}

impl View for Time {
    type V = CivilTime;

    closed spec fn view(&self) -> CivilTime {
        CivilTime {
            hour: self.hour as int,
            minute: self.minute as int,
            second: self.second as int,
            nanosecond: self.nanosecond as int,
        }
    }
}

impl View for DateTime {
    type V = (CivilDate, CivilTime);

    closed spec fn view(&self) -> (CivilDate, CivilTime) {
        (self.date@, self.time@)
    }
}

impl Date {
    #[verifier::type_invariant]
    closed spec fn in_calendar(self) -> bool {
        valid_date(self@)
    }

    /// The year.
    pub fn year(&self) -> (r: i64)
        ensures
            r == self@.year,
            valid_date(self@),
    {
        proof {
            use_type_invariant(self);
        }
        self.year
    }

    /// The month, from 1 to 12.
    pub fn month(&self) -> (r: i64)
        ensures
            r == self@.month,
            valid_date(self@),
    {
        proof {
            use_type_invariant(self);
        }
        self.month
    }

    /// The day of the month, from 1.
    pub fn day(&self) -> (r: i64)
        ensures
            r == self@.day,
            valid_date(self@),
    {
        proof {
            use_type_invariant(self);
        }
        self.day
    }

    /// The date as text.
    pub fn to_text(&self) -> (r: String)
        ensures
            r@ == date_text(self@),
    {
        proof {
            use_type_invariant(self);
        }
        write_date(self)
    }
}

impl Time {
    #[verifier::type_invariant]
    closed spec fn in_day(self) -> bool {
        valid_time(self@)
    }

    /// The hour, from 0 to 23.
    pub fn hour(&self) -> (r: i64)
        ensures
            r == self@.hour,
            valid_time(self@),
    {
        proof {
            use_type_invariant(self);
        }
        self.hour
    }

    /// The minute, from 0 to 59.
    pub fn minute(&self) -> (r: i64)
        ensures
            r == self@.minute,
            valid_time(self@),
    {
        proof {
            use_type_invariant(self);
        }
        self.minute
    }

    /// The second, from 0 to 59.
    pub fn second(&self) -> (r: i64)
        ensures
            r == self@.second,
            valid_time(self@),
    {
        proof {
            use_type_invariant(self);
        }
        self.second
    }

    /// The nanosecond within the second.
    pub fn nanosecond(&self) -> (r: i64)
        ensures
            r == self@.nanosecond,
            valid_time(self@),
    {
        proof {
            use_type_invariant(self);
        }
        self.nanosecond
    }

    /// The time of day as text.
    pub fn to_text(&self) -> (r: String)
        ensures
            r@ == time_text(self@),
    {
        proof {
            use_type_invariant(self);
        }
        write_time(self)
    }
}

impl DateTime {
    /// The date in Universal Time.
    pub fn date(&self) -> (r: Date)
        ensures
            r@ == self@.0,
            valid_date(r@),
    {
        let date = self.date;
        proof {
            use_type_invariant(&date);
        }
        date
    }

    /// The time of day in Universal Time.
    pub fn time(&self) -> (r: Time)
        ensures
            r@ == self@.1,
            valid_time(r@),
    {
        let time = self.time;
        proof {
            use_type_invariant(&time);
        }
        time
    }

    /// The instant as text.
    pub fn to_text(&self) -> (r: String)
        ensures
            r@ == datetime_text(self@.0, self@.1),
    {
        let date = self.date();
        let time = self.time();
        write_datetime(&date, &time)
    }
}

/// The whole seconds and the nanoseconds beyond them that a count of nanoseconds after midnight is
/// taken for. Both are zero for a negative count, and the seconds are zero again where there are
/// too many for thirty-two bits.
pub open spec fn time_parts(t: int) -> (int, int) {
    if t < 0 {
        (0, 0)
    } else {
        (if t / 1_000_000_000 <= u32::MAX { t / 1_000_000_000 } else { 0 }, t % 1_000_000_000)
    }
}

/// Whether a count of nanoseconds after midnight is taken for a time within the day.
pub open spec fn time_in_range(t: int) -> bool {
    time_parts(t).0 < 86_400
}

/// Whether there is a time of day `t` nanoseconds after midnight.
pub fn is_time(t: i64) -> (r: bool)
    ensures
        r == time_in_range(t as int),
{
    t < 86_400_000_000_000 || t / 1_000_000_000 > 0xffff_ffff
}

/// The time of day `t` nanoseconds after midnight.
pub fn to_time(t: i64) -> (r: Time)
    requires
        time_in_range(t as int),
    ensures
        r@ == clock(time_parts(t as int).0, time_parts(t as int).1),
{
    let (secs, nanos): (u32, u32) = if t < 0 {
        (0, 0)
    } else {
        let whole: i64 = t / 1_000_000_000;
        let secs: u32 = if whole <= 0xffff_ffff { whole as u32 } else { 0 };
        (secs, (t % 1_000_000_000) as u32)
    };
    let (hour, minute, second, nanosecond) = clock_fields(secs, nanos);
    Time { hour, minute, second, nanosecond }
}

/// Whether the date `d` days after January 1, 1970 is one that is kept.
pub fn is_date(d: i32) -> (r: bool)
    ensures
        r == day_in_range(d as int),
{
    FIRST_DAY <= d as i64 && d as i64 <= LAST_DAY
}

/// The date `d` days after January 1, 1970.
pub fn to_date(d: i32) -> (r: Date)
    requires
        day_in_range(d as int),
    ensures
        valid_date(r@),
        day_number(r@) == d,
        r@ == date_of(d as int),
{
    let ts: i64 = d as i64 * 24 * 60 * 60 * 1000;
    let (year, month, day, _, _, _, _) = utc_fields(ts);
    let date = Date { year, month, day };
    proof {
        law_one_date_for_each_day(date@, date_of(d as int));
    }
    date
}

/// Whether the date of the instant `t` milliseconds after the start of 1970 is one that is kept.
pub fn is_datetime(t: i64) -> (r: bool)
    ensures
        r == day_in_range(t as int / 86_400_000),
{
    FIRST_DAY * 86_400_000 <= t && t < (LAST_DAY + 1) * 86_400_000
}

/// The instant `t` milliseconds after the start of 1970 in Universal Time.
pub fn to_datetime(t: i64) -> (r: DateTime)
    requires
        day_in_range(t as int / 86_400_000),
    ensures
        valid_date(r@.0),
        day_number(r@.0) == t as int / 86_400_000,
        r@.0 == date_of(t as int / 86_400_000),
        r@.1 == clock(t as int % 86_400_000 / 1000, t as int % 1000 * 1_000_000),
{
    let (year, month, day, hour, minute, second, nanosecond) = utc_fields(t);
    let date = Date { year, month, day };
    proof {
        law_one_date_for_each_day(date@, date_of(t as int / 86_400_000));
    }
    DateTime { date, time: Time { hour, minute, second, nanosecond } }
}

/// The number of February 29s of a year.
spec fn leap_days(year: int) -> int {
    if is_leap(year) {
        1
    } else {
        0
    }
}

/// Where each month of a year starts.
proof fn lemma_month_starts(year: int)
    ensures
        days_before_month(year, 1) == 0,
        days_before_month(year, 2) == 31,
        days_before_month(year, 3) == 59 + leap_days(year),
        days_before_month(year, 4) == 90 + leap_days(year),
        days_before_month(year, 5) == 120 + leap_days(year),
        days_before_month(year, 6) == 151 + leap_days(year),
        days_before_month(year, 7) == 181 + leap_days(year),
        days_before_month(year, 8) == 212 + leap_days(year),
        days_before_month(year, 9) == 243 + leap_days(year),
        days_before_month(year, 10) == 273 + leap_days(year),
        days_before_month(year, 11) == 304 + leap_days(year),
        days_before_month(year, 12) == 334 + leap_days(year),
        days_before_month(year, 13) == 365 + leap_days(year),
{
    assert(days_before_month(year, 1) == 0);
    assert(days_before_month(year, 2) == 31);
    assert(days_before_month(year, 3) == 59 + leap_days(year));
    assert(days_before_month(year, 4) == 90 + leap_days(year));
    assert(days_before_month(year, 5) == 120 + leap_days(year));
    assert(days_before_month(year, 6) == 151 + leap_days(year));
    assert(days_before_month(year, 7) == 181 + leap_days(year));
    assert(days_before_month(year, 8) == 212 + leap_days(year));
    assert(days_before_month(year, 9) == 243 + leap_days(year));
    assert(days_before_month(year, 10) == 273 + leap_days(year));
    assert(days_before_month(year, 11) == 304 + leap_days(year));
    assert(days_before_month(year, 12) == 334 + leap_days(year));
}

/// The length of a year.
#[verifier::rlimit(40)]
proof fn lemma_year_length(year: int)
    ensures
        days_before_year(year + 1) - days_before_year(year) == 365 + leap_days(year),
{
    lemma_multiples_passed(year);
    assert(year % 400 == 0 ==> year % 100 == 0);
    assert(year % 100 == 0 ==> year % 4 == 0);
}

/// One more year is one more multiple of four, of a hundred or of four hundred where it is one.
#[verifier::spinoff_prover]
proof fn lemma_multiples_passed(year: int)
    ensures
        year / 4 - (year - 1) / 4 == (if year % 4 == 0 {
            1int
        } else {
            0
        }),
        year / 100 - (year - 1) / 100 == (if year % 100 == 0 {
            1int
        } else {
            0
        }),
        year / 400 - (year - 1) / 400 == (if year % 400 == 0 {
            1int
        } else {
            0
        }),
{
}

/// The months of a year follow one another within it.
#[verifier::rlimit(40)]
proof fn lemma_months_in_order(year: int, a: int, b: int)
    requires
        1 <= a < b <= 13,
    ensures
        0 <= days_before_month(year, a),
        days_before_month(year, a) + days_in_month(year, a) <= days_before_month(year, b),
        days_before_month(year, b) <= days_before_year(year + 1) - days_before_year(year),
    decreases b - a,
{
    lemma_month_starts(year);
    lemma_year_length(year);
    if b - a > 1 {
        lemma_months_in_order(year, a, b - 1);
    }
}

/// The years follow one another.
proof fn lemma_years_in_order(a: int, b: int)
    requires
        a < b,
    ensures
        days_before_year(a + 1) <= days_before_year(b),
{
}

/// The day after a date, in its month, in the next month or in the next year, is one day further.
#[verifier::rlimit(40)]
pub proof fn lemma_next_day(date: CivilDate)
    requires
        valid_date(date),
    ensures
        day_number((CivilDate { year: 1970, month: 1, day: 1 })) == 0,
        date.day < days_in_month(date.year, date.month) ==> day_number(
            (CivilDate { year: date.year, month: date.month, day: date.day + 1 }),
        ) == day_number(date) + 1,
        date.day == days_in_month(date.year, date.month) && date.month < 12 ==> day_number(
            (CivilDate { year: date.year, month: date.month + 1, day: 1 }),
        ) == day_number(date) + 1,
        date.month == 12 && date.day == 31 ==> day_number(
            (CivilDate { year: date.year + 1, month: 1, day: 1 }),
        ) == day_number(date) + 1,
{
    lemma_month_starts(1970);
    lemma_month_starts(date.year);
    lemma_month_starts(date.year + 1);
    lemma_year_length(date.year);
}

/// A later date has a higher day number: day numbers order dates as the calendar does.
pub proof fn law_day_numbers_in_calendar_order(a: CivilDate, b: CivilDate)
    requires
        valid_date(a),
        valid_date(b),
    ensures
        earlier(a, b) <==> day_number(a) < day_number(b),
{
    lemma_earlier_is_less(a, b);
    lemma_earlier_is_less(b, a);
}

proof fn lemma_earlier_is_less(a: CivilDate, b: CivilDate)
    requires
        valid_date(a),
        valid_date(b),
    ensures
        earlier(a, b) ==> day_number(a) < day_number(b),
{
    lemma_months_in_order(a.year, a.month, 13);
    lemma_months_in_order(b.year, b.month, 13);
    if a.year < b.year {
        lemma_years_in_order(a.year, b.year);
    } else if a.year == b.year && a.month < b.month {
        lemma_months_in_order(a.year, a.month, b.month);
    }
}

/// The day after `date`.
spec fn next_date(date: CivilDate) -> CivilDate {
    if date.day < days_in_month(date.year, date.month) {
        CivilDate { day: date.day + 1, ..date }
    } else if date.month < 12 {
        CivilDate { year: date.year, month: date.month + 1, day: 1 }
    } else {
        CivilDate { year: date.year + 1, month: 1, day: 1 }
    }
}

/// The date `days` days after the first that is kept.
proof fn lemma_date_from_first(days: nat) -> (date: CivilDate)
    requires
        day_in_range(days + FIRST_DAY),
    ensures
        valid_date(date),
        day_number(date) == days + FIRST_DAY,
    decreases days,
{
    if days == 0 {
        lemma_month_starts(-262_143);
        CivilDate { year: -262_143, month: 1, day: 1 }
    } else {
        let before = lemma_date_from_first((days - 1) as nat);
        let date = next_date(before);
        lemma_month_starts(before.year);
        lemma_month_starts(before.year + 1);
        lemma_year_length(before.year);
        if before.year == 262_142 && before.month == 12 && before.day == 31 {
            assert(false);
        }
        date
    }
}

/// The day numbers of the first and the last date that are kept.
pub proof fn lemma_ends_of_range()
    ensures
        day_number((CivilDate { year: -262_143, month: 1, day: 1 })) == FIRST_DAY,
        day_number((CivilDate { year: 262_142, month: 12, day: 31 })) == LAST_DAY,
{
    lemma_month_starts(-262_143);
    lemma_month_starts(262_142);
}

/// Every day in range has a date.
pub proof fn law_every_day_has_a_date(days: int)
    requires
        day_in_range(days),
    ensures
        valid_date(date_of(days)),
        day_number(date_of(days)) == days,
{
    let date = lemma_date_from_first((days - FIRST_DAY) as nat);
    assert(valid_date(date) && day_number(date) == days);
}

/// No two dates share a day number.
pub proof fn law_one_date_for_each_day(a: CivilDate, b: CivilDate)
    requires
        valid_date(a),
        valid_date(b),
        day_number(a) == day_number(b),
    ensures
        a == b,
{
    law_day_numbers_in_calendar_order(a, b);
    law_day_numbers_in_calendar_order(b, a);
}

} // verus!
