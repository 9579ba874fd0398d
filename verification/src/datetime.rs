//! Calendar dates and local date-times as plain values, their text forms
//! `%Y-%m-%d` and `%Y-%m-%d %H:%M:%S`, and the few `chrono` operations the
//! rest of the library needs (the clock, parsing, day arithmetic).

use vstd::prelude::*;
use crate::text::push_char;
use crate::fmt::{int_padded, push_padded};
use chrono::{Datelike, Timelike};

verus! {

/// Smallest year `chrono::NaiveDate` can hold.
pub const MIN_YEAR: i32 = -262143;
/// Largest year `chrono::NaiveDate` can hold.
pub const MAX_YEAR: i32 = 262142;

/// A proleptic Gregorian calendar date.
#[derive(Clone, Copy, Debug, PartialEq, Eq, Structural)]
pub struct Date {
    pub year: i32,
    pub month: u32,
    pub day: u32,
}

/// A date with a time of day, to the second.
#[derive(Clone, Copy, Debug, PartialEq, Eq, Structural)]
pub struct DateTime {
    pub date: Date,
    pub hour: u32,
    pub minute: u32,
    pub second: u32,
}

pub open spec fn is_leap(y: int) -> bool {
    (y % 4 == 0 && y % 100 != 0) || y % 400 == 0
}

pub open spec fn days_in_month(y: int, m: int) -> int {
    if m == 2 {
        if is_leap(y) { 29 } else { 28 }
    } else if m == 4 || m == 6 || m == 9 || m == 11 {
        30
    } else {
        31
    }
}

/// A date that `chrono::NaiveDate` can represent.
pub open spec fn valid_ymd(y: int, m: int, d: int) -> bool {
    &&& MIN_YEAR <= y <= MAX_YEAR
    &&& 1 <= m <= 12
    &&& 1 <= d <= days_in_month(y, m)
}

/// Days since 1970-01-01 of a Gregorian date (negative before it).
pub open spec fn day_number(y: int, m: int, d: int) -> int {
    let yy = if m <= 2 { y - 1 } else { y };
    let era = yy / 400;
    let yoe = yy - era * 400;
    let mp = if m > 2 { m - 3 } else { m + 9 };
    let doy = (153 * mp + 2) / 5 + d - 1;
    let doe = yoe * 365 + yoe / 4 - yoe / 100 + doy;
    era * 146097 + doe - 719468
}

/// Days from 0000-03-01 to March 1 of year `yy` (years counted from March).
spec fn march_days(yy: int) -> int {
    let era = yy / 400;
    let yoe = yy - era * 400;
    era * 146097 + yoe * 365 + yoe / 4 - yoe / 100
}

proof fn lemma_march_year(yy: int)
    ensures
        march_days(yy + 1) - march_days(yy) == 365 + (if is_leap(yy + 1) { 1int } else { 0int }),
{
    let e = yy / 400;
    let r = yy % 400;
    assert(yy == 400 * e + r && 0 <= r < 400);
    let z = yy + 1;
    if r < 399 {
        assert(z / 400 == e && z % 400 == r + 1) by (nonlinear_arith)
            requires
                yy == 400 * e + r,
                0 <= r < 399,
                z == yy + 1,
        ;
        assert(z % 4 == (r + 1) % 4 && z % 100 == (r + 1) % 100) by (nonlinear_arith)
            requires
                z == 400 * e + r + 1,
        ;
        assert(((r + 1) / 4 - r / 4 == if (r + 1) % 4 == 0 { 1int } else { 0int })) by (nonlinear_arith)
            requires
                0 <= r,
        ;
        assert(((r + 1) / 100 - r / 100 == if (r + 1) % 100 == 0 { 1int } else { 0int })) by (nonlinear_arith)
            requires
                0 <= r,
        ;
        assert((r + 1) % 100 == 0 ==> (r + 1) % 4 == 0) by (nonlinear_arith);
    } else {
        assert(z / 400 == e + 1 && z % 400 == 0) by (nonlinear_arith)
            requires
                yy == 400 * e + 399,
                z == yy + 1,
        ;
    }
}

proof fn lemma_march_days_closed(yy: int)
    ensures
        march_days(yy) == 365 * yy + yy / 4 - yy / 100 + yy / 400,
{
    let e = yy / 400;
    let r = yy % 400;
    assert(yy == 400 * e + r && 0 <= r < 400);
    assert(yy / 4 == 100 * e + r / 4 && yy / 100 == 4 * e + r / 100) by (nonlinear_arith)
        requires
            yy == 400 * e + r,
            0 <= r < 400,
    ;
}

proof fn lemma_march_days_monotone(a: int, b: int)
    requires
        a <= b,
    ensures
        march_days(a) + 365 * (b - a) <= march_days(b),
{
    lemma_march_days_closed(a);
    lemma_march_days_closed(b);
    assert(a / 4 <= b / 4 && a / 400 <= b / 400) by (nonlinear_arith)
        requires
            a <= b,
    ;
    assert(b / 100 - a / 100 <= (b - a) / 100 + 1) by (nonlinear_arith)
        requires
            a <= b,
    ;
    assert((b - a) / 100 + 1 <= 365 * (b - a) + 1) by (nonlinear_arith)
        requires
            a <= b,
    ;
    assert(b / 4 - a / 4 >= 0);
}

/// Later dates have larger day numbers; in particular every valid date is
/// numbered at least like the first representable day.
pub proof fn lemma_day_number_monotone(y1: int, m1: int, d1: int, y2: int, m2: int, d2: int)
    requires
        valid_ymd(y1, m1, d1),
        valid_ymd(y2, m2, d2),
        y1 < y2 || (y1 == y2 && m1 < m2) || (y1 == y2 && m1 == m2 && d1 <= d2),
    ensures
        day_number(y1, m1, d1) <= day_number(y2, m2, d2),
{
    let yy1 = if m1 <= 2 { y1 - 1 } else { y1 };
    let yy2 = if m2 <= 2 { y2 - 1 } else { y2 };
    let mp1 = if m1 > 2 { m1 - 3 } else { m1 + 9 };
    let mp2 = if m2 > 2 { m2 - 3 } else { m2 + 9 };
    if yy1 < yy2 {
        lemma_march_days_monotone(yy1, yy2);
        assert((153 * mp1 + 2) / 5 + d1 - 1 <= 366);
        assert(0 <= (153 * mp2 + 2) / 5 + d2 - 1);
    } else {
        assert(yy1 == yy2);
        assert(mp1 <= mp2);
        assert((153 * mp1 + 2) / 5 <= (153 * mp2 + 2) / 5) by (nonlinear_arith)
            requires
                mp1 <= mp2,
        ;
        if mp1 == mp2 {
            assert(m1 == m2);
        }
    }
}

/// Consecutive days have consecutive day numbers: the day after a date is
/// the next day of its month, or the first of the next month after the
/// month's last day, or January 1 after December 31.
pub proof fn lemma_next_day(y: int, m: int, d: int)
    requires
        1 <= m <= 12,
        1 <= d <= days_in_month(y, m),
    ensures
        d < days_in_month(y, m) ==> day_number(y, m, d + 1) == day_number(y, m, d) + 1,
        d == days_in_month(y, m) && m < 12 ==> day_number(y, m + 1, 1) == day_number(y, m, d) + 1,
        d == days_in_month(y, m) && m == 12 ==> day_number(y + 1, 1, 1) == day_number(y, m, d) + 1,
{
    if d == days_in_month(y, m) && m == 2 {
        lemma_march_year(y - 1);
        assert(march_days(y - 1) + 0 == march_days(y - 1));
    }
}

impl Date {
    pub open spec fn wf(&self) -> bool {
        valid_ymd(self.year as int, self.month as int, self.day as int)
    }

    pub open spec fn days(&self) -> int {
        day_number(self.year as int, self.month as int, self.day as int)
    }
}

impl DateTime {
    pub open spec fn wf(&self) -> bool {
        self.date.wf() && self.hour < 24 && self.minute < 60 && self.second < 60
    }

    /// Seconds since 1970-01-01 00:00:00.
    pub open spec fn seconds(&self) -> int {
        self.date.days() * 86400 + self.hour * 3600 + self.minute * 60 + self.second
    }
}

/// The number of days of month `m` (1..=12) of year `y`.
fn month_length(y: i32, m: u32) -> (n: u32)
    requires
        MIN_YEAR <= y <= MAX_YEAR,
        1 <= m <= 12,
    ensures
        n == days_in_month(y as int, m as int),
{
    let yy: u32 = (y as i64 + 400000) as u32;
    proof {
        let a = y as int;
        let b = yy as int;
        assert(b == a + 400000);
        assert(b % 4 == a % 4 && b % 100 == a % 100 && b % 400 == a % 400) by (nonlinear_arith)
            requires b == a + 400000;
        assert(is_leap(a) == is_leap(b));
    }
    if m == 2 {
        if (yy % 4 == 0 && yy % 100 != 0) || yy % 400 == 0 { 29 } else { 28 }
    } else if m == 4 || m == 6 || m == 9 || m == 11 {
        30
    } else {
        31
    }
}

impl Date {
    /// Whether the date exists in chrono's calendar.
    pub fn is_valid(&self) -> (r: bool)
        ensures
            r == self.wf(),
    {
        if self.year < MIN_YEAR || self.year > MAX_YEAR || self.month < 1 || self.month > 12 {
            return false;
        }
        1 <= self.day && self.day <= month_length(self.year, self.month)
    }
}

impl DateTime {
    /// Whether the date exists and the time of day is within a day.
    pub fn is_valid(&self) -> (r: bool)
        ensures
            r == self.wf(),
    {
        self.date.is_valid() && self.hour < 24 && self.minute < 60 && self.second < 60
    }
}

/// `%Y` as chrono writes it: four digits, zero-padded, for years 0..=9999;
/// otherwise a sign always, then at least four digits.
pub open spec fn year_text(y: int) -> Seq<char> {
    if 0 <= y <= 9999 {
        int_padded(y, 4)
    } else if y < 0 {
        seq!['-'] + int_padded(-y, 4)
    } else {
        seq!['+'] + int_padded(y, 4)
    }
}

/// `%Y-%m-%d`.
pub open spec fn date_text(d: Date) -> Seq<char> {
    year_text(d.year as int) + seq!['-'] + int_padded(d.month as int, 2) + seq!['-']
        + int_padded(d.day as int, 2)
}

/// `%Y-%m-%d %H:%M:%S`.
pub open spec fn datetime_text(t: DateTime) -> Seq<char> {
    date_text(t.date) + seq![' '] + int_padded(t.hour as int, 2) + seq![':']
        + int_padded(t.minute as int, 2) + seq![':'] + int_padded(t.second as int, 2)
}

/// Appends `%Y` of a year.
fn push_year(s: &mut String, y: i32)
    ensures
        final(s)@ == old(s)@ + year_text(y as int),
{
    if 0 <= y && y <= 9999 {
        push_padded(s, y as i64, 4);
    } else if y < 0 {
        push_char(s, '-');
        push_padded(s, -(y as i64), 4);
        proof {
            assert(old(s)@ + year_text(y as int) =~= old(s)@.push('-') + int_padded(-(y as int), 4));
        }
    } else {
        push_char(s, '+');
        push_padded(s, y as i64, 4);
        proof {
            assert(old(s)@ + year_text(y as int) =~= old(s)@.push('+') + int_padded(y as int, 4));
        }
    }
}

/// Appends `%Y-%m-%d` of a date.
pub fn push_date(s: &mut String, d: &Date)
    ensures
        final(s)@ == old(s)@ + date_text(*d),
{
    push_year(s, d.year);
    push_char(s, '-');
    push_padded(s, d.month as i64, 2);
    push_char(s, '-');
    push_padded(s, d.day as i64, 2);
    proof {
        assert(s@ =~= old(s)@ + date_text(*d));
    }
}

/// `d.format("%Y-%m-%d").to_string()`.
pub fn format_date(d: &Date) -> (s: String)
    ensures
        s@ == date_text(*d),
{
    let mut s = String::new();
    push_date(&mut s, d);
    proof {
        assert(s@ =~= date_text(*d));
    }
    s
}

/// `t.format("%Y-%m-%d %H:%M:%S").to_string()`.
pub fn format_datetime(t: &DateTime) -> (s: String)
    ensures
        s@ == datetime_text(*t),
{
    let mut s = String::new();
    push_date(&mut s, &t.date);
    push_char(&mut s, ' ');
    push_padded(&mut s, t.hour as i64, 2);
    push_char(&mut s, ':');
    push_padded(&mut s, t.minute as i64, 2);
    push_char(&mut s, ':');
    push_padded(&mut s, t.second as i64, 2);
    proof {
        assert(s@ =~= datetime_text(*t));
    }
    s
}

// ---------------------------------------------------------------------------
// Trusted items: chrono
// ---------------------------------------------------------------------------

/// What `chrono::NaiveDate::parse_from_str(s, "%Y-%m-%d")` gives: the date's
/// year, month and day, or the text of the `ParseError`.
pub uninterp spec fn ymd_parse(s: Seq<char>) -> Result<(i32, u32, u32), Seq<char>>;

/// `chrono::Local::now().naive_local()`, to the second.  The value depends on
/// the clock; only that it is a valid date and time is stated.
#[verifier::external_body]
pub(crate) fn local_now() -> (t: DateTime)
    ensures
        t.wf(),
{
    let n = chrono::Local::now().naive_local();
    DateTime {
        date: Date { year: n.year(), month: n.month(), day: n.day() },
        hour: n.hour(),
        minute: n.minute(),
        second: n.second(),
    }
}

/// `chrono::Utc::now().naive_utc()`, to the second; a valid date and time.
#[verifier::external_body]
pub(crate) fn utc_now() -> (t: DateTime)
    ensures
        t.wf(),
{
    let n = chrono::Utc::now().naive_utc();
    DateTime {
        date: Date { year: n.year(), month: n.month(), day: n.day() },
        hour: n.hour(),
        minute: n.minute(),
        second: n.second(),
    }
}

/// `chrono::NaiveDate::parse_from_str(s, "%Y-%m-%d")`, its error as text.
/// A parsed `NaiveDate` is always a valid date.
#[verifier::external_body]
pub(crate) fn parse_ymd(s: &str) -> (res: Result<Date, String>)
    ensures
        match (res, ymd_parse(s@)) {
            (Ok(d), Ok(t)) => d.year == t.0 && d.month == t.1 && d.day == t.2 && d.wf(),
            (Err(e), Err(m)) => e@ == m,
            _ => false,
        },
{
    match chrono::NaiveDate::parse_from_str(s, "%Y-%m-%d") {
        Ok(d) => Ok(Date { year: d.year(), month: d.month(), day: d.day() }),
        Err(e) => Err(e.to_string()),
    }
}

/// `chrono::NaiveDate::from_ymd_opt(y, m, d)`: a date exactly when the three
/// numbers name one in chrono's range.
#[verifier::external_body]
pub(crate) fn date_from_ymd(y: i32, m: u32, d: u32) -> (res: Option<Date>)
    ensures
        res is Some <==> valid_ymd(y as int, m as int, d as int),
        res matches Some(x) ==> x.year == y && x.month == m && x.day == d,
{
    match chrono::NaiveDate::from_ymd_opt(y, m, d) {
        Some(x) => Some(Date { year: x.year(), month: x.month(), day: x.day() }),
        None => None,
    }
}

/// `chrono::NaiveDate::checked_sub_days(d, Days::new(n))`: the date `n` days
/// earlier, `None` when that falls before the earliest representable date.
#[verifier::external_body]
pub(crate) fn date_sub_days(d: Date, n: u32) -> (res: Option<Date>)
    requires
        d.wf(),
    ensures
        res is Some <==> d.days() - n >= day_number(MIN_YEAR as int, 1, 1),
        res matches Some(x) ==> x.wf() && x.days() == d.days() - n,
{
    let x = chrono::NaiveDate::from_ymd_opt(d.year, d.month, d.day).unwrap();
    match x.checked_sub_days(chrono::Days::new(n as u64)) {
        Some(y) => Some(Date { year: y.year(), month: y.month(), day: y.day() }),
        None => None,
    }
}

/// `chrono::NaiveDate::pred_opt`: the previous day, `None` for the earliest
/// representable date.
#[verifier::external_body]
pub(crate) fn date_pred(d: Date) -> (res: Option<Date>)
    requires
        d.wf(),
    ensures
        res is Some <==> d.days() - 1 >= day_number(MIN_YEAR as int, 1, 1),
        res matches Some(x) ==> x.wf() && x.days() == d.days() - 1,
{
    let x = chrono::NaiveDate::from_ymd_opt(d.year, d.month, d.day).unwrap();
    match x.pred_opt() {
        Some(y) => Some(Date { year: y.year(), month: y.month(), day: y.day() }),
        None => None,
    }
}

/// `(b - a).num_seconds()` for two `chrono::NaiveDateTime`s.
#[verifier::external_body]
pub(crate) fn seconds_between(a: DateTime, b: DateTime) -> (res: i64)
    requires
        a.wf(),
        b.wf(),
    ensures
        res == b.seconds() - a.seconds(),
{
    let na = chrono::NaiveDate::from_ymd_opt(a.date.year, a.date.month, a.date.day).unwrap();
    let nb = chrono::NaiveDate::from_ymd_opt(b.date.year, b.date.month, b.date.day).unwrap();
    let ta = na.and_hms_opt(a.hour, a.minute, a.second).unwrap();
    let tb = nb.and_hms_opt(b.hour, b.minute, b.second).unwrap();
    (tb - ta).num_seconds()
}

} // verus!
