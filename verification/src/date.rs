//! Calendar dates of the proleptic Gregorian calendar, with the day
//! arithmetic that grouping and range checks need.
use vstd::prelude::*;
use chrono::Datelike;
use crate::text::{padded_decimal, u64_to_padded_decimal, push_char};

verus! {

/// The smallest year a date can have.
pub const MIN_YEAR: i32 = -262143;

/// The largest year a date can have.
pub const MAX_YEAR: i32 = 262142;

pub open spec fn is_leap(y: int) -> bool {
    y % 4 == 0 && (y % 100 != 0 || y % 400 == 0)
}

pub open spec fn days_in_month(y: int, m: int) -> int {
    if m == 2 {
        if is_leap(y) { 29 } else { 28 }
    } else if m == 4 || m == 6 || m == 9 || m == 11 {
        30
    } else {
        31
    }
}

/// Whether `(y, m, d)` names a day of the calendar within the supported years.
pub open spec fn valid_ymd(y: int, m: int, d: int) -> bool {
    &&& MIN_YEAR <= y <= MAX_YEAR
    &&& 1 <= m <= 12
    &&& 1 <= d <= days_in_month(y, m)
}

/// Days in the years before `y`, counted from the start of year 0
/// (negative for years before 0).
pub open spec fn days_before_year(y: int) -> int {
    365 * y + (y + 3) / 4 - (y + 99) / 100 + (y + 399) / 400
}

/// Days in the months of year `y` before month `m`.
pub open spec fn days_before_month(y: int, m: int) -> int
    decreases m,
{
    if m <= 1 {
        0
    } else {
        days_before_month(y, m - 1) + days_in_month(y, m - 1)
    }
}

/// The number of the day `(y, m, d)`, with 0000-01-01 as day 0.
pub open spec fn day_number(y: int, m: int, d: int) -> int {
    days_before_year(y) + days_before_month(y, m) + d - 1
}

/// A calendar date.
#[derive(Clone, Copy, Debug, PartialEq, Eq, Hash)]
pub struct Date {
    year: i32,
    month: u32,
    day: u32,
}

impl Date {
    pub closed spec fn spec_year(self) -> int {
        self.year as int
    }

    pub closed spec fn spec_month(self) -> int {
        self.month as int
    }

    pub closed spec fn spec_day(self) -> int {
        self.day as int
    }

    #[verifier::type_invariant]
    closed spec fn inv(self) -> bool {
        valid_ymd(self.year as int, self.month as int, self.day as int)
    }

    /// The day number of this date (0000-01-01 is day 0).
    pub open spec fn num(self) -> int {
        day_number(self.spec_year(), self.spec_month(), self.spec_day())
    }

    /// The date `year-month-day`, or `None` when there is no such day.
    pub fn from_ymd_opt(year: i32, month: u32, day: u32) -> (r: Option<Date>)
        ensures
            r is Some <==> valid_ymd(year as int, month as int, day as int),
            r matches Some(dt) ==> dt.spec_year() == year && dt.spec_month() == month
                && dt.spec_day() == day,
    {
        if year < MIN_YEAR || year > MAX_YEAR || month < 1 || month > 12 || day < 1 {
            return None;
        }
        if day > days_in_month_exec(year, month) {
            return None;
        }
        Some(Date { year, month, day })
    }

    pub fn year(&self) -> (r: i32)
        ensures
            r == self.spec_year(),
    {
        self.year
    }

    pub fn month(&self) -> (r: u32)
        ensures
            r == self.spec_month(),
            1 <= r <= 12,
    {
        proof {
            use_type_invariant(self);
        }
        self.month
    }

    pub fn day(&self) -> (r: u32)
        ensures
            r == self.spec_day(),
    {
        self.day
    }

    /// The day number of this date (0000-01-01 is day 0).
    pub fn day_number(&self) -> (r: i64)
        ensures
            r == self.num(),
            -100_000_000 <= r <= 100_000_000,
    {
        proof {
            use_type_invariant(self);
        }
        let y = self.year as i64;
        // shift by a multiple of 400 so that every division sees a non-negative numerator
        let t = y + 262400;
        let by = 365 * y + ((t + 3) / 4 - 65600) - ((t + 99) / 100 - 2624) + ((t + 399) / 400
            - 656);
        assert(by == days_before_year(y as int)) by {
            lemma_shift_div(y as int + 3, 4, 65600);
            lemma_shift_div(y as int + 99, 100, 2624);
            lemma_shift_div(y as int + 399, 400, 656);
        }
        assert(-100_000_000 + 400 <= by <= 100_000_000 - 400) by (nonlinear_arith)
            requires
                by == 365 * y + ((t + 3) / 4 - 65600) - ((t + 99) / 100 - 2624) + ((t + 399) / 400
                    - 656),
                t == y + 262400,
                -262143 <= y <= 262142,
        {
        }
        let bm = days_before_month_exec(self.year, self.month);
        by + bm + self.day as i64 - 1
    }

    /// Whether `self` comes before `other` or is the same day.
    pub fn le(&self, other: &Date) -> (r: bool)
        ensures
            r == (self.num() <= other.num()),
    {
        self.day_number() <= other.day_number()
    }

    /// The date written `YYYY-MM-DD`, with a sign and at least four digits
    /// for years outside 0..=9999 (what `NaiveDate`'s `Display` gives).
    pub fn to_iso_string(&self) -> (s: String)
        ensures
            s@ == iso_date(self.spec_year(), self.spec_month(), self.spec_day()),
    {
        proof {
            use_type_invariant(self);
        }
        let mut s = String::new();
        let y = self.year;
        if y < 0 {
            push_char(&mut s, '-');
        } else if y > 9999 {
            push_char(&mut s, '+');
        }
        let abs: u64 = if y < 0 { (-(y as i64)) as u64 } else { y as u64 };
        let ys = u64_to_padded_decimal(abs, 4);
        s.append(ys.as_str());
        push_char(&mut s, '-');
        let ms = u64_to_padded_decimal(self.month as u64, 2);
        s.append(ms.as_str());
        push_char(&mut s, '-');
        let ds = u64_to_padded_decimal(self.day as u64, 2);
        s.append(ds.as_str());
        s
    }
}

/// The text of a date as `NaiveDate`'s `Display` writes it.
pub open spec fn iso_date(y: int, m: int, d: int) -> Seq<char> {
    let sign: Seq<char> = if y < 0 {
        seq!['-']
    } else if y > 9999 {
        seq!['+']
    } else {
        Seq::empty()
    };
    let abs: nat = if y < 0 { (-y) as nat } else { y as nat };
    sign + padded_decimal(abs, 4) + seq!['-'] + padded_decimal(m as nat, 2) + seq!['-']
        + padded_decimal(d as nat, 2)
}

proof fn lemma_shift_div(a: int, q: int, k: int)
    requires
        q > 0,
    ensures
        (a + q * k) / q - k == a / q,
{
    vstd::arithmetic::div_mod::lemma_hoist_over_denominator(a, k, q as nat);
    assert(k * q == q * k) by (nonlinear_arith);
}

fn days_in_month_exec(y: i32, m: u32) -> (r: u32)
    requires
        1 <= m <= 12,
    ensures
        r == days_in_month(y as int, m as int),
{
    if m == 2 {
        if y % 4 == 0 && (y % 100 != 0 || y % 400 == 0) {
            assert(is_leap(y as int));
            29
        } else {
            30 - 2
        }
    } else if m == 4 || m == 6 || m == 9 || m == 11 {
        30
    } else {
        31
    }
}

fn days_before_month_exec(y: i32, m: u32) -> (r: i64)
    requires
        1 <= m <= 12,
    ensures
        r == days_before_month(y as int, m as int),
        0 <= r <= 335,
{
    let mut k: u32 = 1;
    let mut acc: i64 = 0;
    while k < m
        invariant
            1 <= k <= m <= 12,
            acc == days_before_month(y as int, k as int),
            0 <= acc <= 31 * (k - 1),
        decreases m - k,
    {
        acc = acc + days_in_month_exec(y, k) as i64;
        k = k + 1;
    }
    assert(acc <= 335) by {
        reveal_with_fuel(days_before_month, 12);
    }
    acc
}

impl Default for Date {
    /// The first day of 1970, as for `NaiveDate`.
    fn default() -> (r: Date)
        ensures
            r.spec_year() == 1970 && r.spec_month() == 1 && r.spec_day() == 1,
    {
        Date { year: 1970, month: 1, day: 1 }
    }
}

/// What `NaiveDate::parse_from_str(text, "%Y-%m-%d")` gives, as year,
/// month and day.
pub uninterp spec fn chrono_ymd(text: Seq<char>) -> Option<(i32, u32, u32)>;

/// `NaiveDate::parse_from_str` with the format `%Y-%m-%d`.
#[verifier::external_body]
fn chrono_parse_ymd(text: &str) -> (r: Option<(i32, u32, u32)>)
    ensures
        r == chrono_ymd(text@),
{
    chrono::NaiveDate::parse_from_str(text, "%Y-%m-%d").ok().map(|d| (d.year(), d.month(), d.day()))
}

/// The date that `chrono` reads from `text` in the form `%Y-%m-%d`, when it
/// is one this type holds.
pub open spec fn parsed_iso_date(text: Seq<char>) -> Option<(int, int, int)> {
    match chrono_ymd(text) {
        Some((y, m, d)) => if valid_ymd(y as int, m as int, d as int) {
            Some((y as int, m as int, d as int))
        } else {
            None
        },
        None => None,
    }
}

impl Date {
    /// The date written in `text` as `%Y-%m-%d`.
    pub fn parse_iso(text: &str) -> (r: Option<Date>)
        ensures
            r is Some <==> parsed_iso_date(text@) is Some,
            r matches Some(dt) ==> parsed_iso_date(text@) == Some(
                (dt.spec_year(), dt.spec_month(), dt.spec_day()),
            ),
    {
        match chrono_parse_ymd(text) {
            Some((y, m, d)) => Date::from_ymd_opt(y, m, d),
            None => None,
        }
    }
}

/// A time of day, to the second.
#[derive(Clone, Copy, Debug, PartialEq, Eq, Hash)]
pub struct Time {
    hour: u32,
    minute: u32,
    second: u32,
}

impl Time {
    pub closed spec fn spec_hms(self) -> (int, int, int) {
        (self.hour as int, self.minute as int, self.second as int)
    }

    #[verifier::type_invariant]
    closed spec fn inv(self) -> bool {
        self.hour < 24 && self.minute < 60 && self.second < 60
    }

    /// `hour:minute:second`, or `None` when there is no such time of day.
    pub fn from_hms_opt(hour: u32, minute: u32, second: u32) -> (r: Option<Time>)
        ensures
            r is Some <==> (hour < 24 && minute < 60 && second < 60),
            r matches Some(t) ==> t.spec_hms() == (hour as int, minute as int, second as int),
    {
        if hour < 24 && minute < 60 && second < 60 {
            Some(Time { hour, minute, second })
        } else {
            None
        }
    }
}

/// A date and a time of day.
#[derive(Clone, Copy, Debug, PartialEq, Eq, Hash)]
pub struct DateTime {
    pub date: Date,
    pub time: Time,
}

impl DateTime {
    pub fn new(date: Date, time: Time) -> (r: DateTime)
        ensures
            r.date == date && r.time == time,
    {
        DateTime { date, time }
    }
}

impl Date {
    /// This date at `hour:minute:second`, or `None` when there is no such
    /// time of day.
    pub fn and_hms_opt(&self, hour: u32, minute: u32, second: u32) -> (r: Option<DateTime>)
        ensures
            r is Some <==> (hour < 24 && minute < 60 && second < 60),
            r matches Some(dt) ==> dt.date == *self && dt.time.spec_hms() == (
                hour as int,
                minute as int,
                second as int,
            ),
    {
        match Time::from_hms_opt(hour, minute, second) {
            Some(t) => Some(DateTime { date: *self, time: t }),
            None => None,
        }
    }
}

/// The date `year-month-day`, which must be a day of the calendar.
pub fn date(year: i32, month: u32, day: u32) -> (d: Date)
    requires
        valid_ymd(year as int, month as int, day as int),
    ensures
        d.spec_year() == year && d.spec_month() == month && d.spec_day() == day,
{
    Date { year, month, day }
}

/// Midnight of `year-month-day`, or the given time of that day; both must
/// exist.
pub fn datetime(year: i32, month: u32, day: u32, hour: u32, minute: u32, second: u32) -> (dt:
    DateTime)
    requires
        valid_ymd(year as int, month as int, day as int),
        hour < 24 && minute < 60 && second < 60,
    ensures
        dt.date.spec_year() == year && dt.date.spec_month() == month && dt.date.spec_day() == day,
        dt.time.spec_hms() == (hour as int, minute as int, second as int),
{
    DateTime { date: Date { year, month, day }, time: Time { hour, minute, second } }
}

} // verus!
