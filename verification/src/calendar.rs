//! Days and instants: the proleptic Gregorian calendar, in UTC.

use crate::text::{decimal, decimal_value, digit, digit_char, lemma_decimal_reads_back};
use chrono::Datelike;
use vstd::prelude::*;

verus! {

/// The first year of the supported range.
pub const MIN_YEAR: i32 = -262_143;

/// The last year of the supported range.
pub const MAX_YEAR: i32 = 262_142;

/// The day number of the first day of the supported range.
pub const MIN_DAY: i32 = -95_746_129;

/// The day number of the last day of the supported range.
pub const MAX_DAY: i32 = 95_745_399;

/// The day number of 1970-01-01.
pub const EPOCH_DAY: i32 = 719_163;

/// The seconds of a day.
pub const DAY_SECONDS: i64 = 86_400;

/// The first second of the supported range, counted from 1970-01-01T00:00:00Z.
pub const MIN_SECOND: i64 = -8_334_601_228_800;

/// The last second of the supported range, counted from 1970-01-01T00:00:00Z.
pub const MAX_SECOND: i64 = 8_210_266_876_799;

/// The nanoseconds of a second.
pub const SECOND_NANOS: u32 = 1_000_000_000;

// ---------------------------------------------------------------------------
// The calendar
// ---------------------------------------------------------------------------

/// Whether a year has 366 days.
pub open spec fn leap_year(y: int) -> bool {
    y % 4 == 0 && (y % 100 != 0 || y % 400 == 0)
}

/// The length of a month.
pub open spec fn days_in_month(y: int, m: int) -> int {
    if m == 2 {
        if leap_year(y) {
            29
        } else {
            28
        }
    } else if m == 4 || m == 6 || m == 9 || m == 11 {
        30
    } else {
        31
    }
}

/// Whether there is such a day in the calendar.
pub open spec fn valid_ymd(y: int, m: int, d: int) -> bool {
    1 <= m <= 12 && 1 <= d <= days_in_month(y, m)
}

/// The days of a year before its month `m`.
pub open spec fn days_before_month(y: int, m: int) -> int
    decreases m,
{
    if m <= 1 {
        0
    } else {
        days_before_month(y, m - 1) + days_in_month(y, m - 1)
    }
}

/// The days from the start of the year 1 to the start of the year `y`.
pub open spec fn days_before_year(y: int) -> int {
    365 * (y - 1) + (y - 1) / 4 - (y - 1) / 100 + (y - 1) / 400
}

/// The number of a day: 0001-01-01 is day 1.
pub open spec fn day_number(y: int, m: int, d: int) -> int {
    days_before_year(y) + days_before_month(y, m) + d
}

/// Whether day `n` is the day `d` of the month `m` of the year `y`.
pub open spec fn calendar_date(n: int, y: int, m: int, d: int) -> bool {
    valid_ymd(y, m, d) && day_number(y, m, d) == n
}

/// Year, month and day of the month of day `n`.
pub open spec fn ymd_of(n: int) -> (int, int, int) {
    choose|t: (int, int, int)| calendar_date(n, t.0, t.1, t.2)
}

/// Whether day `n` lies in the supported range.
pub open spec fn valid_day(n: int) -> bool {
    MIN_DAY <= n <= MAX_DAY
}

/// The days since the last Monday.
pub open spec fn days_from_monday(n: int) -> int {
    (n - 1) % 7
}

proof fn lemma_year_length(y: int)
    ensures
        days_before_year(y + 1) == days_before_year(y) + days_before_month(y, 13),
        days_before_month(y, 13) == if leap_year(y) { 366int } else { 365int },
{
    lemma_month_starts(y);
    let k = y - 1;
    assert((k + 1) / 4 == k / 4 + if (k + 1) % 4 == 0 { 1int } else { 0int });
    assert((k + 1) / 100 == k / 100 + if (k + 1) % 100 == 0 { 1int } else { 0int });
    assert((k + 1) / 400 == k / 400 + if (k + 1) % 400 == 0 { 1int } else { 0int });
    assert(y % 100 == 0 ==> y % 4 == 0);
    assert(y % 400 == 0 ==> y % 100 == 0);
}

proof fn lemma_month_starts(y: int)
    ensures
        days_before_month(y, 1) == 0,
        days_before_month(y, 2) == 31,
        days_before_month(y, 3) == 31 + days_in_month(y, 2),
        days_before_month(y, 4) == 62 + days_in_month(y, 2),
        days_before_month(y, 5) == 92 + days_in_month(y, 2),
        days_before_month(y, 6) == 123 + days_in_month(y, 2),
        days_before_month(y, 7) == 153 + days_in_month(y, 2),
        days_before_month(y, 8) == 184 + days_in_month(y, 2),
        days_before_month(y, 9) == 215 + days_in_month(y, 2),
        days_before_month(y, 10) == 245 + days_in_month(y, 2),
        days_before_month(y, 11) == 276 + days_in_month(y, 2),
        days_before_month(y, 12) == 306 + days_in_month(y, 2),
        days_before_month(y, 13) == 337 + days_in_month(y, 2),
{
    reveal_with_fuel(days_before_month, 14);
}

proof fn lemma_years_grow(y: int, z: int)
    requires
        y < z,
    ensures
        days_before_year(y) + days_before_month(y, 13) <= days_before_year(z),
    decreases z - y,
{
    lemma_year_length(y);
    lemma_year_length(z - 1);
    if y < z - 1 {
        lemma_years_grow(y, z - 1);
    }
}

/// A later calendar date has a greater day number.
pub proof fn lemma_day_number_increasing(y: int, m: int, d: int, y2: int, m2: int, d2: int)
    requires
        valid_ymd(y, m, d),
        valid_ymd(y2, m2, d2),
        y < y2 || (y == y2 && (m < m2 || (m == m2 && d < d2))),
    ensures
        day_number(y, m, d) < day_number(y2, m2, d2),
{
    lemma_month_starts(y);
    lemma_month_starts(y2);
    if y < y2 {
        lemma_years_grow(y, y2);
    }
}

/// Each day has one calendar date.
pub proof fn lemma_calendar_date_unique(n: int, y: int, m: int, d: int)
    requires
        calendar_date(n, y, m, d),
    ensures
        ymd_of(n) == (y, m, d),
{
    assert(calendar_date(n, (y, m, d).0, (y, m, d).1, (y, m, d).2));
    let t = ymd_of(n);
    if t.0 < y || (t.0 == y && (t.1 < m || (t.1 == m && t.2 < d))) {
        lemma_day_number_increasing(t.0, t.1, t.2, y, m, d);
    } else if t != (y, m, d) {
        lemma_day_number_increasing(y, m, d, t.0, t.1, t.2);
    }
}

/// The calendar dates of the supported years are the days of the supported range.
pub proof fn lemma_supported_range(y: int, m: int, d: int)
    requires
        valid_ymd(y, m, d),
    ensures
        valid_day(day_number(y, m, d)) <==> MIN_YEAR <= y <= MAX_YEAR,
{
    lemma_month_starts(MIN_YEAR as int);
    lemma_month_starts(MAX_YEAR as int);
    assert(day_number(MIN_YEAR as int, 1, 1) == MIN_DAY);
    assert(day_number(MAX_YEAR as int, 12, 31) == MAX_DAY);
    if y < MIN_YEAR {
        lemma_day_number_increasing(y, m, d, MIN_YEAR as int, 1, 1);
    } else if y > MAX_YEAR {
        lemma_day_number_increasing(MAX_YEAR as int, 12, 31, y, m, d);
    } else {
        if (y, m, d) != (MIN_YEAR as int, 1int, 1int) {
            lemma_day_number_increasing(MIN_YEAR as int, 1, 1, y, m, d);
        }
        if (y, m, d) != (MAX_YEAR as int, 12int, 31int) {
            lemma_day_number_increasing(y, m, d, MAX_YEAR as int, 12, 31);
        }
    }
}

// ---------------------------------------------------------------------------
// Dates as text
// ---------------------------------------------------------------------------

/// The last two decimal digits of a number.
pub open spec fn two_digits(n: int) -> Seq<char> {
    seq![digit_char(n / 10 % 10), digit_char(n % 10)]
}

/// The last four decimal digits of a number.
pub open spec fn four_digits(n: int) -> Seq<char> {
    two_digits(n / 100) + two_digits(n)
}

/// A year with at least four digits, with a sign where it does not lie in 0 to 9999.
pub open spec fn year_text(y: int) -> Seq<char> {
    if 0 <= y <= 9999 {
        four_digits(y)
    } else {
        let size = if y < 0 { -y } else { y };
        seq![if y < 0 { '-' } else { '+' }] + if size <= 9999 {
            four_digits(size)
        } else {
            decimal(size as nat)
        }
    }
}

/// A calendar date as `YYYY-MM-DD`.
pub open spec fn ymd_text(y: int, m: int, d: int) -> Seq<char> {
    year_text(y) + seq!['-'] + two_digits(m) + seq!['-'] + two_digits(d)
}

/// Day `n` as `YYYY-MM-DD`.
pub open spec fn date_text(n: int) -> Seq<char> {
    ymd_text(ymd_of(n).0, ymd_of(n).1, ymd_of(n).2)
}

/// The English name of a month.
pub open spec fn month_name(m: int) -> Seq<char> {
    if m == 1 {
        "January"@
    } else if m == 2 {
        "February"@
    } else if m == 3 {
        "March"@
    } else if m == 4 {
        "April"@
    } else if m == 5 {
        "May"@
    } else if m == 6 {
        "June"@
    } else if m == 7 {
        "July"@
    } else if m == 8 {
        "August"@
    } else if m == 9 {
        "September"@
    } else if m == 10 {
        "October"@
    } else if m == 11 {
        "November"@
    } else {
        "December"@
    }
}

/// The month of day `n`, as in `June 2026`.
pub open spec fn month_text(n: int) -> Seq<char> {
    month_name(ymd_of(n).1) + " "@ + year_text(ymd_of(n).0)
}

/// Whether the text is four digits, two digits and two digits with dashes between.
pub open spec fn dashed_date(s: Seq<char>) -> bool {
    &&& s.len() == 10
    &&& s[4] == '-' && s[7] == '-'
    &&& forall|i: int| 0 <= i < 10 && i != 4 && i != 7 ==> digit(#[trigger] s[i])
}

/// The year, month and day that a dashed date is made of.
pub open spec fn dashed_parts(s: Seq<char>) -> (int, int, int) {
    (
        decimal_value(s.subrange(0, 4)) as int,
        decimal_value(s.subrange(5, 7)) as int,
        decimal_value(s.subrange(8, 10)) as int,
    )
}

/// The day that a text gives when read as year, month and day with dashes between, where it
/// gives one.
pub uninterp spec fn parsed_date(s: Seq<char>) -> Option<int>;

/// `NaiveDate::parse_from_str` with the format `%Y-%m-%d`: what it makes of a text depends on
/// the text alone. A day that it gives lies in the supported range. Four digits, two digits and
/// two digits with dashes between give a day if and only if there is such a day, and then that one.
#[verifier::external_body]
fn chrono_parse_date(s: &str) -> (out: Option<i32>)
    ensures
        parsed_date(s@) == (match out {
            Some(n) => Some(n as int),
            None => None,
        }),
        out is Some ==> valid_day(out->0 as int),
        dashed_date(s@) ==> (out is Some <==> valid_ymd(
            dashed_parts(s@).0,
            dashed_parts(s@).1,
            dashed_parts(s@).2,
        )),
        dashed_date(s@) && out is Some ==> out->0 == day_number(
            dashed_parts(s@).0,
            dashed_parts(s@).1,
            dashed_parts(s@).2,
        ),
{
    match chrono::NaiveDate::parse_from_str(s, "%Y-%m-%d") {
        Ok(date) => Some(date.num_days_from_ce()),
        Err(_) => None,
    }
}

/// `Datelike::year`, `month` and `day` of the day with this number: its calendar date.
#[verifier::external_body]
fn chrono_ymd(n: i32) -> (out: (i32, u32, u32))
    requires
        valid_day(n as int),
    ensures
        calendar_date(n as int, out.0 as int, out.1 as int, out.2 as int),
{
    let date = chrono::NaiveDate::from_num_days_from_ce_opt(n).unwrap();
    (date.year(), date.month(), date.day())
}

/// `NaiveDate::to_string` of the day with this number: `YYYY-MM-DD`, the year with a sign where
/// it does not lie in 0 to 9999.
#[verifier::external_body]
fn chrono_date_text(n: i32) -> (out: String)
    requires
        valid_day(n as int),
    ensures
        out@ == date_text(n as int),
{
    chrono::NaiveDate::from_num_days_from_ce_opt(n).unwrap().to_string()
}

/// `NaiveDate::format` with `%B %Y` of the day with this number: the English name of its month
/// and its year.
#[verifier::external_body]
fn chrono_month_text(n: i32) -> (out: String)
    requires
        valid_day(n as int),
    ensures
        out@ == month_text(n as int),
{
    chrono::NaiveDate::from_num_days_from_ce_opt(n).unwrap().format("%B %Y").to_string()
}

/// Whether a year has 366 days.
fn is_leap(year: u32) -> (out: bool)
    ensures
        out == leap_year(year as int),
{
    year % 4 == 0 && (year % 100 != 0 || year % 400 == 0)
}

/// The length of a month.
fn month_length(year: u32, month: u32) -> (out: u32)
    ensures
        out == days_in_month(year as int, month as int),
{
    if month == 2 {
        if is_leap(year) {
            29
        } else {
            28
        }
    } else if month == 4 || month == 6 || month == 9 || month == 11 {
        30
    } else {
        31
    }
}

/// The days of a year before a month.
fn days_before(year: u32, month: u32) -> (out: u32)
    requires
        1 <= month <= 12,
    ensures
        out <= 335,
        out == days_before_month(year as int, month as int),
{
    proof {
        lemma_month_starts(year as int);
    }
    let february: u32 = month_length(year, 2);
    if month == 1 {
        0
    } else if month == 2 {
        31
    } else if month == 3 {
        31 + february
    } else if month == 4 {
        62 + february
    } else if month == 5 {
        92 + february
    } else if month == 6 {
        123 + february
    } else if month == 7 {
        153 + february
    } else if month == 8 {
        184 + february
    } else if month == 9 {
        215 + february
    } else if month == 10 {
        245 + february
    } else if month == 11 {
        276 + february
    } else {
        306 + february
    }
}

/// A day of the calendar.
#[derive(Clone, Copy, Debug, PartialEq, Eq, PartialOrd, Ord, Hash, Structural)]
pub struct Date {
    /// The number of the day: 0001-01-01 is day 1.
    pub days: i32,
}

impl Date {
    /// Whether the day lies in the supported range.
    pub open spec fn valid(self) -> bool {
        valid_day(self.days as int)
    }

    /// The day of a calendar date, where there is such a day.
    pub fn from_ymd_opt(year: i32, month: u32, day: u32) -> (out: Option<Date>)
        ensures
            out is Some <==> MIN_YEAR <= year <= MAX_YEAR && valid_ymd(
                year as int,
                month as int,
                day as int,
            ),
            out is Some ==> out->0.valid() && out->0.days == day_number(
                year as int,
                month as int,
                day as int,
            ),
    {
        if year < MIN_YEAR || MAX_YEAR < year || month < 1 || 12 < month || day < 1 {
            return None;
        }
        // The calendar repeats after 400 years of 146097 days.
        let shifted: u32 = (year + 262_400) as u32;
        proof {
            assert((year + 262_400) % 4 == year as int % 4);
            assert((year + 262_400) % 100 == year as int % 100);
            assert((year + 262_400) % 400 == year as int % 400);
            assert(leap_year(year + 262_400) == leap_year(year as int));
        }
        if month_length(shifted, month) < day {
            return None;
        }
        let k: i64 = shifted as i64 - 1;
        let years: i64 = 365 * k + k / 4 - k / 100 + k / 400 - 146_097 * 656;
        let number: i64 = years + days_before(shifted, month) as i64 + day as i64;
        proof {
            let y = year as int;
            assert((y - 1 + 262_400) / 4 == (y - 1) / 4 + 65_600);
            assert((y - 1 + 262_400) / 100 == (y - 1) / 100 + 2_624);
            assert((y - 1 + 262_400) / 400 == (y - 1) / 400 + 656);
            assert(years == days_before_year(y));
            lemma_month_starts(y);
            lemma_month_starts(y + 262_400);
            assert(number == day_number(y, month as int, day as int));
            lemma_supported_range(y, month as int, day as int);
        }
        Some(Date { days: number as i32 })
    }

    /// Year, month and day of the month.
    pub fn ymd(&self) -> (out: (i32, u32, u32))
        requires
            self.valid(),
        ensures
            calendar_date(self.days as int, out.0 as int, out.1 as int, out.2 as int),
            ymd_of(self.days as int) == (out.0 as int, out.1 as int, out.2 as int),
    {
        let out = chrono_ymd(self.days);
        proof {
            lemma_calendar_date_unique(
                self.days as int,
                out.0 as int,
                out.1 as int,
                out.2 as int,
            );
        }
        out
    }

    /// The day as `YYYY-MM-DD`.
    pub fn text(&self) -> (out: String)
        requires
            self.valid(),
        ensures
            out@ == date_text(self.days as int),
    {
        chrono_date_text(self.days)
    }

    /// The month of the day, as in `June 2026`.
    pub fn month_label(&self) -> (out: String)
        requires
            self.valid(),
        ensures
            out@ == month_text(self.days as int),
    {
        chrono_month_text(self.days)
    }

    /// Reads a day written as year, month and day with dashes between.
    pub fn parse(s: &str) -> (out: Option<Date>)
        ensures
            parsed_date(s@) == (match out {
                Some(date) => Some(date.days as int),
                None => None,
            }),
            out is Some ==> out->0.valid(),
            dashed_date(s@) ==> (out is Some <==> valid_ymd(
                dashed_parts(s@).0,
                dashed_parts(s@).1,
                dashed_parts(s@).2,
            )),
            dashed_date(s@) && out is Some ==> out->0.days == day_number(
                dashed_parts(s@).0,
                dashed_parts(s@).1,
                dashed_parts(s@).2,
            ),
    {
        match chrono_parse_date(s) {
            Some(days) => Some(Date { days }),
            None => None,
        }
    }

    /// The days since the last Monday.
    pub fn days_from_monday(&self) -> (out: u32)
        requires
            self.valid(),
        ensures
            out == days_from_monday(self.days as int),
    {
        // A multiple of seven keeps the dividend positive.
        let shifted: i64 = self.days as i64 - 1 + 7 * 14_000_000;
        assert((self.days - 1 + 98_000_000) % 7 == (self.days - 1) % 7);
        (shifted % 7) as u32
    }
}

// ---------------------------------------------------------------------------
// Instants
// ---------------------------------------------------------------------------

/// Whether there is such an instant: `secs` seconds after 1970-01-01T00:00:00Z and `nanos`
/// nanoseconds more. A leap second goes on from the last second of a minute.
pub open spec fn valid_instant(secs: int, nanos: int) -> bool {
    &&& MIN_SECOND <= secs <= MAX_SECOND
    &&& 0 <= nanos
    &&& nanos < SECOND_NANOS || (nanos < 2 * SECOND_NANOS && secs % 60 == 59)
}

/// The day on which a second lies.
pub open spec fn day_of_second(secs: int) -> int {
    secs / 86_400 + EPOCH_DAY
}

/// The time of day as `HH:MM:SS`.
pub open spec fn clock_text(secs: int, nanos: int) -> Seq<char> {
    let second = secs % 86_400;
    two_digits(second / 3600) + seq![':'] + two_digits(second / 60 % 60) + seq![':'] + two_digits(
        second % 60 + nanos / 1_000_000_000,
    )
}

/// A fraction of a second: nothing, or a dot and three, six or nine digits.
pub open spec fn fraction_text(nanos: int) -> Seq<char> {
    let n = nanos % 1_000_000_000;
    let three = |k: int| seq![digit_char(k / 100 % 10)] + two_digits(k);
    if n == 0 {
        seq![]
    } else if n % 1_000_000 == 0 {
        seq!['.'] + three(n / 1_000_000)
    } else if n % 1_000 == 0 {
        seq!['.'] + three(n / 1_000_000) + three(n / 1_000)
    } else {
        seq!['.'] + three(n / 1_000_000) + three(n / 1_000) + three(n)
    }
}

/// An instant as `YYYY-MM-DDTHH:MM:SSZ`.
pub open spec fn stamp_text(secs: int, nanos: int) -> Seq<char> {
    date_text(day_of_second(secs)) + seq!['T'] + clock_text(secs, nanos) + seq!['Z']
}

/// An instant as `YYYY-MM-DD HH:MM:SSZ`.
#[verifier::opaque]
pub open spec fn spaced_stamp_text(secs: int, nanos: int) -> Seq<char> {
    date_text(day_of_second(secs)) + seq![' '] + clock_text(secs, nanos) + seq!['Z']
}

/// An instant as `YYYY-MM-DD HH:MM:SS UTC`, with the fraction of the second where there is one.
#[verifier::opaque]
pub open spec fn full_stamp_text(secs: int, nanos: int) -> Seq<char> {
    date_text(day_of_second(secs)) + seq![' '] + clock_text(secs, nanos) + fraction_text(nanos)
        + " UTC"@
}

/// Whether the text has the form `YYYY-MM-DDTHH:MM:SSZ`.
pub open spec fn utc_stamp(s: Seq<char>) -> bool {
    &&& s.len() == 20
    &&& dashed_date(s.subrange(0, 10))
    &&& s[10] == 'T' && s[13] == ':' && s[16] == ':' && s[19] == 'Z'
    &&& digit(s[11]) && digit(s[12])
    &&& digit(s[14]) && digit(s[15])
    &&& digit(s[17]) && digit(s[18])
}

/// The instant that a text of the form `YYYY-MM-DDTHH:MM:SSZ` gives, where there is one. The
/// second 60 is the leap second after the second 59.
pub open spec fn utc_stamp_instant(s: Seq<char>) -> Option<(int, int)> {
    let (y, m, d) = dashed_parts(s.subrange(0, 10));
    let hour = decimal_value(s.subrange(11, 13)) as int;
    let minute = decimal_value(s.subrange(14, 16)) as int;
    let second = decimal_value(s.subrange(17, 19)) as int;
    if !valid_ymd(y, m, d) || hour > 23 || minute > 59 || second > 60 {
        None
    } else {
        let start = (day_number(y, m, d) - EPOCH_DAY) * 86_400 + hour * 3600 + minute * 60;
        if second == 60 {
            Some((start + 59, 1_000_000_000))
        } else {
            Some((start + second, 0))
        }
    }
}

/// The instant, in seconds and nanoseconds, that a text gives when read as RFC 3339, where it
/// gives one.
pub uninterp spec fn parsed_instant(s: Seq<char>) -> Option<(int, int)>;

/// `DateTime::parse_from_rfc3339`, in UTC: what it makes of a text depends on the text alone.
/// What it gives is an instant of the supported range. A text of the form
/// `YYYY-MM-DDTHH:MM:SSZ` gives the instant it is made of, where there is one.
#[verifier::external_body]
fn chrono_parse_instant(s: &str) -> (out: Option<(i64, u32)>)
    ensures
        parsed_instant(s@) == (match out {
            Some(t) => Some((t.0 as int, t.1 as int)),
            None => None,
        }),
        out matches Some(t) ==> valid_instant(t.0 as int, t.1 as int),
        utc_stamp(s@) ==> utc_stamp_instant(s@) == (match out {
            Some(t) => Some((t.0 as int, t.1 as int)),
            None => None,
        }),
{
    match chrono::DateTime::parse_from_rfc3339(s) {
        Ok(instant) => Some((instant.timestamp(), instant.timestamp_subsec_nanos())),
        Err(_) => None,
    }
}

/// `DateTime::to_rfc3339_opts` in UTC, to the second, with `Z` for the offset.
#[verifier::external_body]
fn chrono_stamp_text(secs: i64, nanos: u32) -> (out: String)
    requires
        valid_instant(secs as int, nanos as int),
    ensures
        out@ == stamp_text(secs as int, nanos as int),
{
    let instant = chrono::DateTime::from_timestamp(secs, nanos).unwrap();
    instant.to_rfc3339_opts(chrono::SecondsFormat::Secs, true)
}

/// `DateTime::format` in UTC with `%Y-%m-%d %H:%M:%SZ`.
#[verifier::external_body]
fn chrono_spaced_stamp_text(secs: i64, nanos: u32) -> (out: String)
    requires
        valid_instant(secs as int, nanos as int),
    ensures
        out@ == spaced_stamp_text(secs as int, nanos as int),
{
    let instant = chrono::DateTime::from_timestamp(secs, nanos).unwrap();
    instant.format("%Y-%m-%d %H:%M:%SZ").to_string()
}

/// `DateTime::to_string` in UTC: date, time of day with the fraction of the second where there
/// is one, and `UTC`.
#[verifier::external_body]
fn chrono_full_stamp_text(secs: i64, nanos: u32) -> (out: String)
    requires
        valid_instant(secs as int, nanos as int),
    ensures
        out@ == full_stamp_text(secs as int, nanos as int),
{
    chrono::DateTime::from_timestamp(secs, nanos).unwrap().to_string()
}

/// An instant in UTC.
#[derive(Clone, Copy, Debug, PartialEq, Eq, PartialOrd, Ord, Hash, Structural)]
pub struct Timestamp {
    /// Seconds after 1970-01-01T00:00:00Z.
    pub secs: i64,
    /// Nanoseconds after that second.
    pub nanos: u32,
}

impl Timestamp {
    /// Whether there is such an instant.
    pub open spec fn valid(self) -> bool {
        valid_instant(self.secs as int, self.nanos as int)
    }

    /// Whether this instant is not later than `other`.
    pub open spec fn not_after(self, other: Timestamp) -> bool {
        self.secs < other.secs || (self.secs == other.secs && self.nanos <= other.nanos)
    }

    /// Whether this instant is not later than `other`.
    pub fn is_not_after(&self, other: &Timestamp) -> (out: bool)
        ensures
            out == self.not_after(*other),
    {
        self.secs < other.secs || (self.secs == other.secs && self.nanos <= other.nanos)
    }

    /// The time `hour:minute:second` on a calendar date, where there is such an instant.
    pub fn from_ymd_hms_opt(
        year: i32,
        month: u32,
        day: u32,
        hour: u32,
        minute: u32,
        second: u32,
    ) -> (out: Option<Timestamp>)
        ensures
            out is Some <==> MIN_YEAR <= year <= MAX_YEAR && valid_ymd(
                year as int,
                month as int,
                day as int,
            ) && hour < 24 && minute < 60 && second < 60,
            out is Some ==> out->0.valid() && out->0.nanos == 0 && out->0.secs == (day_number(
                year as int,
                month as int,
                day as int,
            ) - EPOCH_DAY) * 86_400 + hour * 3600 + minute * 60 + second,
    {
        if 24 <= hour || 60 <= minute || 60 <= second {
            return None;
        }
        match Date::from_ymd_opt(year, month, day) {
            Some(date) => {
                let start: i64 = (date.days as i64 - EPOCH_DAY as i64) * DAY_SECONDS;
                let secs: i64 = start + hour as i64 * 3600 + minute as i64 * 60 + second as i64;
                Some(Timestamp { secs, nanos: 0 })
            },
            None => None,
        }
    }

    /// The day on which the instant lies.
    pub fn date(&self) -> (out: Date)
        requires
            self.valid(),
        ensures
            out.valid(),
            out.days == day_of_second(self.secs as int),
    {
        let shifted: i64 = self.secs + 100_000_000 * DAY_SECONDS;
        assert((self.secs + 100_000_000 * 86_400) / 86_400 == self.secs as int / 86_400
            + 100_000_000);
        Date { days: (shifted / DAY_SECONDS - 100_000_000 + EPOCH_DAY as i64) as i32 }
    }

    /// Reads an instant written as RFC 3339.
    pub fn parse(s: &str) -> (out: Option<Timestamp>)
        ensures
            parsed_instant(s@) == (match out {
                Some(t) => Some((t.secs as int, t.nanos as int)),
                None => None,
            }),
            out is Some ==> out->0.valid(),
            utc_stamp(s@) ==> utc_stamp_instant(s@) == (match out {
                Some(t) => Some((t.secs as int, t.nanos as int)),
                None => None,
            }),
    {
        match chrono_parse_instant(s) {
            Some((secs, nanos)) => Some(Timestamp { secs, nanos }),
            None => None,
        }
    }

    /// The instant as `YYYY-MM-DDTHH:MM:SSZ`.
    pub fn stamp(&self) -> (out: String)
        requires
            self.valid(),
        ensures
            out@ == stamp_text(self.secs as int, self.nanos as int),
    {
        chrono_stamp_text(self.secs, self.nanos)
    }

    /// The instant as `YYYY-MM-DD HH:MM:SSZ`.
    pub fn spaced_stamp(&self) -> (out: String)
        requires
            self.valid(),
        ensures
            out@ == spaced_stamp_text(self.secs as int, self.nanos as int),
    {
        chrono_spaced_stamp_text(self.secs, self.nanos)
    }

    /// The instant as `YYYY-MM-DD HH:MM:SS UTC`, with the fraction of the second where there is
    /// one.
    pub fn full_stamp(&self) -> (out: String)
        requires
            self.valid(),
        ensures
            out@ == full_stamp_text(self.secs as int, self.nanos as int),
    {
        chrono_full_stamp_text(self.secs, self.nanos)
    }
}

impl Date {
    /// The first second of the day.
    pub fn first_second(&self) -> (out: Timestamp)
        requires
            self.valid(),
        ensures
            out.valid(),
            out.nanos == 0,
            out.secs == (self.days - EPOCH_DAY) * 86_400,
    {
        Timestamp { secs: (self.days as i64 - EPOCH_DAY as i64) * DAY_SECONDS, nanos: 0 }
    }

    /// The last second of the day.
    pub fn last_second(&self) -> (out: Timestamp)
        requires
            self.valid(),
        ensures
            out.valid(),
            out.nanos == 0,
            out.secs == (self.days - EPOCH_DAY) * 86_400 + 86_399,
    {
        Timestamp {
            secs: (self.days as i64 - EPOCH_DAY as i64) * DAY_SECONDS + 86_399,
            nanos: 0,
        }
    }
}

proof fn lemma_two_digits(n: int)
    requires
        0 <= n < 100,
    ensures
        two_digits(n).len() == 2,
        digit(two_digits(n)[0]),
        digit(two_digits(n)[1]),
        decimal_value(two_digits(n)) == n,
{
    reveal_with_fuel(decimal_value, 3);
    let s = two_digits(n);
    assert(s.drop_last().drop_last().len() == 0);
    assert(n / 10 % 10 == n / 10);
    assert(n == 10 * (n / 10) + n % 10);
    assert(s.drop_last().last() == digit_char(n / 10));
    assert((digit_char(n / 10) as int) - ('0' as int) == n / 10);
    assert((digit_char(n % 10) as int) - ('0' as int) == n % 10);
}

proof fn lemma_four_digits(n: int)
    requires
        0 <= n < 10_000,
    ensures
        four_digits(n).len() == 4,
        forall|i: int| 0 <= i < 4 ==> digit(#[trigger] four_digits(n)[i]),
        decimal_value(four_digits(n)) == n,
{
    let high = two_digits(n / 100);
    let low = two_digits(n % 100);
    lemma_two_digits(n / 100);
    lemma_two_digits(n % 100);
    lemma_low_digits(n);
    assert(two_digits(n) =~= low);
    lemma_two_more_digits(high, low);
    assert forall|i: int| 0 <= i < 4 implies digit(#[trigger] four_digits(n)[i]) by {
        if i < 2 {
            assert(four_digits(n)[i] == high[i]);
        } else {
            assert(four_digits(n)[i] == low[i - 2]);
        }
    }
}

proof fn lemma_low_digits(n: int)
    requires
        0 <= n < 10_000,
    ensures
        n / 10 % 10 == n % 100 / 10 % 10,
        n % 10 == n % 100 % 10,
        n == 100 * (n / 100) + n % 100,
{
    let q = n / 100;
    let r = n % 100;
    assert(n == 100 * q + r && 0 <= r < 100);
    let t = r / 10;
    let u = r % 10;
    assert(r == 10 * t + u && 0 <= t < 10 && 0 <= u < 10);
    assert(n == 10 * (10 * q + t) + u);
    assert(n / 10 == 10 * q + t);
    assert(n % 10 == u);
    assert((10 * q + t) % 10 == t);
    assert(t % 10 == t);
}

proof fn lemma_two_more_digits(high: Seq<char>, low: Seq<char>)
    requires
        low.len() == 2,
        digit(low[0]),
        digit(low[1]),
    ensures
        decimal_value(high + low) == 100 * decimal_value(high) + decimal_value(low),
{
    let s = high + low;
    assert(s.drop_last().drop_last() =~= high);
    assert(s.drop_last().last() == low[0]);
    assert(decimal_value(s) == 10 * decimal_value(s.drop_last()) + (low[1] as int - '0' as int));
    assert(decimal_value(s.drop_last()) == 10 * decimal_value(high) + (low[0] as int
        - '0' as int));
    assert(low.drop_last().drop_last().len() == 0);
    assert(decimal_value(low.drop_last().drop_last()) == 0);
    assert(low.drop_last().last() == low[0]);
    assert(decimal_value(low.drop_last()) == low[0] as int - '0' as int);
}

/// A day of the years 0 to 9999 written as text and read again is the same day.
pub proof fn lemma_date_text_reads_back(n: int, y: int, m: int, d: int)
    requires
        calendar_date(n, y, m, d),
        0 <= y <= 9999,
    ensures
        dashed_date(date_text(n)),
        dashed_parts(date_text(n)) == (y, m, d),
{
    lemma_calendar_date_unique(n, y, m, d);
    lemma_four_digits(y);
    lemma_two_digits(m);
    lemma_two_digits(d);
    let s = date_text(n);
    assert(s.subrange(0, 4) =~= four_digits(y));
    assert(s.subrange(5, 7) =~= two_digits(m));
    assert(s.subrange(8, 10) =~= two_digits(d));
    assert forall|i: int| 0 <= i < 10 && i != 4 && i != 7 implies digit(#[trigger] s[i]) by {
        if i < 4 {
            assert(s[i] == four_digits(y)[i]);
        } else if i < 7 {
            assert(s[i] == two_digits(m)[i - 5]);
        } else {
            assert(s[i] == two_digits(d)[i - 8]);
        }
    }
}

/// An instant of the years 0 to 9999 written as text and read again is the same instant, to the
/// second.
pub proof fn lemma_stamp_text_reads_back(secs: int, nanos: int, y: int, m: int, d: int)
    requires
        valid_instant(secs, nanos),
        calendar_date(day_of_second(secs), y, m, d),
        0 <= y <= 9999,
    ensures
        utc_stamp(stamp_text(secs, nanos)),
        utc_stamp_instant(stamp_text(secs, nanos)) == Some(
            (secs, (nanos / 1_000_000_000) * 1_000_000_000),
        ),
{
    let n = day_of_second(secs);
    let s = stamp_text(secs, nanos);
    lemma_date_text_reads_back(n, y, m, d);
    lemma_clock(secs, nanos);
    let second = secs % 86_400;
    let hh = two_digits(second / 3600);
    let mm = two_digits(second / 60 % 60);
    let ss = two_digits(second % 60 + nanos / 1_000_000_000);
    lemma_two_digits(second / 3600);
    lemma_two_digits(second / 60 % 60);
    lemma_two_digits(second % 60 + nanos / 1_000_000_000);
    lemma_stamp_parts(s, date_text(n), hh, mm, ss);
}

proof fn lemma_clock(secs: int, nanos: int)
    requires
        valid_instant(secs, nanos),
    ensures
        ({
            let second = secs % 86_400;
            &&& 0 <= second / 3600 <= 23
            &&& 0 <= second / 60 % 60 <= 59
            &&& 0 <= second % 60 + nanos / 1_000_000_000 <= 60
            &&& nanos / 1_000_000_000 == if nanos < 1_000_000_000 { 0int } else { 1int }
            &&& nanos >= 1_000_000_000 ==> second % 60 == 59
            &&& second == (second / 3600) * 3600 + (second / 60 % 60) * 60 + second % 60
            &&& secs == (secs / 86_400) * 86_400 + second
        }),
{
    let second = secs % 86_400;
    assert(second % 60 == secs % 60);
    assert(second / 60 / 60 == second / 3600);
    assert(second == 60 * (second / 60) + second % 60);
    assert(second / 60 == 60 * (second / 60 / 60) + second / 60 % 60);
}

proof fn lemma_stamp_parts(
    s: Seq<char>,
    date: Seq<char>,
    hh: Seq<char>,
    mm: Seq<char>,
    ss: Seq<char>,
)
    requires
        date.len() == 10,
        hh.len() == 2,
        mm.len() == 2,
        ss.len() == 2,
        s == date + seq!['T'] + (hh + seq![':'] + mm + seq![':'] + ss) + seq!['Z'],
    ensures
        s.len() == 20,
        s.subrange(0, 10) == date,
        s.subrange(11, 13) == hh,
        s.subrange(14, 16) == mm,
        s.subrange(17, 19) == ss,
        s[10] == 'T' && s[13] == ':' && s[16] == ':' && s[19] == 'Z',
        s[11] == hh[0] && s[12] == hh[1],
        s[14] == mm[0] && s[15] == mm[1],
        s[17] == ss[0] && s[18] == ss[1],
{
    assert(s.subrange(0, 10) =~= date);
    assert(s.subrange(11, 13) =~= hh);
    assert(s.subrange(14, 16) =~= mm);
    assert(s.subrange(17, 19) =~= ss);
}

/// A day goes from its first second to its last: a second lies between them, both included, if and
/// only if the day on which it lies is that day.
pub proof fn lemma_day_goes_from_first_to_last_second(
    day: Date,
    first: Timestamp,
    last: Timestamp,
    t: Timestamp,
    on: Date,
)
    requires
        call_ensures(Date::first_second, (&day,), first),
        call_ensures(Date::last_second, (&day,), last),
        call_ensures(Timestamp::date, (&t,), on),
    ensures
        first.secs <= t.secs <= last.secs <==> on.days == day.days,
        first.nanos == 0 && last.nanos == 0,
        last.secs - first.secs == 24 * 60 * 60 - 1,
{
}

/// The days of the week follow each other: the next day is one day further from Monday, and the day
/// after the sixth is a Monday again. The first day of 1970 was a Thursday.
pub proof fn lemma_week(day: Date, next: Date, a: u32, b: u32)
    requires
        call_ensures(Date::days_from_monday, (&day,), a),
        call_ensures(Date::days_from_monday, (&next,), b),
        next.days == day.days + 1,
    ensures
        a < 6 ==> b == a + 1,
        a == 6 ==> b == 0,
        a <= 6,
        day.days == EPOCH_DAY ==> a == 3,
{
}

/// One instant is not after another if its second is earlier, or the same and its fraction not
/// greater. Of two instants one is not after the other, and both only where they are the same.
pub proof fn lemma_instants_are_ordered(a: Timestamp, b: Timestamp, out: bool, back: bool)
    requires
        call_ensures(Timestamp::is_not_after, (&a, &b), out),
        call_ensures(Timestamp::is_not_after, (&b, &a), back),
    ensures
        out || back,
        out && back <==> a == b,
        a.secs < b.secs ==> out && !back,
        a.secs == b.secs && a.nanos < b.nanos ==> out && !back,
{
}

/// The lengths of the months: 28 days in February, and 29 where the year can be divided by four, but
/// not where it can be divided by a hundred and not by four hundred. Then 30 or 31 by turns, with 31
/// in both July and August.
pub proof fn lemma_month_lengths(y: int, m: int)
    requires
        1 <= m <= 12,
    ensures
        m == 2 ==> (days_in_month(y, m) == 29 <==> y % 4 == 0 && !(y % 100 == 0 && y % 400 != 0)),
        m == 2 ==> days_in_month(y, m) == 28 || days_in_month(y, m) == 29,
        m != 2 && m <= 7 ==> days_in_month(y, m) == 30 + m % 2,
        m > 7 ==> days_in_month(y, m) == 30 + (m + 1) % 2,
{
    assert(m == 1 || m == 2 || m == 3 || m == 4 || m == 5 || m == 6 || m == 7 || m == 8 || m == 9
        || m == 10 || m == 11 || m == 12);
}

/// A year has 366 days where its February has 29, and else 365.
pub proof fn lemma_year_lengths(y: int)
    ensures
        days_before_year(y + 1) - days_before_year(y) == 337 + days_in_month(y, 2),
{
    lemma_year_length(y);
}

/// The days of the calendar follow each other: the day after is one day on, in the same month, or on
/// the first of the next month, or on the first of the next year.
pub proof fn lemma_day_after(y: int, m: int, d: int)
    requires
        valid_ymd(y, m, d),
    ensures
        d < days_in_month(y, m) ==> day_number(y, m, d + 1) == day_number(y, m, d) + 1,
        d == days_in_month(y, m) && m < 12 ==> day_number(y, m + 1, 1) == day_number(y, m, d) + 1,
        d == days_in_month(y, m) && m == 12 ==> day_number(y + 1, 1, 1) == day_number(y, m, d) + 1,
        day_number(1970, 1, 1) == EPOCH_DAY,
{
    lemma_year_length(y);
    assert(days_before_month(y, m + 1) == days_before_month(y, m) + days_in_month(y, m));
}

/// A day that was made of a year, a month and a day of the month has these.
pub proof fn lemma_day_has_its_date(
    year: i32,
    month: u32,
    day: u32,
    date: Option<Date>,
    back: (i32, u32, u32),
)
    requires
        call_ensures(Date::from_ymd_opt, (year, month, day), date),
        date is Some,
        call_ensures(Date::ymd, (&date->0,), back),
    ensures
        back == (year, month, day),
{
    let n = date->0.days as int;
    lemma_calendar_date_unique(n, year as int, month as int, day as int);
}

/// An instant that was made of a date and a time lies on that date, at that time.
pub proof fn lemma_instant_has_its_time(
    year: i32,
    month: u32,
    day: u32,
    hour: u32,
    minute: u32,
    second: u32,
    t: Option<Timestamp>,
    date: Option<Date>,
    on: Date,
)
    requires
        call_ensures(Timestamp::from_ymd_hms_opt, (year, month, day, hour, minute, second), t),
        call_ensures(Date::from_ymd_opt, (year, month, day), date),
        t is Some ==> call_ensures(Timestamp::date, (&t->0,), on),
    ensures
        t is Some <==> date is Some && hour <= 23 && minute <= 59 && second <= 59,
        t is Some ==> on == date->0 && t->0.nanos == 0 && t->0.secs - (on.days - EPOCH_DAY) * 86_400
            == (hour * 60 + minute) * 60 + second,
{
}

/// A date is written in digits, dashes and a sign, and in nothing else.
pub proof fn lemma_letters_of_a_date(n: int, i: int)
    requires
        0 <= i < date_text(n).len(),
    ensures
        digit(date_text(n)[i]) || date_text(n)[i] == '-' || date_text(n)[i] == '+',
{
    let (y, m, d) = ymd_of(n);
    let year = year_text(y);
    assert forall|k: int| 0 <= k < year.len() implies digit(#[trigger] year[k]) || year[k] == '-'
        || year[k] == '+' by {
        let size = if y < 0 {
            -y
        } else {
            y
        };
        if size > 9999 {
            lemma_decimal_reads_back(size as nat);
            if k > 0 {
                assert(year[k] == decimal(size as nat)[k - 1]);
            }
        }
    }
    let text = date_text(n);
    assert(text == year + seq!['-'] + two_digits(m) + seq!['-'] + two_digits(d));
    if i < year.len() {
        assert(text[i] == year[i]);
    } else {
        let k = i - year.len();
        if k == 1 || k == 2 {
            assert(text[i] == two_digits(m)[k - 1]);
        } else if k == 4 || k == 5 {
            assert(text[i] == two_digits(d)[k - 4]);
        }
    }
}

} // verus!
