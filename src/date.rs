//! Calendar dates as plain values, with the calls into chrono that read the
//! clock, format a date and read one back.
use vstd::prelude::*;
use core::cmp::Ordering;
use chrono::Datelike;

verus! {

/// A day of the proleptic Gregorian calendar.
#[derive(Debug, Clone, Copy, PartialEq, Eq, Structural, Hash)]
pub struct Date {
    pub year: i32,
    pub month: u32,
    pub day: u32,
}

/// The earliest and latest years that chrono's dates reach.
pub const MIN_YEAR: i32 = -262143;
pub const MAX_YEAR: i32 = 262142;

pub open spec fn is_leap_year(y: int) -> bool {
    (y % 4 == 0 && y % 100 != 0) || y % 400 == 0
}

pub open spec fn days_in_month(y: int, m: int) -> int {
    if m == 2 {
        if is_leap_year(y) { 29 } else { 28 }
    } else if m == 4 || m == 6 || m == 9 || m == 11 {
        30
    } else {
        31
    }
}

/// The ten decimal digits.
pub open spec fn digit_char(n: int) -> char {
    seq!['0', '1', '2', '3', '4', '5', '6', '7', '8', '9'][n]
}

/// The digit of `k` is the character with code `48 + k`.
pub proof fn lemma_digit_char(k: int)
    requires
        0 <= k < 10,
    ensures
        digit_char(k) as int == 48 + k,
        digit_char(k) as u32 == 48 + k,
        '0' <= digit_char(k) <= '9',
{
    let t = seq!['0', '1', '2', '3', '4', '5', '6', '7', '8', '9'];
    assert(t[0] == '0' && t[1] == '1' && t[2] == '2' && t[3] == '3' && t[4] == '4');
    assert(t[5] == '5' && t[6] == '6' && t[7] == '7' && t[8] == '8' && t[9] == '9');
}

/// The last `width` decimal digits of `n`, zero-padded.
pub open spec fn padded_digits(n: nat, width: nat) -> Seq<char>
    decreases width,
{
    if width == 0 {
        Seq::empty()
    } else {
        padded_digits(n / 10, (width - 1) as nat).push(digit_char((n % 10) as int))
    }
}

impl Date {
    /// A date that exists in the calendar, within chrono's range of years.
    pub open spec fn wf(&self) -> bool {
        &&& MIN_YEAR <= self.year <= MAX_YEAR
        &&& 1 <= self.month <= 12
        &&& 1 <= self.day <= days_in_month(self.year as int, self.month as int)
    }

    /// Whether the date is written with a four-digit year.
    pub open spec fn has_short_year(&self) -> bool {
        0 <= self.year <= 9999
    }

    /// The order of dates: by year, then month, then day.
    pub open spec fn cmp_spec(&self, other: &Date) -> Ordering {
        if self.year != other.year {
            if self.year < other.year { Ordering::Less } else { Ordering::Greater }
        } else if self.month != other.month {
            if self.month < other.month { Ordering::Less } else { Ordering::Greater }
        } else if self.day != other.day {
            if self.day < other.day { Ordering::Less } else { Ordering::Greater }
        } else {
            Ordering::Equal
        }
    }

    /// The date with the given year, month and day, if it exists.
    pub fn from_ymd(year: i32, month: u32, day: u32) -> (r: Option<Date>)
        ensures
            r matches Some(d) ==> d == (Date { year, month, day }),
            r is Some <==> (Date { year, month, day }).wf(),
    {
        if year < MIN_YEAR || year > MAX_YEAR || month < 1 || month > 12 || day < 1 {
            return None;
        }
        let leap = (year % 4 == 0 && year % 100 != 0) || year % 400 == 0;
        let last: u32 = if month == 2 {
            if leap { 29 } else { 28 }
        } else if month == 4 || month == 6 || month == 9 || month == 11 {
            30
        } else {
            31
        };
        if day > last {
            None
        } else {
            Some(Date { year, month, day })
        }
    }

    /// Compares two dates: the earlier one is less.
    pub fn compare(&self, other: &Date) -> (r: Ordering)
        ensures
            r == self.cmp_spec(other),
    {
        if self.year != other.year {
            if self.year < other.year { Ordering::Less } else { Ordering::Greater }
        } else if self.month != other.month {
            if self.month < other.month { Ordering::Less } else { Ordering::Greater }
        } else if self.day != other.day {
            if self.day < other.day { Ordering::Less } else { Ordering::Greater }
        } else {
            Ordering::Equal
        }
    }
}

/// The date written as `YYYY-MM-DD`.
pub open spec fn date_text(d: Date) -> Seq<char> {
    padded_digits(d.year as nat, 4) + seq!['-'] + padded_digits(d.month as nat, 2) + seq!['-']
        + padded_digits(d.day as nat, 2)
}

/// Whether a text is `YYYY-MM-DD` for a valid date with a four-digit year.
pub open spec fn text_names_date(s: Seq<char>) -> bool {
    exists|d: Date| d.wf() && d.has_short_year() && date_text(d) == s
}

/// The date whose `YYYY-MM-DD` text is `s`, where there is one.
pub open spec fn date_named_by(s: Seq<char>) -> Date
    recommends
        text_names_date(s),
{
    choose|d: Date| d.wf() && d.has_short_year() && date_text(d) == s
}

/// Relies on chrono's `Local::now` and `DateTime::date_naive`: the current
/// day in the machine's time zone, which is always a valid date.
#[verifier::external_body]
pub fn today() -> (r: Date)
    ensures
        r.wf(),
{
    let d = chrono::Local::now().date_naive();
    Date { year: d.year(), month: d.month(), day: d.day() }
}

/// Relies on chrono's `NaiveDate::from_ymd_opt` and its `%Y-%m-%d` formatting:
/// a valid date is written with a zero-padded four-digit year when the year
/// has at most four digits, and a two-digit month and day.
#[verifier::external_body]
fn format_ymd(d: Date) -> (r: Option<String>)
    ensures
        d.wf() ==> r is Some,
        d.wf() && d.has_short_year() ==> (r is Some && r->0@ == date_text(d)),
{
    chrono::NaiveDate::from_ymd_opt(d.year, d.month, d.day).map(|n| n.format("%Y-%m-%d").to_string())
}

#[verifier::external_type_specification]
#[verifier::external_body]
pub struct ExParseError(chrono::format::ParseError);

/// Relies on chrono's `NaiveDate::parse_from_str` with the format `%Y-%m-%d`:
/// what it returns is a valid date, and the text of a date with a four-digit
/// year reads back as that date.
#[verifier::external_body]
fn parse_ymd(s: &str) -> (r: Result<Date, chrono::format::ParseError>)
    ensures
        r is Ok ==> r->Ok_0.wf(),
        text_names_date(s@) ==> (r is Ok && r->Ok_0 == date_named_by(s@)),
{
    chrono::NaiveDate::parse_from_str(s, "%Y-%m-%d").map(|n| Date { year: n.year(), month: n.month(), day: n.day() })
}

/// The text `YYYY-MM-DD` of a date whose year has four digits; `None` for
/// one outside the years 0 to 9999, whose text has another length.
pub fn date_to_text(d: Date) -> (r: Option<String>)
    requires
        d.wf(),
    ensures
        d.has_short_year() ==> (r is Some && r->0@ == date_text(d)),
        !d.has_short_year() ==> r is None,
{
    if d.year < 0 || d.year > 9999 {
        return None;
    }
    format_ymd(d)
}

/// Reads a date written as `YYYY-MM-DD`; the error is chrono's.
pub fn date_from_text(s: &str) -> (r: Result<Date, chrono::format::ParseError>)
    ensures
        r matches Ok(d) ==> d.wf(),
        text_names_date(s@) ==> (r is Ok && r->Ok_0 == date_named_by(s@)),
{
    parse_ymd(s)
}

} // verus!
