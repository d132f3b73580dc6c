//! Calendar dates: their two written forms, and the label under which a
//! summary names its day.

use crate::error::ParseError;
use crate::text::{
    char_is_digit, digit_char, digit_value, is_digit, lemma_digit_char_reads_back,
};
use chrono::{Datelike, NaiveDate, Utc};
use vstd::prelude::*;
use vstd::string::*;

verus! {

/// Leap years of the proleptic Gregorian calendar.
pub open spec fn is_leap_year(year: int) -> bool {
    year % 4 == 0 && (year % 100 != 0 || year % 400 == 0)
}

/// The number of days of a month, for `month` from 1 to 12.
pub open spec fn days_in_month(year: int, month: int) -> int {
    if month == 2 {
        if is_leap_year(year) {
            29
        } else {
            28
        }
    } else if month == 4 || month == 6 || month == 9 || month == 11 {
        30
    } else {
        31
    }
}

/// A year, a month and a day, as plain numbers.
pub struct Ymd {
    pub year: int,
    pub month: int,
    pub day: int,
}

/// The days that exist, in the years that four digits can write.
pub open spec fn is_calendar_date(d: Ymd) -> bool {
    &&& 0 <= d.year <= 9999
    &&& 1 <= d.month <= 12
    &&& 1 <= d.day <= days_in_month(d.year, d.month)
}

/// The number written by the two characters of `s` from `at` on.
pub open spec fn two_digits(s: Seq<char>, at: int) -> int {
    10 * digit_value(s[at]) + digit_value(s[at + 1])
}

/// The number written by the four characters of `s` from `at` on.
pub open spec fn four_digits(s: Seq<char>, at: int) -> int {
    100 * two_digits(s, at) + two_digits(s, at + 2)
}

/// The characters of `s` from `at` on are `count` digits.
pub open spec fn digits_at(s: Seq<char>, at: int, count: int) -> bool {
    forall|i: int| at <= i < at + count ==> is_digit(#[trigger] s[i])
}

/// The written form `DD/MM/YYYY`: ten characters, two slashes, eight digits.
pub open spec fn is_day_month_year(s: Seq<char>) -> bool {
    &&& s.len() == 10
    &&& digits_at(s, 0, 2)
    &&& s[2] == '/'
    &&& digits_at(s, 3, 2)
    &&& s[5] == '/'
    &&& digits_at(s, 6, 4)
}

/// The numbers that a text of the form `DD/MM/YYYY` writes.
pub open spec fn day_month_year(s: Seq<char>) -> Ymd {
    Ymd { year: four_digits(s, 6), month: two_digits(s, 3), day: two_digits(s, 0) }
}

/// The written form `YYYY-MM-DD`: ten characters, two hyphens, eight digits.
pub open spec fn is_year_month_day(s: Seq<char>) -> bool {
    &&& s.len() == 10
    &&& digits_at(s, 0, 4)
    &&& s[4] == '-'
    &&& digits_at(s, 5, 2)
    &&& s[7] == '-'
    &&& digits_at(s, 8, 2)
}

/// The numbers that a text of the form `YYYY-MM-DD` writes.
pub open spec fn year_month_day(s: Seq<char>) -> Ymd {
    Ymd { year: four_digits(s, 0), month: two_digits(s, 5), day: two_digits(s, 8) }
}

/// What a text writes under a pattern, where it has exactly the pattern's
/// form: `%d/%m/%Y` is `DD/MM/YYYY`, and `%Y-%m-%d` is `YYYY-MM-DD`.
pub open spec fn written_date(pattern: Seq<char>, text: Seq<char>) -> Option<Ymd> {
    if pattern == "%d/%m/%Y"@ && is_day_month_year(text) {
        Some(day_month_year(text))
    } else if pattern == "%Y-%m-%d"@ && is_year_month_day(text) {
        Some(year_month_day(text))
    } else {
        None
    }
}

/// A date as `YYYY-MM-DD`.
pub open spec fn iso_text(d: Ymd) -> Seq<char> {
    seq![
        digit_char(d.year / 1000),
        digit_char(d.year / 100 % 10),
        digit_char(d.year / 10 % 10),
        digit_char(d.year % 10),
        '-',
        digit_char(d.month / 10),
        digit_char(d.month % 10),
        '-',
        digit_char(d.day / 10),
        digit_char(d.day % 10),
    ]
}

/// The label of a day: its date as `YYYY-MM-DD`, followed by `UTC`.
pub open spec fn label_text(d: Ymd) -> Seq<char> {
    iso_text(d) + seq!['U', 'T', 'C']
}

/// A day of the calendar, in the years 0 to 9999.
#[derive(Clone, Copy, Debug, PartialEq, Eq, Structural)]
pub struct CalendarDate {
    year: i32,
    month: u32,
    day: u32,
}

impl View for CalendarDate {
    type V = Ymd;

    closed spec fn view(&self) -> Ymd {
        Ymd { year: self.year as int, month: self.month as int, day: self.day as int }
    }
}

/// chrono's `NaiveDate::parse_from_str`, asked only for a text that has
/// exactly the form of one of the two patterns. The pattern then takes all
/// ten characters, each number is read from all its digits, and the date
/// comes back with these numbers if that day exists; if it does not
/// (month 13, 31 April, 29 February of a common year), the call fails.
#[verifier::external_body]
fn parse_naive_date(text: &str, pattern: &str) -> (res: Option<(i32, u32, u32)>)
    requires
        written_date(pattern@, text@) is Some,
    ensures
        res == (if is_calendar_date(written_date(pattern@, text@)->0) {
            let d = written_date(pattern@, text@)->0;
            Some((d.year as i32, d.month as u32, d.day as u32))
        } else {
            None
        }),
{
    match NaiveDate::parse_from_str(text, pattern) {
        Ok(date) => Some((date.year(), date.month(), date.day())),
        Err(_) => None,
    }
}

/// chrono's `Display` of a `Date<Utc>`, for the date that
/// `NaiveDate::from_ymd_opt` makes of a day that exists. It writes the date as
/// `YYYY-MM-DD`, each number padded with zeros to its width (as it does for
/// the years 0 to 9999), and then the offset, which `Utc` writes as `UTC`.
#[verifier::external_body]
#[allow(deprecated)]
fn utc_date_text(year: i32, month: u32, day: u32) -> (res: String)
    requires
        is_calendar_date(Ymd { year: year as int, month: month as int, day: day as int }),
    ensures
        res@ == label_text(Ymd { year: year as int, month: month as int, day: day as int }),
{
    match NaiveDate::from_ymd_opt(year, month, day) {
        Some(date) => chrono::Date::<Utc>::from_utc(date, Utc).to_string(),
        None => String::new(),
    }
}

/// Whether the characters of `s` from `at` on are `count` digits.
fn has_digits_at(s: &str, at: usize, count: usize) -> (b: bool)
    requires
        at + count <= s@.len() <= usize::MAX,
    ensures
        b == digits_at(s@, at as int, count as int),
{
    let mut i: usize = at;
    while i < at + count
        invariant
            at <= i <= at + count <= s@.len() <= usize::MAX,
            digits_at(s@, at as int, i - at),
        decreases at + count - i,
    {
        if !char_is_digit(s.get_char(i)) {
            return false;
        }
        i += 1;
    }
    true
}

/// Whether `s` has the form `DD/MM/YYYY`.
fn has_day_month_year_form(s: &str) -> (b: bool)
    ensures
        b == is_day_month_year(s@),
{
    s.unicode_len() == 10 && has_digits_at(s, 0, 2) && s.get_char(2) == '/' && has_digits_at(
        s,
        3,
        2,
    ) && s.get_char(5) == '/' && has_digits_at(s, 6, 4)
}

/// Whether `s` has the form `YYYY-MM-DD`.
fn has_year_month_day_form(s: &str) -> (b: bool)
    ensures
        b == is_year_month_day(s@),
{
    s.unicode_len() == 10 && has_digits_at(s, 0, 4) && s.get_char(4) == '-' && has_digits_at(
        s,
        5,
        2,
    ) && s.get_char(7) == '-' && has_digits_at(s, 8, 2)
}

/// The date that a text of the form `DD/MM/YYYY` writes, if that day exists.
pub open spec fn report_date(s: Seq<char>) -> Option<Ymd> {
    if is_day_month_year(s) && is_calendar_date(day_month_year(s)) {
        Some(day_month_year(s))
    } else {
        None
    }
}

/// The date that a text of the form `YYYY-MM-DD` writes, if that day exists.
pub open spec fn iso_date(s: Seq<char>) -> Option<Ymd> {
    if is_year_month_day(s) && is_calendar_date(year_month_day(s)) {
        Some(year_month_day(s))
    } else {
        None
    }
}

/// Reads a report date, written `DD/MM/YYYY`: two digits for the day, two for
/// the month, four for the year, slashes between them, and nothing else.
///
/// Any other text is turned down, and so is a text of this form that names a
/// day which does not exist.
pub fn string_to_date(s: &str) -> (res: Result<CalendarDate, ParseError>)
    ensures
        match res {
            Ok(date) => report_date(s@) == Some(date@),
            Err(e) => e == ParseError::ReportDate && report_date(s@) is None,
        },
{
    if !has_day_month_year_form(s) {
        return Err(ParseError::ReportDate);
    }
    match parse_naive_date(s, "%d/%m/%Y") {
        Some((year, month, day)) => Ok(CalendarDate { year, month, day }),
        None => Err(ParseError::ReportDate),
    }
}

impl CalendarDate {
    /// Every date is a day that exists.
    #[verifier::type_invariant]
    pub open spec fn exists_in_calendar(self) -> bool {
        is_calendar_date(self@)
    }

    /// The date with these numbers, if that day exists in the years 0 to
    /// 9999.
    pub fn new(year: i32, month: u32, day: u32) -> (res: Option<CalendarDate>)
        ensures
            res is Some <==> is_calendar_date(
                Ymd { year: year as int, month: month as int, day: day as int },
            ),
            res matches Some(date) ==> date@ == (Ymd {
                year: year as int,
                month: month as int,
                day: day as int,
            }),
    {
        if year < 0 || year > 9999 || month < 1 || month > 12 || day < 1 {
            return None;
        }
        let leap: bool = year % 4 == 0 && (year % 100 != 0 || year % 400 == 0);
        let last: u32 = if month == 2 {
            if leap {
                29
            } else {
                28
            }
        } else if month == 4 || month == 6 || month == 9 || month == 11 {
            30
        } else {
            31
        };
        if day > last {
            return None;
        }
        Some(CalendarDate { year, month, day })
    }

    /// The year, from 0 to 9999.
    pub fn year(&self) -> (y: i32)
        ensures
            y == self@.year,
    {
        self.year
    }

    /// The month, from 1 to 12.
    pub fn month(&self) -> (m: u32)
        ensures
            m == self@.month,
    {
        self.month
    }

    /// The day of the month, from 1.
    pub fn day(&self) -> (d: u32)
        ensures
            d == self@.day,
    {
        self.day
    }

    /// Reads a date written `YYYY-MM-DD`: four digits for the year, two for
    /// the month, two for the day, hyphens between them, and nothing else.
    pub fn from_iso(s: &str) -> (res: Option<CalendarDate>)
        ensures
            match res {
                Some(date) => iso_date(s@) == Some(date@),
                None => iso_date(s@) is None,
            },
    {
        if !has_year_month_day_form(s) {
            return None;
        }
        proof {
            reveal_strlit("%d/%m/%Y");
            reveal_strlit("%Y-%m-%d");
        }
        match parse_naive_date(s, "%Y-%m-%d") {
            Some((year, month, day)) => Some(CalendarDate { year, month, day }),
            None => None,
        }
    }

    /// Whether two dates are the same day.
    pub fn same_day(&self, other: &CalendarDate) -> (b: bool)
        ensures
            b == (self@ == other@),
    {
        self.year == other.year && self.month == other.month && self.day == other.day
    }

    /// The label under which a summary names this day, such as
    /// `2020-03-05UTC`.
    pub fn label(&self) -> (res: String)
        ensures
            res@ == label_text(self@),
    {
        proof {
            use_type_invariant(self);
        }
        utc_date_text(self.year, self.month, self.day)
    }
}

/// A date is its three numbers: two dates with the same numbers are the same
/// date.
pub proof fn lemma_date_is_its_numbers(a: CalendarDate, b: CalendarDate)
    ensures
        a@ == b@ <==> a == b,
{
}

/// A date that is written `YYYY-MM-DD` is read back from that text, and so
/// is the date of a label, from the label without its last three characters.
pub proof fn lemma_iso_text_reads_back(d: Ymd)
    requires
        is_calendar_date(d),
    ensures
        iso_date(iso_text(d)) == Some(d),
        label_text(d).len() == 13,
        label_text(d).take(10) == iso_text(d),
{
    let s = iso_text(d);
    lemma_digit_char_reads_back(d.year / 1000);
    lemma_digit_char_reads_back(d.year / 100 % 10);
    lemma_digit_char_reads_back(d.year / 10 % 10);
    lemma_digit_char_reads_back(d.year % 10);
    lemma_digit_char_reads_back(d.month / 10);
    lemma_digit_char_reads_back(d.month % 10);
    lemma_digit_char_reads_back(d.day / 10);
    lemma_digit_char_reads_back(d.day % 10);
    assert(two_digits(s, 0) == d.year / 100);
    assert(two_digits(s, 2) == d.year % 100);
    assert(two_digits(s, 5) == d.month);
    assert(two_digits(s, 8) == d.day);
    assert(digits_at(s, 0, 4));
    assert(digits_at(s, 5, 2));
    assert(digits_at(s, 8, 2));
    assert(label_text(d).take(10) =~= s);
}

/// The day that a run reports on: the day that was named, written
/// `YYYY-MM-DD`, or today where none was named. A day that was named and
/// cannot be read is no reason to fall back on today: there is then no day
/// to report on.
pub open spec fn chosen_date(named: Option<&str>, today: Ymd) -> Option<Ymd> {
    match named {
        Some(s) => iso_date(s@),
        None => Some(today),
    }
}

/// Chooses the day to report on.
pub fn target_date(named: Option<&str>, today: CalendarDate) -> (res: Option<CalendarDate>)
    ensures
        match res {
            Some(date) => chosen_date(named, today@) == Some(date@),
            None => chosen_date(named, today@) is None,
        },
{
    match named {
        Some(s) => CalendarDate::from_iso(s),
        None => Some(today),
    }
}

} // verus!
