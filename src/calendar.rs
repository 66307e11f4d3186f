use chrono::Datelike;
use vstd::prelude::*;

verus! {

/// Earliest year that a chrono `NaiveDate` holds.
pub const MIN_YEAR: i32 = -262143;

/// Latest year that a chrono `NaiveDate` holds.
pub const MAX_YEAR: i32 = 262142;

/// A date of the proleptic Gregorian calendar, held as plain numbers.
#[derive(Clone, Copy, Debug, PartialEq, Eq, Structural)]
pub struct CalendarDate {
    pub year: i32,
    pub month: u32,
    pub day: u32,
}

pub open spec fn is_leap_year(year: int) -> bool {
    year % 4 == 0 && (year % 100 != 0 || year % 400 == 0)
}

pub open spec fn days_in_month(year: int, month: int) -> int {
    if month == 2 {
        if is_leap_year(year) {
            29
        } else {
            28
        }
    } else if month == 4 || month == 6 || month == 9 || month == 11 {
        30
    } else {
        31
    }
}

impl CalendarDate {
    /// The date exists in the calendar and lies in chrono's range.
    pub open spec fn is_valid(self) -> bool {
        &&& MIN_YEAR <= self.year <= MAX_YEAR
        &&& 1 <= self.month <= 12
        &&& 1 <= self.day <= days_in_month(self.year as int, self.month as int)
    }

    /// Number of whole months from January of year zero to this date's month.
    pub open spec fn month_ordinal(self) -> int {
        self.year * 12 + self.month - 1
    }

    /// Strictly earlier in time.
    pub open spec fn precedes(self, other: CalendarDate) -> bool {
        ||| self.year < other.year
        ||| (self.year == other.year && self.month < other.month)
        ||| (self.year == other.year && self.month == other.month && self.day < other.day)
    }
}

/// The date `months` calendar months after `date`, with the day clamped to the
/// length of the month reached; `None` when that month is out of range.
pub open spec fn months_later(date: CalendarDate, months: nat) -> Option<CalendarDate> {
    let total = date.month_ordinal() + months;
    let year = total / 12;
    let month = total % 12 + 1;
    let last = days_in_month(year, month);
    let day = if date.day <= last {
        date.day as int
    } else {
        last
    };
    if MIN_YEAR <= year <= MAX_YEAR {
        Some(CalendarDate { year: year as i32, month: month as u32, day: day as u32 })
    } else {
        None
    }
}

pub open spec fn digit_char(d: int) -> char {
    ((d + 48) as u8) as char
}

/// Decimal digits of `n`, zero-padded on the left to at least `width` digits.
pub open spec fn padded_decimal(n: nat, width: nat) -> Seq<char>
    decreases n + width,
{
    if n < 10 && width <= 1 {
        seq![digit_char(n as int)]
    } else {
        let w: nat = if width == 0 {
            0
        } else {
            (width - 1) as nat
        };
        padded_decimal(n / 10, w).push(digit_char(n as int % 10))
    }
}

/// The year as ISO 8601 writes it: four digits, with an explicit sign
/// outside `0..=9999`.
pub open spec fn year_text(year: int) -> Seq<char> {
    if 0 <= year <= 9999 {
        padded_decimal(year as nat, 4)
    } else if year < 0 {
        seq!['-'] + padded_decimal((-year) as nat, 4)
    } else {
        seq!['+'] + padded_decimal(year as nat, 4)
    }
}

/// `YYYY-MM-DD`.
pub open spec fn iso_text(date: CalendarDate) -> Seq<char> {
    year_text(date.year as int) + seq!['-'] + padded_decimal(date.month as nat, 2) + seq!['-']
        + padded_decimal(date.day as nat, 2)
}

/// Each later month count lands on a strictly later date.
pub proof fn lemma_months_later_ascending(date: CalendarDate, j: nat, k: nat)
    requires
        date.is_valid(),
        j < k,
        months_later(date, j) is Some,
        months_later(date, k) is Some,
    ensures
        months_later(date, j).unwrap().precedes(months_later(date, k).unwrap()),
{
    let tj = date.month_ordinal() + j;
    let tk = date.month_ordinal() + k;
    assert(tj / 12 < tk / 12 || (tj / 12 == tk / 12 && tj % 12 < tk % 12));
}

/// A month count that stays in range keeps every smaller count in range.
pub proof fn lemma_months_later_in_range(date: CalendarDate, j: nat, k: nat)
    requires
        date.is_valid(),
        j <= k,
        months_later(date, k) is Some,
    ensures
        months_later(date, j) is Some,
{
    let tj = date.month_ordinal() + j;
    let tk = date.month_ordinal() + k;
    assert(date.year <= tj / 12 <= tk / 12);
}

/// What chrono's `NaiveDate::parse_from_str` makes of a text under the
/// pattern `%d.%m.%Y`, as year, month and day.
pub uninterp spec fn dmy_parse(text: Seq<char>) -> Option<(i32, u32, u32)>;

/// Relies on chrono's `NaiveDate::parse_from_str` with the pattern `%d.%m.%Y`:
/// the outcome depends on the text alone, and a date it yields exists.
#[verifier::external_body]
fn parse_dmy(text: &str) -> (r: Option<CalendarDate>)
    ensures
        r == (match dmy_parse(text@) {
            Some(t) => Some(CalendarDate { year: t.0, month: t.1, day: t.2 }),
            None => None,
        }),
        r matches Some(d) ==> d.is_valid(),
{
    match chrono::NaiveDate::parse_from_str(text, "%d.%m.%Y") {
        Ok(d) => Some(CalendarDate { year: d.year(), month: d.month(), day: d.day() }),
        Err(_) => None,
    }
}

/// Relies on chrono's `NaiveDate::checked_add_months`: the month moves on by
/// `months`, the day is clamped to the new month's length, and the result is
/// `None` when the year leaves chrono's range.
#[verifier::external_body]
fn add_months(date: CalendarDate, months: u32) -> (r: Option<CalendarDate>)
    requires
        date.is_valid(),
    ensures
        r == months_later(date, months as nat),
{
    match chrono::NaiveDate::from_ymd_opt(date.year, date.month, date.day) {
        Some(d) => match d.checked_add_months(chrono::Months::new(months)) {
            Some(n) => Some(CalendarDate { year: n.year(), month: n.month(), day: n.day() }),
            None => None,
        },
        None => None,
    }
}

/// Relies on chrono's `Display` for `NaiveDate`, which writes ISO 8601
/// `YYYY-MM-DD`, with a sign before years outside `0..=9999`.
#[verifier::external_body]
fn iso_date_text(date: CalendarDate) -> (r: String)
    requires
        date.is_valid(),
    ensures
        r@ == iso_text(date),
{
    match chrono::NaiveDate::from_ymd_opt(date.year, date.month, date.day) {
        Some(d) => d.to_string(),
        None => String::new(),
    }
}

/// Reads a `DD.MM.YYYY` date.
pub fn parse_date(text: &str) -> (r: Option<CalendarDate>)
    ensures
        r == (match dmy_parse(text@) {
            Some(t) => Some(CalendarDate { year: t.0, month: t.1, day: t.2 }),
            None => None,
        }),
        r matches Some(d) ==> d.is_valid(),
{
    parse_dmy(text)
}

/// The date `months` calendar months after `date`.
pub fn add_calendar_months(date: CalendarDate, months: u32) -> (r: Option<CalendarDate>)
    requires
        date.is_valid(),
    ensures
        r == months_later(date, months as nat),
        r matches Some(d) ==> d.is_valid(),
{
    add_months(date, months)
}

/// The date written as `YYYY-MM-DD`.
pub fn date_text(date: CalendarDate) -> (r: String)
    requires
        date.is_valid(),
    ensures
        r@ == iso_text(date),
{
    iso_date_text(date)
}

} // verus!
