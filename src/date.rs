//! Calendar dates: validity, parsing of `YYYY-MM-DD` text, and the current date.
use vstd::prelude::*;

verus! {

/// The earliest year a calendar date may carry.
pub const MIN_YEAR: i32 = -9999;

/// The latest year a calendar date may carry.
pub const MAX_YEAR: i32 = 9999;

/// Gregorian leap-year rule.
pub open spec fn is_leap_year(year: int) -> bool {
    (year % 4 == 0 && year % 100 != 0) || year % 400 == 0
}

/// Number of days in `month` (1 to 12) of `year`.
pub open spec fn days_in_month(year: int, month: int) -> int {
    if month == 2 {
        if is_leap_year(year) {
            29
        } else {
            28
        }
    } else if month == 4 || month == 6 || month == 9 || month == 11 {
        30
    } else {
        31
    }
}

/// The triple names a day that exists in the proleptic Gregorian calendar,
/// within the supported year range.
pub open spec fn is_valid_date(year: int, month: int, day: int) -> bool {
    &&& MIN_YEAR <= year <= MAX_YEAR
    &&& 1 <= month <= 12
    &&& 1 <= day <= days_in_month(year, month)
}

/// A day of the calendar. Constructed only through `from_ymd`, `parse_date`
/// or `today_utc`, all of which guarantee `wf`.
#[derive(Clone, Copy, Debug, PartialEq, Eq, Structural)]
pub struct CalendarDate {
    pub year: i32,
    pub month: u8,
    pub day: u8,
}

impl CalendarDate {
    pub open spec fn wf(&self) -> bool {
        is_valid_date(self.year as int, self.month as int, self.day as int)
    }

    /// Builds the date `year-month-day`, or `None` when no such day exists.
    pub fn from_ymd(year: i32, month: u8, day: u8) -> (r: Option<CalendarDate>)
        ensures
            r is Some <==> is_valid_date(year as int, month as int, day as int),
            r matches Some(d) ==> d.wf() && d.year == year && d.month == month && d.day
                == day,
    {
        if calendar_date_exists(year, month, day) {
            Some(CalendarDate { year, month, day })
        } else {
            None
        }
    }

    pub fn year(&self) -> (r: i32)
        ensures
            r == self.year,
    {
        self.year
    }

    pub fn month(&self) -> (r: u8)
        ensures
            r == self.month,
    {
        self.month
    }

    pub fn day(&self) -> (r: u8)
        ensures
            r == self.day,
    {
        self.day
    }
}

/// Relies on `time::Month::try_from` and `time::Date::from_calendar_date`:
/// the latter accepts a year in `-9999..=9999` (no `large-dates` feature),
/// a month in `1..=12` and a day in `1..=days_in_month`, and rejects all else.
#[verifier::external_body]
fn calendar_date_exists(year: i32, month: u8, day: u8) -> (r: bool)
    ensures
        r == is_valid_date(year as int, month as int, day as int),
{
    match time::Month::try_from(month) {
        Ok(m) => time::Date::from_calendar_date(year, m, day).is_ok(),
        Err(_) => false,
    }
}

/// Relies on `time::OffsetDateTime::now_utc`: its calendar date is always a
/// valid `time::Date`, whose year lies in `-9999..=9999`.
#[verifier::external_body]
fn now_utc_ymd() -> (r: (i32, u8, u8))
    ensures
        is_valid_date(r.0 as int, r.1 as int, r.2 as int),
{
    let d = time::OffsetDateTime::now_utc().date();
    (d.year(), d.month() as u8, d.day())
}

/// Today's date in UTC, read once from the system clock.
pub fn today_utc() -> (r: CalendarDate)
    ensures
        r.wf(),
{
    let (year, month, day) = now_utc_ymd();
    CalendarDate { year, month, day }
}

/// A date argument was malformed or named a day that does not exist.
#[derive(Debug)]
pub struct InvalidDateError {
    /// The text that was rejected.
    pub input: String,
}

pub open spec fn is_digit(c: char) -> bool {
    '0' <= c && c <= '9'
}

pub open spec fn digit_value(c: char) -> int {
    c as int - '0' as int
}

/// `s` has the shape `YYYY-MM-DD`: ten characters, dashes at positions 4 and
/// 7, decimal digits everywhere else.
pub open spec fn is_date_shaped(s: Seq<char>) -> bool {
    &&& s.len() == 10
    &&& s[4] == '-'
    &&& s[7] == '-'
    &&& forall|i: int| 0 <= i < 10 && i != 4 && i != 7 ==> #[trigger] is_digit(s[i])
}

/// The year field of date-shaped text.
pub open spec fn year_field(s: Seq<char>) -> int {
    digits_value(s.subrange(0, 4))
}

/// The month field of date-shaped text.
pub open spec fn month_field(s: Seq<char>) -> int {
    digits_value(s.subrange(5, 7))
}

/// The day field of date-shaped text.
pub open spec fn day_field(s: Seq<char>) -> int {
    digits_value(s.subrange(8, 10))
}

/// `s` is date-shaped text whose fields name an existing day.
pub open spec fn is_valid_date_text(s: Seq<char>) -> bool {
    is_date_shaped(s) && is_valid_date(year_field(s), month_field(s), day_field(s))
}

/// The date that valid date text names.
pub open spec fn date_of_text(s: Seq<char>) -> CalendarDate {
    CalendarDate {
        year: year_field(s) as i32,
        month: month_field(s) as u8,
        day: day_field(s) as u8,
    }
}

/// Value of the decimal digit `c`, if it is one.
fn digit_of(c: char) -> (r: Option<u8>)
    ensures
        r is Some <==> is_digit(c),
        r matches Some(v) ==> v as int == digit_value(c) && v < 10,
{
    if '0' <= c && c <= '9' {
        Some((c as u32 - '0' as u32) as u8)
    } else {
        None
    }
}

/// Reads the digits at positions `from .. from + n` of `s` as one number.
fn read_number(s: &str, from: usize, n: usize) -> (r: Option<u32>)
    requires
        from + n <= s@.len() <= usize::MAX,
        n <= 4,
    ensures
        r is Some <==> forall|i: int| from <= i < from + n ==> #[trigger] is_digit(s@[i]),
        r matches Some(v) ==> v as int == digits_value(s@.subrange(from as int, from + n)) && v
            < pow10(n as nat),
{
    let mut acc: u32 = 0;
    let mut k: usize = 0;
    while k < n
        invariant
            from + n <= s@.len() <= usize::MAX,
            n <= 4,
            k <= n,
            acc as int == digits_value(s@.subrange(from as int, from + k)),
            acc < pow10(k as nat),
            forall|i: int| from <= i < from + k ==> #[trigger] is_digit(s@[i]),
        decreases n - k,
    {
        let c = s.get_char(from + k);
        match digit_of(c) {
            Some(v) => {
                proof {
                    let sub = s@.subrange(from as int, from + k + 1);
                    assert(sub.drop_last() =~= s@.subrange(from as int, from + k));
                    assert(sub.last() == c);
                    assert(pow10((k + 1) as nat) == 10 * pow10(k as nat));
                    reveal_with_fuel(pow10, 4);
                    assert(pow10(k as nat) <= 1000);
                }
                acc = acc * 10 + v as u32;
                k = k + 1;
            },
            None => {
                return None;
            },
        }
    }
    Some(acc)
}

fn invalid_date(s: &str) -> (e: InvalidDateError)
    ensures
        e.input@ == s@,
{
    InvalidDateError { input: String::from_str(s) }
}

/// Parses text of the exact form `YYYY-MM-DD` into the date it names.
pub fn parse_date(s: &str) -> (r: Result<CalendarDate, InvalidDateError>)
    ensures
        r is Ok <==> is_valid_date_text(s@),
        r matches Ok(d) ==> d == date_of_text(s@) && d.wf(),
        r matches Err(e) ==> e.input@ == s@,
{
    let len = s.unicode_len();
    if len != 10 {
        return Err(invalid_date(s));
    }
    if s.get_char(4) != '-' || s.get_char(7) != '-' {
        return Err(invalid_date(s));
    }
    let year = read_number(s, 0, 4);
    let month = read_number(s, 5, 2);
    let day = read_number(s, 8, 2);
    match (year, month, day) {
        (Some(y), Some(m), Some(d)) => {
            proof {
                reveal_with_fuel(pow10, 5);
                assert(is_date_shaped(s@));
            }
            match CalendarDate::from_ymd(y as i32, m as u8, d as u8) {
                Some(date) => Ok(date),
                None => Err(invalid_date(s)),
            }
        },
        _ => {
            proof {
                if is_date_shaped(s@) {
                    assert(forall|i: int| 0 <= i < 4 ==> #[trigger] is_digit(s@[i]));
                    assert(forall|i: int| 5 <= i < 7 ==> #[trigger] is_digit(s@[i]));
                    assert(forall|i: int| 8 <= i < 10 ==> #[trigger] is_digit(s@[i]));
                }
            }
            Err(invalid_date(s))
        },
    }
}

/// The characters of an optional piece of text.
pub open spec fn opt_text(o: Option<&str>) -> Option<Seq<char>> {
    match o {
        Some(s) => Some(s@),
        None => None,
    }
}

/// The date that the argument `arg` gives, with `today` standing in for a
/// missing argument.
pub open spec fn resolved_date(arg: Option<Seq<char>>, today: CalendarDate) -> Option<CalendarDate> {
    match arg {
        None => Some(today),
        Some(s) => if is_valid_date_text(s) {
            Some(date_of_text(s))
        } else {
            None
        },
    }
}

/// The date an entry is for: the given argument parsed as `YYYY-MM-DD`, or
/// `today` when no argument was given. A malformed or nonexistent date is an
/// error and never falls back to `today`.
pub fn resolve_date(arg: Option<&str>, today: CalendarDate) -> (r: Result<
    CalendarDate,
    InvalidDateError,
>)
    requires
        today.wf(),
    ensures
        arg is None ==> r == Ok::<CalendarDate, InvalidDateError>(today),
        arg matches Some(s) ==> {
            &&& r is Ok <==> is_valid_date_text(s@)
            &&& r matches Ok(d) ==> d == date_of_text(s@) && d.wf()
            &&& r matches Err(e) ==> e.input@ == s@
        },
{
    match arg {
        None => Ok(today),
        Some(s) => parse_date(s),
    }
}

/// Ten to the power `k`.
pub open spec fn pow10(k: nat) -> nat
    decreases k,
{
    if k == 0 {
        1
    } else {
        10 * pow10((k - 1) as nat)
    }
}

/// Value of a run of decimal digits, most significant first.
pub open spec fn digits_value(s: Seq<char>) -> int
    decreases s.len(),
{
    if s.len() == 0 {
        0
    } else {
        digits_value(s.drop_last()) * 10 + digit_value(s.last())
    }
}

} // verus!
