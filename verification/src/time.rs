//! Times in replies.
use crate::error::{Error, ErrorView};
use crate::text::{digits_value, is_digit, lemma_digits_value_nonneg};
use jiff::Error as JiffError;
use vstd::prelude::*;

verus! {

/// Whether a year of the Gregorian calendar has 366 days.
pub open spec fn is_leap_year(year: int) -> bool {
    year % 4 == 0 && (year % 100 != 0 || year % 400 == 0)
}

/// The days of a month.
pub open spec fn days_in_month(year: int, month: int) -> int {
    if month == 2 {
        if is_leap_year(year) {
            29
        } else {
            28
        }
    } else if month == 4 || month == 6 || month == 9 || month == 11 {
        30
    } else {
        31
    }
}

/// The days of a year before the first of a month.
pub open spec fn days_before_month(year: int, month: int) -> int
    decreases month,
{
    if month <= 1 {
        0
    } else {
        days_before_month(year, month - 1) + days_in_month(year, month - 1)
    }
}

/// The days from the first of January of the year 1 to the first of January of `year`.
pub open spec fn days_before_year(year: int) -> int {
    365 * (year - 1) + (year - 1) / 4 - (year - 1) / 100 + (year - 1) / 400
}

/// A day and a time of day.
pub struct CivilTime {
    pub year: int,
    pub month: int,
    pub day: int,
    pub hour: int,
    pub minute: int,
    pub second: int,
}

impl CivilTime {
    /// Whether the calendar has the day.
    pub open spec fn is_date(self) -> bool {
        1 <= self.month <= 12 && 1 <= self.day <= days_in_month(self.year, self.month)
    }

    /// The seconds from the start of 1970 to this time, both in UTC.
    pub open spec fn unix_seconds(self) -> int {
        let days = days_before_year(self.year) + days_before_month(self.year, self.month) + (
        self.day - 1) - days_before_year(1970);
        ((days * 24 + self.hour) * 60 + self.minute) * 60 + self.second
    }
}

/// Whether `s` is a time in the form `YYYYMMDDhhmmss`: fourteen digits.
pub open spec fn is_compact_time(s: Seq<char>) -> bool {
    s.len() == 14 && forall|i: int| 0 <= i < s.len() ==> is_digit(#[trigger] s[i])
}

/// The day and the time of day that fourteen digits write.
pub open spec fn compact_time(s: Seq<char>) -> CivilTime {
    CivilTime {
        year: digits_value(s.subrange(0, 4)),
        month: digits_value(s.subrange(4, 6)),
        day: digits_value(s.subrange(6, 8)),
        hour: digits_value(s.subrange(8, 10)),
        minute: digits_value(s.subrange(10, 12)),
        second: digits_value(s.subrange(12, 14)),
    }
}

/// The seconds since the start of 1970 to the time in UTC that `text` writes in a format, or what
/// is wrong with it: what comes of `jiff::civil::DateTime::strptime`.
pub uninterp spec fn parsed_seconds(format: Seq<char>, text: Seq<char>) -> Result<i64, JiffError>;

/// Whether `t` is a day of the calendar and a time of that day; the second 60 is one for which a
/// leap second was put in.
pub open spec fn is_civil_time(t: CivilTime) -> bool {
    t.is_date() && 0 <= t.hour < 24 && 0 <= t.minute < 60 && 0 <= t.second <= 60
}

/// The seconds from the start of 1970 to `t`, both in UTC. The second 60 counts as the one before
/// it.
pub open spec fn civil_seconds(t: CivilTime) -> int {
    if t.second == 60 {
        (CivilTime { second: 59, ..t }).unix_seconds()
    } else {
        t.unix_seconds()
    }
}

/// The last second that a time can stand for: 22:00 on December 30 of the year 9999.
pub open spec fn last_second() -> int {
    253402207200
}

/// Whether `text` cannot be a time: it holds no digit, or something behind fourteen digits.
pub open spec fn is_no_time(text: Seq<char>) -> bool {
    ||| forall|i: int| 0 <= i < text.len() ==> !is_digit(#[trigger] text[i])
    ||| text.len() > 14 && is_compact_time(text.take(14))
}

/// Whether `seconds` is what fourteen digits stand for: the seconds to the time that they write,
/// and an error where they write no time or a later one than can be stood for.
pub open spec fn is_compact_reading(text: Seq<char>, seconds: Result<i64, JiffError>) -> bool {
    let t = compact_time(text);
    is_compact_time(text) ==> if is_civil_time(t) && civil_seconds(t) <= last_second() {
        seconds is Ok && seconds->Ok_0 == civil_seconds(t)
    } else {
        seconds is Err
    }
}

/// `jiff::civil::DateTime::strptime` of the crate `jiff`, and with `to_zoned`, `timestamp` and
/// `as_second` the seconds to that time in UTC. With the format for year, month, day, hour, minute
/// and second the result depends on the text alone. Fourteen digits are read as they stand in the
/// proleptic Gregorian calendar; times behind the last that a timestamp holds are refused, and so
/// is text without a digit or with something behind fourteen digits.
#[verifier::external_body]
pub(crate) fn parse_seconds(format: &str, text: &str) -> (r: Result<i64, JiffError>)
    requires
        format@ == "%Y%m%d%H%M%S"@,
    ensures
        r == parsed_seconds(format@, text@),
        is_compact_reading(text@, r),
        is_no_time(text@) ==> r is Err,
{
    let civil = jiff::civil::DateTime::strptime(format, text)?;
    Ok(civil.to_zoned(jiff::tz::TimeZone::UTC)?.timestamp().as_second())
}

/// The seconds since the start of 1970 to the time in UTC that `text` writes as year, month, day,
/// hour, minute and second, or what is wrong with it.
pub open spec fn datetime(text: Seq<char>) -> Result<i64, JiffError> {
    let t = compact_time(text);
    let parsed = parsed_seconds("%Y%m%d%H%M%S"@, text);
    if is_no_time(text) {
        Err(parsed->Err_0)
    } else if !is_compact_time(text) {
        parsed
    } else if is_civil_time(t) && civil_seconds(t) <= last_second() {
        Ok(civil_seconds(t) as i64)
    } else {
        Err(parsed->Err_0)
    }
}

/// Reads a time: year, month, day, hour, minute and second, in UTC.
pub fn parse_datetime(modify: &str) -> (r: Result<i64, Error>)
    ensures
        match r {
            Ok(seconds) => {
                &&& datetime(modify@) == Ok::<i64, JiffError>(seconds)
                &&& is_compact_reading(modify@, Ok(seconds))
                &&& parsed_seconds("%Y%m%d%H%M%S"@, modify@) == Ok::<i64, JiffError>(seconds)
            },
            Err(error) => {
                &&& datetime(modify@) is Err
                &&& error@ == ErrorView::Timestamp(datetime(modify@)->Err_0)
                &&& parsed_seconds("%Y%m%d%H%M%S"@, modify@) is Err
                &&& error == Error::Timestamp(parsed_seconds("%Y%m%d%H%M%S"@, modify@)->Err_0)
            },
        },
{
    match parse_seconds("%Y%m%d%H%M%S", modify) {
        Ok(seconds) => Ok(seconds),
        Err(error) => Err(Error::from(error)),
    }
}

/// Whether `a` is earlier than `b`.
pub open spec fn is_earlier(a: CivilTime, b: CivilTime) -> bool {
    if a.year != b.year {
        a.year < b.year
    } else if a.month != b.month {
        a.month < b.month
    } else if a.day != b.day {
        a.day < b.day
    } else if a.hour != b.hour {
        a.hour < b.hour
    } else if a.minute != b.minute {
        a.minute < b.minute
    } else {
        a.second < b.second
    }
}

/// An earlier time stands for fewer seconds, but that the second 60 and the one before it stand for
/// the same.
pub proof fn law_earlier_time(a: CivilTime, b: CivilTime)
    requires
        is_civil_time(a),
        is_civil_time(b),
        is_earlier(a, b),
    ensures
        civil_seconds(a) <= civil_seconds(b),
        b.second != 60 ==> civil_seconds(a) < civil_seconds(b),
{
    lemma_day_in_year(a);
    lemma_day_in_year(b);
    if a.year < b.year {
        lemma_years(a.year + 1, b.year);
    } else if a.month < b.month {
        lemma_months(a.year, a.month + 1, b.month);
    }
}

/// The first of January of a later year is as many days later as the years between have at least.
proof fn lemma_years(a: int, b: int)
    requires
        a <= b,
    ensures
        days_before_year(a) <= days_before_year(b),
{
}

/// The first of a later month is no earlier.
proof fn lemma_months(year: int, a: int, b: int)
    requires
        1 <= a <= b,
    ensures
        days_before_month(year, a) <= days_before_month(year, b),
    decreases b,
{
    if a < b {
        lemma_months(year, a, b - 1);
    }
}

/// A day lies in its month, and its month in its year.
proof fn lemma_day_in_year(t: CivilTime)
    requires
        t.is_date(),
    ensures
        0 <= days_before_month(t.year, t.month),
        days_before_month(t.year, t.month) + t.day <= days_before_month(t.year, t.month + 1),
        days_before_year(t.year) + days_before_month(t.year, t.month + 1) <= days_before_year(
            t.year + 1,
        ),
{
    lemma_months(t.year, 1, t.month);
    lemma_months(t.year, t.month + 1, 13);
    reveal_with_fuel(days_before_month, 14);
}

/// The seconds start with the first of 1970, and each second, minute, hour, day, month and year
/// follows the last second of the one before it.
pub proof fn law_time_goes_on(t: CivilTime)
    ensures
        (CivilTime { year: 1970, month: 1, day: 1, hour: 0, minute: 0, second: 0 }).unix_seconds()
            == 0,
        (CivilTime { second: t.second + 1, ..t }).unix_seconds() == t.unix_seconds() + 1,
        (CivilTime { minute: t.minute + 1, second: 0, ..t }).unix_seconds() == (CivilTime {
            second: 59,
            ..t
        }).unix_seconds() + 1,
        (CivilTime { hour: t.hour + 1, minute: 0, second: 0, ..t }).unix_seconds() == (CivilTime {
            minute: 59,
            second: 59,
            ..t
        }).unix_seconds() + 1,
        (CivilTime { day: t.day + 1, hour: 0, minute: 0, second: 0, ..t }).unix_seconds() == (
        CivilTime { hour: 23, minute: 59, second: 59, ..t }).unix_seconds() + 1,
        1 <= t.month < 12 ==> (CivilTime {
            month: t.month + 1,
            day: 1,
            hour: 0,
            minute: 0,
            second: 0,
            ..t
        }).unix_seconds() == (CivilTime {
            day: days_in_month(t.year, t.month),
            hour: 23,
            minute: 59,
            second: 59,
            ..t
        }).unix_seconds() + 1,
        (CivilTime { year: t.year + 1, month: 1, day: 1, hour: 0, minute: 0, second: 0 }).unix_seconds()
            == (CivilTime { year: t.year, month: 12, day: 31, hour: 23, minute: 59, second: 59 }).unix_seconds()
            + 1,
{
    reveal_with_fuel(days_before_month, 13);
}

/// The months have the lengths of the Gregorian calendar, in which every fourth year has a day
/// more, but of the full centuries only every fourth.
pub proof fn law_month_lengths(year: int)
    ensures
        forall|month: int|
            month == 1 || month == 3 || month == 5 || month == 7 || month == 8 || month == 10
                || month == 12 ==> #[trigger] days_in_month(year, month) == 31,
        forall|month: int|
            month == 4 || month == 6 || month == 9 || month == 11 ==> #[trigger] days_in_month(
                year,
                month,
            ) == 30,
        days_in_month(year, 2) == if (year % 4 == 0 && year % 100 != 0) || year % 400 == 0 {
            29int
        } else {
            28int
        },
{
}

/// Fourteen digits that write a time stand for its seconds, and for none where they write no time.
pub proof fn law_datetime(text: Seq<char>)
    requires
        text.len() == 14,
        forall|i: int| 0 <= i < 14 ==> '0' <= #[trigger] text[i] <= '9',
    ensures
        ({
            let t = compact_time(text);
            let valid = 1 <= t.month <= 12 && 1 <= t.day <= days_in_month(t.year, t.month) && t.hour
                <= 23 && t.minute <= 59 && t.second <= 59;
            &&& valid && t.unix_seconds() <= last_second() ==> datetime(text) is Ok && datetime(
                text,
            )->Ok_0 as int == t.unix_seconds()
            &&& valid && t.unix_seconds() > last_second() ==> datetime(text) is Err
            &&& !valid && t.second != 60 ==> datetime(text) is Err
        }),
{
    let t = compact_time(text);
    assert(forall|i: int| 0 <= i < text.len() ==> is_digit(#[trigger] text[i]));
    assert(is_digit(text[0]));
    lemma_digits_of(text, 0, 4);
    lemma_digits_of(text, 4, 6);
    lemma_digits_of(text, 6, 8);
    lemma_digits_of(text, 8, 10);
    lemma_digits_of(text, 10, 12);
    lemma_digits_of(text, 12, 14);
    if t.is_date() {
        lemma_day_in_year(t);
        lemma_years(0, t.year);
    }
}

proof fn lemma_digits_of(text: Seq<char>, start: int, end: int)
    requires
        0 <= start <= end <= text.len(),
        forall|i: int| 0 <= i < text.len() ==> is_digit(#[trigger] text[i]),
    ensures
        digits_value(text.subrange(start, end)) >= 0,
{
    let digits = text.subrange(start, end);
    assert forall|i: int| 0 <= i < digits.len() implies is_digit(#[trigger] digits[i]) by {
        assert(digits[i] == text[start + i]);
    }
    lemma_digits_value_nonneg(digits);
}

} // verus!
