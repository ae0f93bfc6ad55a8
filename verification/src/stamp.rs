//! Moments as printed: RFC 3339 in UTC.

use crate::words::{all_digits, decimal, decimal_spells, digits_value, joined};
use time::OffsetDateTime;
use time::format_description::well_known::Rfc3339;
use vstd::prelude::*;

verus! {

// ---------------------------------------------------------------------
// The calendar.

/// Whether a year is a leap year.
pub open spec fn is_leap(year: int) -> bool {
    year % 4 == 0 && (year % 100 != 0 || year % 400 == 0)
}

/// How many days a month has.
pub open spec fn month_days(year: int, month: int) -> int {
    if month == 2 {
        if is_leap(year) {
            29
        } else {
            28
        }
    } else if month == 4 || month == 6 || month == 9 || month == 11 {
        30
    } else {
        31
    }
}

/// How many days of a year lie before a month.
pub open spec fn days_before_month(year: int, month: int) -> int
    decreases month,
{
    if month <= 1 {
        0
    } else {
        days_before_month(year, month - 1) + month_days(year, month - 1)
    }
}

/// How many days lie before a year, counted from the year 0.
pub open spec fn days_before_year(year: int) -> int {
    365 * year + (year + 3) / 4 - (year + 99) / 100 + (year + 399) / 400
}

/// A day's number, counted from the first of January 1970.
pub open spec fn day_number(year: int, month: int, day: int) -> int {
    days_before_year(year) + days_before_month(year, month) + day - 1 - 719_528
}

/// Whether a date is one of the calendar's, in a year of four digits.
pub open spec fn is_date(year: int, month: int, day: int) -> bool {
    0 <= year <= 9999 && 1 <= month <= 12 && 1 <= day <= month_days(year, month)
}

/// A number with zeros in front, so that it takes `width` digits.
pub open spec fn padded(n: nat, width: nat) -> Seq<char> {
    let text = decimal(n);
    if text.len() < width {
        Seq::new((width - text.len()) as nat, |i: int| '0') + text
    } else {
        text
    }
}

/// A date and the seconds since its midnight as printed.
pub open spec fn stamp_text(year: int, month: int, day: int, second: int) -> Seq<char> {
    padded(year as nat, 4) + "-"@ + padded(month as nat, 2) + "-"@ + padded(day as nat, 2) + "T"@
        + padded((second / 3600) as nat, 2) + ":"@ + padded((second / 60 % 60) as nat, 2) + ":"@
        + padded((second % 60) as nat, 2) + "Z"@
}

/// Whether a text is a moment as printed, the moment given in seconds since
/// the first of January 1970.
pub open spec fn is_stamp(seconds: int, text: Seq<char>) -> bool {
    exists|year: int, month: int, day: int| #[trigger]
        is_date(year, month, day) && day_number(year, month, day) == seconds / 86400 && text
            == stamp_text(year, month, day, seconds % 86400)
}

/// A year has 365 days, a leap year one more.
proof fn year_has_its_days(year: int)
    ensures
        days_before_year(year + 1) == days_before_year(year) + if is_leap(year) {
            366int
        } else {
            365int
        },
{
    assert((year + 4) / 4 == (year + 3) / 4 + if year % 4 == 0 {
        1int
    } else {
        0int
    });
    assert((year + 100) / 100 == (year + 99) / 100 + if year % 100 == 0 {
        1int
    } else {
        0int
    });
    assert((year + 400) / 400 == (year + 399) / 400 + if year % 400 == 0 {
        1int
    } else {
        0int
    });
    if year % 400 == 0 {
        assert(year == 100 * (4 * (year / 400)));
        assert(year % 100 == 0);
    }
    if year % 100 == 0 {
        assert(year == 100 * (year / 100));
        assert(year % 4 == 0);
    }
}

/// The months before a later one take up at least the earlier one and all
/// before it, and all twelve the whole year.
proof fn months_fit(year: int, a: int, b: int)
    requires
        1 <= a < b <= 13,
    ensures
        days_before_month(year, a) + month_days(year, a) <= days_before_month(year, b),
    decreases b,
{
    if a < b - 1 {
        months_fit(year, a, b - 1);
    }
}

/// A year's days are those of its months.
proof fn months_fill_the_year(year: int)
    ensures
        days_before_month(year, 13) == if is_leap(year) {
            366int
        } else {
            365int
        },
{
    reveal_with_fuel(days_before_month, 13);
}

/// Earlier years end before later ones begin.
proof fn years_fit(a: int, b: int)
    requires
        a < b,
    ensures
        days_before_year(a + 1) <= days_before_year(b),
    decreases b - a,
{
    if a + 1 < b {
        years_fit(a, b - 1);
        year_has_its_days(b - 1);
    }
}

/// A date's day lies inside its year.
proof fn day_fits(year: int, month: int, day: int)
    requires
        is_date(year, month, day),
    ensures
        days_before_year(year) - 719_528 <= day_number(year, month, day),
        day_number(year, month, day) < days_before_year(year + 1) - 719_528,
{
    months_fill_the_year(year);
    year_has_its_days(year);
    months_fit(year, month, 13);
    if month > 1 {
        months_fit(year, 1, month);
    }
}

/// Dates with the same number are the same date.
pub proof fn day_numbers_tell_dates(y1: int, m1: int, d1: int, y2: int, m2: int, d2: int)
    requires
        is_date(y1, m1, d1),
        is_date(y2, m2, d2),
        day_number(y1, m1, d1) == day_number(y2, m2, d2),
    ensures
        y1 == y2,
        m1 == m2,
        d1 == d2,
{
    day_fits(y1, m1, d1);
    day_fits(y2, m2, d2);
    if y1 < y2 {
        years_fit(y1, y2);
    } else if y2 < y1 {
        years_fit(y2, y1);
    }
    if m1 < m2 {
        months_fit(y1, m1, m2);
    } else if m2 < m1 {
        months_fit(y1, m2, m1);
    }
}

/// A moment is printed in one way only.
pub proof fn one_stamp_per_moment(seconds: int, a: Seq<char>, b: Seq<char>)
    requires
        is_stamp(seconds, a),
        is_stamp(seconds, b),
    ensures
        a == b,
{
    let (y1, m1, d1) = choose|year: int, month: int, day: int| #[trigger]
        is_date(year, month, day) && day_number(year, month, day) == seconds / 86400 && a
            == stamp_text(year, month, day, seconds % 86400);
    let (y2, m2, d2) = choose|year: int, month: int, day: int| #[trigger]
        is_date(year, month, day) && day_number(year, month, day) == seconds / 86400 && b
            == stamp_text(year, month, day, seconds % 86400);
    day_numbers_tell_dates(y1, m1, d1, y2, m2, d2);
}

// ---------------------------------------------------------------------
// Printing.

/// Why a moment cannot be printed, in the clock library's own words.
#[derive(Debug, Clone, PartialEq, Eq)]
pub enum StampError {
    /// No date of the years -9999 to 9999 has it.
    OutOfRange(String),
    /// Its year has no four digits.
    Unformattable(String),
}

/// A moment as printed in UTC, by `time`'s `OffsetDateTime::from_unix_timestamp`
/// and `format` with `Rfc3339`.
///
/// The first refuses seconds outside the years -9999 to 9999. The second
/// refuses years before 0, and prints any other moment as its date, the time
/// of day, and `Z`. Each refusal has one wording.
#[verifier::external_body]
pub(crate) fn utc_stamp(seconds: i64) -> (r: Result<String, StampError>)
    ensures
        r is Ok <==> -62_167_219_200 <= seconds <= 253_402_300_799,
        r is Ok ==> is_stamp(seconds as int, (r->Ok_0)@),
        r is Err ==> (r->Err_0 is OutOfRange <==> !(-377_705_116_800 <= seconds
            <= 253_402_300_799)),
        r is Err ==> match r->Err_0 {
            StampError::OutOfRange(detail) => detail@ == "timestamp was not in range"@,
            StampError::Unformattable(detail) => detail@
                == "The year component cannot be formatted into the requested format."@,
        },
{
    let at = OffsetDateTime::from_unix_timestamp(seconds).map_err(
        |error| StampError::OutOfRange(error.to_string()),
    )?;
    at.format(&Rfc3339).map_err(|error| StampError::Unformattable(error.to_string()))
}

/// Milliseconds in whole seconds, towards the past.
pub fn whole_seconds(at_ms: i64) -> (r: i64)
    ensures
        r == at_ms as int / 1000,
{
    if at_ms >= 0 {
        at_ms / 1000
    } else {
        let back: i64 = -(at_ms + 1);
        -(back / 1000) - 1
    }
}

/// How a moment that cannot be printed is told.
pub fn stamp_refusal(error: &StampError) -> (r: String)
    ensures
        r@ == match *error {
            StampError::OutOfRange(detail) => "timestamp is outside the supported range: "@
                + detail@,
            StampError::Unformattable(detail) => "format timestamp as rfc3339: "@ + detail@,
        },
{
    match error {
        StampError::OutOfRange(detail) => joined(
            "timestamp is outside the supported range: ",
            detail.as_str(),
        ),
        StampError::Unformattable(detail) => joined(
            "format timestamp as rfc3339: ",
            detail.as_str(),
        ),
    }
}

/// How a moment that cannot be printed is told, from its seconds.
pub open spec fn refused_moment(seconds: int) -> Seq<char> {
    if -377_705_116_800 <= seconds <= 253_402_300_799 {
        "format timestamp as rfc3339: "@
            + "The year component cannot be formatted into the requested format."@
    } else {
        "timestamp is outside the supported range: "@ + "timestamp was not in range"@
    }
}

/// A moment in unix milliseconds as printed in UTC, to the second.
pub fn format_rfc3339_utc(at_ms: i64) -> (r: Result<String, String>)
    ensures
        r is Ok <==> -62_167_219_200 <= at_ms as int / 1000 <= 253_402_300_799,
        r is Ok ==> is_stamp(at_ms as int / 1000, (r->Ok_0)@),
        r is Err ==> (r->Err_0)@ == refused_moment(at_ms as int / 1000),
{
    match utc_stamp(whole_seconds(at_ms)) {
        Ok(text) => Ok(text),
        Err(error) => Err(stamp_refusal(&error)),
    }
}

/// Each day is numbered one past the day before it, over the ends of months
/// and years, from the first day of 1970.
pub proof fn days_follow_each_other(year: int, month: int, day: int)
    requires
        is_date(year, month, day),
    ensures
        day < month_days(year, month) ==> day_number(year, month, day + 1) == day_number(
            year,
            month,
            day,
        ) + 1,
        month < 12 ==> day_number(year, month + 1, 1) == day_number(
            year,
            month,
            month_days(year, month),
        ) + 1,
        day_number(year + 1, 1, 1) == day_number(year, 12, 31) + 1,
        day_number(1970, 1, 1) == 0,
{
    years_have_their_days(year);
}

/// A year has 365 days, one more where it is a leap year: every fourth is,
/// but of the full centuries only every fourth; so four hundred years are
/// always as many days.
pub proof fn years_have_their_days(year: int)
    ensures
        ({
            let leap = year % 4 == 0 && (year % 100 != 0 || year % 400 == 0);
            let days = days_before_month(year, 12) + month_days(year, 12);
            &&& days == if leap {
                366int
            } else {
                365
            }
            &&& days_before_year(year + 1) == days_before_year(year) + days
            &&& days_before_year(year + 400) == days_before_year(year) + 146_097
        }),
        month_days(year, 1) == 31,
        month_days(year, 4) == 30,
        month_days(year, 8) == 31,
{
    months_fill_the_year(year);
    year_has_its_days(year);
    assert((year + 403) / 4 == (year + 3) / 4 + 100);
    assert((year + 499) / 100 == (year + 99) / 100 + 4);
    assert((year + 799) / 400 == (year + 399) / 400 + 1);
}

/// A number is padded with zeros in front to its width, and stays the number.
pub proof fn padding_keeps_the_number(n: nat, width: nat)
    ensures
        padded(n, width).len() >= width,
        all_digits(padded(n, width)),
        digits_value(padded(n, width)) == n,
        padded(n, width).len() > width ==> padded(n, width) == decimal(n),
{
    decimal_spells(n);
    let text = decimal(n);
    if text.len() < width {
        let zeros = Seq::new((width - text.len()) as nat, |i: int| '0');
        zeros_add_nothing(zeros, text);
    }
}

/// Zeros in front of digits change no number.
proof fn zeros_add_nothing(zeros: Seq<char>, text: Seq<char>)
    requires
        forall|i: int| 0 <= i < zeros.len() ==> #[trigger] zeros[i] == '0',
    ensures
        digits_value(zeros + text) == digits_value(text),
    decreases text.len() + zeros.len(),
{
    if text.len() > 0 {
        assert((zeros + text).drop_last() =~= zeros + text.drop_last());
        assert((zeros + text).last() == text.last());
        zeros_add_nothing(zeros, text.drop_last());
    } else if zeros.len() > 0 {
        assert(zeros + text =~= zeros);
        let fewer = zeros.drop_last();
        zeros_add_nothing(fewer, text);
        assert(fewer + text =~= fewer);
        assert(zeros[zeros.len() - 1] == '0');
    } else {
        assert(zeros + text =~= text);
    }
}

/// A number that fits its width is padded to exactly that width.
proof fn padded_fits(n: nat)
    ensures
        n < 100 ==> padded(n, 2).len() == 2,
        n < 10_000 ==> padded(n, 4).len() == 4,
{
    reveal_with_fuel(crate::words::digits, 5);
}

/// A stamp reads back to the date and the second of the day it was made of,
/// each number at its place.
pub proof fn stamps_read_back(year: int, month: int, day: int, second: int)
    requires
        is_date(year, month, day),
        0 <= second < 86400,
    ensures
        ({
            let text = stamp_text(year, month, day, second);
            let hours = digits_value(text.subrange(11, 13));
            let minutes = digits_value(text.subrange(14, 16));
            let seconds = digits_value(text.subrange(17, 19));
            &&& text.len() == 20
            &&& digits_value(text.subrange(0, 4)) == year
            &&& digits_value(text.subrange(5, 7)) == month
            &&& digits_value(text.subrange(8, 10)) == day
            &&& hours * 3600 + minutes * 60 + seconds == second
            &&& hours < 24 && minutes < 60 && seconds < 60
            &&& text[4] == '-' && text[7] == '-' && text[10] == 'T'
            &&& text[13] == ':' && text[16] == ':' && text[19] == 'Z'
        }),
{
    reveal_strlit("-");
    reveal_strlit("T");
    reveal_strlit(":");
    reveal_strlit("Z");
    let y = padded(year as nat, 4);
    let mo = padded(month as nat, 2);
    let d = padded(day as nat, 2);
    let h = padded((second / 3600) as nat, 2);
    let mi = padded((second / 60 % 60) as nat, 2);
    let s = padded((second % 60) as nat, 2);
    padded_fits(year as nat);
    padded_fits(month as nat);
    padded_fits(day as nat);
    padded_fits((second / 3600) as nat);
    padded_fits((second / 60 % 60) as nat);
    padded_fits((second % 60) as nat);
    padding_keeps_the_number(year as nat, 4);
    padding_keeps_the_number(month as nat, 2);
    padding_keeps_the_number(day as nat, 2);
    padding_keeps_the_number((second / 3600) as nat, 2);
    padding_keeps_the_number((second / 60 % 60) as nat, 2);
    padding_keeps_the_number((second % 60) as nat, 2);
    let text = stamp_text(year, month, day, second);
    assert(text.subrange(0, 4) =~= y);
    assert(text.subrange(5, 7) =~= mo);
    assert(text.subrange(8, 10) =~= d);
    assert(text.subrange(11, 13) =~= h);
    assert(text.subrange(14, 16) =~= mi);
    assert(text.subrange(17, 19) =~= s);
}

} // verus!
