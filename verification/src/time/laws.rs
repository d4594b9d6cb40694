//! What holds of dates and of the clock.
use vstd::prelude::*;

use crate::text::decimal;
use crate::time::calendar::{
    day_number, days_in_month, leap_year, lemma_year_length, timestamp_of, year_start,
};
use crate::time::date::{padded_decimal, Date, Time};
use crate::time::rtc::{bcd_value, from_twelve_hours};

verus! {

/// The days of each month of a common year.
pub open spec fn month_lengths() -> Seq<int> {
    seq![31, 28, 31, 30, 31, 30, 31, 31, 30, 31, 30, 31]
}

/// Months have their lengths; the second has a day more in a leap year.
pub proof fn months_have_their_lengths(month: int, leap: bool)
    requires
        1 <= month <= 12,
    ensures
        days_in_month(month, leap) == month_lengths()[month - 1] + (if month == 2 && leap {
            1int
        } else {
            0
        }),
{
}

/// Days are counted from the first day of 1980, one by one: over the days of a month, from the end
/// of a month to the next, and from the end of a year to the next.
pub proof fn days_follow_each_other(year: int, month: int, day: int)
    requires
        1980 <= year,
        1 <= month <= 12,
    ensures
        day_number(1980, 1, 1) == 0,
        day_number(year, month, day + 1) == day_number(year, month, day) + 1,
        month < 12 ==> day_number(year, month + 1, 1) == day_number(
            year, month, days_in_month(month, leap_year(year)),
        ) + 1,
        day_number(year + 1, 1, 1) == day_number(year, 12, 31) + 1,
{
    lemma_year_length(year);
}

/// A year has 365 days, a leap year one more: every fourth year, without the centuries, but with
/// every fourth century.
pub proof fn years_have_their_lengths(year: int)
    requires
        1 <= year,
    ensures
        year_start(year + 1 - 1980) - year_start(year - 1980) == (if year % 400 == 0 || (year % 4 == 0
            && year % 100 != 0) {
            366int
        } else {
            365
        }),
        year_start(0) == 0,
{
    lemma_year_length(year);
}

/// A time stamp counts seconds: a day has 86400, an hour 3600 and a minute 60.
pub proof fn stamps_count_seconds(
    year: int, month: int, day: int, hours: int, minutes: int, seconds: int,
)
    requires
        1980 <= year,
        1 <= month <= 12,
    ensures
        timestamp_of(1980, 1, 1, 0, 0, 0) == 0,
        timestamp_of(year, month, day + 1, hours, minutes, seconds) == timestamp_of(
            year, month, day, hours + 24, minutes, seconds,
        ),
        timestamp_of(year, month, day, hours + 1, minutes, seconds) == timestamp_of(
            year, month, day, hours, minutes + 60, seconds,
        ),
        timestamp_of(year, month, day, hours, minutes + 1, seconds) == timestamp_of(
            year, month, day, hours, minutes, seconds + 60,
        ),
        timestamp_of(year, month, day, hours, minutes, seconds + 1) == timestamp_of(
            year, month, day, hours, minutes, seconds,
        ) + 1,
{
}

/// Two digits, the tens first.
pub open spec fn two_digits(n: int) -> Seq<u8> {
    seq![(0x30 + n / 10) as u8, (0x30 + n % 10) as u8]
}

proof fn lemma_two_digits(n: nat)
    requires
        n < 100,
    ensures
        padded_decimal(n, 2) == two_digits(n as int),
{
    reveal_with_fuel(decimal, 3);
    if n < 10 {
        assert(Seq::new(1, |i: int| 0x30u8) + decimal(n) =~= two_digits(n as int));
    } else {
        assert(decimal(n) =~= two_digits(n as int));
    }
}

/// A time is written as hours, minutes and seconds, two digits each; the clock leaves the seconds
/// out. A date begins with the day, then the month and the year.
pub proof fn times_have_two_digits_each(t: Time, d: Date)
    requires
        t.hours < 24,
        t.minutes < 60,
        t.seconds < 60,
        d.day < 32,
        d.month <= 12,
    ensures
        t.text() == two_digits(t.hours as int) + seq![0x3Au8] + two_digits(t.minutes as int) + seq![
            0x3Au8,
        ] + two_digits(t.seconds as int),
        t.short() == two_digits(t.hours as int) + seq![0x3Au8] + two_digits(t.minutes as int),
        d.text().subrange(0, 6) == two_digits(d.day as int) + seq![0x2Du8] + two_digits(d.month as int)
            + seq![0x2Du8],
        d.text().subrange(6, d.text().len() as int) == padded_decimal(d.year as nat, 4),
{
    lemma_two_digits(t.hours as nat);
    lemma_two_digits(t.minutes as nat);
    lemma_two_digits(t.seconds as nat);
    lemma_two_digits(d.day as nat);
    lemma_two_digits(d.month as nat);
    assert(t.short() =~= two_digits(t.hours as int) + seq![0x3Au8] + two_digits(t.minutes as int));
    assert(d.text().subrange(0, 6) =~= two_digits(d.day as int) + seq![0x2Du8] + two_digits(
        d.month as int,
    ) + seq![0x2Du8]);
    assert(d.text().subrange(6, d.text().len() as int) =~= padded_decimal(d.year as nat, 4));
}

/// The two halves of a byte of the clock are two decimal digits. Twelve in the morning is the first
/// hour of the day, and twelve in the afternoon is noon.
pub proof fn the_clock_is_read(tens: int, ones: int, hour: int)
    requires
        0 <= tens <= 9,
        0 <= ones <= 9,
        1 <= hour <= 11,
    ensures
        bcd_value((tens * 16 + ones) as u8) == tens * 10 + ones,
        from_twelve_hours(12, false) == 0,
        from_twelve_hours(12, true) == 12,
        from_twelve_hours(hour, false) == hour,
        from_twelve_hours(hour, true) == hour + 12,
{
}

} // verus!
