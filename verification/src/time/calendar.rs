//! The calendar: days, months and years since 1980.
use vstd::prelude::*;

verus! {

/// Days of a common year before a month, counted from 1.
pub open spec fn month_start(month: int) -> int {
    if month <= 1 { 0 }
    else if month == 2 { 31 }
    else if month == 3 { 59 }
    else if month == 4 { 90 }
    else if month == 5 { 120 }
    else if month == 6 { 151 }
    else if month == 7 { 181 }
    else if month == 8 { 212 }
    else if month == 9 { 243 }
    else if month == 10 { 273 }
    else if month == 11 { 304 }
    else { 334 }
}

pub open spec fn leap_year(year: int) -> bool {
    year % 4 == 0 && (year % 100 != 0 || year % 400 == 0)
}

/// Days from the first day of the year 1 to the first day of a year.
#[verifier::opaque]
pub open spec fn days_before_year(year: int) -> int {
    365 * (year - 1) + (year - 1) / 4 - (year - 1) / 100 + (year - 1) / 400
}

/// Days from 1980-01-01 to the first day of a year, counted from 1980.
pub open spec fn year_start(offset: int) -> int {
    days_before_year(1980 + offset) - days_before_year(1980)
}

/// Days from 1980-01-01 to a date.
pub open spec fn day_number(year: int, month: int, day: int) -> int {
    year_start(year - 1980) + month_start_in(month, leap_year(year)) + day - 1
}

/// Seconds from 1980-01-01 to a date and time; 0 where the year or month is none.
pub open spec fn timestamp_of(
    year: int, month: int, day: int, hours: int, minutes: int, seconds: int,
) -> int {
    if year < 1980 || month < 1 || month > 12 {
        0
    } else {
        day_number(year, month, day) * 86400 + hours * 3600 + minutes * 60 + seconds
    }
}

pub fn start_of_month(month: usize) -> (r: u32)
    requires
        1 <= month <= 12,
    ensures
        r == month_start(month as int),
{
    if month == 1 { 0 }
    else if month == 2 { 31 }
    else if month == 3 { 59 }
    else if month == 4 { 90 }
    else if month == 5 { 120 }
    else if month == 6 { 151 }
    else if month == 7 { 181 }
    else if month == 8 { 212 }
    else if month == 9 { 243 }
    else if month == 10 { 273 }
    else if month == 11 { 304 }
    else { 334 }
}

pub fn is_leap_year(year: u16) -> (r: bool)
    ensures
        r == leap_year(year as int),
{
    let y: u32 = year as u32;
    y % 4 == 0 && (y % 100 != 0 || y % 400 == 0)
}

/// A day since 1980-01-01 lies in a year, counted from 1980.
pub open spec fn year_holds(offset: int, days: int) -> bool {
    0 <= offset && year_start(offset) <= days < year_start(offset + 1)
}

/// The year, from 1980, that a day lies in.
pub open spec fn year_of(days: int) -> int {
    choose|offset: int| #[trigger] year_holds(offset, days)
}

/// The day of its year, from 0.
pub open spec fn day_of_year(days: int) -> int {
    days - year_start(year_of(days))
}

/// The first day of a month in its year, in a year that may be a leap year.
pub open spec fn month_start_in(month: int, leap: bool) -> int {
    month_start(month) + if month > 2 && leap { 1int } else { 0 }
}

/// `month` is the month of a day of the year.
pub open spec fn month_holds(month: int, leap: bool, year_day: int) -> bool {
    1 <= month <= 12 && month_start_in(month, leap) <= year_day
        && (month < 12 ==> year_day < month_start_in(month + 1, leap))
}

/// The days of a month.
pub open spec fn days_in_month(month: int, leap: bool) -> int {
    if month == 12 { 31 } else { month_start_in(month + 1, leap) - month_start_in(month, leap) }
}

/// A date of the Gregorian calendar.
pub open spec fn is_date(year: int, month: int, day: int) -> bool {
    1 <= month <= 12 && 1 <= day <= days_in_month(month, leap_year(year))
}

/// A year has 365 days, and a leap year one more.
pub proof fn lemma_year_length(year: int)
    ensures
        days_before_year(year + 1) == days_before_year(year) + 365 + (if leap_year(year) {
            1int
        } else {
            0
        }),
{
    reveal(days_before_year);
    assert(year + 1 - 1 == year);
    lemma_steps(year, 4);
    lemma_steps(year, 100);
    lemma_steps(year, 400);
    assert(year % 400 == 0 ==> year % 100 == 0);
    assert(year % 100 == 0 ==> year % 4 == 0);
}

/// A quotient grows by one at the multiples of its divisor.
pub proof fn lemma_steps(n: int, d: int)
    requires
        d == 4 || d == 100 || d == 400,
    ensures
        n / d - (n - 1) / d == (if n % d == 0 { 1int } else { 0 }),
{
    if d == 4 {
        assert(n / 4 - (n - 1) / 4 == (if n % 4 == 0 { 1int } else { 0 }));
    } else if d == 100 {
        assert(n / 100 - (n - 1) / 100 == (if n % 100 == 0 { 1int } else { 0 }));
    } else {
        assert(n / 400 - (n - 1) / 400 == (if n % 400 == 0 { 1int } else { 0 }));
    }
}

/// Later years begin later, by a whole year at least.
pub proof fn lemma_years_grow(a: int, b: int)
    requires
        1 <= a < b,
    ensures
        days_before_year(a) + 365 + (if leap_year(a) { 1int } else { 0 }) <= days_before_year(b),
    decreases b - a,
{
    lemma_year_length(a);
    if a + 1 < b {
        lemma_years_grow(a + 1, b);
    }
}

/// A day lies in one year.
pub proof fn lemma_year_of(days: int, offset: int)
    requires
        year_holds(offset, days),
    ensures
        year_of(days) == offset,
        0 <= day_of_year(days) <= 365,
        !leap_year(1980 + offset) ==> day_of_year(days) < 365,
{
    let other = year_of(days);
    assert(year_holds(other, days));
    if other < offset {
        lemma_years_grow(1980 + other, 1980 + offset);
        lemma_year_length(1980 + other);
    } else if offset < other {
        lemma_years_grow(1980 + offset, 1980 + other);
        lemma_year_length(1980 + offset);
    }
    lemma_year_length(1980 + offset);
}

/// Every day from 1980 on lies in a year.
pub proof fn lemma_day_has_year(days: int) -> (offset: int)
    requires
        0 <= days,
    ensures
        year_holds(offset, days),
    decreases days,
{
    if days == 0 {
        lemma_year_length(1980);
        assert(year_holds(0, 0));
        0
    } else {
        let before = lemma_day_has_year(days - 1);
        lemma_year_length(1980 + before);
        lemma_year_length(1980 + before + 1);
        if days < year_start(before + 1) {
            before
        } else {
            before + 1
        }
    }
}

/// Two dates on the same day are the same.
pub proof fn lemma_one_date(y1: int, m1: int, d1: int, y2: int, m2: int, d2: int)
    requires
        1 <= y1,
        1 <= y2,
        is_date(y1, m1, d1),
        is_date(y2, m2, d2),
        day_number(y1, m1, d1) == day_number(y2, m2, d2),
    ensures
        y1 == y2,
        m1 == m2,
        d1 == d2,
{
    if y1 < y2 {
        lemma_years_grow(y1, y2);
    } else if y2 < y1 {
        lemma_years_grow(y2, y1);
    }
    assert(y1 == y2);
    assert(m1 == m2);
}

/// The days before a year, counted from 1980.
pub fn start_of_year(offset: u32) -> (r: u32)
    requires
        offset <= 1_000_000,
    ensures
        r == year_start(offset as int),
        365 * offset <= r <= 366 * offset,
{
    let y: u32 = offset + 1979;
    reveal(days_before_year);
    365 * offset + y / 4 + y / 400 - y / 100 - 479
}

/// The year, from 1980, that a day lies in.
pub fn year_of_day(days: u32) -> (r: u32)
    requires
        days <= 100_000_000,
    ensures
        year_holds(r as int, days as int),
        r == year_of(days as int),
        r <= days / 365,
{
    let mut offset: u32 = days / 366;
    let first: u32 = start_of_year(offset);
    assert(first <= days);
    while start_of_year(offset + 1) <= days
        invariant
            days <= 100_000_000,
            365 * offset <= year_start(offset as int) <= days,
        ensures
            days < year_start(offset + 1),
        decreases days - offset,
    {
        offset += 1;
    }
    assert(year_holds(offset as int, days as int));
    proof { lemma_year_of(days as int, offset as int); }
    offset
}

/// The month and the day of the month of a day of the year.
pub fn month_and_day(year_days: u32, is_leap: bool) -> (r: (u8, u8))
    requires
        year_days <= 365,
        !is_leap ==> year_days < 365,
    ensures
        month_holds(r.0 as int, is_leap, year_days as int),
        r.1 == year_days + 1 - month_start_in(r.0 as int, is_leap),
        r.1 <= 31,
{
    let mut month: usize = 0;
    let mut leap: u32 = 0;
    while month < 12 && start_of_month(month + 1) + leap <= year_days
        invariant
            month <= 12,
            year_days <= 365,
            leap == (if month >= 2 && is_leap { 1int } else { 0 }),
            month >= 1 ==> month_start_in(month as int, is_leap) <= year_days,
        decreases 12 - month,
    {
        month += 1;
        if month == 2 && is_leap {
            leap = 1;
        }
    }
    let mut day: u32 = year_days + 1 - start_of_month(month);
    if month > 2 {
        day -= leap;
    }
    (month as u8, day as u8)
}

} // verus!
