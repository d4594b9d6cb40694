//! FAT dates and times, and timestamps in seconds since 1980.
use vstd::prelude::*;

use crate::time::calendar::{
    day_number, days_in_month, is_date, is_leap_year, leap_year, lemma_one_date, lemma_year_of,
    lemma_years_grow, month_and_day, start_of_month, start_of_year, timestamp_of, year_of,
    year_start,
};

verus! {

/// A time of day in two-second steps: five bits of hours, six of minutes, five of
/// seconds halved.
#[derive(Clone, Copy, PartialEq, Eq, Structural, Debug)]
pub struct FileTime(pub u16);

/// A date: seven bits of years since 1980, four of months, five of days.
#[derive(Clone, Copy, PartialEq, Eq, Structural, Debug)]
pub struct FileDate(pub u16);

proof fn lemma_time_fields(x: u16)
    by (bit_vector)
    ensures
        x >> 11 == x / 2048,
        (x >> 5) & 0x3f == (x / 32) % 64,
        (x & 0x1f) << 1 == (x % 32) * 2,
        (x >> 9) & 0x7f == x / 512,
        (x >> 5) & 0xf == (x / 32) % 16,
        x & 0x1f == x % 32,
{
}

proof fn lemma_time_packed(h: u16, m: u16, s: u16)
    by (bit_vector)
    requires
        h < 32,
        m < 64,
        s < 64,
    ensures
        (h << 11) | (m << 5) | (s >> 1) == h * 2048 + m * 32 + s / 2,
{
}

proof fn lemma_date_packed(y: u16, m: u16, d: u16)
    by (bit_vector)
    ensures
        ((y & 0x7f) << 9) | ((m & 0xf) << 5) | (d & 0x1f)
            == (y % 128) * 512 + (m % 16) * 32 + d % 32,
{
}

impl FileTime {
    pub open spec fn hours(&self) -> int {
        self.0 as int / 2048
    }

    pub open spec fn minutes(&self) -> int {
        (self.0 as int / 32) % 64
    }

    pub open spec fn seconds(&self) -> int {
        (self.0 as int % 32) * 2
    }

    pub fn get_hours(&self) -> (r: u16)
        ensures
            r == self.hours(),
    {
        proof { lemma_time_fields(self.0); }
        self.0 >> 11
    }

    pub fn get_minutes(&self) -> (r: u16)
        ensures
            r == self.minutes(),
    {
        proof { lemma_time_fields(self.0); }
        (self.0 >> 5) & 0x3f
    }

    pub fn get_seconds(&self) -> (r: u16)
        ensures
            r == self.seconds(),
    {
        proof { lemma_time_fields(self.0); }
        (self.0 & 0x1f) << 1
    }

    /// Pack a time. Parts that are too large spill into their neighbours.
    pub fn from_parts(hours: u8, minutes: u8, seconds: u8) -> (r: Self)
        ensures
            r.0 == ((hours as u16) << 11) | ((minutes as u16) << 5) | ((seconds as u16) >> 1),
            hours < 32 && minutes < 64 && seconds < 64 ==> r.hours() == hours
                && r.minutes() == minutes && r.seconds() == seconds as int / 2 * 2,
    {
        proof {
            if hours < 32 && minutes < 64 && seconds < 64 {
                lemma_time_packed(hours as u16, minutes as u16, seconds as u16);
            }
        }
        FileTime(((hours as u16) << 11) | ((minutes as u16) << 5) | ((seconds as u16) >> 1))
    }
}

impl FileDate {
    pub open spec fn year(&self) -> int {
        self.0 as int / 512 + 1980
    }

    pub open spec fn month(&self) -> int {
        (self.0 as int / 32) % 16
    }

    pub open spec fn day(&self) -> int {
        self.0 as int % 32
    }

    pub fn get_year(&self) -> (r: u16)
        ensures
            r == self.year(),
    {
        proof { lemma_time_fields(self.0); }
        ((self.0 >> 9) & 0x7f) + 1980
    }

    pub fn get_month(&self) -> (r: u16)
        ensures
            r == self.month(),
    {
        proof { lemma_time_fields(self.0); }
        (self.0 >> 5) & 0xf
    }

    pub fn get_day(&self) -> (r: u16)
        ensures
            r == self.day(),
    {
        proof { lemma_time_fields(self.0); }
        self.0 & 0x1f
    }

    /// Pack a date. Years before 1980 count as 1980; each part is cut to its field.
    pub fn from_parts(year: u16, month: u8, day: u8) -> (r: Self)
        ensures
            r.year() == 1980 + (if year >= 1980 { (year - 1980) % 128 } else { 0 }),
            r.month() == month % 16,
            r.day() == day % 32,
    {
        let year_val: u16 = if year >= 1980 { year - 1980 } else { 0 };
        proof { lemma_date_packed(year_val, month as u16, day as u16); }
        FileDate(((year_val & 0x7f) << 9) | ((month as u16 & 0xf) << 5) | (day as u16 & 0x1f))
    }
}

/// A date and time packed from their parts give the parts back, seconds to the
/// even number below.
pub proof fn stamp_fields_round_trip(date: FileDate, time: FileTime)
    ensures
        date.0 == (date.year() - 1980) * 512 + date.month() * 32 + date.day(),
        time.0 == time.hours() * 2048 + time.minutes() * 32 + time.seconds() / 2,
{
    lemma_fields_recompose(date.0);
    lemma_fields_recompose(time.0);
}

proof fn lemma_fields_recompose(x: u16)
    by (bit_vector)
    ensures
        x == (x / 512) * 512 + ((x / 32) % 16) * 32 + x % 32,
        x == (x / 2048) * 2048 + ((x / 32) % 64) * 32 + x % 32,
{
}

/// The timestamp of a FAT date and time.
pub fn encode_timestamp(year: u16, month: u16, day: u16, hours: u16, minutes: u16, seconds: u16) -> (r:
    u32)
    requires
        year <= 2107,
        day <= 31,
        1980 <= year && 1 <= month <= 12 ==> 1 <= day,
        hours < 32,
        minutes < 64,
        seconds < 64,
    ensures
        r == timestamp_of(
            year as int, month as int, day as int, hours as int, minutes as int, seconds as int,
        ),
{
    if year < 1980 || month == 0 || month > 12 {
        return 0;
    }
    let mut days: u32 = start_of_year((year - 1980) as u32);
    days += start_of_month(month as usize);
    if month > 2 && is_leap_year(year) {
        days += 1;
    }
    days += day as u32 - 1;
    days * 86400 + hours as u32 * 3600 + minutes as u32 * 60 + seconds as u32
}

/// The FAT date and time of a timestamp: the date of its day, with the year cut to its
/// field, and the time to the even second below.
pub open spec fn decoded(ts: u32, date: FileDate, time: FileTime) -> bool {
    let days = ts as int / 86400;
    let clock = ts as int % 86400;
    let year = 1980 + year_of(days);
    &&& is_date(year, date.month(), date.day())
    &&& day_number(year, date.month(), date.day()) == days
    &&& date.year() == 1980 + year_of(days) % 128
    &&& time.hours() == clock / 3600
    &&& time.minutes() == (clock / 60) % 60
    &&& time.seconds() == (clock % 60) / 2 * 2
}

/// A timestamp has one date and time.
pub proof fn decoding_is_unique(ts: u32, d1: FileDate, t1: FileTime, d2: FileDate, t2: FileTime)
    requires
        decoded(ts, d1, t1),
        decoded(ts, d2, t2),
    ensures
        d1 == d2,
        t1 == t2,
{
    let days = ts as int / 86400;
    let offset = crate::time::calendar::lemma_day_has_year(days);
    lemma_year_of(days, offset);
    let year = 1980 + year_of(days);
    lemma_one_date(year, d1.month(), d1.day(), year, d2.month(), d2.day());
    stamp_fields_round_trip(d1, t1);
    stamp_fields_round_trip(d2, t2);
}

/// The date and time of a timestamp.
pub fn decode_timestamp(ts: u32) -> (r: (FileDate, FileTime))
    ensures
        decoded(ts, r.0, r.1),
{
    let days: u32 = ts / 86400;
    let raw_time: u32 = ts % 86400;
    let year_offset: u32 = crate::time::calendar::year_of_day(days);
    let year: u16 = year_offset as u16 + 1980;
    proof { lemma_year_of(days as int, year_offset as int); }
    let year_days: u32 = days - start_of_year(year_offset);
    let (month, day): (u8, u8) = month_and_day(year_days, is_leap_year(year));
    let total_minutes: u32 = raw_time / 60;
    let seconds: u32 = raw_time % 60;
    let hours: u32 = total_minutes / 60;
    let minutes: u32 = total_minutes % 60;
    proof { lemma_time_of_day(raw_time as int); }
    assert(1 <= day <= days_in_month(month as int, leap_year(year as int)));
    let fat_date: FileDate = FileDate::from_parts(year, month, day);
    let fat_time: FileTime = FileTime::from_parts(hours as u8, minutes as u8, seconds as u8);
    (fat_date, fat_time)
}

/// A timestamp stored as a FAT date and time is read back to the even second below, for
/// all times before 2108, the first year that the field of a date does not hold.
pub proof fn timestamp_round_trip(ts: u32, date: FileDate, time: FileTime)
    requires
        (ts as int) / 86400 < year_start(128),
        decoded(ts, date, time),
    ensures
        timestamp_of(
            date.year(), date.month(), date.day(), time.hours(), time.minutes(), time.seconds(),
        ) == ts as int / 2 * 2,
{
    let days = ts as int / 86400;
    let offset = crate::time::calendar::lemma_day_has_year(days);
    lemma_year_of(days, offset);
    assert(offset < 128) by {
        if offset > 128 {
            lemma_years_grow(2108, 1980 + offset);
        }
    }
    assert(date.year() == 1980 + offset);
    lemma_clock(ts as int);
}

/// The hours and minutes of a time of day.
proof fn lemma_time_of_day(clock: int)
    requires
        0 <= clock < 86400,
    ensures
        clock / 60 / 60 == clock / 3600,
        clock / 3600 < 24,
{
}

/// A time of day in whole and half parts.
proof fn lemma_clock(ts: int)
    requires
        0 <= ts,
    ensures
        ({
            let clock = ts % 86400;
            ts / 86400 * 86400 + clock / 3600 * 3600 + clock / 60 % 60 * 60 + clock % 60 / 2 * 2
                == ts / 2 * 2
        }),
{
    let clock = ts % 86400;
    assert(ts == ts / 86400 * 86400 + clock);
    assert(clock == clock / 3600 * 3600 + clock / 60 % 60 * 60 + clock % 60);
    assert(clock % 2 == clock % 60 % 2);
    assert(ts % 2 == clock % 2);
}

} // verus!
