//! Dates and times of day.
use vstd::prelude::*;

use crate::text::{decimal, push_decimal};
use crate::time::calendar::{
    day_number, days_before_year, days_in_month, is_date, is_leap_year, leap_year, lemma_one_date,
    lemma_year_length, lemma_year_of, month_and_day, month_start, month_start_in, start_of_month,
    start_of_year, timestamp_of, year_of, year_of_day,
};
use crate::time::system::Timestamp;

verus! {

pub const SECONDS_IN_DAY: u32 = 86400;

#[derive(Clone, Copy, PartialEq, Eq, Structural, Debug)]
pub struct Date {
    pub day: u8,
    pub month: u8,
    pub year: u16,
}

#[derive(Clone, Copy, PartialEq, Eq, Structural, Debug)]
pub struct Time {
    pub seconds: u8,
    pub minutes: u8,
    pub hours: u8,
}

#[derive(Clone, Copy, PartialEq, Eq, Structural, Debug)]
pub struct DateTime {
    pub date: Date,
    pub time: Time,
}

/// A number with leading zeros, at least `width` digits.
pub open spec fn padded_decimal(n: nat, width: nat) -> Seq<u8> {
    let d = decimal(n);
    if d.len() >= width { d } else { Seq::new((width - d.len()) as nat, |i: int| 0x30u8) + d }
}

/// Append a number with leading zeros.
pub fn push_padded(out: &mut Vec<u8>, n: u32, width: usize)
    ensures
        final(out)@ == old(out)@ + padded_decimal(n as nat, width as nat),
{
    let mut digits: Vec<u8> = Vec::new();
    push_decimal(&mut digits, n as u64);
    let ghost start = out@;
    let ghost d = decimal(n as nat);
    assert(digits@ =~= d);
    let mut i: usize = digits.len();
    let count: usize = digits.len();
    while i < width
        invariant
            count == d.len(),
            i >= count,
            i <= width || i == count,
            out@ =~= start + Seq::new((i - count) as nat, |k: int| 0x30u8),
        decreases width - i,
    {
        out.push(0x30);
        i += 1;
    }
    crate::text::push_bytes(out, digits.as_slice());
    assert(out@ =~= start + padded_decimal(n as nat, width as nat));
}

impl Date {
    /// Day, month and year, as "DD-MM-YYYY".
    pub open spec fn text(&self) -> Seq<u8> {
        padded_decimal(self.day as nat, 2) + seq![0x2Du8] + padded_decimal(self.month as nat, 2)
            + seq![0x2Du8] + padded_decimal(self.year as nat, 4)
    }

    /// Append the date as "DD-MM-YYYY".
    pub fn push_text(&self, out: &mut Vec<u8>)
        ensures
            final(out)@ == old(out)@ + self.text(),
    {
        push_padded(out, self.day as u32, 2);
        out.push(0x2D);
        push_padded(out, self.month as u32, 2);
        out.push(0x2D);
        push_padded(out, self.year as u32, 4);
        assert(out@ =~= old(out)@ + self.text());
    }
}

impl Time {
    /// Hours, minutes and seconds, as "HH:MM:SS".
    pub open spec fn text(&self) -> Seq<u8> {
        padded_decimal(self.hours as nat, 2) + seq![0x3Au8] + padded_decimal(self.minutes as nat, 2)
            + seq![0x3Au8] + padded_decimal(self.seconds as nat, 2)
    }

    /// Append the time as "HH:MM:SS".
    pub fn push_text(&self, out: &mut Vec<u8>)
        ensures
            final(out)@ == old(out)@ + self.text(),
    {
        push_padded(out, self.hours as u32, 2);
        out.push(0x3A);
        push_padded(out, self.minutes as u32, 2);
        out.push(0x3A);
        push_padded(out, self.seconds as u32, 2);
        assert(out@ =~= old(out)@ + self.text());
    }

    /// Hours and minutes, as "HH:MM".
    pub open spec fn short(&self) -> Seq<u8> {
        seq![
            (self.hours / 10 + 0x30) as u8,
            (self.hours % 10 + 0x30) as u8,
            0x3Au8,
            (self.minutes / 10 + 0x30) as u8,
            (self.minutes % 10 + 0x30) as u8,
        ]
    }

    /// Write "HH:MM" to the front of a buffer.
    pub fn print_short_to_buffer(&self, buffer: &mut [u8])
        requires
            old(buffer)@.len() >= 5,
        ensures
            final(buffer)@ == self.short() + old(buffer)@.subrange(5, old(buffer)@.len() as int),
    {
        buffer[0] = self.hours / 10 + 0x30;
        buffer[1] = self.hours % 10 + 0x30;
        buffer[2] = 0x3A;
        buffer[3] = self.minutes / 10 + 0x30;
        buffer[4] = self.minutes % 10 + 0x30;
        assert(buffer@ =~= self.short() + old(buffer)@.subrange(5, old(buffer)@.len() as int));
    }
}

/// The year, from 1980, that a day lies in.
pub fn year_offset_from_days(days: u32) -> (r: u32)
    requires
        days * 100 <= u32::MAX,
    ensures
        r == year_of(days as int),
{
    year_of_day(days)
}

impl DateTime {
    /// A date of the Gregorian calendar.
    pub open spec fn valid_date(&self) -> bool {
        is_date(self.date.year as int, self.date.month as int, self.date.day as int)
    }

    /// Days from 1970-01-01 to the date.
    pub open spec fn unix_day(&self) -> int {
        days_before_year(self.date.year as int) - 719162 + month_start_in(
            self.date.month as int, leap_year(self.date.year as int),
        ) + self.date.day - 1
    }

    pub open spec fn seconds_of_day(&self) -> int {
        self.time.hours * 3600 + self.time.minutes * 60 + self.time.seconds
    }

    pub open spec fn valid_time(&self) -> bool {
        self.time.hours < 24 && self.time.minutes < 60 && self.time.seconds < 60
    }

    /// The timestamp of the date and time; 0 where the year or month is none.
    pub open spec fn stamp(&self) -> int {
        timestamp_of(
            self.date.year as int, self.date.month as int, self.date.day as int,
            self.time.hours as int, self.time.minutes as int, self.time.seconds as int,
        )
    }

    /// What a timestamp means: the date of its day, from 1980 on, and the time of its
    /// second.
    pub open spec fn of_stamp(ts: u32, d: DateTime) -> bool {
        &&& d.date.year >= 1980
        &&& d.valid_date()
        &&& day_number(d.date.year as int, d.date.month as int, d.date.day as int) == ts as int
            / 86400
        &&& d.valid_time()
        &&& d.seconds_of_day() == ts as int % 86400
    }

    /// The date and time of a number of seconds since 1970.
    pub fn from_unix_epoch(seconds: u32) -> (r: DateTime)
        ensures
            r.valid_date(),
            r.valid_time(),
            r.unix_day() * 86400 + r.seconds_of_day() == seconds,
    {
        let days: u32 = seconds / SECONDS_IN_DAY + 719468;
        let era: u32 = days / 146097;
        let day_of_era: u32 = days % 146097;
        proof { lemma_year_of_era(day_of_era as int); }
        let year_of_era: u32 = (day_of_era - day_of_era / 1460 + day_of_era / 36524
            - day_of_era / 146096) / 365;
        let march_year: u32 = year_of_era + era * 400;
        let day_of_year: u32 = day_of_era - (year_of_era * 365 + year_of_era / 4
            - year_of_era / 100);
        let month_partial: u32 = (day_of_year * 5 + 2) / 153;
        let day_of_month: u32 = day_of_year - (153 * month_partial + 2) / 5 + 1;
        let month: u32 = if month_partial < 10 { month_partial + 3 } else { month_partial - 9 };
        let year: u32 = if month <= 2 { march_year + 1 } else { march_year };

        let seconds_of_day: u32 = seconds - (seconds / SECONDS_IN_DAY) * SECONDS_IN_DAY;
        let hours: u32 = seconds_of_day / 60 / 60;
        let minutes_of_day: u32 = seconds_of_day / 60;
        let minutes: u32 = minutes_of_day - hours * 60;
        let sec: u32 = seconds_of_day - hours * 60 * 60 - minutes * 60;

        let r: DateTime = DateTime {
            date: Date { day: day_of_month as u8, month: month as u8, year: year as u16 },
            time: Time { seconds: sec as u8, minutes: minutes as u8, hours: hours as u8 },
        };
        proof {
            lemma_march_year(
                days as int, era as int, year_of_era as int, day_of_year as int,
                month_partial as int, year as int, month as int, day_of_month as int,
            );
        }
        r
    }

    /// The timestamp of the date and time.
    pub fn to_timestamp(&self) -> (r: Timestamp)
        requires
            1980 <= self.date.year && 1 <= self.date.month <= 12 ==> 1 <= self.date.day,
            self.stamp() <= u32::MAX,
        ensures
            r.0 == self.stamp(),
    {
        if self.date.year < 1980 || self.date.month == 0 || self.date.month > 12 {
            return Timestamp(0);
        }
        let mut days: u32 = start_of_year(self.date.year as u32 - 1980);
        days += start_of_month(self.date.month as usize);
        if self.date.month > 2 && is_leap_year(self.date.year) {
            days += 1;
        }
        days += self.date.day as u32 - 1;
        assert(days == day_number(
            self.date.year as int, self.date.month as int, self.date.day as int,
        ));
        Timestamp(
            days * SECONDS_IN_DAY + self.time.hours as u32 * 3600 + self.time.minutes as u32 * 60
                + self.time.seconds as u32,
        )
    }

    /// The date and time of a timestamp.
    pub fn from_timestamp(ts: Timestamp) -> (r: Self)
        ensures
            Self::of_stamp(ts.0, r),
    {
        let days: u32 = ts.0 / SECONDS_IN_DAY;
        let raw_time: u32 = ts.0 % SECONDS_IN_DAY;
        let year_offset: u32 = year_of_day(days);
        let year: u16 = year_offset as u16 + 1980;
        proof { lemma_year_of(days as int, year_offset as int); }
        let year_days: u32 = days - start_of_year(year_offset);
        let (month, day): (u8, u8) = month_and_day(year_days, is_leap_year(year));
        let total_minutes: u32 = raw_time / 60;
        DateTime {
            date: Date { day, month, year },
            time: Time {
                seconds: (raw_time % 60) as u8,
                minutes: (total_minutes % 60) as u8,
                hours: (total_minutes / 60) as u8,
            },
        }
    }
}

/// Days of an era before a year of it. An era has 400 years and begins on 1 March.
spec fn era_year_start(y: int) -> int {
    if y >= 400 { 146097 } else { 365 * y + y / 4 - y / 100 }
}

/// The year of an era that a day of it lies in.
proof fn lemma_year_of_era(doe: int)
    requires
        0 <= doe < 146097,
    ensures
        ({
            let y = (doe - doe / 1460 + doe / 36524 - doe / 146096) / 365;
            0 <= y < 400 && era_year_start(y) <= doe < era_year_start(y + 1)
        }),
{
    let b = doe / 36524;
    let y = (doe - doe / 1460 + doe / 36524 - doe / 146096) / 365;
    if doe == 146096 {
    } else if b == 0 {
        assert(0 <= y < 400);
    } else if b == 1 {
    } else if b == 2 {
    } else {
        assert(b == 3);
    }
}

/// The month and the day of a day counted from 1 March. A month is counted from March too.
proof fn lemma_march_month(doy: int, mp: int, month: int, day: int)
    requires
        0 <= doy <= 365,
        mp == (doy * 5 + 2) / 153,
        day == doy - (153 * mp + 2) / 5 + 1,
        month == (if mp < 10 { mp + 3 } else { mp - 9 }),
    ensures
        1 <= month <= 12,
        1 <= day,
        month > 2 ==> month_start(month) + day - 1 == doy + 59,
        month <= 2 ==> month_start(month) + day - 1 == doy - 306,
        day <= days_in_month(month, doy == 365),
{
    assert(0 <= mp <= 11);
    if mp <= 2 {
    } else if mp <= 5 {
    } else if mp <= 8 {
    } else {
    }
}

/// The days before a year that begins in an era.
proof fn lemma_era(era: int, yoe: int)
    requires
        0 <= era,
        0 <= yoe < 400,
    ensures
        days_before_year(era * 400 + yoe + 1) == era * 146097 + era_year_start(yoe),
{
    reveal(days_before_year);
    let m = era * 400 + yoe;
    assert(m / 4 == era * 100 + yoe / 4);
    assert(m / 100 == era * 4 + yoe / 100);
    assert(m / 400 == era);
}

/// Days counted from 1 March of the year 0 give the date.
proof fn lemma_march_year(
    days: int, era: int, yoe: int, doy: int, mp: int, year: int, month: int, day: int,
)
    requires
        0 <= era,
        0 <= yoe < 400,
        days == era * 146097 + era_year_start(yoe) + doy,
        0 <= doy,
        era_year_start(yoe) + doy < era_year_start(yoe + 1),
        mp == (doy * 5 + 2) / 153,
        day == doy - (153 * mp + 2) / 5 + 1,
        month == (if mp < 10 { mp + 3 } else { mp - 9 }),
        year == era * 400 + yoe + (if month <= 2 { 1int } else { 0 }),
    ensures
        1 <= month <= 12,
        1 <= day <= days_in_month(month, leap_year(year)),
        days_before_year(year) + month_start_in(month, leap_year(year)) + day - 1 == days - 306,
        0 <= doy <= 365,
        year <= era * 400 + 400,
{
    let m = era * 400 + yoe;
    lemma_era(era, yoe);
    lemma_year_length(m);
    lemma_year_length(m + 1);
    assert(doy <= 365 && (doy == 365 ==> leap_year(m + 1))) by {
        if yoe < 399 {
            lemma_era(era, yoe + 1);
        } else {
            assert(m + 1 == (era + 1) * 400);
        }
    }
    lemma_march_month(doy, mp, month, day);
}

/// A timestamp has one date and time.
pub proof fn timestamp_means_one_date(ts: u32, a: DateTime, b: DateTime)
    requires
        DateTime::of_stamp(ts, a),
        DateTime::of_stamp(ts, b),
    ensures
        a == b,
{
    lemma_one_date(
        a.date.year as int, a.date.month as int, a.date.day as int, b.date.year as int,
        b.date.month as int, b.date.day as int,
    );
    lemma_one_time(a.time, b.time);
}

/// A second of the day is at one time.
proof fn lemma_one_time(a: Time, b: Time)
    requires
        a.hours < 24 && a.minutes < 60 && a.seconds < 60,
        b.hours < 24 && b.minutes < 60 && b.seconds < 60,
        a.hours * 3600 + a.minutes * 60 + a.seconds == b.hours * 3600 + b.minutes * 60 + b.seconds,
    ensures
        a == b,
{
}

/// The date and time of a timestamp give the timestamp back.
pub proof fn datetime_round_trip(ts: u32, d: DateTime)
    requires
        DateTime::of_stamp(ts, d),
    ensures
        d.stamp() == ts,
{
}

/// Every date has its own day: two dates of the calendar on the same day are the same.
pub proof fn days_have_one_date(a: DateTime, b: DateTime)
    requires
        a.valid_date(),
        b.valid_date(),
        a.date.year >= 1,
        b.date.year >= 1,
        a.unix_day() == b.unix_day(),
    ensures
        a.date == b.date,
{
    lemma_one_date(
        a.date.year as int, a.date.month as int, a.date.day as int, b.date.year as int,
        b.date.month as int, b.date.day as int,
    );
}

/// Seconds since 1980 and seconds since 1970 mean the same date and time.
pub proof fn both_scales_agree(ts: u32, a: DateTime, b: DateTime)
    requires
        DateTime::of_stamp(ts, a),
        b.valid_date(),
        b.valid_time(),
        b.date.year >= 1,
        b.unix_day() * 86400 + b.seconds_of_day() == ts + 315532800,
    ensures
        a == b,
{
    lemma_same_day(ts as int, b.unix_day(), b.seconds_of_day());
    assert(a.unix_day() == ts as int / 86400 + 3652) by {
        reveal(days_before_year);
    }
    days_have_one_date(a, b);
    lemma_one_time(a.time, b.time);
}

proof fn lemma_same_day(ts: int, day: int, second: int)
    requires
        0 <= ts,
        0 <= second < 86400,
        day * 86400 + second == ts + 315532800,
    ensures
        day == ts / 86400 + 3652,
        second == ts % 86400,
{
}

} // verus!
