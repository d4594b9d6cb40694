//! The real-time clock chip.
use vstd::prelude::*;

use crate::time::date::{Date, DateTime, Time};

verus! {

#[derive(Clone, Copy, PartialEq, Eq, Structural, Debug)]
pub struct RtcTime {
    pub seconds: u8,
    pub minutes: u8,
    pub hours: u8,
    pub day: u8,
    pub month: u8,
    /// Years since 2000.
    pub year: u8,
}

/// The value of two decimal digits in one byte.
pub open spec fn bcd_value(bcd: u8) -> int {
    (bcd as int / 16) * 10 + bcd as int % 16
}

/// The hour of a twelve-hour clock whose top bit tells the afternoon.
pub open spec fn from_twelve_hours(hours: int, afternoon: bool) -> int {
    hours % 12 + if afternoon { 12int } else { 0 }
}

impl RtcTime {
    pub open spec fn datetime(&self) -> DateTime {
        DateTime {
            date: Date { day: self.day, month: self.month, year: (self.year + 2000) as u16 },
            time: Time { seconds: self.seconds, minutes: self.minutes, hours: self.hours },
        }
    }

    pub fn to_datetime(&self) -> (r: DateTime)
        ensures
            r == self.datetime(),
    {
        DateTime {
            date: Date { day: self.day, month: self.month, year: self.year as u16 + 2000 },
            time: Time { seconds: self.seconds, minutes: self.minutes, hours: self.hours },
        }
    }
}

fn convert_bcd(bcd: u8) -> (r: u8)
    ensures
        r == bcd_value(bcd),
{
    (bcd / 16) * 10 + bcd % 16
}

/// The registers to read, in order: status, then seconds, minutes, hours, day,
/// month and year. The top bit of the index port is kept.
pub fn rtc_registers(index_port: u8) -> (r: Vec<u8>)
    ensures
        ({
            let keep = index_port & 0x80;
            r@ == seq![
                keep | 0x0b, keep | 0x00, keep | 0x02, keep | 0x04, keep | 0x07, keep | 0x08,
                keep | 0x09,
            ]
        }),
{
    let keep: u8 = index_port & 0x80;
    let r: Vec<u8> = vec![
        keep | 0x0b, keep | 0x00, keep | 0x02, keep | 0x04, keep | 0x07, keep | 0x08, keep | 0x09,
    ];
    assert(r@ =~= seq![
        keep | 0x0b, keep | 0x00, keep | 0x02, keep | 0x04, keep | 0x07, keep | 0x08, keep | 0x09,
    ]);
    r
}

/// A register value in the coding of the chip.
pub open spec fn plain(value: u8, bcd: bool) -> int {
    if bcd { bcd_value(value) } else { value as int }
}

/// The time in the registers of the chip. Its status register tells whether values
/// are binary (bit 2) and hours run to 24 (bit 1).
pub fn read_rtc_time(status: u8, raw: &RtcTime) -> (r: RtcTime)
    ensures
        ({
            let bcd = status & 4 == 0;
            &&& r.seconds == plain(raw.seconds, bcd)
            &&& r.minutes == plain(raw.minutes, bcd)
            &&& r.day == plain(raw.day, bcd)
            &&& r.month == plain(raw.month, bcd)
            &&& r.year == plain(raw.year, bcd)
            &&& r.hours == (if status & 2 != 0 {
                plain(raw.hours, bcd)
            } else {
                from_twelve_hours(plain((raw.hours % 128) as u8, bcd), raw.hours >= 128)
            })
        }),
{
    let use_24_hour: bool = status & 2 != 0;
    let use_bcd: bool = status & 4 == 0;
    let mut time: RtcTime = *raw;
    if use_bcd {
        time.seconds = convert_bcd(raw.seconds);
        time.minutes = convert_bcd(raw.minutes);
        time.day = convert_bcd(raw.day);
        time.month = convert_bcd(raw.month);
        time.year = convert_bcd(raw.year);
    }
    if use_24_hour {
        if use_bcd {
            time.hours = convert_bcd(raw.hours);
        }
    } else {
        let pm: bool = raw.hours >= 128;
        let low: u8 = raw.hours % 128;
        let hours: u8 = if use_bcd { convert_bcd(low) } else { low };
        time.hours = hours % 12;
        if pm {
            time.hours = time.hours + 12;
        }
    }
    time
}

} // verus!
