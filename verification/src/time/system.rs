//! The system clock.
use vstd::prelude::*;

use crate::time::date::DateTime;

verus! {

/// The base frequency of the timer, in ticks per second.
pub const PIT_BASE_FREQ: u32 = 1_193_182;
/// The timer interrupts once in so many ticks of its base frequency.
pub const PIT_DIVIDER: u32 = 11_932;

/// One interrupt of the timer, in units of 100 nanoseconds.
pub const HUNDRED_NS_PER_TICK: u64 = 100_001;
/// One interrupt of the timer, in milliseconds.
pub const MS_PER_TICK: u32 = 10;

/// Units of 100 nanoseconds since midnight on 1 January 1980.
#[derive(Clone, Copy, PartialEq, Eq, Structural, Debug)]
pub struct TimestampHires(pub u64);

impl TimestampHires {
    pub fn set(&mut self, value: u64)
        ensures
            final(self).0 == value,
    {
        self.0 = value;
    }

    pub fn increment(&mut self, value: u64)
        requires
            old(self).0 + value <= u64::MAX,
        ensures
            final(self).0 == old(self).0 + value,
    {
        self.0 = self.0 + value;
    }

    pub fn in_ms(&self) -> (r: u64)
        ensures
            r == self.0 / 10_000,
    {
        self.0 / 10_000
    }

    pub fn in_seconds(&self) -> (r: u64)
        ensures
            r == self.0 / 10_000_000,
    {
        self.0 / 10_000_000
    }

    pub fn from_timestamp(ts: Timestamp) -> (r: Self)
        ensures
            r.0 == ts.0 * 10_000_000,
    {
        TimestampHires(ts.0 as u64 * 10_000_000)
    }

    /// The second, in the low 32 bits.
    pub fn to_timestamp(&self) -> (r: Timestamp)
        ensures
            r.0 == (self.0 / 10_000_000) % 0x1_0000_0000,
    {
        Timestamp((self.in_seconds() % 0x1_0000_0000) as u32)
    }

    /// The sum of a time and a span.
    pub fn plus(self, rhs: Self) -> (r: Self)
        requires
            self.0 + rhs.0 <= u64::MAX,
        ensures
            r.0 == self.0 + rhs.0,
    {
        TimestampHires(self.0 + rhs.0)
    }
}

/// Seconds survive the finer scale.
pub proof fn hires_round_trip(ts: Timestamp)
    ensures
        ((ts.0 * 10_000_000) / 10_000_000) % 0x1_0000_0000 == ts.0,
{
}

/// Seconds since midnight on 1 January 1980, without leap seconds.
#[derive(Clone, Copy, PartialEq, Eq, Structural, Debug)]
pub struct Timestamp(pub u32);

impl Timestamp {
    pub fn to_datetime(&self) -> (r: DateTime)
        ensures
            DateTime::of_stamp(self.0, r),
    {
        DateTime::from_timestamp(*self)
    }

    pub fn total_minutes(&self) -> (r: u32)
        ensures
            r == self.0 / 60,
    {
        self.0 / 60
    }

    pub fn as_u32(&self) -> (r: u32)
        ensures
            r == self.0,
    {
        self.0
    }

    /// The current second of a clock.
    pub fn now(clock: &SystemClock) -> (r: Self)
        requires
            clock.wf(),
        ensures
            r.0 == (clock.now() / 10_000_000) % 0x1_0000_0000,
    {
        clock.get_system_time().to_timestamp()
    }

    /// Some seconds later.
    pub fn plus(self, rhs: u32) -> (r: Self)
        requires
            self.0 + rhs <= u32::MAX,
        ensures
            r.0 == self.0 + rhs,
    {
        Timestamp(self.0 + rhs)
    }
}

/// The clock: a known point in time, the span since then, the ticks since the
/// start, and where the processor spent them. Tick counts wrap.
#[derive(Clone, Copy, PartialEq, Eq, Structural, Debug)]
pub struct SystemClock {
    pub known_time: TimestampHires,
    pub time_offset: TimestampHires,
    pub system_ticks: u32,
    pub user_ticks: u32,
    pub kernel_ticks: u32,
    pub idle_ticks: u32,
}

pub open spec fn next_count(n: u32) -> u32 {
    ((n + 1) % 0x1_0000_0000) as u32
}

impl SystemClock {
    pub open spec fn now(&self) -> int {
        self.known_time.0 + self.time_offset.0
    }

    pub open spec fn wf(&self) -> bool {
        self.now() <= u64::MAX
    }

    pub fn new() -> (r: Self)
        ensures
            r.wf(),
            r.now() == 0,
            r.system_ticks == 0,
            r.user_ticks == 0,
            r.kernel_ticks == 0,
            r.idle_ticks == 0,
    {
        SystemClock {
            known_time: TimestampHires(0),
            time_offset: TimestampHires(0),
            system_ticks: 0,
            user_ticks: 0,
            kernel_ticks: 0,
            idle_ticks: 0,
        }
    }

    /// Count a tick of processor time: for the user, else for idling, else for the
    /// kernel.
    pub fn record_cpu_tick(&mut self, is_user: bool, is_idle: bool)
        ensures
            *final(self) == (if is_user {
                SystemClock { user_ticks: next_count(old(self).user_ticks), ..*old(self) }
            } else if is_idle {
                SystemClock { idle_ticks: next_count(old(self).idle_ticks), ..*old(self) }
            } else {
                SystemClock { kernel_ticks: next_count(old(self).kernel_ticks), ..*old(self) }
            }),
    {
        if is_user {
            self.user_ticks = self.user_ticks.wrapping_add(1);
        } else if is_idle {
            self.idle_ticks = self.idle_ticks.wrapping_add(1);
        } else {
            self.kernel_ticks = self.kernel_ticks.wrapping_add(1);
        }
    }

    /// Ticks of processor time: for the user, for the kernel, and idle.
    pub fn get_cpu_ticks(&self) -> (r: (u32, u32, u32))
        ensures
            r == (self.user_ticks, self.kernel_ticks, self.idle_ticks),
    {
        (self.user_ticks, self.kernel_ticks, self.idle_ticks)
    }

    /// The timer interrupted.
    pub fn tick(&mut self)
        requires
            old(self).now() + HUNDRED_NS_PER_TICK <= u64::MAX,
        ensures
            final(self).wf(),
            *final(self) == (SystemClock {
                system_ticks: next_count(old(self).system_ticks),
                time_offset: final(self).time_offset,
                ..*old(self)
            }),
            final(self).now() == old(self).now() + HUNDRED_NS_PER_TICK,
    {
        self.system_ticks = self.system_ticks.wrapping_add(1);
        self.increment_offset(HUNDRED_NS_PER_TICK);
    }

    pub fn get_system_ticks(&self) -> (r: u32)
        ensures
            r == self.system_ticks,
    {
        self.system_ticks
    }

    /// Milliseconds since the start. `remaining` is the count of the timer, which
    /// runs down from its divider and gives the part of the current tick.
    pub fn get_monotonic_ms(&self, remaining: u16) -> (r: u64)
        ensures
            r == self.system_ticks * 10 + (if remaining <= PIT_DIVIDER {
                ((PIT_DIVIDER - remaining) * 10) / (PIT_DIVIDER as int)
            } else {
                0
            }),
    {
        let base_ms: u64 = self.system_ticks as u64 * MS_PER_TICK as u64;
        let elapsed: u64 = (PIT_DIVIDER as u64).saturating_sub(remaining as u64);
        base_ms + elapsed * MS_PER_TICK as u64 / PIT_DIVIDER as u64
    }

    /// Set the known point in time to now.
    pub fn reset_known_time(&mut self, time: u64)
        ensures
            final(self).wf(),
            *final(self) == (SystemClock {
                known_time: TimestampHires(time),
                time_offset: TimestampHires(0),
                ..*old(self)
            }),
    {
        self.known_time.set(time);
        self.time_offset.set(0);
    }

    pub fn get_system_time(&self) -> (r: TimestampHires)
        requires
            self.wf(),
        ensures
            r.0 == self.now(),
    {
        self.known_time.plus(self.time_offset)
    }

    /// Whole seconds since the known point in time.
    pub fn get_offset_seconds(&self) -> (r: u64)
        ensures
            r == self.time_offset.0 / 10_000_000,
    {
        self.time_offset.in_seconds()
    }

    /// Let time pass.
    pub fn increment_offset(&mut self, delta: u64)
        requires
            old(self).now() + delta <= u64::MAX,
        ensures
            final(self).wf(),
            *final(self) == (SystemClock { time_offset: final(self).time_offset, ..*old(self) }),
            final(self).time_offset.0 == old(self).time_offset.0 + delta,
    {
        self.time_offset.increment(delta);
    }

    /// Take the time from the clock chip.
    pub fn initialize_time_from_rtc(&mut self, rtc: &crate::time::rtc::RtcTime)
        requires
            1 <= rtc.month <= 12 ==> 1 <= rtc.day,
            rtc.datetime().stamp() <= u32::MAX,
        ensures
            final(self).wf(),
            *final(self) == (SystemClock {
                known_time: TimestampHires((rtc.datetime().stamp() * 10_000_000) as u64),
                time_offset: TimestampHires(0),
                ..*old(self)
            }),
    {
        let timestamp: Timestamp = rtc.to_datetime().to_timestamp();
        let system_time: TimestampHires = TimestampHires::from_timestamp(timestamp);
        self.reset_known_time(system_time.0);
    }
}

} // verus!
