//! Dates, times and the system clock.

pub mod calendar;
pub mod date;
pub mod laws;
pub mod rtc;
pub mod system;
