use idos::time::date::{year_offset_from_days, Date, DateTime, Time};
use idos::time::rtc::{read_rtc_time, rtc_registers, RtcTime};
use idos::time::system::{SystemClock, Timestamp, TimestampHires, HUNDRED_NS_PER_TICK};

#[test]
fn year_offset() {
    assert_eq!(year_offset_from_days(1), 0);
    assert_eq!(year_offset_from_days(365), 0);
    assert_eq!(year_offset_from_days(366), 1);
    assert_eq!(year_offset_from_days(366 + 365 + 365 + 365), 4);
    assert_eq!(year_offset_from_days(366 + 365 + 365 + 365 + 365), 4);
    assert_eq!(year_offset_from_days(366 + 365 + 365 + 365 + 366), 5);
}

#[test]
fn extract_time() {
    let mut time = Timestamp(1).to_datetime().time;
    assert_eq!(time, Time { hours: 0, minutes: 0, seconds: 1 });
    time = Timestamp(16332).to_datetime().time;
    assert_eq!(time, Time { hours: 4, minutes: 32, seconds: 12 });
    time = Timestamp(93595).to_datetime().time;
    assert_eq!(time, Time { hours: 1, minutes: 59, seconds: 55 });
}

#[test]
fn extract_date() {
    let mut date = Timestamp(10).to_datetime().date;
    assert_eq!(date, Date { day: 1, month: 1, year: 1980 });
    date = Timestamp(2592000).to_datetime().date;
    assert_eq!(date, Date { day: 31, month: 1, year: 1980 });
    date = Timestamp(2678400).to_datetime().date;
    assert_eq!(date, Date { day: 1, month: 2, year: 1980 });
    date = Timestamp(5097600).to_datetime().date;
    assert_eq!(date, Date { day: 29, month: 2, year: 1980 });
    date = Timestamp(5184000).to_datetime().date;
    assert_eq!(date, Date { day: 1, month: 3, year: 1980 });
    date = Timestamp(7862400).to_datetime().date;
    assert_eq!(date, Date { day: 1, month: 4, year: 1980 });
    date = Timestamp(31622400).to_datetime().date;
    assert_eq!(date, Date { day: 1, month: 1, year: 1981 });
    date = Timestamp(126230400).to_datetime().date;
    assert_eq!(date, Date { day: 1, month: 1, year: 1984 });
    date = Timestamp(131328000).to_datetime().date;
    assert_eq!(date, Date { day: 29, month: 2, year: 1984 });
    date = Timestamp(1278713001).to_datetime().date;
    assert_eq!(date, Date { day: 8, month: 7, year: 2020 });
}

#[test]
fn to_timestamp() {
    let dt = Timestamp(1278713001).to_datetime();
    assert_eq!(dt.to_timestamp(), Timestamp(1278713001));
}

#[test]
fn from_unix() {
    assert_eq!(
        DateTime::from_unix_epoch(951868800),
        DateTime {
            date: Date { day: 1, month: 3, year: 2000 },
            time: Time { seconds: 0, minutes: 0, hours: 0 },
        },
    );
    assert_eq!(
        DateTime::from_unix_epoch(1635291103),
        DateTime {
            date: Date { day: 26, month: 10, year: 2021 },
            time: Time { hours: 23, minutes: 31, seconds: 43 },
        },
    );
}

#[test]
fn unix_epoch_edges() {
    assert_eq!(DateTime::from_unix_epoch(0).date, Date { day: 1, month: 1, year: 1970 });
    assert_eq!(DateTime::from_unix_epoch(951782400).date, Date { day: 29, month: 2, year: 2000 });
    assert_eq!(DateTime::from_unix_epoch(u32::MAX).date, Date { day: 7, month: 2, year: 2106 });
}

#[test]
fn dates_before_1980_have_no_timestamp() {
    let dt = DateTime {
        date: Date { day: 5, month: 5, year: 1979 },
        time: Time { hours: 1, minutes: 1, seconds: 1 },
    };
    assert_eq!(dt.to_timestamp(), Timestamp(0));
}

#[test]
fn texts_of_dates_and_times() {
    let mut out = Vec::new();
    Date { day: 3, month: 11, year: 1999 }.push_text(&mut out);
    out.push(b' ');
    let time = Time { hours: 7, minutes: 5, seconds: 59 };
    time.push_text(&mut out);
    assert_eq!(out, b"03-11-1999 07:05:59".to_vec());
    let mut short = [b'x'; 6];
    time.print_short_to_buffer(&mut short);
    assert_eq!(&short, b"07:05x");
}

#[test]
fn clock_ticks() {
    let mut clock = SystemClock::new();
    clock.tick();
    clock.tick();
    assert_eq!(clock.get_system_ticks(), 2);
    assert_eq!(clock.get_system_time().0, 2 * HUNDRED_NS_PER_TICK);
    assert_eq!(clock.get_monotonic_ms(11_932), 20);
    assert_eq!(clock.get_monotonic_ms(5_966), 25);
    assert_eq!(clock.get_monotonic_ms(60_000), 20);
    clock.record_cpu_tick(true, true);
    clock.record_cpu_tick(false, true);
    clock.record_cpu_tick(false, false);
    assert_eq!(clock.get_cpu_ticks(), (1, 1, 1));
    clock.reset_known_time(50_000_000);
    assert_eq!(Timestamp::now(&clock), Timestamp(5));
    clock.increment_offset(30_000_000);
    assert_eq!(clock.get_offset_seconds(), 3);
    assert_eq!(Timestamp::now(&clock), Timestamp(8));
}

#[test]
fn hires_keeps_seconds() {
    let hires = TimestampHires::from_timestamp(Timestamp(77));
    assert_eq!(hires.in_seconds(), 77);
    assert_eq!(hires.in_ms(), 77_000);
    assert_eq!(hires.to_timestamp(), Timestamp(77));
}

#[test]
fn rtc_formats() {
    let raw = RtcTime { seconds: 0x59, minutes: 0x30, hours: 0x91, day: 0x31, month: 0x12, year: 0x24 };
    let t = read_rtc_time(0, &raw);
    assert_eq!(t, RtcTime { seconds: 59, minutes: 30, hours: 23, day: 31, month: 12, year: 24 });
    let raw = RtcTime { seconds: 5, minutes: 6, hours: 12, day: 1, month: 2, year: 3 };
    assert_eq!(read_rtc_time(4, &raw).hours, 0);
    assert_eq!(read_rtc_time(6, &raw).hours, 12);
    assert_eq!(raw.to_datetime().date, Date { day: 1, month: 2, year: 2003 });
    assert_eq!(rtc_registers(0x80), vec![0x8b, 0x80, 0x82, 0x84, 0x87, 0x88, 0x89]);
    let mut clock = SystemClock::new();
    clock.initialize_time_from_rtc(&raw);
    assert_eq!(Timestamp::now(&clock).to_datetime(), raw.to_datetime());
}

#[test]
fn century_is_no_leap_year() {
    let date = Timestamp(3_792_009_600).to_datetime();
    assert_eq!(date.date, Date { day: 1, month: 3, year: 2100 });
    assert_eq!(date.to_timestamp(), Timestamp(3_792_009_600));
    let before = Timestamp(3_792_009_599).to_datetime();
    assert_eq!(before.date, Date { day: 28, month: 2, year: 2100 });
    let later = Timestamp(3_818_448_000).to_datetime();
    assert_eq!(later.date, Date { day: 1, month: 1, year: 2101 });
    assert_eq!(later.to_timestamp(), Timestamp(3_818_448_000));
}
