use calendarbot::time::{parse_datetime, parse_time, Date, DateTime, TimeOfDay};

fn dt(year: u16, month: u8, day: u8, hour: u8, minute: u8, second: u8) -> DateTime {
    DateTime { date: Date { year, month, day }, time: TimeOfDay { hour, minute, second } }
}

#[test]
fn parses_naive_timestamp() {
    assert_eq!(parse_datetime("2022-01-13T11:40:00"), Some(dt(2022, 1, 13, 11, 40, 0)));
    assert_eq!(parse_datetime("2020-12-20T22:04:00"), Some(dt(2020, 12, 20, 22, 4, 0)));
}

#[test]
fn parses_offset_timestamps_as_local_clock_readings() {
    assert_eq!(parse_datetime("2022-01-13T11:40:00Z"), Some(dt(2022, 1, 13, 11, 40, 0)));
    assert_eq!(parse_datetime("2022-01-13T11:40:00+02:00"), Some(dt(2022, 1, 13, 11, 40, 0)));
    assert_eq!(parse_datetime("2022-01-13T11:40:00-05:30"), Some(dt(2022, 1, 13, 11, 40, 0)));
}

#[test]
fn rejects_malformed_timestamps() {
    assert_eq!(parse_datetime(""), None);
    assert_eq!(parse_datetime("2022-01-13"), None);
    assert_eq!(parse_datetime("2022-01-13 11:40:00"), None);
    assert_eq!(parse_datetime("2022-1-13T11:40:00"), None);
    assert_eq!(parse_datetime("2022-01-13T11:40:0x"), None);
    assert_eq!(parse_datetime("2022-01-13T11:40:00+2:00"), None);
    assert_eq!(parse_datetime("2022-01-13T11:40:00+25:00"), None);
}

#[test]
fn rejects_out_of_range_components() {
    assert_eq!(parse_datetime("2022-13-01T11:40:00"), None);
    assert_eq!(parse_datetime("2022-00-01T11:40:00"), None);
    assert_eq!(parse_datetime("2022-01-32T11:40:00"), None);
    assert_eq!(parse_datetime("2022-01-00T11:40:00"), None);
    assert_eq!(parse_datetime("2022-01-13T24:40:00"), None);
    assert_eq!(parse_datetime("2022-01-13T11:60:00"), None);
    assert_eq!(parse_datetime("2022-01-13T11:40:60"), None);
}

#[test]
fn respects_month_lengths_and_leap_years() {
    assert_eq!(parse_datetime("2020-02-29T00:00:00"), Some(dt(2020, 2, 29, 0, 0, 0)));
    assert_eq!(parse_datetime("2021-02-29T00:00:00"), None);
    assert_eq!(parse_datetime("1900-02-29T00:00:00"), None);
    assert_eq!(parse_datetime("2000-02-29T00:00:00"), Some(dt(2000, 2, 29, 0, 0, 0)));
    assert_eq!(parse_datetime("2021-04-31T00:00:00"), None);
    assert_eq!(parse_datetime("2021-04-30T00:00:00"), Some(dt(2021, 4, 30, 0, 0, 0)));
}

#[test]
fn parses_time_of_day() {
    assert_eq!(parse_time("08:30"), Some(TimeOfDay { hour: 8, minute: 30, second: 0 }));
    assert_eq!(parse_time("23:42:00"), Some(TimeOfDay { hour: 23, minute: 42, second: 0 }));
    assert_eq!(parse_time("23:42:17"), Some(TimeOfDay { hour: 23, minute: 42, second: 17 }));
}

#[test]
fn rejects_malformed_times_of_day() {
    assert_eq!(parse_time(""), None);
    assert_eq!(parse_time("8:30"), None);
    assert_eq!(parse_time("08-30"), None);
    assert_eq!(parse_time("24:00"), None);
    assert_eq!(parse_time("12:60"), None);
    assert_eq!(parse_time("12:30:60"), None);
    assert_eq!(parse_time("12:30:0"), None);
}
