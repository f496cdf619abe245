use assemble_logs::calendar::{DateTime, TimestampError};
use assemble_logs::date_time::{deserialize, serialize};

fn sample() -> DateTime {
    DateTime { year: 2022, month: 3, day: 30, hour: 16, minute: 30, second: 51, millisecond: 7 }
}

#[test]
fn serialize_writes_every_field_with_leading_zeros() {
    assert_eq!(serialize(&sample()), "2022-03-30T16:30:51.007");
    let early = DateTime { year: 5, month: 1, day: 2, hour: 3, minute: 4, second: 5, millisecond: 60 };
    assert_eq!(serialize(&early), "0005-01-02T03:04:05.060");
}

#[test]
fn deserialize_reads_the_fields() {
    assert_eq!(deserialize("2022-03-30T16:30:51.007"), Ok(sample()));
    assert_eq!(
        deserialize("0000-01-01T00:00:00.000"),
        Ok(DateTime { year: 0, month: 1, day: 1, hour: 0, minute: 0, second: 0, millisecond: 0 })
    );
    assert_eq!(
        deserialize("9999-12-31T23:59:59.999"),
        Ok(DateTime { year: 9999, month: 12, day: 31, hour: 23, minute: 59, second: 59, millisecond: 999 })
    );
}

#[test]
fn deserialize_refuses_another_form() {
    for text in [
        "",
        "2022-03-30",
        "2022-03-30T16:30:51",
        "2022-03-30T16:30:51.00",
        "2022-03-30T16:30:51.0070",
        "2022-03-30 16:30:51.007",
        "2022/03/30T16:30:51.007",
        "2022-03-30T16.30.51.007",
        "2022-03-30T16:30:51,007",
        "2022-03-30T16:30:5a.007",
        "+022-03-30T16:30:51.007",
        "2022-3-30T16:30:51.0070",
        "2022-03-30T16:30:51.007Z",
        "2022-03-3\u{0660}T16:30:51.007",
    ] {
        assert_eq!(deserialize(text), Err(TimestampError::Malformed), "{:?}", text);
    }
}

#[test]
fn deserialize_refuses_what_does_not_exist() {
    assert_eq!(
        deserialize("2022-02-30T16:30:51.007"),
        Err(TimestampError::InvalidCalendarDate { year: 2022, month: 2, day: 30 })
    );
    assert_eq!(
        deserialize("2022-00-10T16:30:51.007"),
        Err(TimestampError::InvalidCalendarDate { year: 2022, month: 0, day: 10 })
    );
    assert_eq!(
        deserialize("2022-03-30T24:00:00.000"),
        Err(TimestampError::InvalidTimeOfDay { hour: 24, minute: 0, second: 0 })
    );
    assert_eq!(
        deserialize("2022-03-30T23:59:60.000"),
        Err(TimestampError::InvalidTimeOfDay { hour: 23, minute: 59, second: 60 })
    );
}

#[test]
fn written_timestamps_are_read_back() {
    for date in [
        sample(),
        DateTime { year: 0, month: 1, day: 1, hour: 0, minute: 0, second: 0, millisecond: 0 },
        DateTime { year: 2024, month: 2, day: 29, hour: 23, minute: 59, second: 59, millisecond: 999 },
        DateTime { year: 987, month: 10, day: 9, hour: 8, minute: 7, second: 6, millisecond: 50 },
    ] {
        assert_eq!(deserialize(&serialize(&date)), Ok(date));
    }
}

#[test]
fn read_timestamps_are_written_back() {
    for text in ["2022-03-30T16:30:51.007", "0001-02-03T04:05:06.789", "2024-02-29T00:00:00.000"] {
        assert_eq!(serialize(&deserialize(text).unwrap()), text);
    }
}

#[test]
fn serialize_agrees_with_chrono() {
    let theirs = chrono::NaiveDate::from_ymd_opt(2022, 3, 30)
        .unwrap()
        .and_hms_milli_opt(16, 30, 51, 7)
        .unwrap();
    assert_eq!(serialize(&sample()), theirs.format("%Y-%m-%dT%H:%M:%S%.3f").to_string());
    let read = chrono::NaiveDateTime::parse_from_str(&serialize(&sample()), "%Y-%m-%dT%H:%M:%S%.3f");
    assert_eq!(read, Ok(theirs));
}

#[test]
fn deserialize_agrees_with_chrono() {
    for text in [
        "2022-03-30T16:30:51.007",
        "0000-01-01T00:00:00.000",
        "0001-12-31T23:59:59.999",
        "2024-02-29T12:00:00.500",
        "2023-02-29T12:00:00.500",
        "1900-02-29T12:00:00.500",
        "2000-02-29T12:00:00.500",
        "2022-00-10T00:00:00.000",
        "2022-13-10T00:00:00.000",
        "2022-04-31T00:00:00.000",
        "2022-04-00T00:00:00.000",
        "2022-04-30T24:00:00.000",
        "2022-04-30T23:60:00.000",
        "2022-04-30T23:59:59.99x",
        "2022-04-30T23:59:59:999",
        "2022-04-30t23:59:59.999",
    ] {
        let theirs = chrono::NaiveDateTime::parse_from_str(text, "%Y-%m-%dT%H:%M:%S%.3f").ok();
        let ours = deserialize(text).ok().map(|date| {
            chrono::NaiveDate::from_ymd_opt(date.year as i32, date.month, date.day)
                .unwrap()
                .and_hms_milli_opt(date.hour, date.minute, date.second, date.millisecond)
                .unwrap()
        });
        assert_eq!(ours, theirs, "{:?}", text);
    }
}
