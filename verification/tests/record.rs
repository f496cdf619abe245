use assemble_logs::calendar::{DateTime, TimestampError};
use assemble_logs::date_time::serialize;
use assemble_logs::record::{decode, parse_record, Field, FormatError, Key, Record};

fn text(key: &str, value: &str) -> Field {
    Field {
        key: key.to_string(),
        text: Some(value.to_string()),
        json: serde_json::Value::String(value.to_string()).to_string(),
    }
}

fn other(key: &str, json: &str) -> Field {
    Field { key: key.to_string(), text: None, json: json.to_string() }
}

fn sample() -> Record {
    Record {
        tag: "svc".to_string(),
        msg: "started".to_string(),
        level: "INFO".to_string(),
        ts: DateTime { year: 2022, month: 3, day: 30, hour: 16, minute: 30, second: 51, millisecond: 123 },
        rest: vec![("pid".to_string(), "42".to_string())],
    }
}

#[test]
fn a_line_is_read_as_a_record() {
    let line =
        r#"{"tag":"svc","msg":"started","level":"INFO","ts":"2022-03-30T16:30:51.123","pid":42}"#;
    assert_eq!(parse_record(line), Ok(sample()));
    let spaced = " { \"pid\" : 42 , \"ts\" : \"2022-03-30T16:30:51.123\", \"level\":\"INFO\",\n \"msg\":\"started\", \"tag\":\"svc\" } ";
    assert_eq!(parse_record(spaced), Ok(sample()));
}

#[test]
fn strings_are_unescaped_and_other_members_are_kept_as_json() {
    let line = r#"{"tag":"a\"b","msg":"café\n","level":"","ts":"2022-03-30T16:30:51.123","z":"q\"r","a":{"k":[1,2.5,null]},"m":false}"#;
    let record = parse_record(line).unwrap();
    assert_eq!(record.tag, "a\"b");
    assert_eq!(record.msg, "caf\u{e9}\n");
    assert_eq!(record.level, "");
    assert_eq!(
        record.rest,
        vec![
            ("a".to_string(), r#"{"k":[1,2.5,null]}"#.to_string()),
            ("m".to_string(), "false".to_string()),
            ("z".to_string(), r#""q\"r""#.to_string()),
        ]
    );
}

#[test]
fn a_line_that_is_no_object_is_refused() {
    for line in ["", "not json", "42", "\"text\"", "[1,2]", "null", "{", "{\"tag\":}", "{} {}", "{}x"] {
        assert_eq!(parse_record(line), Err(FormatError::NotAnObject), "{:?}", line);
    }
}

#[test]
fn a_missing_member_is_named() {
    assert_eq!(parse_record("{}"), Err(FormatError::MissingField(Key::Tag)));
    assert_eq!(parse_record(r#"{"tag":"a"}"#), Err(FormatError::MissingField(Key::Msg)));
    assert_eq!(
        parse_record(r#"{"tag":"a","msg":"b"}"#),
        Err(FormatError::MissingField(Key::Level))
    );
    assert_eq!(
        parse_record(r#"{"tag":"a","msg":"b","level":"c"}"#),
        Err(FormatError::MissingField(Key::Ts))
    );
    assert_eq!(
        parse_record(r#"{"ts":"2022-03-30T16:30:51.123","level":"c","msg":"b"}"#),
        Err(FormatError::MissingField(Key::Tag))
    );
}

#[test]
fn a_member_that_is_no_string_is_named() {
    assert_eq!(
        parse_record(r#"{"tag":1,"msg":"b","level":"c","ts":"2022-03-30T16:30:51.123"}"#),
        Err(FormatError::NotAString(Key::Tag))
    );
    assert_eq!(
        parse_record(r#"{"tag":"a","msg":null,"level":"c","ts":"2022-03-30T16:30:51.123"}"#),
        Err(FormatError::NotAString(Key::Msg))
    );
    assert_eq!(
        parse_record(r#"{"tag":"a","msg":"b","level":["c"],"ts":"2022-03-30T16:30:51.123"}"#),
        Err(FormatError::NotAString(Key::Level))
    );
    assert_eq!(
        parse_record(r#"{"tag":"a","msg":"b","level":"c","ts":1648657851}"#),
        Err(FormatError::NotAString(Key::Ts))
    );
    assert_eq!(
        parse_record(r#"{"tag":"a","msg":2,"ts":3}"#),
        Err(FormatError::NotAString(Key::Msg))
    );
}

#[test]
fn a_bad_timestamp_is_reported() {
    assert_eq!(
        parse_record(r#"{"tag":"a","msg":"b","level":"c","ts":"yesterday"}"#),
        Err(FormatError::Timestamp(TimestampError::Malformed))
    );
    assert_eq!(
        parse_record(r#"{"tag":"a","msg":"b","level":"c","ts":"2022-02-30T16:30:51.123"}"#),
        Err(FormatError::Timestamp(TimestampError::InvalidCalendarDate {
            year: 2022,
            month: 2,
            day: 30
        }))
    );
    assert_eq!(
        parse_record(r#"{"tag":"a","msg":"b","level":"c","ts":"2022-02-20T16:61:51.123"}"#),
        Err(FormatError::Timestamp(TimestampError::InvalidTimeOfDay {
            hour: 16,
            minute: 61,
            second: 51
        }))
    );
}

#[test]
fn decode_picks_the_four_members_and_keeps_the_others_in_order() {
    let fields = vec![
        other("zeta", "[1]"),
        text("msg", "started"),
        text("ts", "2022-03-30T16:30:51.123"),
        other("pid", "42"),
        text("level", "INFO"),
        text("tag", "svc"),
        text("alpha", "x"),
    ];
    let record = decode(&fields).unwrap();
    assert_eq!(record.tag, "svc");
    assert_eq!(record.msg, "started");
    assert_eq!(record.level, "INFO");
    assert_eq!(record.ts, sample().ts);
    assert_eq!(
        record.rest,
        vec![
            ("zeta".to_string(), "[1]".to_string()),
            ("pid".to_string(), "42".to_string()),
            ("alpha".to_string(), "\"x\"".to_string()),
        ]
    );
}

#[test]
fn decode_takes_the_last_of_two_members_with_one_name() {
    let fields = vec![
        text("tag", "first"),
        text("msg", "m"),
        text("level", "l"),
        text("ts", "2022-03-30T16:30:51.123"),
        text("tag", "second"),
    ];
    assert_eq!(decode(&fields).unwrap().tag, "second");
    let fields = vec![
        text("tag", "first"),
        text("msg", "m"),
        text("level", "l"),
        text("ts", "2022-03-30T16:30:51.123"),
        other("tag", "7"),
    ];
    assert_eq!(decode(&fields), Err(FormatError::NotAString(Key::Tag)));
    assert_eq!(decode(&vec![]), Err(FormatError::MissingField(Key::Tag)));
}

#[test]
fn errors_are_described() {
    assert_eq!(FormatError::NotAnObject.describe(), "not a JSON object");
    assert_eq!(FormatError::MissingField(Key::Tag).describe(), "missing field `tag`");
    assert_eq!(FormatError::MissingField(Key::Ts).describe(), "missing field `ts`");
    assert_eq!(FormatError::NotAString(Key::Msg).describe(), "field `msg` is not a string");
    assert_eq!(FormatError::NotAString(Key::Level).describe(), "field `level` is not a string");
    assert_eq!(
        FormatError::Timestamp(TimestampError::Malformed).describe(),
        "Invalid timestamp format"
    );
    assert_eq!(Key::Tag.name(), "tag");
    assert_eq!(Key::Msg.name(), "msg");
    assert_eq!(Key::Level.name(), "level");
    assert_eq!(Key::Ts.name(), "ts");
}

#[test]
fn a_record_written_as_json_is_read_back() {
    let record = Record {
        tag: "t \"quoted\"".to_string(),
        msg: "line\nbreak \u{1f600}".to_string(),
        level: "TRCE".to_string(),
        ts: DateTime { year: 2024, month: 2, day: 29, hour: 23, minute: 59, second: 59, millisecond: 999 },
        rest: vec![
            ("count".to_string(), "3".to_string()),
            ("name".to_string(), "\"n\"".to_string()),
        ],
    };
    let stamp = serialize(&record.ts);
    assert_eq!(stamp, "2024-02-29T23:59:59.999");
    let mut object = serde_json::Map::new();
    object.insert("tag".to_string(), serde_json::Value::String(record.tag.clone()));
    object.insert("msg".to_string(), serde_json::Value::String(record.msg.clone()));
    object.insert("level".to_string(), serde_json::Value::String(record.level.clone()));
    object.insert("ts".to_string(), serde_json::Value::String(stamp.clone()));
    for (key, json) in &record.rest {
        object.insert(key.clone(), serde_json::from_str(json).unwrap());
    }
    let line = serde_json::Value::Object(object).to_string();
    let read = parse_record(&line).unwrap();
    assert_eq!(read, record);
    assert_eq!(serialize(&read.ts), stamp);
}
