use assemble_logs::calendar::DateTime;
use assemble_logs::record::{FormatError, Key, Record};
use assemble_logs::render::{month_name, paint_of_level, push_clock, render};
use assemble_logs::style::Paint;

const LINE: &str =
    r#"{"tag":"svc","msg":"started","level":"INFO","ts":"2022-03-30T16:30:51.123","pid":42}"#;

fn without_escapes(text: &str) -> String {
    let mut plain = String::new();
    let mut chars = text.chars();
    while let Some(c) = chars.next() {
        if c == '\u{1b}' {
            for d in chars.by_ref() {
                if d == 'm' {
                    break;
                }
            }
        } else {
            plain.push(c);
        }
    }
    plain
}

fn as_termion_writes(
    ts: chrono::NaiveDateTime,
    level: &str,
    paint: &dyn termion::color::Color,
    tag: &str,
    msg: &str,
    rest: &[(&str, &str)],
    compact: bool,
) -> String {
    let mut output = format!("{}{} ", termion::style::Reset, ts.format("%b %d %H:%M:%S%.3f"));
    output = format!("{}{}{}{}", output, termion::color::Fg(paint), termion::style::Bold, level);
    output = format!(
        "{} {}{}[{}] ",
        output,
        termion::style::Reset,
        termion::color::Fg(termion::color::Rgb(128, 128, 128)),
        tag
    );
    output = format!(
        "{}{}{}{}",
        output,
        termion::style::Bold,
        termion::color::Fg(termion::color::Reset),
        msg
    );
    for (key, value) in rest {
        let newline = if compact { "" } else { "\n\t" };
        output = format!(
            "{} {}{}{}: {}{}",
            output,
            newline,
            termion::style::Bold,
            key,
            termion::style::Reset,
            value
        );
    }
    output
}

fn stamp() -> chrono::NaiveDateTime {
    chrono::NaiveDate::from_ymd_opt(2022, 3, 30).unwrap().and_hms_milli_opt(16, 30, 51, 123).unwrap()
}

#[test]
fn an_info_record_with_one_extra_member() {
    let shown = assemble_logs::render::format(LINE, false).unwrap();
    let plain = without_escapes(&shown);
    let time = plain.find("Mar 30 16:30:51.123").unwrap();
    let level = plain.find("INFO").unwrap();
    let tag = plain.find("[svc]").unwrap();
    let msg = plain.find("started").unwrap();
    let extra = plain.find("\n\tpid: 42").unwrap();
    assert!(time < level && level < tag && tag < msg && msg < extra);
    assert_eq!(plain, "Mar 30 16:30:51.123 INFO [svc] started \n\tpid: 42");
}

#[test]
fn a_record_is_written_with_these_escape_sequences() {
    let shown = assemble_logs::render::format(LINE, false).unwrap();
    assert_eq!(
        shown,
        "\u{1b}[mMar 30 16:30:51.123 \u{1b}[38;5;2m\u{1b}[1mINFO \u{1b}[m\u{1b}[38;2;128;128;128m[svc] \u{1b}[1m\u{1b}[39mstarted \n\t\u{1b}[1mpid: \u{1b}[m42"
    );
    let compact = assemble_logs::render::format(LINE, true).unwrap();
    assert_eq!(
        compact,
        "\u{1b}[mMar 30 16:30:51.123 \u{1b}[38;5;2m\u{1b}[1mINFO \u{1b}[m\u{1b}[38;2;128;128;128m[svc] \u{1b}[1m\u{1b}[39mstarted \u{1b}[1mpid: \u{1b}[m42"
    );
}

#[test]
fn a_record_is_written_as_termion_and_chrono_write_it() {
    for compact in [false, true] {
        let shown = assemble_logs::render::format(LINE, compact).unwrap();
        let expected = as_termion_writes(
            stamp(),
            "INFO",
            &termion::color::Green,
            "svc",
            "started",
            &[("pid", "42")],
            compact,
        );
        assert_eq!(shown, expected);
    }
}

#[test]
fn every_level_has_its_colour() {
    let cases: [(&str, Paint, &dyn termion::color::Color); 9] = [
        ("CRIT", Paint::Red, &termion::color::Red),
        ("ERRO", Paint::Red, &termion::color::Red),
        ("WARN", Paint::Yellow, &termion::color::Yellow),
        ("INFO", Paint::Green, &termion::color::Green),
        ("DEBG", Paint::Cyan, &termion::color::Cyan),
        ("TRCE", Paint::Magenta, &termion::color::Magenta),
        ("info", Paint::Red, &termion::color::Red),
        ("", Paint::Red, &termion::color::Red),
        ("NOTICE", Paint::Red, &termion::color::Red),
    ];
    for (level, paint, colour) in cases {
        assert_eq!(paint_of_level(level), paint, "{}", level);
        let line = format!(
            r#"{{"tag":"t","msg":"m","level":"{}","ts":"2022-03-30T16:30:51.123"}}"#,
            level
        );
        let shown = assemble_logs::render::format(&line, true).unwrap();
        assert_eq!(shown, as_termion_writes(stamp(), level, colour, "t", "m", &[], true));
    }
}

#[test]
fn further_members_are_written_as_json() {
    let line = r#"{"ts":"2022-03-30T16:30:51.123","level":"DEBG","tag":"net","msg":"up","user":"bob","ok":true,"none":null,"load":[0.5,1],"peer":{"port":80,"host":"a b"}}"#;
    let shown = assemble_logs::render::format(line, true).unwrap();
    assert_eq!(
        without_escapes(&shown),
        r#"Mar 30 16:30:51.123 DEBG [net] up load: [0.5,1] none: null ok: true peer: {"host":"a b","port":80} user: "bob""#
    );
    let shown = assemble_logs::render::format(line, false).unwrap();
    assert_eq!(
        without_escapes(&shown),
        "Mar 30 16:30:51.123 DEBG [net] up \n\tload: [0.5,1] \n\tnone: null \n\tok: true \n\tpeer: {\"host\":\"a b\",\"port\":80} \n\tuser: \"bob\""
    );
}

#[test]
fn render_shows_a_record_built_by_hand() {
    let record = Record {
        tag: "db".to_string(),
        msg: "slow query".to_string(),
        level: "WARN".to_string(),
        ts: DateTime { year: 2021, month: 12, day: 1, hour: 0, minute: 5, second: 9, millisecond: 40 },
        rest: vec![
            ("ms".to_string(), "1500".to_string()),
            ("table".to_string(), "\"users\"".to_string()),
        ],
    };
    let ts = chrono::NaiveDate::from_ymd_opt(2021, 12, 1).unwrap().and_hms_milli_opt(0, 5, 9, 40).unwrap();
    for compact in [false, true] {
        assert_eq!(
            render(&record, compact),
            as_termion_writes(
                ts,
                "WARN",
                &termion::color::Yellow,
                "db",
                "slow query",
                &[("ms", "1500"), ("table", "\"users\"")],
                compact
            )
        );
    }
    assert_eq!(
        without_escapes(&render(&record, true)),
        "Dec 01 00:05:09.040 WARN [db] slow query ms: 1500 table: \"users\""
    );
}

#[test]
fn the_clock_is_written_as_chrono_writes_it() {
    for (month, name) in [
        (1, "Jan"),
        (2, "Feb"),
        (3, "Mar"),
        (4, "Apr"),
        (5, "May"),
        (6, "Jun"),
        (7, "Jul"),
        (8, "Aug"),
        (9, "Sep"),
        (10, "Oct"),
        (11, "Nov"),
        (12, "Dec"),
    ] {
        assert_eq!(month_name(month), name);
        let ts = DateTime { year: 2022, month, day: 9, hour: 8, minute: 7, second: 6, millisecond: 5 };
        let mut ours = String::from(">");
        push_clock(&mut ours, &ts);
        let theirs = chrono::NaiveDate::from_ymd_opt(2022, month, 9)
            .unwrap()
            .and_hms_milli_opt(8, 7, 6, 5)
            .unwrap()
            .format(">%b %d %H:%M:%S%.3f")
            .to_string();
        assert_eq!(ours, theirs);
        assert_eq!(ours, format!(">{} 09 08:07:06.005", name));
    }
    assert_eq!(month_name(0), "???");
    assert_eq!(month_name(13), "???");
}

#[test]
fn a_line_that_holds_no_record_is_refused() {
    assert_eq!(assemble_logs::render::format("", true), Err(FormatError::NotAnObject));
    assert_eq!(assemble_logs::render::format("{}", true), Err(FormatError::MissingField(Key::Tag)));
}
