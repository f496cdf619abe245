use assemble_logs::assemble::assemble;
use assemble_logs::filter::{after_query, Counters, Outcome};
use assemble_logs::lines::read_lines;
use assemble_logs::output::{next_step, Options, Step};
use assemble_logs::segments::{discover, Segment};
use std::io::Write;

fn record(ts: &str, msg: &str) -> String {
    format!("{{\"tag\":\"svc\",\"msg\":\"{}\",\"level\":\"INFO\",\"ts\":\"{}\"}}\n", msg, ts)
}

fn gzip(content: &[u8]) -> Vec<u8> {
    let mut encoder = flate2::write::GzEncoder::new(Vec::new(), flate2::Compression::best());
    encoder.write_all(content).unwrap();
    encoder.finish().unwrap()
}

/// Stands in for the query `.ts >= "<bound>"`.
fn at_or_after(line: &str, bound: &str) -> Outcome {
    match serde_json::from_str::<serde_json::Value>(line) {
        Ok(value) => match value.get("ts").and_then(|ts| ts.as_str()) {
            Some(ts) => Ok(format!("{}\n", ts >= bound)),
            None => Ok("false\n".to_string()),
        },
        Err(error) => Err(error.to_string()),
    }
}

#[test]
fn only_the_records_after_the_bound_are_shown() {
    let after = "2022-03-30T12";
    assert_eq!(after_query(after), ".ts >= \"2022-03-30T12\"");

    let older = format!(
        "{}{}{}",
        record("2022-03-29T08:00:00.000", "one"),
        record("2022-03-29T23:59:59.999", "two"),
        record("2022-03-30T11:59:59.999", "three")
    );
    let newer = format!(
        "{}{}{}",
        record("2022-03-30T12:00:00.000", "four"),
        record("2022-03-30T15:30:00.500", "five"),
        record("2022-03-30T17:59:59.999", "six")
    );
    let contents = [
        ("all.log.20220330T180000", newer.as_bytes().to_vec()),
        ("all.log.20220330T120000.gz", gzip(older.as_bytes())),
        ("all.log.20220301T000000.gz", gzip(record("2022-02-28T00:00:00.000", "zero").as_bytes())),
        ("all.log", Vec::new()),
    ];
    let found = vec![
        Segment {
            path: "all.log.20220330T180000".to_string(),
            key: "20220330T180000".to_string(),
            number: None,
            compressed: false,
        },
        Segment {
            path: "all.log.20220330T120000.gz".to_string(),
            key: "20220330T120000".to_string(),
            number: None,
            compressed: true,
        },
        Segment {
            path: "all.log.20220301T000000.gz".to_string(),
            key: "20220301T000000".to_string(),
            number: None,
            compressed: true,
        },
    ];

    let files = discover("all.log", &found, "20220323T180000", Some(after));
    let paths: Vec<&str> = files.iter().map(|file| file.path.as_str()).collect();
    assert_eq!(paths, vec!["all.log.20220330T120000.gz", "all.log.20220330T180000", "all.log"]);

    let read: Vec<(Vec<u8>, bool)> = files
        .iter()
        .map(|file| {
            let bytes = contents.iter().find(|(path, _)| *path == file.path).unwrap().1.clone();
            (bytes, file.compressed)
        })
        .collect();
    let buffer = assemble(&read).unwrap();
    assert_eq!(buffer, format!("{}{}", older, newer).into_bytes());

    let options = Options { compact: true, error_details: false, no_format: true, transform: false };
    let mut counters = Counters::new();
    let mut output = String::new();
    for line in read_lines(&buffer).unwrap() {
        let outcomes = vec![at_or_after(&line, after)];
        if counters.tally(&outcomes) {
            match next_step(&line, &options) {
                Step::Write(text) => output.push_str(&text),
                Step::Transform => unreachable!(),
            }
        }
    }
    assert_eq!(output, newer);
    assert_eq!(counters.included, 3);
    assert_eq!(counters.evaluated, 6);
    assert_eq!(counters.summary(), "END OUTPUT - n_lines=3");
}
