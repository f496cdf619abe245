use assemble_logs::lines::{decode_line, read_lines, split_lines, EncodingError};

fn split(content: &[u8]) -> Vec<Vec<u8>> {
    split_lines(content)
}

fn lines(texts: &[&str]) -> Vec<Vec<u8>> {
    texts.iter().map(|text| text.as_bytes().to_vec()).collect()
}

#[test]
fn an_empty_buffer_has_no_lines() {
    assert_eq!(split(b""), lines(&[]));
    assert_eq!(read_lines(b""), Ok(vec![]));
}

#[test]
fn lines_end_with_a_line_feed() {
    assert_eq!(split(b"one\ntwo\n"), lines(&["one", "two"]));
    assert_eq!(split(b"one\n"), lines(&["one"]));
    assert_eq!(split(b"\n"), lines(&[""]));
    assert_eq!(split(b"\n\n"), lines(&["", ""]));
    assert_eq!(split(b"one\n\ntwo\n"), lines(&["one", "", "two"]));
}

#[test]
fn what_follows_the_last_line_feed_is_a_line() {
    assert_eq!(split(b"one\ntwo"), lines(&["one", "two"]));
    assert_eq!(split(b"one"), lines(&["one"]));
}

#[test]
fn a_carriage_return_before_the_line_feed_is_dropped() {
    assert_eq!(split(b"one\r\ntwo\r\n"), lines(&["one", "two"]));
    assert_eq!(split(b"one\r\r\n"), lines(&["one\r"]));
    assert_eq!(split(b"\r\n"), lines(&[""]));
    assert_eq!(split(b"one\rtwo\n"), lines(&["one\rtwo"]));
    assert_eq!(split(b"one\ntwo\r"), lines(&["one", "two\r"]));
}

#[test]
fn splitting_agrees_with_std() {
    for content in [
        &b""[..],
        b"a",
        b"a\n",
        b"a\r\n",
        b"a\nb",
        b"\n\n\n",
        b"\r\n\r\n",
        b"a\r",
        b"\r",
        b"a\n\rb\r\n\r\nc\r",
        b"{\"tag\":\"x\"}\n{\"tag\":\"y\"}\n",
    ] {
        let theirs: Vec<String> =
            std::io::BufRead::lines(content).map(|line| line.unwrap()).collect();
        assert_eq!(read_lines(content), Ok(theirs), "{:?}", content);
    }
}

#[test]
fn lines_are_read_as_utf8() {
    assert_eq!(
        read_lines("gr\u{fc}n\n\u{65e5}\u{672c}\n".as_bytes()),
        Ok(vec!["gr\u{fc}n".to_string(), "\u{65e5}\u{672c}".to_string()])
    );
    assert_eq!(decode_line(b"plain"), Some("plain".to_string()));
    assert_eq!(decode_line("\u{1f600}".as_bytes()), Some("\u{1f600}".to_string()));
    assert_eq!(decode_line(b""), Some(String::new()));
}

#[test]
fn bytes_that_are_no_utf8_are_refused() {
    assert_eq!(decode_line(&[0xff]), None);
    assert_eq!(decode_line(&[b'a', 0xc3]), None);
    assert_eq!(decode_line(&[0xed, 0xa0, 0x80]), None);
    assert_eq!(decode_line(&[0xc0, 0x80]), None);
    assert_eq!(
        read_lines(b"good\nbad \xff\nalso bad \xfe\n"),
        Err(EncodingError::InvalidUtf8 { line: 1 })
    );
    assert_eq!(read_lines(b"\xff"), Err(EncodingError::InvalidUtf8 { line: 0 }));
}

#[test]
fn no_line_holds_a_line_feed() {
    for content in [&b"a\nb\n\nc"[..], b"\n\n", b"a\r\n\r\nb", b"no line feed at all", b"\n"] {
        for line in split_lines(content) {
            assert!(!line.contains(&b'\n'));
        }
    }
}
