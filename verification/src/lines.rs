//! The lines of a buffer, and their text.
//!
//! A line ends with a line feed; a carriage return right before the line feed
//! belongs to the line's end as well. What follows the last line feed is a
//! line too, unless it is empty.

use vstd::prelude::*;
use vstd::utf8::{decode_utf8, valid_utf8};

verus! {

/// `core::str::Utf8Error`, which is handed on as it comes and never looked
/// into.
#[verifier::external_type_specification]
#[verifier::external_body]
pub struct ExUtf8Error(core::str::Utf8Error);

/// `core::str::from_utf8` succeeds exactly on valid UTF-8, and the string it
/// gives holds the characters that the bytes encode.
pub assume_specification[ core::str::from_utf8 ](v: &[u8]) -> (text: Result<
    &str,
    core::str::Utf8Error,
>)
    ensures
        text.is_ok() == valid_utf8(v@),
        text matches Ok(s) ==> s@ == decode_utf8(v@),
;

/// The line feed.
pub const LINE_FEED: u8 = 10;

/// The carriage return.
pub const CARRIAGE_RETURN: u8 = 13;

/// Where the first line feed of `bytes` stands; the length of `bytes` if it
/// holds none.
pub open spec fn first_line_feed(bytes: Seq<u8>) -> int
    decreases bytes.len(),
{
    if bytes.len() == 0 || bytes[0] == LINE_FEED {
        0
    } else {
        1 + first_line_feed(bytes.skip(1))
    }
}

/// A line without the carriage return at its end, if it has one.
pub open spec fn without_carriage_return(line: Seq<u8>) -> Seq<u8> {
    if line.len() > 0 && line.last() == CARRIAGE_RETURN {
        line.drop_last()
    } else {
        line
    }
}

/// The lines of a buffer.
pub open spec fn lines_of(bytes: Seq<u8>) -> Seq<Seq<u8>>
    decreases bytes.len(),
{
    let end = first_line_feed(bytes);
    if bytes.len() == 0 {
        Seq::empty()
    } else if 0 <= end < bytes.len() {
        seq![without_carriage_return(bytes.take(end))] + lines_of(bytes.skip(end + 1))
    } else {
        seq![bytes]
    }
}

/// The first line feed stands within the buffer or at its end, and nothing
/// before it is a line feed.
pub proof fn lemma_first_line_feed(bytes: Seq<u8>)
    ensures
        0 <= first_line_feed(bytes) <= bytes.len(),
        first_line_feed(bytes) < bytes.len() ==> bytes[first_line_feed(bytes)] == LINE_FEED,
        forall|i: int| 0 <= i < first_line_feed(bytes) ==> bytes[i] != LINE_FEED,
    decreases bytes.len(),
{
    if bytes.len() != 0 && bytes[0] != LINE_FEED {
        let rest = bytes.skip(1);
        lemma_first_line_feed(rest);
        assert forall|i: int| 0 <= i < first_line_feed(bytes) implies bytes[i] != LINE_FEED by {
            if i > 0 {
                assert(bytes[i] == rest[i - 1]);
            }
        }
    }
}

/// A position with a line feed, before which there is none, is where the
/// first line feed stands.
pub proof fn lemma_first_line_feed_is(bytes: Seq<u8>, at: int)
    requires
        0 <= at <= bytes.len(),
        at < bytes.len() ==> bytes[at] == LINE_FEED,
        forall|i: int| 0 <= i < at ==> bytes[i] != LINE_FEED,
    ensures
        first_line_feed(bytes) == at,
{
    lemma_first_line_feed(bytes);
}

/// No line holds a line feed.
pub proof fn lemma_lines_hold_no_line_feed(bytes: Seq<u8>, line: int, at: int)
    requires
        0 <= line < lines_of(bytes).len(),
        0 <= at < lines_of(bytes)[line].len(),
    ensures
        lines_of(bytes)[line][at] != LINE_FEED,
    decreases bytes.len(),
{
    lemma_first_line_feed(bytes);
    let end = first_line_feed(bytes);
    if end < bytes.len() && line > 0 {
        let rest = bytes.skip(end + 1);
        assert(lines_of(bytes)[line] == lines_of(rest)[line - 1]);
        lemma_lines_hold_no_line_feed(rest, line - 1, at);
    }
}

/// A sequence of byte vectors as plain values.
pub open spec fn byte_views(lines: Seq<Vec<u8>>) -> Seq<Seq<u8>> {
    Seq::new(lines.len(), |i: int| lines[i]@)
}

/// The bytes of `bytes` from `start` to `end`.
fn copy_range(bytes: &[u8], start: usize, end: usize) -> (copy: Vec<u8>)
    requires
        start <= end <= bytes.len(),
    ensures
        copy@ == bytes@.subrange(start as int, end as int),
{
    let mut copy: Vec<u8> = Vec::new();
    let mut i: usize = start;
    while i < end
        invariant
            start <= i <= end <= bytes.len(),
            copy@ == bytes@.subrange(start as int, i as int),
        decreases end - i,
    {
        copy.push(bytes[i]);
        i += 1;
        assert(copy@ =~= bytes@.subrange(start as int, i as int));
    }
    copy
}

/// Splits a buffer into its lines.
pub fn split_lines(content: &[u8]) -> (lines: Vec<Vec<u8>>)
    ensures
        byte_views(lines@) == lines_of(content@),
{
    let ghost all = content@;
    let mut lines: Vec<Vec<u8>> = Vec::new();
    let mut start: usize = 0;
    assert(all.skip(0) =~= all);
    assert(byte_views(lines@) =~= Seq::<Seq<u8>>::empty());
    while start < content.len()
        invariant
            start <= content.len(),
            all == content@,
            lines_of(all) == byte_views(lines@) + lines_of(all.skip(start as int)),
        decreases content.len() - start,
    {
        let ghost rest = all.skip(start as int);
        let ghost before = byte_views(lines@);
        let mut end: usize = start;
        while end < content.len() && content[end] != LINE_FEED
            invariant
                start <= end <= content.len(),
                all == content@,
                forall|i: int| start <= i < end ==> all[i] != LINE_FEED,
            decreases content.len() - end,
        {
            end += 1;
        }
        proof {
            lemma_first_line_feed_is(rest, end - start);
            assert(rest.take(end - start) =~= all.subrange(start as int, end as int));
        }
        if end < content.len() {
            let stop: usize = if end > start && content[end - 1] == CARRIAGE_RETURN {
                (end - 1) as usize
            } else {
                end
            };
            let line = copy_range(content, start, stop);
            proof {
                assert(line@ =~= without_carriage_return(rest.take(end - start)));
                assert(rest.skip(end - start + 1) =~= all.skip(end + 1));
            }
            lines.push(line);
            assert(byte_views(lines@) =~= before.push(line@));
            start = end + 1;
        } else {
            let line = copy_range(content, start, end);
            proof {
                assert(line@ =~= rest);
                assert(all.skip(end as int).len() == 0);
            }
            lines.push(line);
            assert(byte_views(lines@) =~= before.push(line@));
            start = end;
        }
    }
    assert(all.skip(start as int).len() == 0);
    lines
}

/// Why a buffer is no text.
#[derive(Clone, Copy, Debug, PartialEq, Eq)]
pub enum EncodingError {
    /// The line at this place, counted from zero, is not valid UTF-8.
    InvalidUtf8 { line: usize },
}

/// The text of one line; `None` if the line is not valid UTF-8.
pub fn decode_line(bytes: &[u8]) -> (text: Option<String>)
    ensures
        text.is_some() == valid_utf8(bytes@),
        text matches Some(s) ==> s@ == decode_utf8(bytes@),
{
    match core::str::from_utf8(bytes) {
        Ok(s) => Some(s.to_owned()),
        Err(_) => None,
    }
}

/// A sequence of strings as characters.
pub open spec fn text_views(lines: Seq<String>) -> Seq<Seq<char>> {
    Seq::new(lines.len(), |i: int| lines[i]@)
}

/// The text of each of `lines`, or the place of the first line that is not
/// valid UTF-8.
pub open spec fn decoded(lines: Seq<Seq<u8>>) -> Result<Seq<Seq<char>>, EncodingError>
    decreases lines.len(),
{
    if lines.len() == 0 {
        Ok(Seq::empty())
    } else {
        match decoded(lines.drop_last()) {
            Err(error) => Err(error),
            Ok(texts) => if valid_utf8(lines.last()) {
                Ok(texts.push(decode_utf8(lines.last())))
            } else {
                Err(EncodingError::InvalidUtf8 { line: (lines.len() - 1) as usize })
            },
        }
    }
}

/// A result with the lines in it as characters.
pub open spec fn lines_view(lines: Result<Vec<String>, EncodingError>) -> Result<
    Seq<Seq<char>>,
    EncodingError,
> {
    match lines {
        Ok(texts) => Ok(text_views(texts@)),
        Err(error) => Err(error),
    }
}

/// Once the first lines of a buffer are no text, neither is the whole, and
/// the line that is named stays the same.
pub proof fn lemma_decoded_keeps_failing(lines: Seq<Seq<u8>>, count: int)
    requires
        0 <= count <= lines.len(),
        decoded(lines.take(count)) is Err,
    ensures
        decoded(lines) == decoded(lines.take(count)),
    decreases lines.len() - count,
{
    if count < lines.len() {
        assert(lines.take(count + 1).drop_last() =~= lines.take(count));
        lemma_decoded_keeps_failing(lines, count + 1);
    } else {
        assert(lines.take(count) =~= lines);
    }
}

/// Splits a buffer into its lines and reads each as text.
///
/// Fails with `InvalidUtf8` at the first line that is not valid UTF-8.
pub fn read_lines(content: &[u8]) -> (lines: Result<Vec<String>, EncodingError>)
    ensures
        lines_view(lines) == decoded(lines_of(content@)),
{
    let raw = split_lines(content);
    let ghost all = lines_of(content@);
    let mut texts: Vec<String> = Vec::new();
    let mut i: usize = 0;
    assert(text_views(texts@) =~= Seq::<Seq<char>>::empty());
    while i < raw.len()
        invariant
            i <= raw.len(),
            all == byte_views(raw@),
            all == lines_of(content@),
            decoded(all.take(i as int)) == Ok::<Seq<Seq<char>>, EncodingError>(text_views(texts@)),
        decreases raw.len() - i,
    {
        proof {
            assert(all.take(i + 1).drop_last() =~= all.take(i as int));
            assert(all.take(i + 1).last() == raw@[i as int]@);
        }
        match decode_line(raw[i].as_slice()) {
            Some(text) => {
                let ghost before = text_views(texts@);
                texts.push(text);
                assert(text_views(texts@) =~= before.push(text@));
            },
            None => {
                proof {
                    lemma_decoded_keeps_failing(all, i + 1);
                }
                return Err(EncodingError::InvalidUtf8 { line: i });
            },
        }
        i += 1;
    }
    assert(all.take(i as int) =~= all);
    Ok(texts)
}

/// Where every line is valid UTF-8, the lines are read as the text that
/// their bytes encode.
pub proof fn lemma_decoded_texts(lines: Seq<Seq<u8>>)
    requires
        forall|i: int| 0 <= i < lines.len() ==> valid_utf8(#[trigger] lines[i]),
    ensures
        decoded(lines) == Ok::<Seq<Seq<char>>, EncodingError>(
            Seq::new(lines.len(), |i: int| decode_utf8(lines[i])),
        ),
    decreases lines.len(),
{
    let texts = Seq::new(lines.len(), |i: int| decode_utf8(lines[i]));
    if lines.len() == 0 {
        assert(texts =~= Seq::<Seq<char>>::empty());
    } else {
        let front = lines.drop_last();
        lemma_decoded_texts(front);
        assert(texts =~= Seq::new(front.len(), |i: int| decode_utf8(front[i])).push(
            decode_utf8(lines.last()),
        ));
    }
}

/// Where the lines are no text, the line that is named is the first that is
/// not valid UTF-8.
pub proof fn lemma_decoded_failure(lines: Seq<Seq<u8>>)
    requires
        decoded(lines) is Err,
        lines.len() <= usize::MAX,
    ensures
        ({
            let at = decoded(lines)->Err_0->line;
            &&& at < lines.len()
            &&& !valid_utf8(lines[at as int])
            &&& forall|i: int| 0 <= i < at ==> valid_utf8(#[trigger] lines[i])
        }),
    decreases lines.len(),
{
    let front = lines.drop_last();
    if decoded(front) is Err {
        lemma_decoded_failure(front);
        let at = decoded(front)->Err_0->line;
        assert(lines[at as int] == front[at as int]);
        assert forall|i: int| 0 <= i < at implies valid_utf8(#[trigger] lines[i]) by {
            assert(lines[i] == front[i]);
        }
    } else {
        assert forall|i: int| 0 <= i < lines.len() - 1 implies valid_utf8(#[trigger] lines[i]) by {
            assert(lines[i] == front[i]);
            lemma_decoded_success(front, i);
        }
    }
}

/// Where the lines are text, every line is valid UTF-8.
pub proof fn lemma_decoded_success(lines: Seq<Seq<u8>>, at: int)
    requires
        decoded(lines) is Ok,
        0 <= at < lines.len(),
    ensures
        valid_utf8(lines[at]),
    decreases lines.len(),
{
    if at < lines.len() - 1 {
        lemma_decoded_success(lines.drop_last(), at);
    }
}

} // verus!
