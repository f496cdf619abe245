//! How a record is shown: as coloured text, one line or one line per member,
//! or as it stands in the log.

use crate::calendar::DateTime;
use crate::record::{parse_record, parsed_record, FormatError, Record, RecordView};
use crate::style::{bold, bold_code, foreground, foreground_code, reset, reset_code, Paint};
use crate::text::{fixed_decimal, push_fixed_decimal, push_text, same_text};
use vstd::prelude::*;

verus! {

/// The colour of a level: yellow for `WARN`, green for `INFO`, cyan for
/// `DEBG`, magenta for `TRCE`; red for `CRIT`, for `ERRO` and for every level
/// that is none of these.
pub open spec fn level_paint(level: Seq<char>) -> Paint {
    if level == "CRIT"@ || level == "ERRO"@ {
        Paint::Red
    } else if level == "WARN"@ {
        Paint::Yellow
    } else if level == "INFO"@ {
        Paint::Green
    } else if level == "DEBG"@ {
        Paint::Cyan
    } else if level == "TRCE"@ {
        Paint::Magenta
    } else {
        Paint::Red
    }
}

/// The colour in which a level is shown.
pub fn paint_of_level(level: &str) -> (paint: Paint)
    ensures
        paint == level_paint(level@),
{
    if same_text(level, "CRIT") || same_text(level, "ERRO") {
        Paint::Red
    } else if same_text(level, "WARN") {
        Paint::Yellow
    } else if same_text(level, "INFO") {
        Paint::Green
    } else if same_text(level, "DEBG") {
        Paint::Cyan
    } else if same_text(level, "TRCE") {
        Paint::Magenta
    } else {
        Paint::Red
    }
}

/// The three letters of a month; `???` for a number that is no month.
pub open spec fn month_abbreviation(month: u32) -> Seq<char> {
    if month == 1 {
        "Jan"@
    } else if month == 2 {
        "Feb"@
    } else if month == 3 {
        "Mar"@
    } else if month == 4 {
        "Apr"@
    } else if month == 5 {
        "May"@
    } else if month == 6 {
        "Jun"@
    } else if month == 7 {
        "Jul"@
    } else if month == 8 {
        "Aug"@
    } else if month == 9 {
        "Sep"@
    } else if month == 10 {
        "Oct"@
    } else if month == 11 {
        "Nov"@
    } else if month == 12 {
        "Dec"@
    } else {
        "???"@
    }
}

/// The three letters of a month.
pub fn month_name(month: u32) -> (name: &'static str)
    ensures
        name@ == month_abbreviation(month),
{
    if month == 1 {
        "Jan"
    } else if month == 2 {
        "Feb"
    } else if month == 3 {
        "Mar"
    } else if month == 4 {
        "Apr"
    } else if month == 5 {
        "May"
    } else if month == 6 {
        "Jun"
    } else if month == 7 {
        "Jul"
    } else if month == 8 {
        "Aug"
    } else if month == 9 {
        "Sep"
    } else if month == 10 {
        "Oct"
    } else if month == 11 {
        "Nov"
    } else if month == 12 {
        "Dec"
    } else {
        "???"
    }
}

/// A date-time as a record shows it: `Mon DD HH:MM:SS.mmm`.
pub open spec fn clock_text(ts: DateTime) -> Seq<char> {
    month_abbreviation(ts.month) + seq![' '] + fixed_decimal(ts.day as nat, 2) + seq![' ']
        + fixed_decimal(ts.hour as nat, 2) + seq![':'] + fixed_decimal(ts.minute as nat, 2)
        + seq![':'] + fixed_decimal(ts.second as nat, 2) + seq!['.'] + fixed_decimal(
        ts.millisecond as nat,
        3,
    )
}

/// Appends a date-time as a record shows it.
pub fn push_clock(out: &mut String, ts: &DateTime)
    ensures
        final(out)@ == old(out)@ + clock_text(*ts),
{
    push_text(out, month_name(ts.month));
    out.push(' ');
    push_fixed_decimal(out, ts.day, 2);
    out.push(' ');
    push_fixed_decimal(out, ts.hour, 2);
    out.push(':');
    push_fixed_decimal(out, ts.minute, 2);
    out.push(':');
    push_fixed_decimal(out, ts.second, 2);
    out.push('.');
    push_fixed_decimal(out, ts.millisecond, 3);
    assert(out@ =~= old(out)@ + clock_text(*ts));
}

/// What stands between the message and a further member, and between two of
/// them: a space, and unless the output is compact a line break and a tab.
pub open spec fn separator(compact: bool) -> Seq<char> {
    if compact {
        seq![' ']
    } else {
        seq![' ', '\n', '\t']
    }
}

/// One further member: the separator, the name in bold, a colon and a space,
/// and the value in plain weight.
pub open spec fn rendered_extra(extra: (Seq<char>, Seq<char>), compact: bool) -> Seq<char> {
    separator(compact) + bold() + extra.0 + seq![':', ' '] + reset() + extra.1
}

/// The further members, one after the other.
pub open spec fn rendered_extras(rest: Seq<(Seq<char>, Seq<char>)>, compact: bool) -> Seq<char>
    decreases rest.len(),
{
    if rest.len() == 0 {
        Seq::empty()
    } else {
        rendered_extras(rest.drop_last(), compact) + rendered_extra(rest.last(), compact)
    }
}

/// The grey of the tag.
pub open spec fn tag_paint() -> Paint {
    Paint::Rgb(128, 128, 128)
}

/// A record as it is shown: the time, the level in its colour and bold, the
/// tag in brackets and grey, the message in bold and the terminal's own
/// colour, and the further members.
pub open spec fn rendered(record: RecordView, compact: bool) -> Seq<char> {
    reset() + clock_text(record.ts) + seq![' '] + foreground(level_paint(record.level)) + bold()
        + record.level + seq![' '] + reset() + foreground(tag_paint()) + seq!['['] + record.tag
        + seq![']', ' '] + bold() + foreground(Paint::Default) + record.msg + rendered_extras(
        record.rest,
        compact,
    )
}

/// Shows a record as coloured text.
pub fn render(record: &Record, compact: bool) -> (text: String)
    ensures
        text@ == rendered(record.deep_view(), compact),
{
    let bold_on = bold_code();
    let plain = reset_code();
    let mut text = String::new();
    push_text(&mut text, plain.as_str());
    push_clock(&mut text, &record.ts);
    text.push(' ');
    push_text(&mut text, foreground_code(paint_of_level(record.level.as_str())).as_str());
    push_text(&mut text, bold_on.as_str());
    push_text(&mut text, record.level.as_str());
    text.push(' ');
    push_text(&mut text, plain.as_str());
    push_text(&mut text, foreground_code(Paint::Rgb(128, 128, 128)).as_str());
    text.push('[');
    push_text(&mut text, record.tag.as_str());
    text.push(']');
    text.push(' ');
    push_text(&mut text, bold_on.as_str());
    push_text(&mut text, foreground_code(Paint::Default).as_str());
    push_text(&mut text, record.msg.as_str());
    let ghost head = text@;
    let ghost rest = record.rest.deep_view();
    let mut i: usize = 0;
    while i < record.rest.len()
        invariant
            i <= record.rest.len(),
            rest == record.rest.deep_view(),
            bold_on@ == bold(),
            plain@ == reset(),
            text@ == head + rendered_extras(rest.take(i as int), compact),
        decreases record.rest.len() - i,
    {
        let ghost before = text@;
        text.push(' ');
        if !compact {
            text.push('\n');
            text.push('\t');
        }
        push_text(&mut text, bold_on.as_str());
        push_text(&mut text, record.rest[i].0.as_str());
        text.push(':');
        text.push(' ');
        push_text(&mut text, plain.as_str());
        push_text(&mut text, record.rest[i].1.as_str());
        proof {
            assert(rest.take(i + 1).drop_last() =~= rest.take(i as int));
            assert(rest.take(i + 1).last() == rest[i as int]);
            assert(text@ =~= before + rendered_extra(rest[i as int], compact));
        }
        i += 1;
    }
    assert(rest.take(i as int) =~= rest);
    text
}

/// What `format` gives for a line: the record it holds, shown, or why it
/// holds none.
pub open spec fn formatted(line: Seq<char>, compact: bool) -> Result<Seq<char>, FormatError> {
    match parsed_record(line) {
        Ok(record) => Ok(rendered(record, compact)),
        Err(error) => Err(error),
    }
}

/// A result with the text in it as characters.
pub open spec fn text_view(outcome: Result<String, FormatError>) -> Result<
    Seq<char>,
    FormatError,
> {
    match outcome {
        Ok(text) => Ok(text@),
        Err(error) => Err(error),
    }
}

/// Reads one line of the log as a record and shows it as coloured text.
///
/// Fails as `parse_record` does when the line holds no record.
pub fn format(record: &str, compact: bool) -> (outcome: Result<String, FormatError>)
    ensures
        text_view(outcome) == formatted(record@, compact),
{
    match parse_record(record) {
        Ok(parsed) => Ok(render(&parsed, compact)),
        Err(error) => Err(error),
    }
}

} // verus!
