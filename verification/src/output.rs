//! What is written for a record that is shown, in each of the two ways of
//! showing records: as it stands in the log, or read and coloured.

use crate::filter::Outcome;
use crate::record::FormatError;
use crate::render::formatted;
use crate::text::push_text;
use vstd::prelude::*;

verus! {

/// How records are shown, chosen once for a run.
#[derive(Clone, Copy, Debug, PartialEq, Eq)]
pub struct Options {
    /// The further members of a record follow the message on the same line.
    pub compact: bool,
    /// A line that holds no record is answered with what is wrong with it.
    pub error_details: bool,
    /// Records are written as they stand in the log.
    pub no_format: bool,
    /// A query rewrites each record before it is written. It counts only
    /// together with `no_format`.
    pub transform: bool,
}

/// What the caller does next with a record that is shown.
#[derive(Clone, Debug, PartialEq, Eq)]
pub enum Step {
    /// Write this text.
    Write(String),
    /// Run the rewriting query on the record and write what
    /// `show_transformed` makes of its outcome.
    Transform,
}

/// What stands in place of a line that holds no record.
pub open spec fn failure_text(error: FormatError, line: Seq<char>, details: bool) -> Seq<char> {
    if details {
        "Format error: "@ + error.description() + ", line: "@ + line
    } else {
        "<error; serde>"@
    }
}

/// A line read as a record and coloured, or what stands in its place, with a
/// line feed behind it.
pub open spec fn structured_text(line: Seq<char>, compact: bool, details: bool) -> Seq<char> {
    match formatted(line, compact) {
        Ok(text) => text + seq!['\n'],
        Err(error) => failure_text(error, line, details) + seq!['\n'],
    }
}

/// A line as it stands, with a line feed behind it.
pub open spec fn raw_text(line: Seq<char>) -> Seq<char> {
    line + seq!['\n']
}

/// What a rewriting query gave: its output as it is, or the text of its
/// failure with a line feed behind it.
pub open spec fn transformed_text(outcome: Outcome) -> Seq<char> {
    match outcome {
        Ok(output) => output@,
        Err(failure) => failure@ + seq!['\n'],
    }
}

/// Reads a line as a record and colours it. A line that holds no record is
/// answered with a short mark, or with what is wrong with it and the line
/// itself if `details` is set; it never ends the run.
pub fn show_structured(line: &str, compact: bool, details: bool) -> (text: String)
    ensures
        text@ == structured_text(line@, compact, details),
{
    let mut text = String::new();
    match crate::render::format(line, compact) {
        Ok(shown) => {
            push_text(&mut text, shown.as_str());
        },
        Err(error) => {
            if details {
                push_text(&mut text, "Format error: ");
                push_text(&mut text, error.describe().as_str());
                push_text(&mut text, ", line: ");
                push_text(&mut text, line);
            } else {
                push_text(&mut text, "<error; serde>");
            }
        },
    }
    text.push('\n');
    assert(text@ =~= structured_text(line@, compact, details));
    text
}

/// A line as it stands, with a line feed behind it.
pub fn show_raw(line: &str) -> (text: String)
    ensures
        text@ == raw_text(line@),
{
    let mut text = String::new();
    push_text(&mut text, line);
    text.push('\n');
    text
}

/// What is written for the outcome of a rewriting query. A failure is
/// written out; it does not end the run.
pub fn show_transformed(outcome: &Outcome) -> (text: String)
    ensures
        text@ == transformed_text(*outcome),
{
    let mut text = String::new();
    match outcome {
        Ok(output) => {
            push_text(&mut text, output.as_str());
        },
        Err(failure) => {
            push_text(&mut text, failure.as_str());
            text.push('\n');
        },
    }
    assert(text@ =~= transformed_text(*outcome));
    text
}

/// A result of `next_step` as plain values: the text to write, or `None` for
/// `Transform`.
pub open spec fn step_view(step: Step) -> Option<Seq<char>> {
    match step {
        Step::Write(text) => Some(text@),
        Step::Transform => None,
    }
}

/// What is done with a record that is shown: with `no_format` it is rewritten
/// by the query if there is one and else written as it stands; without, it is
/// read and coloured.
pub open spec fn planned(line: Seq<char>, options: Options) -> Option<Seq<char>> {
    if options.no_format {
        if options.transform {
            None
        } else {
            Some(raw_text(line))
        }
    } else {
        Some(structured_text(line, options.compact, options.error_details))
    }
}

/// Decides what is done with a record that is shown.
pub fn next_step(line: &str, options: &Options) -> (step: Step)
    ensures
        step_view(step) == planned(line@, *options),
{
    if options.no_format {
        if options.transform {
            Step::Transform
        } else {
            Step::Write(show_raw(line))
        }
    } else {
        Step::Write(show_structured(line, options.compact, options.error_details))
    }
}

} // verus!
