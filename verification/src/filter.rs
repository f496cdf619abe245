//! Which records are shown.
//!
//! A record is put to every query that was configured, and is shown if each
//! of them answers `true`. The queries themselves are run by the caller; what
//! their answers mean is decided here.

use crate::text::{decimal_text, push_decimal, push_text, same_text};
use vstd::prelude::*;

verus! {

/// `text` without the white space at its start and at its end, as `str::trim`
/// removes it.
pub uninterp spec fn trimmed(text: Seq<char>) -> Seq<char>;

/// `str::trim` returns the part of the string that is left when leading and
/// trailing white space is removed; the result depends on the characters of
/// the string alone.
pub assume_specification[ str::trim ](s: &str) -> (part: &str)
    ensures
        part@ == trimmed(s@),
;

/// How `std` writes a string for debugging: in double quotes, with escapes.
pub uninterp spec fn debug_quoted(text: Seq<char>) -> Seq<char>;

/// Formats `text` with `{:?}`, the `Debug` of `str`. The result depends on
/// the characters of the string alone.
#[verifier::external_body]
pub(crate) fn quote(text: &str) -> (quoted: String)
    ensures
        quoted@ == debug_quoted(text@),
{
    format!("{:?}", text)
}

/// What one run of a query on one record gave: its output, or the text of
/// its failure.
pub type Outcome = Result<String, String>;

/// Whether an answer, with the white space around it already removed, is the
/// word `true`.
pub fn is_true(answer: &str) -> (yes: bool)
    ensures
        yes == (answer@ == "true"@),
{
    same_text(answer, "true")
}

/// An output says yes: it is the word `true`, with nothing but white space
/// around it.
pub open spec fn says_yes(output: Seq<char>) -> bool {
    trimmed(output) == "true"@
}

/// Whether the output of a query says yes.
pub fn passes(output: &str) -> (yes: bool)
    ensures
        yes == says_yes(output@),
{
    is_true(output.trim())
}

/// The query ran and said yes. A query that failed did not.
pub open spec fn agrees(outcome: Outcome) -> bool {
    match outcome {
        Ok(output) => says_yes(output@),
        Err(_) => false,
    }
}

/// Every query said yes. That is so where there is no query.
pub open spec fn all_agree(outcomes: Seq<Outcome>) -> bool {
    forall|i: int| 0 <= i < outcomes.len() ==> agrees(#[trigger] outcomes[i])
}

/// At least one query ran to its end.
pub open spec fn any_answered(outcomes: Seq<Outcome>) -> bool {
    exists|i: int| 0 <= i < outcomes.len() && (#[trigger] outcomes[i]).is_ok()
}

/// Whether a record is shown, given what each configured query gave for it.
pub fn is_included(outcomes: &Vec<Outcome>) -> (shown: bool)
    ensures
        shown == all_agree(outcomes@),
        outcomes.len() == 0 ==> shown,
        forall|i: int| 0 <= i < outcomes.len() && (#[trigger] outcomes@[i]).is_err() ==> !shown,
{
    let mut i: usize = 0;
    while i < outcomes.len()
        invariant
            i <= outcomes.len(),
            forall|j: int| 0 <= j < i ==> agrees(#[trigger] outcomes@[j]),
        decreases outcomes.len() - i,
    {
        let yes = match &outcomes[i] {
            Ok(output) => passes(output.as_str()),
            Err(_) => false,
        };
        if !yes {
            return false;
        }
        i += 1;
    }
    true
}

/// Whether at least one query ran to its end.
pub fn has_answer(outcomes: &Vec<Outcome>) -> (answered: bool)
    ensures
        answered == any_answered(outcomes@),
{
    let mut i: usize = 0;
    while i < outcomes.len()
        invariant
            i <= outcomes.len(),
            forall|j: int| 0 <= j < i ==> !(#[trigger] outcomes@[j]).is_ok(),
        decreases outcomes.len() - i,
    {
        if outcomes[i].is_ok() {
            return true;
        }
        i += 1;
    }
    false
}

/// What a run has counted so far.
#[derive(Clone, Copy, Debug, PartialEq, Eq)]
pub struct Counters {
    /// The records for which at least one query ran to its end.
    pub evaluated: u64,
    /// The records that were shown.
    pub included: u64,
}

impl Counters {
    /// Nothing counted yet.
    pub fn new() -> (counters: Counters)
        ensures
            counters.evaluated == 0,
            counters.included == 0,
    {
        Counters { evaluated: 0, included: 0 }
    }

    /// Counts one record, given what each configured query gave for it, and
    /// returns whether the record is shown.
    pub fn tally(&mut self, outcomes: &Vec<Outcome>) -> (shown: bool)
        requires
            old(self).evaluated < u64::MAX,
            old(self).included < u64::MAX,
        ensures
            shown == all_agree(outcomes@),
            final(self).included == old(self).included + if shown {
                1int
            } else {
                0int
            },
            final(self).evaluated == old(self).evaluated + if any_answered(outcomes@) {
                1int
            } else {
                0int
            },
    {
        if has_answer(outcomes) {
            self.evaluated = self.evaluated + 1;
        }
        let shown = is_included(outcomes);
        if shown {
            self.included = self.included + 1;
        }
        shown
    }

    /// The line that closes the output: it tells how many records were
    /// shown. A record counts once, however many queries were put to it.
    pub open spec fn summary_text(self) -> Seq<char> {
        "END OUTPUT - n_lines="@ + decimal_text(self.included as nat)
    }

    /// The line that closes the output.
    pub fn summary(&self) -> (line: String)
        ensures
            line@ == self.summary_text(),
    {
        let mut line = String::new();
        push_text(&mut line, "END OUTPUT - n_lines=");
        push_decimal(&mut line, self.included);
        line
    }
}

/// The query that holds for the records written at or after a bound: it
/// compares the member `ts` with the bound as text.
pub open spec fn after_query_text(after: Seq<char>) -> Seq<char> {
    ".ts >= "@ + debug_quoted(after)
}

/// The query that compares the member `ts` of a record with a bound that
/// is already written as the query language wants it, in quotes.
pub fn at_or_after(quoted: &str) -> (query: String)
    ensures
        query@ == ".ts >= "@ + quoted@,
{
    let mut query = String::new();
    push_text(&mut query, ".ts >= ");
    push_text(&mut query, quoted);
    query
}

/// The query that holds for the records written at or after `after`.
pub fn after_query(after: &str) -> (query: String)
    ensures
        query@ == after_query_text(after@),
{
    at_or_after(quote(after).as_str())
}

/// The queries a record is put to, in the order in which they are run: the
/// query for the bound, if a bound was given, then the caller's own query,
/// if there is one.
pub open spec fn filter_queries_text(after: Option<&str>, user: Option<&str>) -> Seq<Seq<char>> {
    let first = match after {
        Some(bound) => seq![after_query_text(bound@)],
        None => Seq::empty(),
    };
    match user {
        Some(query) => first.push(query@),
        None => first,
    }
}

/// The queries a record is put to, in the order in which they are run.
pub fn filter_queries(after: Option<&str>, user: Option<&str>) -> (queries: Vec<String>)
    ensures
        queries.deep_view() == filter_queries_text(after, user),
{
    let mut queries: Vec<String> = Vec::new();
    match after {
        Some(bound) => {
            queries.push(after_query(bound));
        },
        None => {},
    }
    match user {
        Some(query) => {
            let mut own = String::new();
            push_text(&mut own, query);
            queries.push(own);
        },
        None => {},
    }
    assert(queries.deep_view() =~= filter_queries_text(after, user));
    queries
}

} // verus!
