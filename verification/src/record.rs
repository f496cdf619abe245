//! A log record: one JSON object per line, with the members `tag`, `msg`,
//! `level` and `ts` and any number of further members.
//!
//! The JSON itself is read by `serde_json`; which members a record needs and
//! what becomes of the others is decided here.

use crate::calendar::{DateTime, TimestampError};
use crate::date_time::{deserialize, wire_parse};
use crate::text::{push_text, same_text};
use vstd::prelude::*;

verus! {

/// One member of a JSON object.
#[derive(Clone, Debug, PartialEq, Eq)]
pub struct Field {
    /// The member's name.
    pub key: String,
    /// The member's value if it is a JSON string, unescaped.
    pub text: Option<String>,
    /// The member's value as compact JSON.
    pub json: String,
}

/// A `Field` as plain values.
pub struct FieldView {
    pub key: Seq<char>,
    pub text: Option<Seq<char>>,
    pub json: Seq<char>,
}

impl DeepView for Field {
    type V = FieldView;

    open spec fn deep_view(&self) -> FieldView {
        FieldView { key: self.key@, text: self.text.deep_view(), json: self.json@ }
    }
}

/// What `serde_json` reads from a line: the members of the JSON object that
/// the line holds, in the order in which `serde_json`'s map hands them out,
/// or `None` where the line is not exactly one JSON object.
pub uninterp spec fn json_object(line: Seq<char>) -> Option<Seq<FieldView>>;

/// Reads `line` with `serde_json::from_str` as a `serde_json::Value`. For an
/// object, each member is handed out with its key, with `Value::as_str` of
/// its value and with the value's compact JSON (its `Display`); anything
/// else, and a line that is no JSON, gives `None`. The result depends on the
/// line alone.
#[verifier::external_body]
pub(crate) fn read_object(line: &str) -> (fields: Option<Vec<Field>>)
    ensures
        fields.deep_view() == json_object(line@),
{
    match serde_json::from_str::<serde_json::Value>(line) {
        Ok(serde_json::Value::Object(map)) => Some(
            map.iter().map(
                |(key, value)|
                    Field {
                        key: key.clone(),
                        text: value.as_str().map(String::from),
                        json: value.to_string(),
                    },
            ).collect(),
        ),
        Ok(_) => None,
        Err(_) => None,
    }
}

/// The four members every record has.
#[derive(Clone, Copy, Debug, PartialEq, Eq)]
pub enum Key {
    Tag,
    Msg,
    Level,
    Ts,
}

impl Key {
    /// The member's name in the JSON object.
    pub open spec fn text(self) -> Seq<char> {
        match self {
            Key::Tag => "tag"@,
            Key::Msg => "msg"@,
            Key::Level => "level"@,
            Key::Ts => "ts"@,
        }
    }

    /// The member's name in the JSON object.
    pub fn name(self) -> (name: &'static str)
        ensures
            name@ == self.text(),
    {
        match self {
            Key::Tag => "tag",
            Key::Msg => "msg",
            Key::Level => "level",
            Key::Ts => "ts",
        }
    }
}

/// Why a line is no record.
#[derive(Clone, Copy, Debug, PartialEq, Eq)]
pub enum FormatError {
    /// The line is not a JSON object.
    NotAnObject,
    /// The object lacks one of the four members.
    MissingField(Key),
    /// One of the four members is not a string.
    NotAString(Key),
    /// The member `ts` is no timestamp.
    Timestamp(TimestampError),
}

impl FormatError {
    /// What is wrong with the line, in words.
    pub open spec fn description(self) -> Seq<char> {
        match self {
            FormatError::NotAnObject => "not a JSON object"@,
            FormatError::MissingField(key) => "missing field `"@ + key.text() + "`"@,
            FormatError::NotAString(key) => "field `"@ + key.text() + "` is not a string"@,
            FormatError::Timestamp(error) => error.message(),
        }
    }

    /// What is wrong with the line, in words.
    pub fn describe(&self) -> (text: String)
        ensures
            text@ == self.description(),
    {
        let mut text = String::new();
        match *self {
            FormatError::NotAnObject => {
                push_text(&mut text, "not a JSON object");
            },
            FormatError::MissingField(key) => {
                push_text(&mut text, "missing field `");
                push_text(&mut text, key.name());
                push_text(&mut text, "`");
            },
            FormatError::NotAString(key) => {
                push_text(&mut text, "field `");
                push_text(&mut text, key.name());
                push_text(&mut text, "` is not a string");
            },
            FormatError::Timestamp(error) => {
                let message = error.to_string();
                push_text(&mut text, message.as_str());
            },
        }
        assert(text@ =~= self.description());
        text
    }
}

/// A log record.
#[derive(Clone, Debug, PartialEq, Eq)]
pub struct Record {
    /// Which part of the program wrote the record.
    pub tag: String,
    /// The message.
    pub msg: String,
    /// The level: `CRIT`, `ERRO`, `WARN`, `INFO`, `DEBG`, `TRCE`, or anything
    /// else.
    pub level: String,
    /// When the record was written.
    pub ts: DateTime,
    /// The further members, each with its name and its value as compact JSON.
    pub rest: Vec<(String, String)>,
}

/// A `Record` as plain values.
pub struct RecordView {
    pub tag: Seq<char>,
    pub msg: Seq<char>,
    pub level: Seq<char>,
    pub ts: DateTime,
    pub rest: Seq<(Seq<char>, Seq<char>)>,
}

impl DeepView for Record {
    type V = RecordView;

    open spec fn deep_view(&self) -> RecordView {
        RecordView {
            tag: self.tag@,
            msg: self.msg@,
            level: self.level@,
            ts: self.ts,
            rest: self.rest.deep_view(),
        }
    }
}

/// The last member named `key`, if there is one.
pub open spec fn member(fields: Seq<FieldView>, key: Seq<char>) -> Option<FieldView>
    decreases fields.len(),
{
    if fields.len() == 0 {
        None
    } else if fields.last().key == key {
        Some(fields.last())
    } else {
        member(fields.drop_last(), key)
    }
}

/// The string that the member `key` holds.
pub open spec fn string_member(fields: Seq<FieldView>, key: Key) -> Result<
    Seq<char>,
    FormatError,
> {
    match member(fields, key.text()) {
        None => Err(FormatError::MissingField(key)),
        Some(field) => match field.text {
            None => Err(FormatError::NotAString(key)),
            Some(text) => Ok(text),
        },
    }
}

/// `key` names one of the four members every record has.
pub open spec fn is_core_key(key: Seq<char>) -> bool {
    key == Key::Tag.text() || key == Key::Msg.text() || key == Key::Level.text() || key
        == Key::Ts.text()
}

/// The members other than the four, in order, each with its name and its
/// value as compact JSON.
pub open spec fn extras(fields: Seq<FieldView>) -> Seq<(Seq<char>, Seq<char>)>
    decreases fields.len(),
{
    if fields.len() == 0 {
        Seq::empty()
    } else if is_core_key(fields.last().key) {
        extras(fields.drop_last())
    } else {
        extras(fields.drop_last()).push((fields.last().key, fields.last().json))
    }
}

/// The record that the members of an object make. `tag`, `msg`, `level` and
/// `ts` are looked at in this order, and the first that is missing or is no
/// string decides the error; then `ts` has to be a timestamp.
pub open spec fn decoded(fields: Seq<FieldView>) -> Result<RecordView, FormatError> {
    match string_member(fields, Key::Tag) {
        Err(error) => Err(error),
        Ok(tag) => match string_member(fields, Key::Msg) {
            Err(error) => Err(error),
            Ok(msg) => match string_member(fields, Key::Level) {
                Err(error) => Err(error),
                Ok(level) => match string_member(fields, Key::Ts) {
                    Err(error) => Err(error),
                    Ok(stamp) => match wire_parse(stamp) {
                        Err(error) => Err(FormatError::Timestamp(error)),
                        Ok(ts) => Ok(RecordView { tag, msg, level, ts, rest: extras(fields) }),
                    },
                },
            },
        },
    }
}

/// The record that a line holds.
pub open spec fn parsed_record(line: Seq<char>) -> Result<RecordView, FormatError> {
    match json_object(line) {
        None => Err(FormatError::NotAnObject),
        Some(fields) => decoded(fields),
    }
}

/// A result with the record in it as plain values.
pub open spec fn outcome_view(outcome: Result<Record, FormatError>) -> Result<
    RecordView,
    FormatError,
> {
    match outcome {
        Ok(record) => Ok(record.deep_view()),
        Err(error) => Err(error),
    }
}

/// Looks up the string that the member `key` holds.
fn find_string(fields: &Vec<Field>, key: Key) -> (found: Result<String, FormatError>)
    ensures
        match found {
            Ok(text) => string_member(fields.deep_view(), key) == Ok::<Seq<char>, FormatError>(
                text@,
            ),
            Err(error) => string_member(fields.deep_view(), key) == Err::<Seq<char>, FormatError>(
                error,
            ),
        },
{
    let ghost all = fields.deep_view();
    let name = key.name();
    let mut i: usize = fields.len();
    assert(all.take(i as int) =~= all);
    while i > 0
        invariant
            i <= fields.len(),
            all == fields.deep_view(),
            name@ == key.text(),
            member(all, key.text()) == member(all.take(i as int), key.text()),
        decreases i,
    {
        i -= 1;
        assert(all.take(i + 1).drop_last() =~= all.take(i as int));
        assert(all.take(i + 1).last() == fields@[i as int].deep_view());
        if same_text(fields[i].key.as_str(), name) {
            return match &fields[i].text {
                Some(text) => Ok(text.clone()),
                None => Err(FormatError::NotAString(key)),
            };
        }
    }
    assert(all.take(0).len() == 0);
    Err(FormatError::MissingField(key))
}

/// Whether `key` names one of the four members every record has.
fn names_core(key: &str) -> (core: bool)
    ensures
        core == is_core_key(key@),
{
    same_text(key, Key::Tag.name()) || same_text(key, Key::Msg.name()) || same_text(
        key,
        Key::Level.name(),
    ) || same_text(key, Key::Ts.name())
}

/// Collects the members other than the four.
fn collect_extras(fields: &Vec<Field>) -> (rest: Vec<(String, String)>)
    ensures
        rest.deep_view() == extras(fields.deep_view()),
{
    let ghost all = fields.deep_view();
    let mut rest: Vec<(String, String)> = Vec::new();
    let mut i: usize = 0;
    assert(rest.deep_view() =~= extras(all.take(0)));
    while i < fields.len()
        invariant
            i <= fields.len(),
            all == fields.deep_view(),
            rest.deep_view() == extras(all.take(i as int)),
        decreases fields.len() - i,
    {
        assert(all.take(i + 1).drop_last() =~= all.take(i as int));
        assert(all.take(i + 1).last() == fields@[i as int].deep_view());
        if !names_core(fields[i].key.as_str()) {
            let ghost before = rest.deep_view();
            let key = fields[i].key.clone();
            let json = fields[i].json.clone();
            rest.push((key, json));
            assert(rest.deep_view() =~= before.push((fields@[i as int].key@, fields@[i as int].json@)));
        }
        i += 1;
    }
    assert(all.take(i as int) =~= all);
    rest
}

/// Makes a record of the members of a JSON object.
///
/// Fails with `MissingField` or `NotAString` for the first of `tag`, `msg`,
/// `level` and `ts` that is not there or is no string, and with `Timestamp`
/// when all four are strings and `ts` is no timestamp.
pub fn decode(fields: &Vec<Field>) -> (outcome: Result<Record, FormatError>)
    ensures
        outcome_view(outcome) == decoded(fields.deep_view()),
{
    let tag = match find_string(fields, Key::Tag) {
        Ok(text) => text,
        Err(error) => {
            return Err(error);
        },
    };
    let msg = match find_string(fields, Key::Msg) {
        Ok(text) => text,
        Err(error) => {
            return Err(error);
        },
    };
    let level = match find_string(fields, Key::Level) {
        Ok(text) => text,
        Err(error) => {
            return Err(error);
        },
    };
    let stamp = match find_string(fields, Key::Ts) {
        Ok(text) => text,
        Err(error) => {
            return Err(error);
        },
    };
    let ts = match deserialize(stamp.as_str()) {
        Ok(ts) => ts,
        Err(error) => {
            return Err(FormatError::Timestamp(error));
        },
    };
    let rest = collect_extras(fields);
    Ok(Record { tag, msg, level, ts, rest })
}

/// Reads one line of the log as a record.
///
/// Fails with `NotAnObject` when the line is not a JSON object, and as
/// `decode` does when it is one.
pub fn parse_record(line: &str) -> (outcome: Result<Record, FormatError>)
    ensures
        outcome_view(outcome) == parsed_record(line@),
{
    match read_object(line) {
        None => Err(FormatError::NotAnObject),
        Some(fields) => decode(&fields),
    }
}

} // verus!
