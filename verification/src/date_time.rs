//! The timestamp of a record as it is written in the log:
//! `YYYY-MM-DDTHH:MM:SS.mmm`, every field with leading zeros.

use crate::calendar::{DateTime, TimestampError};
use crate::text::{
    all_digits, chars_of, decimal_value, fixed_decimal, is_decimal_digit, lemma_decimal_value_bound,
    lemma_decimal_value_fixed, lemma_fixed_decimal_shape, lemma_fixed_decimal_value,
    lemma_pow10_monotone, pow10, push_fixed_decimal,
};
use vstd::prelude::*;

verus! {

/// The number of characters of a timestamp in the log.
pub const WIRE_LENGTH: usize = 23;

/// A date-time as the log writes it.
pub open spec fn wire_text(date: DateTime) -> Seq<char> {
    fixed_decimal(date.year as nat, 4) + seq!['-'] + fixed_decimal(date.month as nat, 2)
        + seq!['-'] + fixed_decimal(date.day as nat, 2) + seq!['T'] + fixed_decimal(
        date.hour as nat,
        2,
    ) + seq![':'] + fixed_decimal(date.minute as nat, 2) + seq![':'] + fixed_decimal(
        date.second as nat,
        2,
    ) + seq!['.'] + fixed_decimal(date.millisecond as nat, 3)
}

/// `text` has the form `dddd-dd-ddTdd:dd:dd.ddd`, each `d` a decimal digit.
pub open spec fn wire_shaped(text: Seq<char>) -> bool {
    &&& text.len() == 23
    &&& all_digits(text.subrange(0, 4))
    &&& text[4] == '-'
    &&& all_digits(text.subrange(5, 7))
    &&& text[7] == '-'
    &&& all_digits(text.subrange(8, 10))
    &&& text[10] == 'T'
    &&& all_digits(text.subrange(11, 13))
    &&& text[13] == ':'
    &&& all_digits(text.subrange(14, 16))
    &&& text[16] == ':'
    &&& all_digits(text.subrange(17, 19))
    &&& text[19] == '.'
    &&& all_digits(text.subrange(20, 23))
}

/// What a timestamp of the log means: `Malformed` unless it has the form,
/// else the date-time of its fields if there is one.
pub open spec fn wire_parse(text: Seq<char>) -> Result<DateTime, TimestampError> {
    if !wire_shaped(text) {
        Err(TimestampError::Malformed)
    } else {
        DateTime::checked(
            decimal_value(text.subrange(0, 4)) as u32,
            decimal_value(text.subrange(5, 7)) as u32,
            decimal_value(text.subrange(8, 10)) as u32,
            decimal_value(text.subrange(11, 13)) as u32,
            decimal_value(text.subrange(14, 16)) as u32,
            decimal_value(text.subrange(17, 19)) as u32,
            decimal_value(text.subrange(20, 23)) as u32,
        )
    }
}

/// Writes a date-time as the log writes it.
pub fn serialize(date: &DateTime) -> (text: String)
    ensures
        text@ == wire_text(*date),
{
    let mut text = String::new();
    push_fixed_decimal(&mut text, date.year, 4);
    text.push('-');
    push_fixed_decimal(&mut text, date.month, 2);
    text.push('-');
    push_fixed_decimal(&mut text, date.day, 2);
    text.push('T');
    push_fixed_decimal(&mut text, date.hour, 2);
    text.push(':');
    push_fixed_decimal(&mut text, date.minute, 2);
    text.push(':');
    push_fixed_decimal(&mut text, date.second, 2);
    text.push('.');
    push_fixed_decimal(&mut text, date.millisecond, 3);
    assert(text@ =~= wire_text(*date));
    text
}

/// Reads the digits at places `start` to `end` of `chars`; `None` if one of
/// them is no digit.
fn read_digits(chars: &Vec<char>, start: usize, end: usize) -> (value: Option<u32>)
    requires
        start <= end <= chars.len(),
        end - start <= 9,
    ensures
        value is Some == all_digits(chars@.subrange(start as int, end as int)),
        value matches Some(n) ==> n == decimal_value(chars@.subrange(start as int, end as int)),
{
    let ghost group = chars@.subrange(start as int, end as int);
    let mut n: u32 = 0;
    let mut i: usize = start;
    while i < end
        invariant
            start <= i <= end <= chars.len(),
            end - start <= 9,
            group == chars@.subrange(start as int, end as int),
            all_digits(group.take(i - start)),
            n == decimal_value(group.take(i - start)),
        decreases end - i,
    {
        let c: char = chars[i];
        if !is_decimal_digit(c) {
            assert(group[i - start] == c);
            return None;
        }
        proof {
            let next = group.take(i + 1 - start);
            assert(next.drop_last() =~= group.take(i - start));
            assert(next.last() == c);
            lemma_decimal_value_bound(group.take(i - start));
            lemma_pow10_monotone((i - start) as nat, 8);
            assert(pow10(8) == 100_000_000) by {
                reveal_with_fuel(pow10, 9);
            }
        }
        n = 10 * n + (c as u32 - '0' as u32);
        i += 1;
    }
    assert(group.take(i - start) =~= group);
    Some(n)
}

/// Reads a timestamp as the log writes it, `YYYY-MM-DDTHH:MM:SS.mmm`.
///
/// Fails with `Malformed` when the text does not have that form, with
/// `InvalidCalendarDate` when it has and the day does not exist, and with
/// `InvalidTimeOfDay` when only the time does not exist.
pub fn deserialize(text: &str) -> (parsed: Result<DateTime, TimestampError>)
    ensures
        parsed == wire_parse(text@),
        parsed matches Ok(date_time) ==> date_time.is_valid(),
{
    let chars = chars_of(text);
    if chars.len() != WIRE_LENGTH {
        return Err(TimestampError::Malformed);
    }
    if chars[4] != '-' || chars[7] != '-' || chars[10] != 'T' || chars[13] != ':' || chars[16]
        != ':' || chars[19] != '.' {
        return Err(TimestampError::Malformed);
    }
    let year = read_digits(&chars, 0, 4);
    let month = read_digits(&chars, 5, 7);
    let day = read_digits(&chars, 8, 10);
    let hour = read_digits(&chars, 11, 13);
    let minute = read_digits(&chars, 14, 16);
    let second = read_digits(&chars, 17, 19);
    let millisecond = read_digits(&chars, 20, 23);
    match (year, month, day, hour, minute, second, millisecond) {
        (Some(year), Some(month), Some(day), Some(hour), Some(minute), Some(second), Some(millisecond)) => {
            DateTime::new(year, month, day, hour, minute, second, millisecond)
        },
        _ => Err(TimestampError::Malformed),
    }
}

/// A number below ten to the `width`, written with that width, is read back
/// as itself from its place in a longer text.
proof fn lemma_group_round_trip(text: Seq<char>, start: int, n: nat, width: nat)
    requires
        0 <= start,
        start + width <= text.len(),
        text.subrange(start, start + width) == fixed_decimal(n, width),
        n < pow10(width),
    ensures
        all_digits(text.subrange(start, start + width)),
        decimal_value(text.subrange(start, start + width)) == n,
{
    lemma_fixed_decimal_shape(n, width);
    lemma_fixed_decimal_value(n, width);
}

/// Writing a date-time and reading the text back gives the same date-time.
pub proof fn lemma_write_then_read(date: DateTime)
    requires
        date.is_valid(),
    ensures
        wire_parse(wire_text(date)) == Ok::<DateTime, TimestampError>(date),
{
    let text = wire_text(date);
    lemma_fixed_decimal_shape(date.year as nat, 4);
    lemma_fixed_decimal_shape(date.month as nat, 2);
    lemma_fixed_decimal_shape(date.day as nat, 2);
    lemma_fixed_decimal_shape(date.hour as nat, 2);
    lemma_fixed_decimal_shape(date.minute as nat, 2);
    lemma_fixed_decimal_shape(date.second as nat, 2);
    lemma_fixed_decimal_shape(date.millisecond as nat, 3);
    assert(text.len() == 23);
    assert(text.subrange(0, 4) =~= fixed_decimal(date.year as nat, 4));
    assert(text.subrange(5, 7) =~= fixed_decimal(date.month as nat, 2));
    assert(text.subrange(8, 10) =~= fixed_decimal(date.day as nat, 2));
    assert(text.subrange(11, 13) =~= fixed_decimal(date.hour as nat, 2));
    assert(text.subrange(14, 16) =~= fixed_decimal(date.minute as nat, 2));
    assert(text.subrange(17, 19) =~= fixed_decimal(date.second as nat, 2));
    assert(text.subrange(20, 23) =~= fixed_decimal(date.millisecond as nat, 3));
    assert(pow10(2) == 100 && pow10(3) == 1000 && pow10(4) == 10000) by {
        reveal_with_fuel(pow10, 5);
    }
    lemma_group_round_trip(text, 0, date.year as nat, 4);
    lemma_group_round_trip(text, 5, date.month as nat, 2);
    lemma_group_round_trip(text, 8, date.day as nat, 2);
    lemma_group_round_trip(text, 11, date.hour as nat, 2);
    lemma_group_round_trip(text, 14, date.minute as nat, 2);
    lemma_group_round_trip(text, 17, date.second as nat, 2);
    lemma_group_round_trip(text, 20, date.millisecond as nat, 3);
}

/// Reading a timestamp and writing the date-time gives the same text.
pub proof fn lemma_read_then_write(text: Seq<char>)
    requires
        wire_parse(text) is Ok,
    ensures
        wire_text(wire_parse(text)->Ok_0) == text,
{
    let date = wire_parse(text)->Ok_0;
    lemma_decimal_value_fixed(text.subrange(0, 4));
    lemma_decimal_value_fixed(text.subrange(5, 7));
    lemma_decimal_value_fixed(text.subrange(8, 10));
    lemma_decimal_value_fixed(text.subrange(11, 13));
    lemma_decimal_value_fixed(text.subrange(14, 16));
    lemma_decimal_value_fixed(text.subrange(17, 19));
    lemma_decimal_value_fixed(text.subrange(20, 23));
    lemma_decimal_value_bound(text.subrange(0, 4));
    lemma_decimal_value_bound(text.subrange(5, 7));
    lemma_decimal_value_bound(text.subrange(8, 10));
    lemma_decimal_value_bound(text.subrange(11, 13));
    lemma_decimal_value_bound(text.subrange(14, 16));
    lemma_decimal_value_bound(text.subrange(17, 19));
    lemma_decimal_value_bound(text.subrange(20, 23));
    assert(pow10(2) == 100 && pow10(3) == 1000 && pow10(4) == 10000) by {
        reveal_with_fuel(pow10, 5);
    }
    assert(wire_text(date) =~= text);
}

} // verus!
