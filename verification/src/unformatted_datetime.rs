//! Timestamps written loosely: any prefix of year, month, day, hour, minute
//! and second, with or without separators.

use crate::calendar::{days_in_month, DateTime, TimestampError};
use crate::text::{
    all_digits, decimal_of, decimal_value, digits_only, is_digit, keep_digits,
    lemma_decimal_value_bound, lemma_digits_only_of_digits, lemma_pow10_monotone, pad_zeros, pow10,
    push_text, zeros,
};
use vstd::prelude::*;
use vstd::string::StrSliceExecFns;

verus! {

/// How many characters `consume_and_pad` takes from a text of `len`
/// characters when asked for `n`.
pub open spec fn taken(len: nat, n: nat) -> int {
    if n <= len {
        n as int
    } else {
        len as int
    }
}

/// Takes up to `n` characters from the front of `s` and returns them filled up
/// with zeros on the right to `n` characters. `s` is left with what follows.
pub fn consume_and_pad<'a>(s: &mut &'a str, n: usize) -> (padded: String)
    ensures
        padded@ == pad_zeros(old(s)@.take(taken(old(s)@.len(), n as nat)), n as nat),
        final(s)@ == old(s)@.skip(taken(old(s)@.len(), n as nat)),
{
    let whole: &'a str = *s;
    let len: usize = whole.unicode_len();
    let k: usize = if n <= len {
        n
    } else {
        len
    };
    let head = whole.substring_char(0, k);
    *s = whole.substring_char(k, len);
    let mut padded = String::new();
    push_text(&mut padded, head);
    let mut i: usize = k;
    while i < n
        invariant
            k <= i <= n,
            padded@ == head@ + zeros((i - k) as nat),
        decreases n - i,
    {
        padded.push('0');
        i += 1;
        assert(padded@ =~= head@ + zeros((i - k) as nat));
    }
    assert(padded@ =~= pad_zeros(head@, n as nat));
    padded
}

/// The digits of `text`, filled up with zeros to the fourteen places of a
/// full timestamp.
pub open spec fn timestamp_digits(text: Seq<char>) -> Seq<char> {
    pad_zeros(digits_only(text), 14)
}

/// The number written at places `start` to `start + width` of the padded
/// digits of `text`.
pub open spec fn unformatted_field(text: Seq<char>, start: int, width: int) -> nat {
    decimal_value(timestamp_digits(text).subrange(start, start + width))
}

/// `n`, but at least one.
pub open spec fn at_least_one(n: nat) -> nat {
    if n == 0 {
        1
    } else {
        n
    }
}

/// What a loosely written timestamp means: year, month, day, hour, minute and
/// second are read from fixed places of the padded digits; a month or a day
/// of zero counts as one.
pub open spec fn parse_unformatted(text: Seq<char>) -> Result<DateTime, TimestampError> {
    DateTime::checked(
        unformatted_field(text, 0, 4) as u32,
        at_least_one(unformatted_field(text, 4, 2)) as u32,
        at_least_one(unformatted_field(text, 6, 2)) as u32,
        unformatted_field(text, 8, 2) as u32,
        unformatted_field(text, 10, 2) as u32,
        unformatted_field(text, 12, 2) as u32,
        0,
    )
}

/// Taking `width` characters from what is left of a digit string after
/// `start` characters, padded, is the same as cutting them out of the string
/// padded as a whole.
proof fn lemma_field_of_padded(digits: Seq<char>, rest: Seq<char>, start: int, width: int)
    requires
        0 <= start,
        0 < width,
        start + width <= 14,
        rest == digits.skip(taken(digits.len(), start as nat)),
    ensures
        pad_zeros(rest.take(taken(rest.len(), width as nat)), width as nat) == pad_zeros(
            digits,
            14,
        ).subrange(start, start + width),
        rest.skip(taken(rest.len(), width as nat)) == digits.skip(
            taken(digits.len(), (start + width) as nat),
        ),
{
    let field = pad_zeros(rest.take(taken(rest.len(), width as nat)), width as nat);
    assert(field =~= pad_zeros(digits, 14).subrange(start, start + width));
    assert(rest.skip(taken(rest.len(), width as nat)) =~= digits.skip(
        taken(digits.len(), (start + width) as nat),
    ));
}

/// Reads one field of `width` digits from the front of `rest`.
fn read_field<'a>(rest: &mut &'a str, width: usize) -> (value: u32)
    requires
        all_digits(old(rest)@),
        0 < width <= 9,
    ensures
        value == decimal_value(
            pad_zeros(
                old(rest)@.take(taken(old(rest)@.len(), width as nat)),
                width as nat,
            ),
        ),
        final(rest)@ == old(rest)@.skip(taken(old(rest)@.len(), width as nat)),
        all_digits(final(rest)@),
{
    let padded = consume_and_pad(rest, width);
    proof {
        lemma_decimal_value_bound(padded@);
        lemma_pow10_monotone(padded@.len(), 9);
        assert(pow10(9) == 1_000_000_000) by {
            reveal_with_fuel(pow10, 10);
        }
    }
    match decimal_of(padded.as_str()) {
        Some(value) => value,
        None => 0,
    }
}

/// Reads a timestamp of which only a prefix may be written, in any
/// punctuation: everything but the decimal digits `0` to `9` is ignored, and
/// the digits that are missing count as zeros, but for a month or a day of
/// zero, which counts as one.
///
/// Fails with `InvalidCalendarDate` when year, month and day name no day of
/// the calendar, and with `InvalidTimeOfDay` when the date is fine and hour,
/// minute and second name no time of day.
pub fn parse_unformatted_datetime(datetime: &str) -> (parsed: Result<DateTime, TimestampError>)
    ensures
        parsed == parse_unformatted(datetime@),
        parsed matches Ok(date_time) ==> date_time.is_valid(),
        parsed !is Ok ==> parsed != Err::<DateTime, TimestampError>(TimestampError::Malformed),
{
    let digits = keep_digits(datetime);
    let mut rest: &str = digits.as_str();
    let ghost all = digits@;
    proof {
        assert(all.skip(0) =~= all);
        lemma_field_of_padded(all, rest@, 0, 4);
    }
    let year: u32 = read_field(&mut rest, 4);
    proof {
        lemma_field_of_padded(all, rest@, 4, 2);
    }
    let month: u32 = read_field(&mut rest, 2);
    proof {
        lemma_field_of_padded(all, rest@, 6, 2);
    }
    let day: u32 = read_field(&mut rest, 2);
    proof {
        lemma_field_of_padded(all, rest@, 8, 2);
    }
    let hour: u32 = read_field(&mut rest, 2);
    proof {
        lemma_field_of_padded(all, rest@, 10, 2);
    }
    let minute: u32 = read_field(&mut rest, 2);
    proof {
        lemma_field_of_padded(all, rest@, 12, 2);
    }
    let second: u32 = read_field(&mut rest, 2);
    let month: u32 = if month == 0 {
        1
    } else {
        month
    };
    let day: u32 = if day == 0 {
        1
    } else {
        day
    };
    DateTime::new(year, month, day, hour, minute, second, 0)
}

/// A timestamp written as up to fourteen digits is read as those digits
/// with zeros behind them: nothing is stripped, and every field is read from
/// its own place.
pub proof fn lemma_digits_are_read_in_place(text: Seq<char>)
    requires
        all_digits(text),
        text.len() <= 14,
    ensures
        timestamp_digits(text) == text + zeros((14 - text.len()) as nat),
        timestamp_digits(text).len() == 14,
{
    lemma_digits_only_of_digits(text);
    assert(pad_zeros(text, 14) =~= text + zeros((14 - text.len()) as nat));
}

/// A month above twelve, or a day that the month does not have, is refused
/// as it is read; it is never replaced by one that exists.
pub proof fn lemma_no_such_day_is_refused(text: Seq<char>)
    requires
        unformatted_field(text, 4, 2) > 12 || at_least_one(unformatted_field(text, 6, 2))
            > days_in_month(
            unformatted_field(text, 0, 4) as int,
            at_least_one(unformatted_field(text, 4, 2)) as int,
        ),
    ensures
        parse_unformatted(text) == Err::<DateTime, TimestampError>(
            TimestampError::InvalidCalendarDate {
                year: unformatted_field(text, 0, 4) as u32,
                month: at_least_one(unformatted_field(text, 4, 2)) as u32,
                day: at_least_one(unformatted_field(text, 6, 2)) as u32,
            },
        ),
{
    lemma_field_is_small(text, 0, 4);
    lemma_field_is_small(text, 4, 2);
    lemma_field_is_small(text, 6, 2);
    assert(pow10(2) == 100 && pow10(4) == 10000) by {
        reveal_with_fuel(pow10, 5);
    }
}

/// A field of `width` digits is a number below ten to the `width`.
pub proof fn lemma_field_is_small(text: Seq<char>, start: int, width: int)
    requires
        0 <= start,
        0 < width,
        start + width <= 14,
    ensures
        unformatted_field(text, start, width) < pow10(width as nat),
{
    let digits = timestamp_digits(text);
    let kept = digits_only(text);
    assert(all_digits(kept)) by {
        assert forall|i: int| 0 <= i < kept.len() implies is_digit(#[trigger] kept[i]) by {
            text.lemma_filter_pred(|c: char| is_digit(c), i);
        }
    }
    assert(all_digits(digits));
    lemma_decimal_value_bound(digits.subrange(start, start + width));
}

} // verus!
