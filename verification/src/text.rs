//! Characters, decimal digits and the lexical order on text.
//!
//! Everything here works on the characters of a string (`s@`), never on its
//! bytes, so that every function is total on arbitrary text.

use vstd::prelude::*;

verus! {

/// `String::push` appends exactly one character to the end of the string and
/// leaves what was there unchanged.
pub assume_specification[ String::push ](s: &mut String, c: char)
    ensures
        final(s)@ == old(s)@.push(c),
;

/// A decimal digit: one of the ten characters `'0'` to `'9'`.
pub open spec fn is_digit(c: char) -> bool {
    '0' <= c && c <= '9'
}

/// Every character of `s` is a decimal digit.
pub open spec fn all_digits(s: Seq<char>) -> bool {
    forall|i: int| 0 <= i < s.len() ==> is_digit(#[trigger] s[i])
}

/// The number a digit stands for.
pub open spec fn digit_value(c: char) -> nat {
    (c as u32 - '0' as u32) as nat
}

/// The digit that stands for `d`, for `d` below ten.
pub open spec fn digit_char(d: nat) -> char {
    ('0' as u32 + d) as char
}

/// `s` without the characters that are not decimal digits.
pub open spec fn digits_only(s: Seq<char>) -> Seq<char> {
    s.filter(|c: char| is_digit(c))
}

/// `n` zeros.
pub open spec fn zeros(n: nat) -> Seq<char> {
    Seq::new(n, |i: int| '0')
}

/// `s` filled up with zeros on the right to `width` characters; a longer `s`
/// is left as it is.
pub open spec fn pad_zeros(s: Seq<char>, width: nat) -> Seq<char> {
    if s.len() < width {
        s + zeros((width - s.len()) as nat)
    } else {
        s
    }
}

/// Ten to the power `n`.
pub open spec fn pow10(n: nat) -> nat
    decreases n,
{
    if n == 0 {
        1
    } else {
        10 * pow10((n - 1) as nat)
    }
}

/// The number that a string of decimal digits denotes, most significant digit
/// first. The empty string denotes zero.
pub open spec fn decimal_value(s: Seq<char>) -> nat
    decreases s.len(),
{
    if s.len() == 0 {
        0
    } else {
        10 * decimal_value(s.drop_last()) + digit_value(s.last())
    }
}

/// The last `width` decimal digits of `n`, most significant first, with
/// leading zeros.
pub open spec fn fixed_decimal(n: nat, width: nat) -> Seq<char>
    decreases width,
{
    if width == 0 {
        Seq::empty()
    } else {
        fixed_decimal(n / 10, (width - 1) as nat).push(digit_char(n % 10))
    }
}

/// `n` in decimal, without leading zeros.
pub open spec fn decimal_text(n: nat) -> Seq<char>
    decreases n,
{
    if n < 10 {
        seq![digit_char(n)]
    } else {
        decimal_text(n / 10).push(digit_char(n % 10))
    }
}

/// `a` comes strictly before `b` in the lexical order: at the first position
/// where they differ `a` has the smaller character, or `a` is a proper prefix
/// of `b`.
pub open spec fn lex_lt(a: Seq<char>, b: Seq<char>) -> bool
    decreases a.len(),
{
    if b.len() == 0 {
        false
    } else if a.len() == 0 {
        true
    } else if a[0] != b[0] {
        a[0] < b[0]
    } else {
        lex_lt(a.skip(1), b.skip(1))
    }
}

/// `a` comes before `b` in the lexical order, or equals it.
pub open spec fn lex_le(a: Seq<char>, b: Seq<char>) -> bool {
    a == b || lex_lt(a, b)
}

/// A string of `len` digits denotes a number below ten to the `len`.
pub proof fn lemma_decimal_value_bound(s: Seq<char>)
    requires
        all_digits(s),
    ensures
        decimal_value(s) < pow10(s.len()),
    decreases s.len(),
{
    if s.len() > 0 {
        lemma_decimal_value_bound(s.drop_last());
        assert(is_digit(s.last()));
    }
}

/// Writing a number with a fixed width gives that many digits.
pub proof fn lemma_fixed_decimal_shape(n: nat, width: nat)
    ensures
        fixed_decimal(n, width).len() == width,
        all_digits(fixed_decimal(n, width)),
    decreases width,
{
    if width > 0 {
        lemma_fixed_decimal_shape(n / 10, (width - 1) as nat);
        assert(is_digit(digit_char(n % 10)));
    }
}

/// Reading back a number written with a fixed width gives the number, as long
/// as it fits.
pub proof fn lemma_fixed_decimal_value(n: nat, width: nat)
    requires
        n < pow10(width),
    ensures
        decimal_value(fixed_decimal(n, width)) == n,
    decreases width,
{
    if width > 0 {
        let rest = fixed_decimal(n / 10, (width - 1) as nat);
        lemma_fixed_decimal_value(n / 10, (width - 1) as nat);
        assert(fixed_decimal(n, width).drop_last() =~= rest);
        assert(digit_value(digit_char(n % 10)) == n % 10);
    }
}

/// Writing the value of a digit string with the string's own width gives the
/// string back.
pub proof fn lemma_decimal_value_fixed(s: Seq<char>)
    requires
        all_digits(s),
    ensures
        fixed_decimal(decimal_value(s), s.len()) == s,
    decreases s.len(),
{
    if s.len() > 0 {
        lemma_decimal_value_fixed(s.drop_last());
        assert(is_digit(s.last()));
        let v = decimal_value(s);
        assert(v / 10 == decimal_value(s.drop_last()));
        assert(v % 10 == digit_value(s.last()));
        assert(digit_char(digit_value(s.last())) == s.last());
        assert(fixed_decimal(v, s.len()) =~= s);
    }
}

/// No text comes before itself.
pub proof fn lemma_lex_lt_irreflexive(a: Seq<char>)
    ensures
        !lex_lt(a, a),
    decreases a.len(),
{
    if a.len() > 0 {
        lemma_lex_lt_irreflexive(a.skip(1));
    }
}

/// Of two different texts one comes before the other.
pub proof fn lemma_lex_total(a: Seq<char>, b: Seq<char>)
    ensures
        a == b || lex_lt(a, b) || lex_lt(b, a),
    decreases a.len(),
{
    if a.len() == 0 || b.len() == 0 {
        if a.len() == 0 && b.len() == 0 {
            assert(a =~= b);
        }
    } else if a[0] == b[0] {
        lemma_lex_total(a.skip(1), b.skip(1));
        if a.skip(1) == b.skip(1) {
            assert(a =~= seq![a[0]] + a.skip(1));
            assert(b =~= seq![b[0]] + b.skip(1));
        }
    }
}

/// Two texts are never each before the other.
pub proof fn lemma_lex_lt_asymmetric(a: Seq<char>, b: Seq<char>)
    requires
        lex_lt(a, b),
    ensures
        !lex_lt(b, a),
    decreases a.len(),
{
    if a.len() > 0 && b.len() > 0 && a[0] == b[0] {
        lemma_lex_lt_asymmetric(a.skip(1), b.skip(1));
    }
}

/// The lexical order is transitive.
pub proof fn lemma_lex_lt_transitive(a: Seq<char>, b: Seq<char>, c: Seq<char>)
    requires
        lex_lt(a, b),
        lex_lt(b, c),
    ensures
        lex_lt(a, c),
    decreases a.len(),
{
    if a.len() > 0 && a[0] == b[0] && b[0] == c[0] {
        lemma_lex_lt_transitive(a.skip(1), b.skip(1), c.skip(1));
    }
}

/// Two texts that start with parts of the same length are ordered by those
/// parts, and by what follows where the parts are the same.
pub proof fn lemma_lex_lt_concat(a: Seq<char>, x: Seq<char>, b: Seq<char>, y: Seq<char>)
    requires
        a.len() == b.len(),
    ensures
        lex_lt(a + x, b + y) == (lex_lt(a, b) || (a == b && lex_lt(x, y))),
        (a + x == b + y) == (a == b && x == y),
    decreases a.len(),
{
    if a.len() == 0 {
        assert(a =~= b);
        assert(a + x =~= x);
        assert(b + y =~= y);
        lemma_lex_lt_irreflexive(a);
    } else {
        assert((a + x)[0] == a[0] && (b + y)[0] == b[0]);
        assert((a + x).skip(1) =~= a.skip(1) + x);
        assert((b + y).skip(1) =~= b.skip(1) + y);
        lemma_lex_lt_concat(a.skip(1), x, b.skip(1), y);
        assert(a =~= seq![a[0]] + a.skip(1));
        assert(b =~= seq![b[0]] + b.skip(1));
        if a + x == b + y {
            assert((a + x).skip(1) == (b + y).skip(1));
        }
        if a[0] == b[0] && a.skip(1) == b.skip(1) && x == y {
            assert(a + x =~= b + y);
        }
    }
}

/// Numbers written with the same width are ordered as they are ordered as
/// numbers, as long as they fit the width.
pub proof fn lemma_fixed_decimal_order(n: nat, m: nat, width: nat)
    requires
        n < pow10(width),
        m < pow10(width),
    ensures
        lex_lt(fixed_decimal(n, width), fixed_decimal(m, width)) == (n < m),
        (fixed_decimal(n, width) == fixed_decimal(m, width)) == (n == m),
    decreases width,
{
    if width > 0 {
        let a = fixed_decimal(n / 10, (width - 1) as nat);
        let b = fixed_decimal(m / 10, (width - 1) as nat);
        let x = seq![digit_char(n % 10)];
        let y = seq![digit_char(m % 10)];
        lemma_fixed_decimal_order(n / 10, m / 10, (width - 1) as nat);
        lemma_fixed_decimal_shape(n / 10, (width - 1) as nat);
        lemma_fixed_decimal_shape(m / 10, (width - 1) as nat);
        lemma_lex_lt_concat(a, x, b, y);
        assert(fixed_decimal(n, width) =~= a + x);
        assert(fixed_decimal(m, width) =~= b + y);
        assert(digit_char(n % 10) as u32 == 48 + n % 10);
        assert(digit_char(m % 10) as u32 == 48 + m % 10);
        assert(lex_lt(x, y) == (n % 10 < m % 10)) by {
            assert(x.skip(1) =~= Seq::<char>::empty());
            assert(y.skip(1) =~= Seq::<char>::empty());
            assert(!lex_lt(x.skip(1), y.skip(1)));
            assert(x[0] == digit_char(n % 10) && y[0] == digit_char(m % 10));
        }
        assert((x == y) == (n % 10 == m % 10)) by {
            if n % 10 == m % 10 {
                assert(x =~= y);
            } else {
                assert(x[0] != y[0]);
            }
        }
    } else {
        assert(fixed_decimal(n, width) =~= fixed_decimal(m, width));
        lemma_lex_lt_irreflexive(fixed_decimal(n, width));
    }
}

/// Stripping what is no digit from a string of digits changes nothing.
pub proof fn lemma_digits_only_of_digits(s: Seq<char>)
    requires
        all_digits(s),
    ensures
        digits_only(s) == s,
    decreases s.len(),
{
    let keep = |c: char| is_digit(c);
    reveal(Seq::filter);
    if s.len() > 0 {
        lemma_digits_only_of_digits(s.drop_last());
        assert(is_digit(s.last()));
        assert(s.drop_last().push(s.last()) =~= s);
    }
}

/// The characters of `s`, in order.
pub fn chars_of(s: &str) -> (v: Vec<char>)
    ensures
        v@ == s@,
{
    let mut v: Vec<char> = Vec::new();
    for c in it: s.chars()
        invariant
            v@ == it.seq().take(it.index() as int),
    {
        v.push(c);
    }
    v
}

/// Appends the characters of `tail` to `out`.
pub fn push_text(out: &mut String, tail: &str)
    ensures
        final(out)@ == old(out)@ + tail@,
{
    for c in it: tail.chars()
        invariant
            out@ == old(out)@ + it.seq().take(it.index() as int),
    {
        out.push(c);
    }
}

/// Whether two strings hold the same characters.
pub fn same_text(a: &str, b: &str) -> (same: bool)
    ensures
        same == (a@ == b@),
{
    let x = chars_of(a);
    let y = chars_of(b);
    if x.len() != y.len() {
        return false;
    }
    let mut i: usize = 0;
    while i < x.len()
        invariant
            i <= x.len(),
            x.len() == y.len(),
            x@ == a@,
            y@ == b@,
            x@.take(i as int) == y@.take(i as int),
        decreases x.len() - i,
    {
        if x[i] != y[i] {
            return false;
        }
        assert(x@.take(i + 1) =~= x@.take(i as int).push(x@[i as int]));
        assert(y@.take(i + 1) =~= y@.take(i as int).push(y@[i as int]));
        i += 1;
    }
    assert(x@ =~= x@.take(i as int));
    assert(y@ =~= y@.take(i as int));
    true
}

/// Whether `c` is a decimal digit.
pub fn is_decimal_digit(c: char) -> (digit: bool)
    ensures
        digit == is_digit(c),
{
    c >= '0' && c <= '9'
}

/// Strips every character that is not a decimal digit.
pub fn keep_digits(s: &str) -> (out: String)
    ensures
        out@ == digits_only(s@),
        all_digits(out@),
{
    let ghost keep = |c: char| is_digit(c);
    let chars = chars_of(s);
    let mut out = String::new();
    let mut i: usize = 0;
    while i < chars.len()
        invariant
            i <= chars.len(),
            chars@ == s@,
            keep == (|c: char| is_digit(c)),
            out@ == s@.take(i as int).filter(keep),
            all_digits(out@),
        decreases chars.len() - i,
    {
        let c: char = chars[i];
        proof {
            assert(s@.take(i + 1) =~= s@.take(i as int).push(c));
            s@.take(i as int).lemma_filter_push(c, keep);
        }
        if is_decimal_digit(c) {
            out.push(c);
        }
        i += 1;
    }
    assert(s@.take(i as int) =~= s@);
    out
}

/// The number that the first digits of a digit string denote is not above
/// the number that the whole string denotes.
pub proof fn lemma_decimal_value_prefix(s: Seq<char>, n: int)
    requires
        all_digits(s),
        0 <= n <= s.len(),
    ensures
        decimal_value(s.take(n)) <= decimal_value(s),
    decreases s.len(),
{
    if n < s.len() {
        assert(s.drop_last().take(n) =~= s.take(n));
        lemma_decimal_value_prefix(s.drop_last(), n);
    } else {
        assert(s.take(n) =~= s);
    }
}

/// The number that a string of decimal digits denotes; `None` if a character
/// of the string is no decimal digit, or if the number is too large for the
/// result.
pub fn decimal_of(s: &str) -> (value: Option<u32>)
    ensures
        value == if all_digits(s@) && decimal_value(s@) <= u32::MAX {
            Some(decimal_value(s@) as u32)
        } else {
            None::<u32>
        },
{
    let digits = chars_of(s);
    let mut n: u32 = 0;
    let mut i: usize = 0;
    while i < digits.len()
        invariant
            i <= digits.len(),
            digits@ == s@,
            all_digits(s@.take(i as int)),
            n == decimal_value(s@.take(i as int)),
        decreases digits.len() - i,
    {
        let c: char = digits[i];
        if !is_decimal_digit(c) {
            return None;
        }
        proof {
            let next = s@.take(i + 1);
            assert(next.drop_last() =~= s@.take(i as int));
            assert(next.last() == c);
        }
        let wide: u64 = 10 * (n as u64) + (c as u64 - '0' as u64);
        if wide > u32::MAX as u64 {
            proof {
                if all_digits(s@) {
                    lemma_decimal_value_prefix(s@, i + 1);
                }
            }
            return None;
        }
        n = wide as u32;
        i += 1;
    }
    assert(s@.take(i as int) =~= s@);
    Some(n)
}

/// Powers of ten grow with the exponent.
pub proof fn lemma_pow10_monotone(a: nat, b: nat)
    requires
        a <= b,
    ensures
        pow10(a) <= pow10(b),
        pow10(a) >= 1,
    decreases b,
{
    if a < b {
        lemma_pow10_monotone(a, (b - 1) as nat);
    } else if a > 0 {
        lemma_pow10_monotone((a - 1) as nat, (a - 1) as nat);
    }
}

/// Appends the last `width` decimal digits of `n`, with leading zeros.
pub fn push_fixed_decimal(out: &mut String, n: u32, width: u32)
    ensures
        final(out)@ == old(out)@ + fixed_decimal(n as nat, width as nat),
    decreases width,
{
    if width > 0 {
        push_fixed_decimal(out, n / 10, width - 1);
        let d: u8 = (n % 10) as u8;
        out.push((48u8 + d) as char);
        assert(out@ =~= old(out)@ + fixed_decimal(n as nat, width as nat));
    } else {
        assert(out@ =~= old(out)@ + fixed_decimal(n as nat, width as nat));
    }
}

/// Appends `n` in decimal, without leading zeros.
pub fn push_decimal(out: &mut String, n: u64)
    ensures
        final(out)@ == old(out)@ + decimal_text(n as nat),
    decreases n,
{
    if n >= 10 {
        push_decimal(out, n / 10);
    }
    let d: u8 = (n % 10) as u8;
    out.push((48u8 + d) as char);
    assert(out@ =~= old(out)@ + decimal_text(n as nat));
}

/// Whether `a` comes strictly before `b` in the lexical order.
pub fn precedes(a: &str, b: &str) -> (before: bool)
    ensures
        before == lex_lt(a@, b@),
{
    let x = chars_of(a);
    let y = chars_of(b);
    let mut i: usize = 0;
    assert(a@.skip(0) =~= a@ && b@.skip(0) =~= b@);
    while i < x.len() && i < y.len()
        invariant
            i <= x.len(),
            i <= y.len(),
            x@ == a@,
            y@ == b@,
            lex_lt(a@, b@) == lex_lt(a@.skip(i as int), b@.skip(i as int)),
        decreases x.len() - i,
    {
        proof {
            assert(a@.skip(i as int).skip(1) =~= a@.skip(i + 1));
            assert(b@.skip(i as int).skip(1) =~= b@.skip(i + 1));
            assert(a@.skip(i as int)[0] == x@[i as int]);
            assert(b@.skip(i as int)[0] == y@[i as int]);
        }
        if x[i] != y[i] {
            return x[i] < y[i];
        }
        i += 1;
    }
    i < y.len()
}

/// Whether `a` comes before `b` in the lexical order, or equals it.
pub fn precedes_or_equals(a: &str, b: &str) -> (before: bool)
    ensures
        before == lex_le(a@, b@),
{
    proof {
        lemma_lex_total(a@, b@);
        lemma_lex_lt_irreflexive(a@);
        if lex_lt(a@, b@) {
            lemma_lex_lt_asymmetric(a@, b@);
        }
    }
    !precedes(b, a)
}

} // verus!
