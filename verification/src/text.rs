//! Text as sequences of characters: conversion between strings and character
//! slices, whitespace trimming, and decimal integers in both directions.
//!
//! Every function here is stated over `Seq<char>`, the view of `str`, `String`
//! and `[char]` alike.

use vstd::prelude::*;
use vstd::slice::slice_subrange;
use vstd::string::*;

verus! {

/// `String::push` appends one character to the end of the string and leaves
/// the characters before it as they were. This contract is believed, not
/// proved.
pub assume_specification[ String::push ](s: &mut String, c: char)
    ensures
        final(s)@ == old(s)@.push(c),
;

/// The characters of `source`, in order.
pub fn to_chars(source: &str) -> (chars: Vec<char>)
    ensures
        chars@ == source@,
{
    let mut chars: Vec<char> = Vec::new();
    for c in it: source.chars()
        invariant
            it.seq() == source@,
            chars@ == it.seq().take(it.index() as int),
    {
        chars.push(c);
    }
    chars
}

/// A string holding exactly the characters of `chars`.
pub fn to_text(chars: &[char]) -> (text: String)
    ensures
        text@ == chars@,
{
    let mut text = String::new();
    let mut i: usize = 0;
    while i < chars.len()
        invariant
            i <= chars.len(),
            text@ == chars@.take(i as int),
        decreases chars.len() - i,
    {
        text.push(chars[i]);
        i += 1;
        assert(chars@.take(i as int) == chars@.take(i - 1).push(chars@[i - 1]));
    }
    text
}

/// Whether `text` begins with the characters of `word`.
pub fn starts_with(text: &[char], word: &str) -> (b: bool)
    ensures
        b == word@.is_prefix_of(text@),
{
    let n = word.unicode_len();
    if n > text.len() {
        return false;
    }
    let mut i: usize = 0;
    while i < n
        invariant
            i <= n <= text.len(),
            n == word@.len(),
            forall|k: int| 0 <= k < i ==> text@[k] == word@[k],
        decreases n - i,
    {
        if text[i] != word.get_char(i) {
            return false;
        }
        i += 1;
    }
    assert(word@ == text@.subrange(0, n as int));
    true
}

/// Whether `text` holds exactly the characters of `word`.
pub fn is_word(text: &[char], word: &str) -> (b: bool)
    ensures
        b == (text@ == word@),
{
    assert(text@.subrange(0, text@.len() as int) == text@);
    text.len() == word.unicode_len() && starts_with(text, word)
}

/// The characters that Unicode counts as white space (`White_Space`).
pub open spec fn whitespace(c: char) -> bool {
    ||| '\u{9}' <= c <= '\u{d}'
    ||| c == ' '
    ||| c == '\u{85}'
    ||| c == '\u{a0}'
    ||| c == '\u{1680}'
    ||| '\u{2000}' <= c <= '\u{200a}'
    ||| c == '\u{2028}'
    ||| c == '\u{2029}'
    ||| c == '\u{202f}'
    ||| c == '\u{205f}'
    ||| c == '\u{3000}'
}

/// Whether `c` is whitespace.
pub fn is_whitespace(c: char) -> (b: bool)
    ensures
        b == whitespace(c),
{
    ('\u{9}' <= c && c <= '\u{d}') || c == ' ' || c == '\u{85}' || c == '\u{a0}' || c
        == '\u{1680}' || ('\u{2000}' <= c && c <= '\u{200a}') || c == '\u{2028}' || c
        == '\u{2029}' || c == '\u{202f}' || c == '\u{205f}' || c == '\u{3000}'
}

/// `s` without its leading whitespace.
pub open spec fn trimmed_start(s: Seq<char>) -> Seq<char>
    decreases s.len(),
{
    if s.len() > 0 && whitespace(s.first()) {
        trimmed_start(s.drop_first())
    } else {
        s
    }
}

/// `s` without its trailing whitespace.
pub open spec fn trimmed_end(s: Seq<char>) -> Seq<char>
    decreases s.len(),
{
    if s.len() > 0 && whitespace(s.last()) {
        trimmed_end(s.drop_last())
    } else {
        s
    }
}

/// `s` without its leading and trailing whitespace.
pub open spec fn trimmed(s: Seq<char>) -> Seq<char> {
    trimmed_end(trimmed_start(s))
}

/// The part of `text` between its leading and its trailing whitespace.
pub fn trim(text: &[char]) -> (inner: &[char])
    ensures
        inner@ == trimmed(text@),
{
    let mut lo: usize = 0;
    assert(text@.skip(0) == text@);
    while lo < text.len() && is_whitespace(text[lo])
        invariant
            lo <= text.len(),
            trimmed_start(text@) == trimmed_start(text@.skip(lo as int)),
        decreases text.len() - lo,
    {
        assert(text@.skip(lo as int).drop_first() == text@.skip(lo + 1));
        lo += 1;
    }
    let mut hi: usize = text.len();
    assert(text@.skip(lo as int) == text@.subrange(lo as int, hi as int));
    while lo < hi && is_whitespace(text[hi - 1])
        invariant
            lo <= hi <= text.len(),
            trimmed_start(text@) == text@.skip(lo as int),
            trimmed(text@) == trimmed_end(text@.subrange(lo as int, hi as int)),
        decreases hi,
    {
        assert(text@.subrange(lo as int, hi as int).drop_last() == text@.subrange(
            lo as int,
            hi - 1,
        ));
        hi -= 1;
    }
    slice_subrange(text, lo, hi)
}

/// The decimal digit that stands for `d`, where `d` is below ten.
pub open spec fn digit(d: nat) -> char {
    ('0' as nat + d) as char
}

/// `n` in decimal, without leading zeros.
pub open spec fn decimal(n: nat) -> Seq<char>
    decreases n,
{
    if n < 10 {
        seq![digit(n)]
    } else {
        decimal(n / 10).push(digit(n % 10))
    }
}

/// `v` in decimal, with a minus sign in front where it is negative.
pub open spec fn signed_decimal(v: int) -> Seq<char> {
    if v < 0 {
        seq!['-'] + decimal((-v) as nat)
    } else {
        decimal(v as nat)
    }
}

/// Appends `n` in decimal to `out`.
pub fn push_decimal(out: &mut String, n: u128)
    ensures
        final(out)@ == old(out)@ + decimal(n as nat),
    decreases n,
{
    if n >= 10 {
        push_decimal(out, n / 10);
    }
    let low: u8 = (n % 10) as u8;
    out.push((48u8 + low) as char);
}

/// Appends `v` in decimal to `out`, with its sign where it is negative.
pub fn push_signed(out: &mut String, v: i64)
    ensures
        final(out)@ == old(out)@ + signed_decimal(v as int),
{
    if v < 0 {
        out.push('-');
        push_decimal(out, (-(v as i128)) as u128);
    } else {
        push_decimal(out, v as u128);
    }
}

/// Whether `c` is a decimal digit.
pub open spec fn is_digit(c: char) -> bool {
    '0' <= c <= '9'
}

/// Whether `s` is one decimal digit or more, and nothing else.
pub open spec fn digits(s: Seq<char>) -> bool {
    s.len() > 0 && forall|i: int| 0 <= i < s.len() ==> is_digit(#[trigger] s[i])
}

/// The number that a sequence of decimal digits stands for.
pub open spec fn digits_value(s: Seq<char>) -> nat
    decreases s.len(),
{
    if s.len() == 0 {
        0
    } else {
        digits_value(s.drop_last()) * 10 + (s.last() as nat - '0' as nat) as nat
    }
}

/// The number that `s` stands for as an integer literal: an optional sign,
/// `+` or `-`, and then decimal digits. Anything else is no literal.
pub open spec fn literal_value(s: Seq<char>) -> Option<int> {
    if s.len() > 0 && (s.first() == '-' || s.first() == '+') {
        if digits(s.drop_first()) {
            if s.first() == '-' {
                Some(-(digits_value(s.drop_first()) as int))
            } else {
                Some(digits_value(s.drop_first()) as int)
            }
        } else {
            None
        }
    } else if digits(s) {
        Some(digits_value(s) as int)
    } else {
        None
    }
}

/// The 64-bit signed integer that `s` stands for: `s` is an integer literal
/// and its value fits. Otherwise there is none.
pub open spec fn integer(s: Seq<char>) -> Option<i64> {
    match literal_value(s) {
        Some(v) => if i64::MIN <= v <= i64::MAX {
            Some(v as i64)
        } else {
            None
        },
        None => None,
    }
}

/// Reads `text` as a 64-bit signed integer literal.
pub fn parse_integer(text: &[char]) -> (value: Option<i64>)
    ensures
        value == integer(text@),
{
    let n = text.len();
    if n == 0 {
        return None;
    }
    let negative = text[0] == '-';
    let start: usize = if text[0] == '-' || text[0] == '+' {
        1
    } else {
        0
    };
    let ghost body = text@.skip(start as int);
    assert(start == 1 ==> body == text@.drop_first());
    assert(start == 0 ==> body == text@);
    if start == n {
        return None;
    }
    // The value of the digits read so far, until it exceeds 2^63: from then
    // on it can only grow, and no 64-bit integer has that magnitude.
    let mut magnitude: i128 = 0;
    let mut too_large = false;
    let mut i: usize = start;
    assert(body.take(0) == Seq::<char>::empty());
    while i < n
        invariant
            start <= i <= n,
            n == text.len(),
            body == text@.skip(start as int),
            start == 1 ==> body == text@.drop_first(),
            start == 0 ==> body == text@,
            start == 1 <==> text@.first() == '-' || text@.first() == '+',
            forall|k: int| 0 <= k < i - start ==> is_digit(#[trigger] body[k]),
            0 <= magnitude <= 0x8000_0000_0000_0000,
            !too_large ==> magnitude == digits_value(body.take(i - start)),
            too_large ==> digits_value(body.take(i - start)) > 0x8000_0000_0000_0000,
        decreases n - i,
    {
        let c = text[i];
        if !('0' <= c && c <= '9') {
            assert(!is_digit(body[i - start]));
            return None;
        }
        let d: i128 = (c as u32 - '0' as u32) as i128;
        proof {
            let next = body.take(i + 1 - start);
            assert(next.drop_last() == body.take(i - start));
            assert(next.last() == c);
        }
        if !too_large {
            let next: i128 = magnitude * 10 + d;
            if next > 0x8000_0000_0000_0000 {
                too_large = true;
            } else {
                magnitude = next;
            }
        }
        i += 1;
    }
    assert(body.take(n - start) == body);
    assert(digits(body));
    if too_large {
        None
    } else if negative {
        Some((-magnitude) as i64)
    } else if magnitude > 0x7fff_ffff_ffff_ffff {
        None
    } else {
        Some(magnitude as i64)
    }
}

/// A number in decimal is a sequence of digits that stands for that number.
pub proof fn lemma_decimal_digits(n: nat)
    ensures
        digits(decimal(n)),
        digits_value(decimal(n)) == n,
    decreases n,
{
    if n < 10 {
        assert(decimal(n).drop_last() == Seq::<char>::empty());
        assert(digits_value(decimal(n)) == digits_value(Seq::<char>::empty()) * 10 + n);
    } else {
        lemma_decimal_digits(n / 10);
        assert(decimal(n).drop_last() == decimal(n / 10));
        assert(decimal(n).last() == digit(n % 10));
    }
}

/// What is written can be read again: a 64-bit signed integer in decimal is
/// a literal that stands for that integer.
pub proof fn lemma_integer_round_trip(v: i64)
    ensures
        integer(signed_decimal(v as int)) == Some(v),
{
    if v < 0 {
        let magnitude = (-v) as nat;
        lemma_decimal_digits(magnitude);
        assert(signed_decimal(v as int).drop_first() == decimal(magnitude));
    } else {
        lemma_decimal_digits(v as nat);
        assert(is_digit(decimal(v as nat)[0]));
    }
}

} // verus!
