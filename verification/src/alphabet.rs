//! The two alphabets: base 62 for the text form of an identifier, with the digits
//! `0` to `9`, then `A` to `Z`, then `a` to `z`, so that a larger digit is always
//! written by a larger character; and upper-case hexadecimal for diagnostics.

use crate::radix::digits_below;
use vstd::prelude::*;

verus! {

/// The characters of base 62 as bytes, each at the place of the digit it writes.
pub const ALPHABET: [u8; 62] = [
    48, 49, 50, 51, 52, 53, 54, 55, 56, 57, 65, 66,
    67, 68, 69, 70, 71, 72, 73, 74, 75, 76, 77, 78,
    79, 80, 81, 82, 83, 84, 85, 86, 87, 88, 89, 90,
    97, 98, 99, 100, 101, 102, 103, 104, 105, 106, 107, 108,
    109, 110, 111, 112, 113, 114, 115, 116, 117, 118, 119, 120,
    121, 122,
];

/// The characters of base 16 as bytes, each at the place of the digit it writes.
pub const HEX_DIGITS: [u8; 16] = [48, 49, 50, 51, 52, 53, 54, 55, 56, 57, 65, 66, 67, 68, 69, 70];

/// Whether `c` is one of the 62 characters.
pub open spec fn is_base62_char(c: char) -> bool {
    ('0' <= c && c <= '9') || ('A' <= c && c <= 'Z') || ('a' <= c && c <= 'z')
}

/// The character that writes the digit `d`, for `d` below 62.
pub open spec fn digit_char(d: u8) -> char {
    if d < 10 {
        (d + 48) as char
    } else if d < 36 {
        (d + 55) as char
    } else {
        (d + 61) as char
    }
}

/// The digit that the character `c` of the alphabet writes.
pub open spec fn char_digit(c: char) -> u8 {
    if c <= '9' {
        (c as int - 48) as u8
    } else if c <= 'Z' {
        (c as int - 55) as u8
    } else {
        (c as int - 61) as u8
    }
}

/// The character that writes the hexadecimal digit `d`, for `d` below 16.
pub open spec fn hex_char(d: u8) -> char {
    if d < 10 {
        (d + 48) as char
    } else {
        (d + 55) as char
    }
}

/// Every character of `text` is one of the 62.
pub open spec fn is_base62(text: Seq<char>) -> bool {
    forall|i: int| 0 <= i < text.len() ==> is_base62_char(#[trigger] text[i])
}

/// The text that writes `digits` in base 62.
pub open spec fn base62_text(digits: Seq<u8>) -> Seq<char> {
    Seq::new(digits.len(), |i: int| digit_char(digits[i]))
}

/// The digits that `text` writes in base 62.
pub open spec fn base62_digits(text: Seq<char>) -> Seq<u8> {
    Seq::new(text.len(), |i: int| char_digit(text[i]))
}

/// The text that writes `digits` in base 16.
pub open spec fn hex_text(digits: Seq<u8>) -> Seq<char> {
    Seq::new(digits.len(), |i: int| hex_char(digits[i]))
}

/// `s` comes before `t` when texts are compared character by character, by code
/// point: at the first place where they differ `s` has the smaller character, or
/// `s` ends there and `t` goes on.
pub open spec fn text_precedes(s: Seq<char>, t: Seq<char>) -> bool {
    exists|i: int|
        0 <= i <= s.len() && i < t.len() && s.take(i) == t.take(i) && (i < s.len() ==> s[i]
            < t[i])
}

/// The table holds the character of each digit at the digit's place.
pub proof fn lemma_alphabet()
    ensures
        ALPHABET@.len() == 62,
        forall|d: int| 0 <= d < 62 ==> (#[trigger] ALPHABET@[d]) as char == digit_char(d as u8),
        forall|d: int| 0 <= d < 62 ==> 48 <= #[trigger] ALPHABET@[d] <= 122,
{
}

/// Digits and characters stand one to one, and in the same order.
pub proof fn lemma_digit_char()
    ensures
        forall|d: u8|
            d < 62 ==> is_base62_char(#[trigger] digit_char(d)) && char_digit(digit_char(d))
                == d,
        forall|c: char|
            is_base62_char(c) ==> (#[trigger] char_digit(c)) < 62 && digit_char(char_digit(c))
                == c,
        forall|d: u8, e: u8|
            d < e < 62 ==> (#[trigger] digit_char(d)) < (#[trigger] digit_char(e)),
{
}

/// Writing digits of base 62 and reading the text gives the digits back.
pub proof fn lemma_text_round_trip(digits: Seq<u8>)
    requires
        digits_below(digits, 62),
    ensures
        base62_text(digits).len() == digits.len(),
        is_base62(base62_text(digits)),
        base62_digits(base62_text(digits)) == digits,
{
    let text = base62_text(digits);
    assert(forall|i: int| 0 <= i < text.len() ==> is_base62_char(#[trigger] text[i]));
    assert(forall|i: int| 0 <= i < digits.len() ==> base62_digits(text)[i] == digits[i]);
}

} // verus!
