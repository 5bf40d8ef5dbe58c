//! Numerals as text, written and read by the crate `base_encode`: what its two
//! functions are taken to return, and what follows for the two alphabets.

use crate::alphabet::{
    base62_digits, char_digit, is_base62, is_base62_char, ALPHABET,
};
use crate::radix::{
    digits_below, fixed_numeral, leading_zeros, lemma_fixed_is_padded, lemma_leading_zeros,
    lemma_numeral, lemma_numeral_len, lemma_span_adds, lemma_span_grows_with_base,
    lemma_span_positive, numeral, span, value_of, zeros,
};
use vstd::prelude::*;
use vstd::utf8::is_ascii_chars;

verus! {

/// Where `c` first stands in `table`; the table's length where it does not stand
/// in it.
pub open spec fn position(table: Seq<u8>, c: u8) -> nat
    decreases table.len(),
{
    if table.len() == 0 || table[0] == c {
        0
    } else {
        1 + position(table.drop_first(), c)
    }
}

/// Every character of `text`, taken as a byte, stands in `table`.
pub open spec fn all_in_table(text: Seq<char>, table: Seq<u8>) -> bool {
    forall|i: int| 0 <= i < text.len() ==> position(table, #[trigger] text[i] as u8) < table.len()
}

/// The text that writes `digits` with the characters of `table`.
pub open spec fn text_of(digits: Seq<u8>, table: Seq<u8>) -> Seq<char> {
    Seq::new(digits.len(), |i: int| table[digits[i] as int] as char)
}

/// The digits that the characters of `text` have in `table`.
pub open spec fn digits_of(text: Seq<char>, table: Seq<u8>) -> Seq<u8> {
    Seq::new(text.len(), |i: int| position(table, text[i] as u8) as u8)
}

/// The digits that stand for `bytes` in `base`: a zero for each zero byte at the
/// left end, then the numeral of the number that the bytes hold, most significant
/// byte first. Zero is written with one digit, so bytes that are all zero give
/// one digit more than there are bytes.
pub open spec fn encoded(bytes: Seq<u8>, base: nat) -> Seq<u8> {
    let v = value_of(bytes, 256);
    zeros(leading_zeros(bytes)) + if v == 0 {
        seq![0u8]
    } else {
        numeral(v, base)
    }
}

/// The bytes that stand for `digits` of `base`: a zero byte for each zero digit at
/// the left end, then the bytes of the number that the digits write, the first of
/// them not zero. Digits that are all zero give as many zero bytes.
pub open spec fn decoded(digits: Seq<u8>, base: nat) -> Seq<u8> {
    if leading_zeros(digits) == digits.len() {
        zeros(digits.len())
    } else {
        zeros(leading_zeros(digits)) + numeral(value_of(digits, base), 256)
    }
}

/// `base_encode::to_string`, on more than four bytes and with a table of as many
/// characters as the base has digits. It always succeeds then, and the text
/// writes, character by character from the table, the digits that `encoded`
/// describes. (On four bytes or fewer that hold zero the crate writes no digit for
/// the number, and on no bytes at all it panics.)
#[verifier::external_body]
pub(crate) fn write_numeral(bytes: &[u8], base: u8, table: &[u8]) -> (out: Option<String>)
    requires
        bytes@.len() > 4,
        base >= 2,
        table@.len() == base,
    ensures
        out is Some,
        out matches Some(s) ==> s@ == text_of(encoded(bytes@, base as nat), table@),
{
    base_encode::to_string(bytes, base, table)
}

/// `base_encode::from_str`, on ASCII text and with a table of as many characters
/// as the base has digits. It fails exactly when a character of the text is
/// missing from the table; otherwise each character counts as the digit of its
/// first place in the table, and the result holds the bytes that `decoded`
/// describes.
#[verifier::external_body]
pub(crate) fn read_numeral(text: &str, base: u8, table: &[u8]) -> (out: Option<Vec<u8>>)
    requires
        text.is_ascii(),
        base >= 2,
        table@.len() == base,
    ensures
        out is Some <==> all_in_table(text@, table@),
        out matches Some(b) ==> b@ == decoded(digits_of(text@, table@), base as nat),
{
    base_encode::from_str(text, base, table)
}

/// Where `width` digits of `base` hold as much as the bytes can, and there are
/// fewer bytes than `width`, the digits that stand for the bytes fit in `width`
/// places, and with zeros before them they are the fixed numeral of the number
/// that the bytes hold.
pub proof fn lemma_encoded_padded(bytes: Seq<u8>, base: nat, width: nat)
    requires
        2 <= base <= 256,
        bytes.len() < width,
        span(256, bytes.len()) <= span(base, width),
    ensures
        encoded(bytes, base).len() <= width,
        digits_below(encoded(bytes, base), base),
        zeros((width - encoded(bytes, base).len()) as nat) + encoded(bytes, base)
            == fixed_numeral(value_of(bytes, 256), base, width),
{
    let v = value_of(bytes, 256);
    let k = leading_zeros(bytes);
    lemma_leading_zeros(bytes, 256);
    lemma_numeral(v, base);
    lemma_span_positive(base, width);
    if v != 0 {
        // The bytes after the zero bytes hold less than the places after as many
        // zeros can, since a place is worth no more than a byte.
        let bytes_left = (bytes.len() - k) as nat;
        let places_left = (width - k) as nat;
        lemma_span_adds(256, bytes_left, k);
        lemma_span_adds(base, places_left, k);
        lemma_span_grows_with_base(base, 256, k);
        lemma_span_positive(base, k);
        let a = span(256, bytes_left);
        let b = span(base, places_left);
        let c = span(base, k);
        let d = span(256, k);
        assert(a <= b) by (nonlinear_arith)
            requires
                a * d <= b * c,
                1 <= c <= d,
                a >= 0,
                b >= 0,
        ;
        lemma_numeral_len(v, base, places_left);
        assert(v < span(base, width)) by (nonlinear_arith)
            requires
                v < b,
                c >= 1,
                span(base, width) == b * c,
        ;
    }
    lemma_fixed_is_padded(v, base, width);
}

/// The digits that stand for bytes are digits of the base.
pub proof fn lemma_encoded_digits(bytes: Seq<u8>, base: nat)
    requires
        2 <= base <= 256,
    ensures
        digits_below(encoded(bytes, base), base),
{
    lemma_numeral(value_of(bytes, 256), base);
}

/// The place of `c` in a table, from the places before it.
pub proof fn lemma_position(table: Seq<u8>, c: u8, at: nat)
    requires
        at <= table.len(),
        forall|i: int| 0 <= i < at ==> table[i] != c,
        at < table.len() ==> table[at as int] == c,
    ensures
        position(table, c) == at,
    decreases at,
{
    if at > 0 {
        let rest = table.drop_first();
        assert(forall|i: int| 0 <= i < at - 1 ==> rest[i] != c);
        lemma_position(rest, c, (at - 1) as nat);
    }
}

/// In the base-62 table a character of the alphabet stands at the place of its
/// digit, and no other ASCII character stands in it.
pub proof fn lemma_position_in_alphabet(c: char)
    requires
        c <= '\u{7f}',
    ensures
        is_base62_char(c) ==> position(ALPHABET@, c as u8) == char_digit(c),
        !is_base62_char(c) ==> position(ALPHABET@, c as u8) == 62,
{
    let byte = c as u8;
    let at: nat = if is_base62_char(c) {
        char_digit(c) as nat
    } else {
        62
    };
    assert(forall|i: int| 0 <= i < at ==> ALPHABET@[i] != byte);
    lemma_position(ALPHABET@, byte, at);
}

/// On ASCII text the base-62 table finds every character exactly when the text
/// is of the alphabet, and then reads the alphabet's digits.
pub proof fn lemma_digits_of_alphabet(text: Seq<char>)
    requires
        is_ascii_chars(text),
    ensures
        all_in_table(text, ALPHABET@) <==> is_base62(text),
        is_base62(text) ==> digits_of(text, ALPHABET@) == base62_digits(text),
{
    assert forall|i: int| 0 <= i < text.len() implies (position(ALPHABET@, #[trigger] text[i] as u8)
        < 62 <==> is_base62_char(text[i])) && (is_base62_char(text[i]) ==> position(
        ALPHABET@,
        text[i] as u8,
    ) == char_digit(text[i])) by {
        lemma_position_in_alphabet(text[i]);
    }
}

} // verus!
