//! The text form of an identifier: the number that it is, in 27 digits of base 62.
//! The digits are written and read by `base_encode`; the padding on the left and
//! the bounds are seen to here.

use crate::alphabet::{
    base62_digits, base62_text, is_base62, is_base62_char, lemma_text_round_trip, ALPHABET,
};
use crate::bytes::ByteOrder;
use crate::error::KsuidError;
use crate::ksuid::{lemma_network_bytes, lemma_of_network_bytes, Ksuid};
use crate::limits::{lemma_limits, value_limit};
use crate::numerals::{
    all_in_table, decoded, digits_of, encoded, lemma_digits_of_alphabet, lemma_encoded_padded,
    read_numeral, text_of, write_numeral,
};
use crate::radix::{
    fixed_numeral, lemma_fixed_is_padded, lemma_fixed_numeral, lemma_numeral_len,
    lemma_value_padded, numeral, span, value_of, zeros,
};
use vstd::arithmetic::div_mod::lemma_small_mod;
use vstd::prelude::*;
use vstd::string::StrSliceExecFns;
use vstd::string::StringExecFns;
use vstd::utf8::is_ascii_chars;

verus! {

/// `n` times the character `0`.
pub open spec fn zero_chars(n: nat) -> Seq<char> {
    Seq::new(n, |i: int| '0')
}

impl Ksuid {
    /// The text form: the number that the identifier is, in 27 digits of base 62
    /// with zeros to the left, each digit written by its character.
    pub open spec fn text(self) -> Seq<char> {
        base62_text(fixed_numeral(self.value(), 62, 27))
    }

    /// What reading `text` gives: the identifier of the number that the text
    /// writes in base 62, whatever its length; no identifier where a character
    /// is not of the alphabet, or else where the number does not fit in 160 bits.
    pub open spec fn parse(text: Seq<char>) -> Result<Ksuid, KsuidError> {
        if !is_base62(text) {
            Err(KsuidError::InvalidEncoding)
        } else if value_of(base62_digits(text), 62) >= value_limit() {
            Err(KsuidError::Overflow)
        } else {
            Ok(Ksuid::of_value(value_of(base62_digits(text), 62)))
        }
    }

    /// The text form of the identifier: always 27 characters of the base-62
    /// alphabet.
    pub fn serialize(&self) -> (text: String)
        ensures
            text@ == self.text(),
            text@.len() == 27,
            is_base62(text@),
    {
        let bytes = self.get_network_bytes();
        proof {
            lemma_written(*self);
            lemma_text(*self);
        }
        match write_numeral(bytes.as_slice(), 62, ALPHABET.as_slice()) {
            Some(short) => zero_padded(short, 27),
            // Never taken: the table has a character for every digit.
            None => String::new(),
        }
    }
}

/// The identifier that `text` writes in base 62. Zeros at the left end count for
/// nothing, so the text may be shorter or longer than 27 characters.
pub fn deserialize(text: &str) -> (id: Result<Ksuid, KsuidError>)
    ensures
        id == Ksuid::parse(text@),
{
    if !text.is_ascii() {
        return Err(KsuidError::InvalidEncoding);
    }
    let rest = without_zeros(text);
    proof {
        lemma_read(text@, rest@);
    }
    match read_numeral(rest, 62, ALPHABET.as_slice()) {
        None => Err(KsuidError::InvalidEncoding),
        Some(short) => {
            if short.len() > 20 {
                Err(KsuidError::Overflow)
            } else {
                let full = zero_filled(short, 20);
                proof {
                    assert(full@.take(20) =~= full@);
                    lemma_of_network_bytes(full@);
                }
                Ok(Ksuid::from_network_bytes(full))
            }
        },
    }
}

/// `short` with as many `0` before it as it lacks of `width` characters.
fn zero_padded(short: String, width: usize) -> (text: String)
    requires
        short@.len() <= width,
    ensures
        text@ == zero_chars((width - short@.len()) as nat) + short@,
{
    let count: usize = short.as_str().unicode_len();
    let mut text = String::new();
    let mut have: usize = count;
    proof {
        reveal_strlit("0");
    }
    while have < width
        invariant
            count <= have <= width,
            "0"@ == seq!['0'],
            text@ == zero_chars((have - count) as nat),
        decreases width - have,
    {
        text.append("0");
        have = have + 1;
    }
    text.append(short.as_str());
    text
}

/// `short` with as many zero bytes before it as it lacks of `width` bytes.
fn zero_filled(short: Vec<u8>, width: usize) -> (bytes: Vec<u8>)
    requires
        short@.len() <= width,
    ensures
        bytes@ == zeros((width - short@.len()) as nat) + short@,
{
    let mut short = short;
    let ghost given = short@;
    let mut bytes: Vec<u8> = Vec::new();
    let mut have: usize = short.len();
    while have < width
        invariant
            given.len() <= have <= width,
            short@ == given,
            bytes@ == zeros((have - given.len()) as nat),
        decreases width - have,
    {
        bytes.push(0u8);
        have = have + 1;
    }
    bytes.append(&mut short);
    bytes
}

/// `text` without the `0`s at its left end.
fn without_zeros<'a>(text: &'a str) -> (rest: &'a str)
    requires
        text.is_ascii(),
    ensures
        rest.is_ascii(),
        rest@.len() <= text@.len(),
        text@ == zero_chars((text@.len() - rest@.len()) as nat) + rest@,
        rest@.len() > 0 ==> rest@[0] != '0',
{
    let len: usize = text.unicode_len();
    let mut start: usize = 0;
    while start < len && text.get_ascii(start) == 48u8
        invariant
            start <= len,
            len == text@.len(),
            text.is_ascii(),
            forall|i: int| 0 <= i < start ==> text@[i] == '0',
        decreases len - start,
    {
        start = start + 1;
    }
    let rest = text.substring_ascii(start, len);
    rest
}

/// The text form of an identifier has exactly 27 characters, all of the base-62
/// alphabet, and they write the number that the identifier is.
pub proof fn lemma_text(id: Ksuid)
    ensures
        id.text().len() == 27,
        is_base62(id.text()),
        base62_digits(id.text()) == fixed_numeral(id.value(), 62, 27),
        value_of(base62_digits(id.text()), 62) == id.value(),
{
    let row = fixed_numeral(id.value(), 62, 27);
    lemma_fixed_numeral(id.value(), 62, 27);
    lemma_text_round_trip(row);
    lemma_limits();
    lemma_small_mod(id.value(), span(62, 27));
}

/// What is written for the 20 bytes of an identifier has at most 27 characters,
/// and with `0`s before it to make 27 it is the text form.
proof fn lemma_written(id: Ksuid)
    ensures
        id.bytes_in(ByteOrder::Big).len() == 20,
        ({
            let short = text_of(encoded(id.bytes_in(ByteOrder::Big), 62), ALPHABET@);
            short.len() <= 27 && zero_chars((27 - short.len()) as nat) + short == id.text()
        }),
{
    lemma_network_bytes(id);
    lemma_limits();
    lemma_encoded_padded(id.bytes_in(ByteOrder::Big), 62, 27);
}

/// Reading `rest`, which is the ASCII text `text` without the `0`s at its left
/// end, decides what reading `text` gives: it fails exactly where a character is
/// not of the alphabet; else it gives the shortest bytes of the number that
/// `text` writes, which are more than 20 exactly where the number does not fit
/// in 160 bits, and which after zero bytes to make 20 are the network bytes of
/// the number.
proof fn lemma_read(text: Seq<char>, rest: Seq<char>)
    requires
        is_ascii_chars(rest),
        rest.len() <= text.len(),
        text == zero_chars((text.len() - rest.len()) as nat) + rest,
        rest.len() > 0 ==> rest[0] != '0',
    ensures
        all_in_table(rest, ALPHABET@) <==> is_base62(text),
        is_base62(text) ==> ({
            let v = value_of(base62_digits(text), 62);
            let short = decoded(digits_of(rest, ALPHABET@), 62);
            &&& short == numeral(v, 256)
            &&& short.len() > 20 <==> v >= value_limit()
            &&& short.len() <= 20 ==> zeros((20 - short.len()) as nat) + short == fixed_numeral(
                v,
                256,
                20,
            ) && value_of(fixed_numeral(v, 256, 20), 256) == v
        }),
{
    let before = (text.len() - rest.len()) as nat;
    let digits = base62_digits(rest);
    let v = value_of(digits, 62);
    lemma_digits_of_alphabet(rest);
    assert(is_base62(rest) <==> is_base62(text)) by {
        if is_base62(rest) {
            assert(forall|i: int| 0 <= i < text.len() ==> is_base62_char(#[trigger] text[i]));
        }
        if is_base62(text) {
            assert forall|i: int| 0 <= i < rest.len() implies is_base62_char(
                #[trigger] rest[i],
            ) by {
                assert(rest[i] == text[i + before]);
            }
        }
    }
    if is_base62(text) {
        assert(base62_digits(text) =~= zeros(before) + digits);
        lemma_value_padded(before, digits, 62);
        lemma_numeral_len(v, 256, 20);
        lemma_limits();
        if v < value_limit() {
            lemma_fixed_is_padded(v, 256, 20);
            lemma_fixed_numeral(v, 256, 20);
        }
    }
}

} // verus!
