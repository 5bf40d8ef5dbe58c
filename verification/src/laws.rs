//! What holds of every identifier and its text form.

use crate::alphabet::{base62_digits, base62_text, is_base62_char, text_precedes};
use crate::codec::{lemma_text, zero_chars};
use crate::epoch::{timestamp_of, UnixTime, EPOCH_SECONDS};
use crate::error::KsuidError;
use crate::ksuid::Ksuid;
use crate::limits::{lemma_limits, payload_limit, timestamp_limit};
use crate::radix::{
    digits_below, digits_precede, fixed_numeral, lemma_fixed_is_padded, lemma_fixed_numeral,
    lemma_value_order, span, value_of,
};
use vstd::arithmetic::div_mod::lemma_small_mod;
use vstd::prelude::*;

verus! {

/// Reading the text form of an identifier gives the identifier back.
pub proof fn lemma_round_trip(id: Ksuid)
    ensures
        Ksuid::parse(id.text()) == Ok::<Ksuid, KsuidError>(id),
{
    lemma_text(id);
}

/// A text that holds a character from outside the alphabet is never read as an
/// identifier, whatever else it holds.
pub proof fn lemma_foreign_character_rejected(text: Seq<char>, at: int)
    requires
        0 <= at < text.len(),
        !is_base62_char(text[at]),
    ensures
        Ksuid::parse(text) == Err::<Ksuid, KsuidError>(KsuidError::InvalidEncoding),
{
}

/// The text form of the smallest identifier is 27 times `0`.
pub proof fn lemma_smallest_text()
    ensures
        (Ksuid { timestamp: 0, payload: 0 }).text() == zero_chars(27),
{
    let id = Ksuid { timestamp: 0, payload: 0 };
    assert(id.value() == 0) by (nonlinear_arith)
        requires
            id.value() == 0 * payload_limit() + 0,
    ;
    lemma_limits();
    lemma_fixed_is_padded(0, 62, 27);
}

/// What is read writes the same number as the text: reading keeps the number,
/// whatever the length of the text.
pub proof fn lemma_parse_keeps_value(text: Seq<char>, id: Ksuid)
    requires
        Ksuid::parse(text) == Ok::<Ksuid, KsuidError>(id),
    ensures
        id.value() == value_of(base62_digits(text), 62),
{
}

/// Two identifiers have the same text form only if they are the same.
pub proof fn lemma_text_is_injective(a: Ksuid, b: Ksuid)
    requires
        a.text() == b.text(),
    ensures
        a == b,
{
    lemma_round_trip(a);
    lemma_round_trip(b);
}

/// An identifier comes before another exactly when it is the smaller number.
pub proof fn lemma_order_is_by_value(a: Ksuid, b: Ksuid)
    ensures
        a.precedes(b) <==> a.value() < b.value(),
{
    let l = payload_limit();
    let ta = a.timestamp as nat;
    let tb = b.timestamp as nat;
    let pa = a.payload as nat;
    let pb = b.payload as nat;
    assert(ta * l + pa < tb * l + pb <==> ta < tb || (ta == tb && pa < pb)) by (nonlinear_arith)
        requires
            pa < l,
            pb < l,
    ;
}

/// Among digit rows of base 62, dictionary order of the rows is dictionary order
/// of the texts that write them.
pub proof fn lemma_text_order(s: Seq<u8>, t: Seq<u8>)
    requires
        digits_below(s, 62),
        digits_below(t, 62),
    ensures
        digits_precede(s, t) <==> text_precedes(base62_text(s), base62_text(t)),
{
    let st = base62_text(s);
    let tt = base62_text(t);
    if digits_precede(s, t) {
        let i = choose|i: int|
            0 <= i <= s.len() && i < t.len() && s.take(i) == t.take(i) && (i < s.len() ==> s[i]
                < t[i]);
        assert(st.take(i) =~= base62_text(s.take(i)));
        assert(tt.take(i) =~= base62_text(t.take(i)));
    }
    if text_precedes(st, tt) {
        let i = choose|i: int|
            0 <= i <= st.len() && i < tt.len() && st.take(i) == tt.take(i) && (i < st.len()
                ==> st[i] < tt[i]);
        assert forall|j: int| 0 <= j < i implies s[j] == t[j] by {
            assert(st.take(i)[j] == tt.take(i)[j]);
        }
        assert(s.take(i) =~= t.take(i));
    }
}

/// An identifier comes before another exactly when its text form comes before
/// the other's, compared character by character: sorting the texts sorts the
/// identifiers.
pub proof fn lemma_order_preserved(a: Ksuid, b: Ksuid)
    ensures
        a.precedes(b) <==> text_precedes(a.text(), b.text()),
{
    let ra = fixed_numeral(a.value(), 62, 27);
    let rb = fixed_numeral(b.value(), 62, 27);
    lemma_limits();
    lemma_fixed_numeral(a.value(), 62, 27);
    lemma_fixed_numeral(b.value(), 62, 27);
    lemma_small_mod(a.value(), span(62, 27));
    lemma_small_mod(b.value(), span(62, 27));
    lemma_value_order(ra, rb, 62);
    lemma_text_order(ra, rb);
}

/// Within 2^32 seconds, two instants at or after the epoch that lie a second or
/// more apart have different timestamps.
pub proof fn lemma_distinct_timestamps(first: UnixTime, second: UnixTime)
    requires
        EPOCH_SECONDS <= first.seconds < second.seconds,
        second.seconds - first.seconds < timestamp_limit(),
    ensures
        timestamp_of(first) is Ok,
        timestamp_of(second) is Ok,
        timestamp_of(first) != timestamp_of(second),
{
    let a = first.seconds - EPOCH_SECONDS;
    let b = second.seconds - EPOCH_SECONDS;
    let m = timestamp_limit() as int;
    if a % m == b % m {
        let qa = a / m;
        let qb = b / m;
        assert(b - a == m * (qb - qa)) by (nonlinear_arith)
            requires
                a == m * qa + a % m,
                b == m * qb + b % m,
                a % m == b % m,
        ;
        assert(false) by (nonlinear_arith)
            requires
                b - a == m * (qb - qa),
                0 < b - a < m,
        ;
    }
}

} // verus!
