//! Words as bytes: an unsigned word laid out in a given number of bytes, most or
//! least significant byte first, and read back.

use crate::limits::{lemma_limits, payload_limit, timestamp_limit};
use crate::radix::{
    fixed_numeral, lemma_fixed_digit, lemma_fixed_numeral, lemma_span_grows_with_width,
    lemma_span_positive, lemma_value_bound, lemma_value_push, span, value_of,
};
use vstd::arithmetic::div_mod::{lemma_div_denominator, lemma_small_mod};
use vstd::prelude::*;

verus! {

/// Which end of a word comes first in memory or on the wire.
#[derive(Debug, Clone, Copy, PartialEq, Eq, Structural)]
pub enum ByteOrder {
    /// Most significant byte first: network order.
    Big,
    /// Least significant byte first.
    Little,
}

/// The `width` low bytes of `v` in the given order.
pub open spec fn word_bytes(v: nat, width: nat, order: ByteOrder) -> Seq<u8> {
    match order {
        ByteOrder::Big => fixed_numeral(v, 256, width),
        ByteOrder::Little => fixed_numeral(v, 256, width).reverse(),
    }
}

/// The word that `bytes` hold in the given order.
pub open spec fn word_value(bytes: Seq<u8>, order: ByteOrder) -> nat {
    match order {
        ByteOrder::Big => value_of(bytes, 256),
        ByteOrder::Little => value_of(bytes.reverse(), 256),
    }
}

/// Bytes hold a word below 256 to the number of bytes, in either order.
pub proof fn lemma_word_fits(bytes: Seq<u8>, order: ByteOrder)
    ensures
        word_value(bytes, order) < span(256, bytes.len()),
        bytes.len() <= 4 ==> word_value(bytes, order) < timestamp_limit(),
        bytes.len() <= 16 ==> word_value(bytes, order) < payload_limit(),
{
    lemma_value_bound(bytes, 256);
    lemma_value_bound(bytes.reverse(), 256);
    lemma_limits();
    if bytes.len() <= 4 {
        lemma_span_grows_with_width(256, bytes.len(), 4);
    }
    if bytes.len() <= 16 {
        lemma_span_grows_with_width(256, bytes.len(), 16);
    }
}

/// A word laid out in enough bytes is read back from them, in either order.
pub proof fn lemma_word_round_trip(v: nat, width: nat, order: ByteOrder)
    requires
        v < span(256, width),
    ensures
        word_bytes(v, width, order).len() == width,
        word_value(word_bytes(v, width, order), order) == v,
{
    let row = fixed_numeral(v, 256, width);
    lemma_fixed_numeral(v, 256, width);
    lemma_small_mod(v, span(256, width));
    assert(row.reverse().reverse() =~= row);
}

/// `u32::to_ne_bytes`: the four bytes of `x` as this machine keeps them in memory,
/// which is in the one order or in the other.
#[verifier::external_body]
fn memory_bytes(x: u32) -> (out: [u8; 4])
    ensures
        out@ == word_bytes(x as nat, 4, ByteOrder::Big) || out@ == word_bytes(
            x as nat,
            4,
            ByteOrder::Little,
        ),
{
    x.to_ne_bytes()
}

/// The byte order of this machine, found by looking at the word 1 in memory.
/// Which of the two it is cannot be known before the program runs.
pub fn native_order() -> ByteOrder {
    order_shown(memory_bytes(1))
}

/// The byte order that `probe` shows, where `probe` holds the word 1 in four
/// bytes: least significant first exactly when the first byte is 1. Of the two
/// layouts of the word 1 it tells which one `probe` is.
pub fn order_shown(probe: [u8; 4]) -> (order: ByteOrder)
    ensures
        order == ByteOrder::Little <==> probe@[0] == 1,
        order == ByteOrder::Big <==> probe@[0] != 1,
        probe@ == word_bytes(1, 4, ByteOrder::Big) || probe@ == word_bytes(
            1,
            4,
            ByteOrder::Little,
        ) ==> probe@ == word_bytes(1, 4, order),
{
    proof {
        // The first byte tells the two layouts of the word 1 apart.
        reveal_with_fuel(fixed_numeral, 5);
        assert(word_bytes(1, 4, ByteOrder::Big)[0] == 0);
        assert(word_bytes(1, 4, ByteOrder::Little)[0] == 1);
    }
    if probe[0] == 1 {
        ByteOrder::Little
    } else {
        ByteOrder::Big
    }
}

/// The `width` low bytes of `v`, most significant first.
pub fn be_bytes(v: u128, width: usize) -> (out: Vec<u8>)
    ensures
        out@ == word_bytes(v as nat, width as nat, ByteOrder::Big),
{
    let mut out: Vec<u8> = Vec::new();
    let mut n: usize = 0;
    while n < width
        invariant
            n <= width,
            out@.len() == n,
        decreases width - n,
    {
        out.push(0u8);
        n = n + 1;
    }
    let ghost want = fixed_numeral(v as nat, 256, width as nat);
    proof {
        lemma_fixed_numeral(v as nat, 256, width as nat);
    }
    let mut rest: u128 = v;
    let mut done: usize = 0;
    while done < width
        invariant
            done <= width,
            out@.len() == width,
            want.len() == width,
            want == fixed_numeral(v as nat, 256, width as nat),
            rest as nat == (v as nat) / span(256, done as nat),
            forall|j: int| width - done <= j < width ==> out@[j] == want[j],
        decreases width - done,
    {
        let place: usize = width - 1 - done;
        let digit: u8 = (rest % 256) as u8;
        proof {
            lemma_fixed_digit(v as nat, 256, width as nat, place as int);
            lemma_span_positive(256, done as nat);
            lemma_div_denominator(v as int, span(256, done as nat) as int, 256);
        }
        out.set(place, digit);
        rest = rest / 256;
        done = done + 1;
    }
    out
}

/// The `width` low bytes of `v`, least significant first.
pub fn le_bytes(v: u128, width: usize) -> (out: Vec<u8>)
    ensures
        out@ == word_bytes(v as nat, width as nat, ByteOrder::Little),
{
    let ghost want = fixed_numeral(v as nat, 256, width as nat);
    proof {
        lemma_fixed_numeral(v as nat, 256, width as nat);
    }
    let mut out: Vec<u8> = Vec::new();
    let mut rest: u128 = v;
    let mut done: usize = 0;
    while done < width
        invariant
            done <= width,
            out@.len() == done,
            want.len() == width,
            want == fixed_numeral(v as nat, 256, width as nat),
            rest as nat == (v as nat) / span(256, done as nat),
            forall|j: int| 0 <= j < done ==> out@[j] == want[width - 1 - j],
        decreases width - done,
    {
        let digit: u8 = (rest % 256) as u8;
        proof {
            lemma_fixed_digit(v as nat, 256, width as nat, width - 1 - done);
            lemma_span_positive(256, done as nat);
            lemma_div_denominator(v as int, span(256, done as nat) as int, 256);
        }
        out.push(digit);
        rest = rest / 256;
        done = done + 1;
    }
    out
}

/// The word that the bytes from `from` up to `to` hold, most significant first.
pub fn be_value(bytes: &[u8], from: usize, to: usize) -> (v: u128)
    requires
        from <= to <= bytes@.len(),
        to - from <= 16,
    ensures
        v as nat == word_value(bytes@.subrange(from as int, to as int), ByteOrder::Big),
{
    let ghost part = bytes@.subrange(from as int, to as int);
    let mut v: u128 = 0;
    let mut at: usize = from;
    while at < to
        invariant
            from <= at <= to <= bytes@.len(),
            to - from <= 16,
            part == bytes@.subrange(from as int, to as int),
            v as nat == value_of(part.take(at - from), 256),
        decreases to - at,
    {
        let ghost seen = part.take(at - from);
        proof {
            assert(part.take(at - from + 1) =~= seen.push(bytes@[at as int]));
            lemma_value_push(seen, bytes@[at as int], 256);
            lemma_value_bound(part.take(at - from + 1), 256);
            lemma_span_grows_with_width(256, (at - from + 1) as nat, 16);
            lemma_limits();
        }
        v = v * 256 + bytes[at] as u128;
        at = at + 1;
    }
    assert(part.take(to - from) =~= part);
    v
}

/// The word that the bytes from `from` up to `to` hold, least significant first.
pub fn le_value(bytes: &[u8], from: usize, to: usize) -> (v: u128)
    requires
        from <= to <= bytes@.len(),
        to - from <= 16,
    ensures
        v as nat == word_value(bytes@.subrange(from as int, to as int), ByteOrder::Little),
{
    let ghost turned = bytes@.subrange(from as int, to as int).reverse();
    let mut v: u128 = 0;
    let mut at: usize = to;
    while at > from
        invariant
            from <= at <= to <= bytes@.len(),
            to - from <= 16,
            turned == bytes@.subrange(from as int, to as int).reverse(),
            v as nat == value_of(turned.take(to - at), 256),
        decreases at - from,
    {
        let ghost seen = turned.take(to - at);
        proof {
            assert(turned.take(to - at + 1) =~= seen.push(bytes@[at - 1]));
            lemma_value_push(seen, bytes@[at - 1], 256);
            lemma_value_bound(turned.take(to - at + 1), 256);
            lemma_span_grows_with_width(256, (to - at + 1) as nat, 16);
            lemma_limits();
        }
        at = at - 1;
        v = v * 256 + bytes[at] as u128;
    }
    assert(turned.take(to - from) =~= turned);
    v
}

} // verus!
