//! The identifier: a timestamp of 32 bits and a payload of 128 bits, which
//! together are one number of 160 bits, the timestamp in its high bits; and its
//! binary form of 20 bytes.

use crate::bytes::{
    be_bytes, be_value, le_bytes, le_value, lemma_word_fits, lemma_word_round_trip,
    native_order, word_bytes, word_value, ByteOrder,
};
use crate::limits::{lemma_limits, payload_limit, value_limit};
use crate::radix::{
    fixed_numeral, lemma_fixed_numeral, lemma_fixed_of_value, lemma_value_concat, value_of,
};
use vstd::prelude::*;

verus! {

/// A K-sortable unique identifier.
#[derive(Debug, Clone, Copy, PartialEq, Eq, Structural, Ord)]
pub struct Ksuid {
    /// Seconds since the epoch of identifiers, 2014-05-13T16:53:20Z.
    pub timestamp: u32,
    /// 128 bits that tell apart the identifiers of one second.
    pub payload: u128,
}

impl Ksuid {
    /// The identifier as one number: the timestamp above the payload.
    pub open spec fn value(self) -> nat {
        self.timestamp as nat * payload_limit() + self.payload as nat
    }

    /// The identifier that the number `v` is, for `v` below two to the power 160.
    pub open spec fn of_value(v: nat) -> Ksuid {
        Ksuid { timestamp: (v / payload_limit()) as u32, payload: (v % payload_limit()) as u128 }
    }

    /// The 20 bytes of the identifier: 4 of the timestamp, then 16 of the payload,
    /// each of the two in the given byte order.
    pub open spec fn bytes_in(self, order: ByteOrder) -> Seq<u8> {
        word_bytes(self.timestamp as nat, 4, order) + word_bytes(self.payload as nat, 16, order)
    }

    /// The identifier that the first 20 of `bytes` hold in the given byte order.
    pub open spec fn of_bytes(bytes: Seq<u8>, order: ByteOrder) -> Ksuid {
        Ksuid {
            timestamp: word_value(bytes.subrange(0, 4), order) as u32,
            payload: word_value(bytes.subrange(4, 20), order) as u128,
        }
    }

    /// The identifier with the given parts.
    pub fn new_with_timestamp_and_payload(timestamp: u32, payload: u128) -> (id: Self)
        ensures
            id == (Ksuid { timestamp, payload }),
    {
        Self { timestamp, payload }
    }

    /// The identifier that the first 20 bytes of `b` hold in the given byte order.
    /// Bytes after the twentieth are not read.
    pub fn from_bytes_in(b: &[u8], order: ByteOrder) -> (id: Self)
        requires
            b@.len() >= 20,
        ensures
            id == Ksuid::of_bytes(b@, order),
    {
        match order {
            ByteOrder::Big => Self {
                timestamp: be_value(b, 0, 4) as u32,
                payload: be_value(b, 4, 20),
            },
            ByteOrder::Little => Self {
                timestamp: le_value(b, 0, 4) as u32,
                payload: le_value(b, 4, 20),
            },
        }
    }

    /// The 20 bytes of the identifier in the given byte order.
    pub fn to_bytes_in(&self, order: ByteOrder) -> (out: Vec<u8>)
        ensures
            out@ == self.bytes_in(order),
    {
        let mut out = match order {
            ByteOrder::Big => be_bytes(self.timestamp as u128, 4),
            ByteOrder::Little => le_bytes(self.timestamp as u128, 4),
        };
        let mut low = match order {
            ByteOrder::Big => be_bytes(self.payload, 16),
            ByteOrder::Little => le_bytes(self.payload, 16),
        };
        out.append(&mut low);
        out
    }

    /// The identifier that the first 20 bytes of `b` hold in network byte order,
    /// most significant byte first. Bytes after the twentieth are not read.
    pub fn from_network_bytes(b: Vec<u8>) -> (id: Self)
        requires
            b@.len() >= 20,
        ensures
            id == Ksuid::of_bytes(b@, ByteOrder::Big),
    {
        Self::from_bytes_in(b.as_slice(), ByteOrder::Big)
    }

    /// The identifier that the first 20 bytes of `b` hold in the byte order of
    /// this machine, which is the one or the other. Bytes after the twentieth are
    /// not read.
    pub fn from_native_bytes(b: Vec<u8>) -> (id: Self)
        requires
            b@.len() >= 20,
        ensures
            id == Ksuid::of_bytes(b@, ByteOrder::Big) || id == Ksuid::of_bytes(
                b@,
                ByteOrder::Little,
            ),
    {
        Self::from_bytes_in(b.as_slice(), native_order())
    }

    /// All 20 bytes of the identifier in network byte order.
    pub fn get_network_bytes(&self) -> (out: Vec<u8>)
        ensures
            out@ == self.bytes_in(ByteOrder::Big),
    {
        self.to_bytes_in(ByteOrder::Big)
    }

    /// All 20 bytes of the identifier in the byte order of this machine, which is
    /// the one or the other.
    pub fn get_bytes(&self) -> (out: Vec<u8>)
        ensures
            out@ == self.bytes_in(ByteOrder::Big) || out@ == self.bytes_in(ByteOrder::Little),
    {
        self.to_bytes_in(native_order())
    }

    /// The 16 bytes of the payload in network byte order.
    pub fn payload_network_bytes(&self) -> (out: Vec<u8>)
        ensures
            out@ == word_bytes(self.payload as nat, 16, ByteOrder::Big),
    {
        be_bytes(self.payload, 16)
    }

    /// The 16 bytes of the payload in the byte order of this machine, which is the
    /// one or the other.
    pub fn payload_bytes(&self) -> (out: Vec<u8>)
        ensures
            out@ == word_bytes(self.payload as nat, 16, ByteOrder::Big) || out@ == word_bytes(
                self.payload as nat,
                16,
                ByteOrder::Little,
            ),
    {
        match native_order() {
            ByteOrder::Big => be_bytes(self.payload, 16),
            ByteOrder::Little => le_bytes(self.payload, 16),
        }
    }
}

/// The number that an identifier is fits in 160 bits, and its two parts are read
/// back from it.
pub proof fn lemma_value(id: Ksuid)
    ensures
        id.value() < value_limit(),
        Ksuid::of_value(id.value()) == id,
{
    let t = id.timestamp as nat;
    let p = id.payload as nat;
    let l = payload_limit();
    assert(t * l + p < 0x1_0000_0000 * l) by (nonlinear_arith)
        requires
            t < 0x1_0000_0000,
            p < l,
    ;
    assert(t * l == l as int * t as int) by (nonlinear_arith);
}

/// Each number below two to the power 160 is the number of one identifier.
pub proof fn lemma_of_value(v: nat)
    requires
        v < value_limit(),
    ensures
        Ksuid::of_value(v).value() == v,
{
    let l = payload_limit();
    let q = v / l;
    assert(q < 0x1_0000_0000) by (nonlinear_arith)
        requires
            v == l * q + v % l,
            v < 0x1_0000_0000 * l,
            0 <= v % l,
            l > 0,
            q >= 0,
    ;
    assert(q * l == l * q) by (nonlinear_arith);
}

/// In network order the 20 bytes of an identifier hold the number that it is.
pub proof fn lemma_network_bytes(id: Ksuid)
    ensures
        id.bytes_in(ByteOrder::Big).len() == 20,
        value_of(id.bytes_in(ByteOrder::Big), 256) == id.value(),
        id.bytes_in(ByteOrder::Big) == fixed_numeral(id.value(), 256, 20),
{
    let high = fixed_numeral(id.timestamp as nat, 256, 4);
    let low = fixed_numeral(id.payload as nat, 256, 16);
    lemma_limits();
    lemma_fixed_numeral(id.timestamp as nat, 256, 4);
    lemma_fixed_numeral(id.payload as nat, 256, 16);
    lemma_value_concat(high, low, 256);
    lemma_fixed_of_value(high + low, 256);
}

/// Twenty bytes in network order hold the identifier of the number that they
/// write.
pub proof fn lemma_of_network_bytes(bytes: Seq<u8>)
    requires
        bytes.len() >= 20,
    ensures
        value_of(bytes.take(20), 256) < value_limit(),
        Ksuid::of_bytes(bytes, ByteOrder::Big) == Ksuid::of_value(value_of(bytes.take(20), 256)),
{
    let high = bytes.subrange(0, 4);
    let low = bytes.subrange(4, 20);
    assert(bytes.take(20) =~= high + low);
    lemma_value_concat(high, low, 256);
    lemma_word_fits(high, ByteOrder::Big);
    lemma_word_fits(low, ByteOrder::Big);
    lemma_limits();
    let id = Ksuid::of_bytes(bytes, ByteOrder::Big);
    assert(id.value() == value_of(bytes.take(20), 256));
}

/// An identifier is read back from its 20 bytes, in either byte order.
pub proof fn lemma_bytes_round_trip(id: Ksuid, order: ByteOrder)
    ensures
        id.bytes_in(order).len() == 20,
        Ksuid::of_bytes(id.bytes_in(order), order) == id,
{
    let high = word_bytes(id.timestamp as nat, 4, order);
    let low = word_bytes(id.payload as nat, 16, order);
    lemma_limits();
    lemma_word_round_trip(id.timestamp as nat, 4, order);
    lemma_word_round_trip(id.payload as nat, 16, order);
    assert((high + low).subrange(0, 4) =~= high);
    assert((high + low).subrange(4, 20) =~= low);
}

} // verus!
