//! Making new identifiers: the timestamp from the clock and the payload from the
//! generator, or either of them given.

use crate::entropy::gen_payload;
use crate::epoch::{clock_now, timestamp_at, timestamp_of, UnixTime};
use crate::error::KsuidError;
use crate::ksuid::Ksuid;
use vstd::prelude::*;

verus! {

impl Ksuid {
    /// What making an identifier at `now` with `payload` gives: the identifier
    /// with the timestamp of `now`, or no identifier where `now` lies before the
    /// epoch.
    pub open spec fn made_at(now: UnixTime, payload: u128) -> Result<Ksuid, KsuidError> {
        match timestamp_of(now) {
            Ok(timestamp) => Ok(Ksuid { timestamp, payload }),
            Err(e) => Err(e),
        }
    }

    /// The identifier made at `now` with `payload`.
    pub fn new_at(now: UnixTime, payload: u128) -> (id: Result<Self, KsuidError>)
        ensures
            id == Ksuid::made_at(now, payload),
    {
        match timestamp_at(now) {
            Ok(timestamp) => Ok(Self { timestamp, payload }),
            Err(e) => Err(e),
        }
    }

    /// A new identifier with the timestamp of now and a random payload. It fails
    /// only where the clock reads a time before the epoch.
    pub fn new() -> (id: Result<Self, KsuidError>)
        ensures
            exists|now: UnixTime, payload: u128| id == Ksuid::made_at(now, payload),
    {
        let now = clock_now();
        let payload = gen_payload(None);
        Self::new_at(now, payload)
    }

    /// A new identifier with the given timestamp and a random payload.
    pub fn new_with_timestamp(timestamp: u32) -> (id: Self)
        ensures
            id.timestamp == timestamp,
    {
        Self { timestamp, payload: gen_payload(None) }
    }

    /// A new identifier with the timestamp of now and the given payload. It fails
    /// only where the clock reads a time before the epoch.
    pub fn new_with_payload(payload: u128) -> (id: Result<Self, KsuidError>)
        ensures
            exists|now: UnixTime| id == Ksuid::made_at(now, payload),
    {
        Self::new_at(clock_now(), payload)
    }
}

} // verus!
