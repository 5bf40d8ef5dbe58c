//! What can go wrong when an identifier is read or made.

use vstd::prelude::*;

verus! {

/// Why an identifier could not be read or made.
#[derive(Debug, Clone, Copy, PartialEq, Eq, Structural)]
pub enum KsuidError {
    /// The text holds a character that is not of the base-62 alphabet.
    InvalidEncoding,
    /// The text writes a number that does not fit in 160 bits.
    Overflow,
    /// The clock reads a time before the epoch from which timestamps count.
    ClockBeforeEpoch,
}

} // verus!
