//! The sizes that an identifier's parts and its two forms have.

use crate::radix::span;
use vstd::prelude::*;

verus! {

/// Two to the power 32: one more than the largest timestamp.
pub open spec fn timestamp_limit() -> nat {
    0x1_0000_0000nat
}

/// Two to the power 128: one more than the largest payload.
pub open spec fn payload_limit() -> nat {
    0x1_0000_0000_0000_0000_0000_0000_0000_0000nat
}

/// Two to the power 160: one more than the largest identifier.
pub open spec fn value_limit() -> nat {
    0x1_0000_0000_0000_0000_0000_0000_0000_0000_0000_0000nat
}

/// What 4, 16 and 20 bytes can hold, and that 27 digits of base 62 hold at least
/// as much as 20 bytes.
pub proof fn lemma_limits()
    ensures
        span(256, 4) == timestamp_limit(),
        span(256, 16) == payload_limit(),
        span(256, 20) == value_limit(),
        value_limit() == timestamp_limit() * payload_limit(),
        value_limit() <= span(62, 27),
{
    reveal_with_fuel(span, 10);
    assert(span(256, 8) == 0x1_0000_0000_0000_0000nat);
    assert(span(62, 9) == 13537086546263552nat);
    assert(span(62, 18) == 183252712161029662582812243656704nat);
}

} // verus!
