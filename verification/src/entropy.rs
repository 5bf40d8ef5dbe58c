//! Where payloads come from: a generator that the operating system seeds anew
//! for each payload.

use rand::Rng;
use rand::SeedableRng;
use vstd::prelude::*;

verus! {

/// The generators that can make a payload.
#[derive(Debug, PartialOrd, Ord, Clone, Copy, PartialEq, Eq)]
pub enum RngType {
    /// The 128-bit multiplicative congruential generator of the PCG family with
    /// 64 bits of output, `rand_pcg::Pcg64Mcg`.
    PCG64FAST,
}

/// `rand_pcg::Mcg128Xsl64`, the generator behind `RngType::PCG64FAST`. Nothing is
/// stated of its state.
#[verifier::external_type_specification]
#[verifier::external_body]
pub struct ExMcg128Xsl64(rand_pcg::Mcg128Xsl64);

/// `SeedableRng::from_entropy` for `rand_pcg::Mcg128Xsl64`: a generator seeded
/// from the operating system. Nothing is known of the result. (The call panics
/// where the operating system can give no entropy.)
#[verifier::external_body]
fn seeded_generator() -> rand_pcg::Mcg128Xsl64 {
    rand_pcg::Mcg128Xsl64::from_entropy()
}

/// `Rng::sample` with `rand::distributions::Standard` on the generator: the next
/// 128 bits from it. Nothing is known of the result.
#[verifier::external_body]
fn draw(generator: &mut rand_pcg::Mcg128Xsl64) -> u128 {
    generator.sample(rand::distributions::Standard)
}

/// A fresh payload from a newly seeded generator.
fn gen_payload_pcg64_fast() -> u128 {
    let mut generator = seeded_generator();
    draw(&mut generator)
}

/// A fresh payload of 128 random bits from the generator that `rng` names, or
/// from the default one. Whatever `rng` is, any payload may come back.
pub fn gen_payload(rng: Option<RngType>) -> u128 {
    match rng {
        Some(RngType::PCG64FAST) => gen_payload_pcg64_fast(),
        None => gen_payload_pcg64_fast(),
    }
}

} // verus!
