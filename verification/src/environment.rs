//! The arithmetic domain that literals are drawn from.

use vstd::prelude::*;

verus! {

/// An arithmetic domain: the integers from zero up to, and without, a modulus.
pub trait Environment: Sized {
    /// The number of values of the domain.
    spec fn spec_modulus() -> u64;

    /// The number of values of the domain.
    fn modulus() -> (m: u64)
        ensures
            m == Self::spec_modulus(),
    ;
}

/// The prime field of 2^64 - 2^32 + 1 elements.
#[derive(Clone, Copy, Debug, PartialEq, Eq)]
pub struct Goldilocks;

/// The prime field of 2^31 - 1 elements.
#[derive(Clone, Copy, Debug, PartialEq, Eq)]
pub struct Mersenne31;

impl Environment for Goldilocks {
    open spec fn spec_modulus() -> u64 {
        0xffff_ffff_0000_0001
    }

    fn modulus() -> (m: u64) {
        0xffff_ffff_0000_0001
    }
}

impl Environment for Mersenne31 {
    open spec fn spec_modulus() -> u64 {
        0x7fff_ffff
    }

    fn modulus() -> (m: u64) {
        0x7fff_ffff
    }
}

} // verus!
