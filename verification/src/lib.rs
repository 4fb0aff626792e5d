//! Arbitrary-precision natural numbers: a limb-vector representation with
//! verified addition, subtraction, multiplication, division, shifting,
//! exponentiation, comparison and decimal conversion.
//!
//! A number is held as limbs of 64 bits, least significant first. Its model
//! is the natural number that the limbs stand for (`limbs::limbs_value`),
//! and every operation states the number that its result stands for. A
//! result is always in canonical form (`naturals::Natural::wf`), in which a
//! number has one representation only, so that a contract over values fixes
//! the result limb for limb. The operations take operands in any form.

use vstd::prelude::*;

pub mod bits;
pub mod convert;
pub mod decimal;
pub mod division;
pub mod integer;
pub mod laws;
pub mod limbs;
pub mod naturals;
pub mod ops;
pub mod ordering;
pub mod shift;

verus! {

/// The sign of a non-zero integer.
#[derive(Eq, PartialEq, Ord, PartialOrd, Debug, Copy, Clone)]
pub enum Sign {
    Negative,
    Positive,
}

} // verus!
