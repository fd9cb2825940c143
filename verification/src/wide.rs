//! Unsigned 256-bit integers, for the arithmetic that does not fit a
//! machine word. The operations are `bigint`'s; they stop the program on
//! overflow and on division by zero, so each asks for what keeps them from
//! it.

use crate::field::limbs_value;
use vstd::prelude::*;

verus! {

/// The first number that 256 bits cannot hold.
pub open spec fn wide_bound() -> nat {
    0x1_0000_0000_0000_0000_0000_0000_0000_0000_0000_0000_0000_0000_0000_0000_0000_0000nat
}

/// An unsigned integer of 256 bits, held as four little-endian limbs.
#[derive(Clone, Copy, Debug, PartialEq, Eq, Structural)]
pub struct Wide {
    l0: u64,
    l1: u64,
    l2: u64,
    l3: u64,
}

impl Wide {
    /// The integer as a natural number.
    pub closed spec fn value(self) -> nat {
        limbs_value(self.l0, self.l1, self.l2, self.l3)
    }

    pub fn from_u64(n: u64) -> (r: Wide)
        ensures
            r.value() == n,
    {
        Wide { l0: n, l1: 0, l2: 0, l3: 0 }
    }

    /// The limbs, least significant first.
    pub fn limbs(&self) -> (r: (u64, u64, u64, u64))
        ensures
            limbs_value(r.0, r.1, r.2, r.3) == self.value(),
    {
        (self.l0, self.l1, self.l2, self.l3)
    }

    /// The sum, where it fits.
    pub fn add(&self, other: &Wide) -> (r: Wide)
        requires
            self.value() + other.value() < wide_bound(),
        ensures
            r.value() == self.value() + other.value(),
    {
        u256_add(self, other)
    }

    /// The product, where it fits.
    pub fn mul(&self, other: &Wide) -> (r: Wide)
        requires
            self.value() * other.value() < wide_bound(),
        ensures
            r.value() == self.value() * other.value(),
    {
        u256_mul(self, other)
    }

    /// The quotient, rounded down, by a divisor that is not zero.
    pub fn div(&self, other: &Wide) -> (r: Wide)
        requires
            other.value() != 0,
        ensures
            r.value() == self.value() / other.value(),
    {
        u256_div(self, other)
    }
}

/// `U256`'s `+`, which panics on overflow: the sum of two numbers whose
/// sum fits 256 bits.
#[verifier::external_body]
fn u256_add(a: &Wide, b: &Wide) -> (r: Wide)
    requires
        a.value() + b.value() < wide_bound(),
    ensures
        r.value() == a.value() + b.value(),
{
    let x = bigint::U256([a.l0, a.l1, a.l2, a.l3]);
    let y = bigint::U256([b.l0, b.l1, b.l2, b.l3]);
    let bigint::U256([l0, l1, l2, l3]) = x + y;
    Wide { l0, l1, l2, l3 }
}

/// `U256`'s `*`, which panics on overflow: the product of two numbers
/// whose product fits 256 bits.
#[verifier::external_body]
fn u256_mul(a: &Wide, b: &Wide) -> (r: Wide)
    requires
        a.value() * b.value() < wide_bound(),
    ensures
        r.value() == a.value() * b.value(),
{
    let x = bigint::U256([a.l0, a.l1, a.l2, a.l3]);
    let y = bigint::U256([b.l0, b.l1, b.l2, b.l3]);
    let bigint::U256([l0, l1, l2, l3]) = x * y;
    Wide { l0, l1, l2, l3 }
}

/// `U256`'s `/`, which panics on a zero divisor: the quotient of the two
/// numbers, rounded down.
#[verifier::external_body]
fn u256_div(a: &Wide, b: &Wide) -> (r: Wide)
    requires
        b.value() != 0,
    ensures
        r.value() == a.value() / b.value(),
{
    let x = bigint::U256([a.l0, a.l1, a.l2, a.l3]);
    let y = bigint::U256([b.l0, b.l1, b.l2, b.l3]);
    let bigint::U256([l0, l1, l2, l3]) = x / y;
    Wide { l0, l1, l2, l3 }
}

} // verus!
