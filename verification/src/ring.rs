//! The laws of arithmetic modulo the order of the field, as far as the
//! proofs about secret sharing need them.

use crate::field::{fadd, fmul, fsub, is_inverse, modulus};
use vstd::arithmetic::div_mod::{
    lemma_add_mod_noop, lemma_mod_multiples_vanish, lemma_mul_mod_noop_general, lemma_small_mod,
    lemma_sub_mod_noop,
};
use vstd::arithmetic::mul::{
    lemma_mul_is_associative, lemma_mul_is_commutative, lemma_mul_is_distributive_add,
};
use vstd::prelude::*;

verus! {

/// Whether two integers leave the same residue.
pub open spec fn congruent(a: int, b: int) -> bool {
    a % (modulus() as int) == b % (modulus() as int)
}

/// Sums of congruent numbers are congruent.
pub proof fn lemma_congruent_add(a: int, b: int, c: int, d: int)
    requires
        congruent(a, c),
        congruent(b, d),
    ensures
        congruent(a + b, c + d),
{
    let m = modulus() as int;
    lemma_add_mod_noop(a, b, m);
    lemma_add_mod_noop(c, d, m);
}

/// Differences of congruent numbers are congruent.
pub proof fn lemma_congruent_sub(a: int, b: int, c: int, d: int)
    requires
        congruent(a, c),
        congruent(b, d),
    ensures
        congruent(a - b, c - d),
{
    let m = modulus() as int;
    lemma_sub_mod_noop(a, b, m);
    lemma_sub_mod_noop(c, d, m);
}

/// Products of congruent numbers are congruent.
pub proof fn lemma_congruent_mul(a: int, b: int, c: int, d: int)
    requires
        congruent(a, c),
        congruent(b, d),
    ensures
        congruent(a * b, c * d),
{
    let m = modulus() as int;
    lemma_mul_mod_noop_general(a, b, m);
    lemma_mul_mod_noop_general(c, d, m);
}

/// The sum in the field is congruent to the sum of any numbers congruent
/// to its terms.
pub proof fn lemma_fadd_congruent(a: nat, b: nat, x: int, y: int)
    requires
        congruent(a as int, x),
        congruent(b as int, y),
    ensures
        congruent(fadd(a, b) as int, x + y),
        fadd(a, b) < modulus(),
{
    let m = modulus() as int;
    lemma_congruent_add(a as int, b as int, x, y);
    lemma_small_mod(fadd(a, b), modulus());
}

/// The difference in the field is congruent to the difference of any
/// numbers congruent to its terms.
pub proof fn lemma_fsub_congruent(a: nat, b: nat, x: int, y: int)
    requires
        congruent(a as int, x),
        congruent(b as int, y),
    ensures
        congruent(fsub(a, b) as int, x - y),
        fsub(a, b) < modulus(),
{
    let m = modulus() as int;
    lemma_congruent_sub(a as int, b as int, x, y);
    lemma_mod_multiples_vanish(1, a as int - b as int, m);
    assert(m * 1 + (a as int - b as int) == a + m - b);
    lemma_small_mod(fsub(a, b), modulus());
}

/// The product in the field is congruent to the product of any numbers
/// congruent to its factors.
pub proof fn lemma_fmul_congruent(a: nat, b: nat, x: int, y: int)
    requires
        congruent(a as int, x),
        congruent(b as int, y),
    ensures
        congruent(fmul(a, b) as int, x * y),
        fmul(a, b) < modulus(),
{
    let m = modulus() as int;
    lemma_congruent_mul(a as int, b as int, x, y);
    vstd::arithmetic::div_mod::lemma_mod_bound(a as int * b as int, m);
    lemma_small_mod(fmul(a, b), modulus());
}

/// Two residues that are congruent are equal.
pub proof fn lemma_congruent_residues(a: nat, b: nat)
    requires
        a < modulus(),
        b < modulus(),
        congruent(a as int, b as int),
    ensures
        a == b,
{
    lemma_small_mod(a, modulus());
    lemma_small_mod(b, modulus());
}

/// Addition in the field is associative.
pub proof fn lemma_fadd_associates(a: nat, b: nat, c: nat)
    ensures
        fadd(fadd(a, b), c) == fadd(a, fadd(b, c)),
{
    let (x, y, z) = (a as int, b as int, c as int);
    lemma_fadd_congruent(a, b, x, y);
    lemma_fadd_congruent(fadd(a, b), c, x + y, z);
    lemma_fadd_congruent(b, c, y, z);
    lemma_fadd_congruent(a, fadd(b, c), x, y + z);
    lemma_congruent_residues(fadd(fadd(a, b), c), fadd(a, fadd(b, c)));
}

/// The inner terms of a sum of two sums may change places.
pub proof fn lemma_fadd_rearranges(a: nat, b: nat, c: nat, d: nat)
    ensures
        fadd(fadd(a, b), fadd(c, d)) == fadd(fadd(a, c), fadd(b, d)),
{
    let (x, y, z, w) = (a as int, b as int, c as int, d as int);
    lemma_fadd_congruent(a, b, x, y);
    lemma_fadd_congruent(c, d, z, w);
    lemma_fadd_congruent(fadd(a, b), fadd(c, d), x + y, z + w);
    lemma_fadd_congruent(a, c, x, z);
    lemma_fadd_congruent(b, d, y, w);
    lemma_fadd_congruent(fadd(a, c), fadd(b, d), x + z, y + w);
    lemma_congruent_residues(fadd(fadd(a, b), fadd(c, d)), fadd(fadd(a, c), fadd(b, d)));
}

/// Multiplication in the field is associative.
pub proof fn lemma_fmul_associates(a: nat, b: nat, c: nat)
    ensures
        fmul(fmul(a, b), c) == fmul(a, fmul(b, c)),
{
    let (x, y, z) = (a as int, b as int, c as int);
    lemma_fmul_congruent(a, b, x, y);
    lemma_fmul_congruent(fmul(a, b), c, x * y, z);
    lemma_fmul_congruent(b, c, y, z);
    lemma_fmul_congruent(a, fmul(b, c), x, y * z);
    lemma_mul_is_associative(x, y, z);
    lemma_congruent_residues(fmul(fmul(a, b), c), fmul(a, fmul(b, c)));
}

/// Multiplication in the field is commutative.
pub proof fn lemma_fmul_commutes(a: nat, b: nat)
    ensures
        fmul(a, b) == fmul(b, a),
{
    lemma_mul_is_commutative(a as int, b as int);
}

/// The two outer factors of a product of three may change places.
pub proof fn lemma_fmul_swaps(a: nat, b: nat, c: nat)
    ensures
        fmul(a, fmul(b, c)) == fmul(b, fmul(a, c)),
{
    lemma_fmul_associates(a, b, c);
    lemma_fmul_associates(b, a, c);
    lemma_fmul_commutes(a, b);
}

/// Multiplication distributes over addition.
pub proof fn lemma_fmul_distributes(a: nat, b: nat, c: nat)
    ensures
        fmul(a, fadd(b, c)) == fadd(fmul(a, b), fmul(a, c)),
{
    let (x, y, z) = (a as int, b as int, c as int);
    lemma_fadd_congruent(b, c, y, z);
    lemma_fmul_congruent(a, fadd(b, c), x, y + z);
    lemma_fmul_congruent(a, b, x, y);
    lemma_fmul_congruent(a, c, x, z);
    lemma_fadd_congruent(fmul(a, b), fmul(a, c), x * y, x * z);
    lemma_mul_is_distributive_add(x, y, z);
    lemma_congruent_residues(fmul(a, fadd(b, c)), fadd(fmul(a, b), fmul(a, c)));
}

/// One is the unit of multiplication, and zero annihilates.
pub proof fn lemma_fmul_units(a: nat)
    requires
        a < modulus(),
    ensures
        fmul(a, 1) == a,
        fmul(1, a) == a,
        fmul(a, 0) == 0,
        fmul(0, a) == 0,
{
    lemma_small_mod(a, modulus());
    assert(a * 1 == a && 1 * a == a && a * 0 == 0 && 0 * a == 0) by (nonlinear_arith);
    lemma_small_mod(0, modulus());
}

/// Zero is the unit of addition, and a residue less itself is zero.
pub proof fn lemma_fadd_units(a: nat)
    requires
        a < modulus(),
    ensures
        fadd(a, 0) == a,
        fadd(0, a) == a,
        fsub(a, 0) == a,
        fsub(a, a) == 0,
{
    lemma_small_mod(a, modulus());
    lemma_fsub_congruent(a, 0, a as int, 0);
    lemma_congruent_residues(fsub(a, 0), a);
    lemma_fsub_congruent(a, a, a as int, a as int);
    lemma_small_mod(0, modulus());
    lemma_congruent_residues(fsub(a, a), 0);
}

/// An inverse of a residue cancels it out of a product.
pub proof fn lemma_inverse_cancels(a: nat, inverse: nat, b: nat)
    requires
        is_inverse(a, inverse),
        b < modulus(),
    ensures
        fmul(fmul(b, inverse), a) == b,
        fmul(inverse, fmul(a, b)) == b,
{
    lemma_fmul_associates(b, inverse, a);
    lemma_fmul_commutes(inverse, a);
    lemma_fmul_units(b);
    lemma_fmul_associates(inverse, a, b);
}

} // verus!
