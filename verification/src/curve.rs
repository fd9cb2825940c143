//! Points of the BN254 curve `G1`, as their compressed 32-byte encodings.
//!
//! The curve arithmetic is `halo2curves`'; it is given names here, and only
//! the law that the protocols rest on is stated of it.

use crate::error::FingerprintError;
use crate::field::{fadd, modulus, FieldElement};
use crate::hashing::{hash_elements, limb_of, limb_value, point_parameters, HashSqueeze, Specs};
use crate::poseidon::sponge::hash;
use halo2_axiom::halo2curves::bn256::{Fr, G1Compressed, G1};
use halo2_axiom::halo2curves::group::GroupEncoding;
use halo2_axiom::halo2curves::CurveExt;
use vstd::prelude::*;

verus! {

/// The tag that separates this use of hash-to-curve from every other.
pub const HASH_TO_CURVE_PREFIX: &'static str = "CRA_FINGERPRINT";

/// The canonical encoding of the point that 32 bytes decode to; nothing
/// where they decode to none.
pub uninterp spec fn g1_decoding(bytes: Seq<u8>) -> Option<Seq<u8>>;

/// The encoding of the point that a message is hashed to under a tag.
pub uninterp spec fn g1_hash_to_curve(tag: Seq<char>, message: Seq<u8>) -> Seq<u8>;

/// The encoding of the point that a message is hashed to under the tag of
/// this library.
pub open spec fn seed_point(message: Seq<u8>) -> Seq<u8> {
    g1_hash_to_curve(HASH_TO_CURVE_PREFIX@, message)
}

/// The encoding of a point multiplied by a scalar.
pub uninterp spec fn g1_scalar_mul(point: Seq<u8>, scalar: nat) -> Seq<u8>;

/// The encoding of the sum of two points.
pub uninterp spec fn g1_add(p: Seq<u8>, q: Seq<u8>) -> Seq<u8>;

/// Whether `r` is to `p` and `q` as a sum is to its terms in this: where
/// `p` and `q` are the multiples of one point by two residues `a` and `b`,
/// `r` is the multiple of that point by the sum of `a` and `b` in the
/// field.
pub open spec fn adds_multiples(p: Seq<u8>, q: Seq<u8>, r: Seq<u8>) -> bool {
    forall|base: Seq<u8>, a: nat, b: nat|
        g1_decoding(base) == Some(base) && a < modulus() && b < modulus() && p
            == #[trigger] g1_scalar_mul(base, a) && q == #[trigger] g1_scalar_mul(base, b) ==> r
            == g1_scalar_mul(base, fadd(a, b))
}

/// A point of `G1`, held as its canonical compressed encoding.
#[derive(Clone, Copy, Debug, PartialEq, Eq)]
pub struct CurvePoint {
    bytes: [u8; 32],
}

impl CurvePoint {
    /// The bytes are the canonical encoding of a point.
    #[verifier::type_invariant]
    pub closed spec fn is_point(self) -> bool {
        g1_decoding(self.bytes@) == Some(self.bytes@)
    }

    /// The compressed encoding.
    pub closed spec fn encoding(self) -> Seq<u8> {
        self.bytes@
    }

    /// Every point that executable code holds has a canonical encoding.
    pub fn valid(&self)
        ensures
            g1_decoding(self.encoding()) == Some(self.encoding()),
    {
        proof {
            use_type_invariant(self);
        }
    }

    /// Reads a compressed point; nothing where the bytes encode none.
    pub fn from_bytes(bytes: &[u8; 32]) -> (r: Option<CurvePoint>)
        ensures
            r is Some <==> g1_decoding(bytes@) is Some,
            r matches Some(p) ==> g1_decoding(bytes@) == Some(p.encoding()),
    {
        g1_decode(bytes)
    }

    /// The compressed encoding.
    pub fn to_bytes(&self) -> (r: [u8; 32])
        ensures
            r@ == self.encoding(),
            r@.len() == 32,
    {
        self.bytes
    }

    /// The point that a field element is hashed to, under the tag of this
    /// library.
    pub fn hash_to_curve(seed: &FieldElement) -> (r: CurvePoint)
        ensures
            r.encoding() == seed_point(seed.encoding()),
    {
        let message = seed.to_bytes();
        proof {
            reveal_strlit("CRA_FINGERPRINT");
        }
        g1_hash(HASH_TO_CURVE_PREFIX, &message)
    }

    /// The point multiplied by a scalar.
    pub fn mul(&self, scalar: &FieldElement) -> (r: CurvePoint)
        ensures
            r.encoding() == g1_scalar_mul(self.encoding(), scalar.value()),
    {
        g1_multiply(self, scalar)
    }

    /// The sum of two points. Two multiples of one point add up to the
    /// multiple by the sum of the scalars.
    pub fn add(&self, other: &CurvePoint) -> (r: CurvePoint)
        ensures
            r.encoding() == g1_add(self.encoding(), other.encoding()),
            adds_multiples(self.encoding(), other.encoding(), r.encoding()),
    {
        g1_sum(self, other)
    }
}

/// What a compressed point hashes to: its two halves of 16 bytes, each as a
/// limb, through the instance of width 2.
pub open spec fn point_digest(encoding: Seq<u8>) -> nat {
    hash(
        point_parameters(),
        seq![limb_value(encoding.subrange(0, 16)), limb_value(encoding.subrange(16, 32))],
    )
}

impl HashSqueeze for CurvePoint {
    open spec fn hashable(&self) -> bool {
        true
    }

    open spec fn digest(&self) -> nat {
        point_digest(self.encoding())
    }

    fn squeeze(&self, specs: &Specs) -> (r: Result<FieldElement, FingerprintError>) {
        let bytes = self.to_bytes();
        let low = limb_of(bytes.as_slice(), 0, 16);
        let high = limb_of(bytes.as_slice(), 16, 16);
        let limbs: [FieldElement; 2] = [low, high];
        assert(crate::poseidon::state::values(limbs@) =~= seq![
            limb_value(self.encoding().subrange(0, 16)),
            limb_value(self.encoding().subrange(16, 32)),
        ]);
        Ok(hash_elements(specs.spec(), limbs.as_slice()))
    }
}

/// `G1::from_bytes`, then `to_bytes`: the canonical encoding of the point
/// that the bytes decode to, and nothing where `from_bytes` finds no point.
#[verifier::external_body]
fn g1_decode(bytes: &[u8; 32]) -> (r: Option<CurvePoint>)
    ensures
        r is Some <==> g1_decoding(bytes@) is Some,
        r matches Some(p) ==> g1_decoding(bytes@) == Some(p.encoding()),
{
    let mut compressed = G1Compressed::default();
    compressed.as_mut().copy_from_slice(bytes);
    let point: Option<G1> = G1::from_bytes(&compressed).into();
    match point {
        Some(p) => {
            let mut out = [0u8; 32];
            out.copy_from_slice(p.to_bytes().as_ref());
            Some(CurvePoint { bytes: out })
        },
        None => None,
    }
}

/// `G1::hash_to_curve` under a tag, then `to_bytes`: the encoding of the
/// point that the message is hashed to, a function of the tag and the
/// message alone. The encoding of a point decodes to that point, so it is
/// canonical. The hash does not take a tag of 226 bytes or more, and a
/// character has four bytes at most.
#[verifier::external_body]
fn g1_hash(tag: &str, message: &[u8; 32]) -> (r: CurvePoint)
    requires
        tag@.len() <= 56,
    ensures
        r.encoding() == g1_hash_to_curve(tag@, message@),
        g1_decoding(r.encoding()) == Some(r.encoding()),
{
    let point = G1::hash_to_curve(tag)(message);
    let mut out = [0u8; 32];
    out.copy_from_slice(point.to_bytes().as_ref());
    CurvePoint { bytes: out }
}

/// `G1`'s `*` by a scalar, on the point that the bytes decode to: the
/// canonical encoding of the multiple of the point.
#[verifier::external_body]
fn g1_multiply(point: &CurvePoint, scalar: &FieldElement) -> (r: CurvePoint)
    ensures
        r.encoding() == g1_scalar_mul(point.encoding(), scalar.value()),
        g1_decoding(r.encoding()) == Some(r.encoding()),
{
    let mut compressed = G1Compressed::default();
    compressed.as_mut().copy_from_slice(&point.bytes);
    let p = G1::from_bytes(&compressed).unwrap();
    let (l0, l1, l2, l3) = scalar.limbs();
    let product = p * Fr::from_raw([l0, l1, l2, l3]);
    let mut out = [0u8; 32];
    out.copy_from_slice(product.to_bytes().as_ref());
    CurvePoint { bytes: out }
}

/// `G1`'s `+`, on the points that the bytes decode to: the canonical
/// encoding of the sum of the two points. The group has the order of the
/// scalar field, so the multiples of a point by `a` and by `b` add up to
/// its multiple by `a + b` reduced.
#[verifier::external_body]
fn g1_sum(p: &CurvePoint, q: &CurvePoint) -> (r: CurvePoint)
    ensures
        r.encoding() == g1_add(p.encoding(), q.encoding()),
        adds_multiples(p.encoding(), q.encoding(), r.encoding()),
        g1_decoding(r.encoding()) == Some(r.encoding()),
{
    let mut left = G1Compressed::default();
    left.as_mut().copy_from_slice(&p.bytes);
    let mut right = G1Compressed::default();
    right.as_mut().copy_from_slice(&q.bytes);
    let sum = G1::from_bytes(&left).unwrap() + G1::from_bytes(&right).unwrap();
    let mut out = [0u8; 32];
    out.copy_from_slice(sum.to_bytes().as_ref());
    CurvePoint { bytes: out }
}

} // verus!
