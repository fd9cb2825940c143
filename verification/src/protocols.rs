//! The protocols that bind a fingerprint to a secret.
//!
//! The naive protocol holds the whole secret. The collaborative protocol
//! holds one share of it and asks other agents for their part; what it
//! decides is here, what it sends and receives is the caller's to carry.

pub use crate::collaborative::{
    CollaborativeProtocol, CollaborativeSession, CooperationRequest, ProtocolAction, ProtocolEvent,
};
use crate::curve::{g1_decoding, seed_point, g1_scalar_mul, point_digest, CurvePoint};
use crate::error::FingerprintError;
use crate::field::{fmul, FieldElement};
use crate::hashing::{HashSqueeze, Specs};
use crate::poseidon::matrix::dot;
use crate::poseidon::state::values;
pub use crate::topology::{AgentEndpoint, AgentsTopology};
use vstd::prelude::*;

verus! {

/// What turns the seed of a transaction into the seed of its fingerprint.
pub trait FingerprintProtocol {
    /// What `process` returns for a seed, where the protocol and the seed
    /// alone decide it; nothing where more than these two has a say, as
    /// the answers of other agents have. Unless a protocol says otherwise,
    /// nothing is decided.
    open spec fn outcome(&self, seed: FieldElement) -> Option<
        Result<FieldElement, FingerprintError>,
    > {
        None
    }

    fn process(&self, specs: &Specs, seed: &FieldElement) -> (r: Result<
        FieldElement,
        FingerprintError,
    >)
        ensures
            self.outcome(*seed) matches Some(decided) ==> r == decided,
    ;
}

/// What the naive protocol makes of a seed: the seed is hashed to the
/// curve, the point is multiplied by the secret, and the product is hashed
/// back to the field.
pub open spec fn naive_fingerprint(secret: nat, seed: Seq<u8>) -> nat {
    point_digest(g1_scalar_mul(seed_point(seed), secret))
}

/// The same as a field element.
pub open spec fn naive_outcome(secret: FieldElement, seed: FieldElement) -> FieldElement {
    FieldElement::from_value(naive_fingerprint(secret.value(), seed.encoding()))
}

/// The protocol of an agent that holds the whole secret.
#[derive(Clone, Copy, Debug)]
pub struct NaiveProtocol {
    secret: FieldElement,
}

impl NaiveProtocol {
    pub closed spec fn secret(self) -> FieldElement {
        self.secret
    }

    pub fn new(secret: FieldElement) -> (r: NaiveProtocol)
        ensures
            r.secret() == secret,
    {
        NaiveProtocol { secret }
    }
}

impl FingerprintProtocol for NaiveProtocol {
    /// The secret and the seed decide.
    open spec fn outcome(&self, seed: FieldElement) -> Option<
        Result<FieldElement, FingerprintError>,
    > {
        Some(Ok(naive_outcome(self.secret(), seed)))
    }

    fn process(&self, specs: &Specs, seed: &FieldElement) -> (r: Result<
        FieldElement,
        FingerprintError,
    >)
        ensures
            r matches Ok(x) && x.value() == naive_fingerprint(
                self.secret().value(),
                seed.encoding(),
            ),
    {
        let point = CurvePoint::hash_to_curve(seed);
        let product = point.mul(&self.secret);
        let r = product.squeeze(specs);
        proof {
            if let Ok(x) = r {
                FieldElement::lemma_from_value(x);
            }
        }
        r
    }
}

/// What an agent answers to a request: the point multiplied by the
/// product of the coefficient and the agent's share.
pub fn cooperate(share: &FieldElement, point: &CurvePoint, coefficient: &FieldElement) -> (r:
    CurvePoint)
    ensures
        r.encoding() == g1_scalar_mul(point.encoding(), fmul(coefficient.value(), share.value())),
{
    let scalar = coefficient.mul(share);
    point.mul(&scalar)
}

/// The sum of what the agents of a quorum answer, each with its
/// coefficient and its share: the point multiplied by the sum of the
/// products of coefficient and share. Nothing where there are not as many
/// shares as coefficients.
pub fn aggregate(point: &CurvePoint, coefficients: &Vec<FieldElement>, shares: &Vec<FieldElement>) -> (r:
    Option<CurvePoint>)
    ensures
        r is Some <==> coefficients.len() == shares.len(),
        r matches Some(sum) ==> sum.encoding() == g1_scalar_mul(
            point.encoding(),
            dot(values(coefficients@), values(shares@)),
        ),
{
    if coefficients.len() != shares.len() {
        return None;
    }
    let ghost cs = values(coefficients@);
    let ghost ss = values(shares@);
    let ghost base = point.encoding();
    point.valid();
    let mut acc = point.mul(&FieldElement::zero());
    let mut i: usize = 0;
    while i < coefficients.len()
        invariant
            i <= coefficients.len(),
            coefficients.len() == shares.len(),
            cs == values(coefficients@),
            ss == values(shares@),
            base == point.encoding(),
            g1_decoding(base) == Some(base),
            acc.encoding() == g1_scalar_mul(
                base,
                dot(cs.subrange(0, i as int), ss.subrange(0, i as int)),
            ),
        decreases coefficients.len() - i,
    {
        let part = cooperate(&shares[i], point, &coefficients[i]);
        proof {
            assert(cs.subrange(0, i + 1).drop_last() =~= cs.subrange(0, i as int));
            assert(ss.subrange(0, i + 1).drop_last() =~= ss.subrange(0, i as int));
        }
        acc = acc.add(&part);
        i += 1;
    }
    proof {
        assert(cs.subrange(0, cs.len() as int) =~= cs);
        assert(ss.subrange(0, ss.len() as int) =~= ss);
    }
    Some(acc)
}

} // verus!
