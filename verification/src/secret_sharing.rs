//! Shamir's secret sharing over the field.
//!
//! A secret is the value at zero of a polynomial; a share is the value at
//! an agent's id. The coefficients above the secret are the caller's to
//! draw at random.

use crate::error::FingerprintError;
use crate::field::{fadd, finv, fmul, fsub, is_inverse, modulus, FieldElement};
use crate::interpolation::{
    canonical, differences_invertible, evaluations, lemma_interpolation_at_zero,
};
use crate::poseidon::matrix::{dot, dot_product};
use crate::poseidon::state::values;
use vstd::prelude::*;

verus! {

/// The value at `x` of the polynomial with the given coefficients, the
/// constant one first.
pub open spec fn evaluate(coefficients: Seq<nat>, x: nat) -> nat
    decreases coefficients.len(),
{
    if coefficients.len() == 0 {
        0
    } else {
        fadd(coefficients[0], fmul(x, evaluate(coefficients.skip(1), x)))
    }
}

/// One factor of a Lagrange coefficient at zero: `-x_j / (x_i - x_j)`.
pub open spec fn lagrange_factor(xi: nat, xj: nat) -> nat {
    fmul(fsub(0, xj), finv(fsub(xi, xj)))
}

/// The product of the factors of point `i` against the first `n` points,
/// itself left out.
pub open spec fn lagrange_product(points: Seq<nat>, i: int, n: int) -> nat
    decreases n,
{
    if n <= 0 {
        1
    } else if n - 1 == i {
        lagrange_product(points, i, n - 1)
    } else {
        fmul(lagrange_product(points, i, n - 1), lagrange_factor(points[i], points[n - 1]))
    }
}

/// The Lagrange coefficient at zero of point `i` among the points.
pub open spec fn lagrange_at_zero(points: Seq<nat>, i: int) -> nat {
    lagrange_product(points, i, points.len() as int)
}

/// The coefficients of all the points.
pub open spec fn lagrange_coefficients_at_zero(points: Seq<nat>) -> Seq<nat> {
    Seq::new(points.len(), |i: int| lagrange_at_zero(points, i))
}

/// The ids as points of the field.
pub open spec fn points_of(ids: Seq<u64>) -> Seq<nat> {
    Seq::new(ids.len(), |i: int| ids[i] as nat)
}

/// Whether no id occurs twice.
pub open spec fn all_distinct(ids: Seq<u64>) -> bool {
    forall|i: int, j: int| 0 <= i < ids.len() && 0 <= j < ids.len() && i != j ==> ids[i] != ids[j]
}

/// One agent's share: the value of the polynomial at the agent's id.
#[derive(Clone, Copy, Debug, PartialEq, Eq, Structural)]
pub struct SecretShare {
    agent_id: u64,
    value: FieldElement,
}

impl SecretShare {
    /// The id is not zero: the value at zero is the secret itself.
    #[verifier::type_invariant]
    pub closed spec fn is_share(self) -> bool {
        self.agent_id != 0
    }

    pub closed spec fn spec_agent_id(self) -> u64 {
        self.agent_id
    }

    pub closed spec fn spec_value(self) -> FieldElement {
        self.value
    }

    /// The share of an agent; nothing for the id zero.
    pub fn new(agent_id: u64, value: FieldElement) -> (r: Option<SecretShare>)
        ensures
            r is Some <==> agent_id != 0,
            r matches Some(s) ==> s.spec_agent_id() == agent_id && s.spec_value() == value,
    {
        if agent_id == 0 {
            None
        } else {
            Some(SecretShare { agent_id, value })
        }
    }

    pub fn agent_id(&self) -> (r: u64)
        ensures
            r == self.spec_agent_id(),
            r != 0,
    {
        proof {
            use_type_invariant(self);
        }
        self.agent_id
    }

    pub fn value(&self) -> (r: FieldElement)
        ensures
            r == self.spec_value(),
    {
        self.value
    }
}

/// The ids of a row of shares.
pub open spec fn share_ids(shares: Seq<SecretShare>) -> Seq<u64> {
    Seq::new(shares.len(), |i: int| shares[i].spec_agent_id())
}

/// The values of a row of shares.
pub open spec fn share_values(shares: Seq<SecretShare>) -> Seq<nat> {
    Seq::new(shares.len(), |i: int| shares[i].spec_value().value())
}

/// The value at `x` of the polynomial with the given coefficients.
pub fn evaluate_polynomial(coefficients: &Vec<FieldElement>, x: &FieldElement) -> (r: FieldElement)
    ensures
        r.value() == evaluate(values(coefficients@), x.value()),
{
    let ghost cs = values(coefficients@);
    let n = coefficients.len();
    let mut acc = FieldElement::zero();
    let mut k: usize = n;
    assert(cs.skip(n as int) =~= Seq::<nat>::empty());
    while k > 0
        invariant
            k <= n,
            n == coefficients.len(),
            cs == values(coefficients@),
            acc.value() == evaluate(cs.skip(k as int), x.value()),
        decreases k,
    {
        k -= 1;
        proof {
            assert(cs.skip(k as int).skip(1) =~= cs.skip(k + 1));
            assert(cs.skip(k as int)[0] == cs[k as int]);
        }
        let scaled = x.mul(&acc);
        acc = coefficients[k].add(&scaled);
    }
    assert(cs.skip(0) =~= cs);
    acc
}

/// The polynomial of a split: the secret, then the coefficients.
pub open spec fn polynomial(secret: nat, coefficients: Seq<nat>) -> Seq<nat> {
    seq![secret] + coefficients
}

/// Splits a secret into `n` shares of which `t` rebuild it. The shares are
/// the values at 1, 2, ..., `n` of the polynomial whose constant
/// coefficient is the secret and whose other `t - 1` coefficients are
/// given. `InvalidInput` unless `1 <= t <= n` and there are `t - 1`
/// coefficients.
pub fn split(secret: &FieldElement, n: u64, t: u64, coefficients: &Vec<FieldElement>) -> (r: Result<
    Vec<SecretShare>,
    FingerprintError,
>)
    ensures
        r is Ok <==> 1 <= t <= n && coefficients.len() == t - 1,
        r matches Ok(shares) ==> {
            &&& shares.len() == n
            &&& forall|i: int|
                0 <= i < n ==> (#[trigger] shares[i]).spec_agent_id() == i + 1 && shares[i].spec_value().value()
                    == evaluate(polynomial(secret.value(), values(coefficients@)), (i + 1) as nat)
        },
        r matches Err(e) ==> e == FingerprintError::InvalidInput,
{
    if t < 1 || t > n || coefficients.len() as u64 != t - 1 {
        return Err(FingerprintError::InvalidInput);
    }
    let mut all: Vec<FieldElement> = Vec::new();
    all.push(*secret);
    let mut k: usize = 0;
    while k < coefficients.len()
        invariant
            k <= coefficients.len(),
            all.len() == k + 1,
            all[0] == *secret,
            forall|q: int| 0 <= q < k ==> all[q + 1] == coefficients[q],
        decreases coefficients.len() - k,
    {
        all.push(coefficients[k]);
        k += 1;
    }
    assert(values(all@) =~= polynomial(secret.value(), values(coefficients@)));
    let mut shares: Vec<SecretShare> = Vec::new();
    let mut id: u64 = 0;
    while id < n
        invariant
            id <= n,
            shares.len() == id,
            values(all@) == polynomial(secret.value(), values(coefficients@)),
            forall|i: int|
                0 <= i < id ==> (#[trigger] shares[i]).spec_agent_id() == i + 1 && shares[i].spec_value().value()
                    == evaluate(polynomial(secret.value(), values(coefficients@)), (i + 1) as nat),
        decreases n - id,
    {
        id += 1;
        let x = FieldElement::from_u64(id);
        let y = evaluate_polynomial(&all, &x);
        match SecretShare::new(id, y) {
            Some(share) => {
                shares.push(share);
            },
            None => {
                assert(false);
            },
        }
    }
    Ok(shares)
}

/// The polynomial of a split takes the secret at zero.
pub proof fn lemma_polynomial_at_zero(secret: nat, coefficients: Seq<nat>)
    requires
        secret < modulus(),
    ensures
        evaluate(polynomial(secret, coefficients), 0) == secret,
        polynomial(secret, coefficients).len() == coefficients.len() + 1,
{
    let f = polynomial(secret, coefficients);
    let rest = evaluate(f.skip(1), 0);
    assert(0 * rest == 0) by (nonlinear_arith);
    vstd::arithmetic::div_mod::lemma_small_mod(0, modulus());
    vstd::arithmetic::div_mod::lemma_small_mod(secret, modulus());
}

/// Two different ids differ as points of the field.
pub proof fn lemma_distinct_points(a: u64, b: u64)
    requires
        a != b,
    ensures
        fsub(a as nat, b as nat) != 0,
{
    let m = modulus() as int;
    let d = a as int + m - b as int;
    assert(0 < d < 2 * m);
    assert(d != m);
    if d < m {
        vstd::arithmetic::div_mod::lemma_small_mod(d as nat, modulus());
    } else {
        vstd::arithmetic::div_mod::lemma_fundamental_div_mod_converse(d, m, 1, d - m);
    }
}

/// The Lagrange coefficient at zero of the id at `index` among the ids;
/// nothing where that id occurs a second time.
pub fn lagrange_coefficient(ids: &Vec<u64>, index: usize) -> (r: Option<FieldElement>)
    requires
        index < ids.len(),
    ensures
        r is Some <==> forall|j: int| 0 <= j < ids.len() && j != index ==> ids[j] != ids[index as int],
        r matches Some(c) ==> c.value() == lagrange_at_zero(points_of(ids@), index as int),
        r is Some ==> forall|j: int|
            0 <= j < ids.len() && j != index ==> is_inverse(
                fsub(ids[index as int] as nat, #[trigger] ids[j] as nat),
                finv(fsub(ids[index as int] as nat, ids[j] as nat)),
            ),
{
    let ghost points = points_of(ids@);
    let xi = FieldElement::from_u64(ids[index]);
    let mut acc = FieldElement::one();
    let mut j: usize = 0;
    while j < ids.len()
        invariant
            j <= ids.len(),
            index < ids.len(),
            points == points_of(ids@),
            xi.value() == ids[index as int],
            forall|q: int| 0 <= q < j && q != index ==> ids[q] != ids[index as int],
            forall|q: int|
                0 <= q < j && q != index ==> is_inverse(
                    fsub(ids[index as int] as nat, #[trigger] ids[q] as nat),
                    finv(fsub(ids[index as int] as nat, ids[q] as nat)),
                ),
            acc.value() == lagrange_product(points, index as int, j as int),
        decreases ids.len() - j,
    {
        if j != index {
            let xj = FieldElement::from_u64(ids[j]);
            let difference = xi.sub(&xj);
            match difference.invert() {
                Some(inverse) => {
                    let factor = xj.neg().mul(&inverse);
                    acc = acc.mul(&factor);
                },
                None => {
                    proof {
                        if ids[j as int] != ids[index as int] {
                            lemma_distinct_points(ids[index as int], ids[j as int]);
                        }
                    }
                    return None;
                },
            }
            proof {
                if ids[j as int] == ids[index as int] {
                    let m = modulus() as int;
                    vstd::arithmetic::div_mod::lemma_fundamental_div_mod_converse(m, m, 1, 0);
                }
            }
        }
        j += 1;
    }
    Some(acc)
}

/// The Lagrange coefficients at zero of all the ids; nothing where an id
/// occurs twice.
pub fn lagrange_coefficients(ids: &Vec<u64>) -> (r: Option<Vec<FieldElement>>)
    ensures
        r is Some <==> all_distinct(ids@),
        r matches Some(cs) ==> values(cs@) == lagrange_coefficients_at_zero(points_of(ids@)),
        r is Some ==> differences_invertible(points_of(ids@)),
{
    let mut out: Vec<FieldElement> = Vec::new();
    let mut i: usize = 0;
    while i < ids.len()
        invariant
            i <= ids.len(),
            out.len() == i,
            forall|a: int, b: int| 0 <= a < i && 0 <= b < ids.len() && a != b ==> ids[a] != ids[b],
            forall|a: int, b: int|
                #![trigger ids[a], ids[b]]
                0 <= a < i && 0 <= b < ids.len() && a != b ==> is_inverse(
                    fsub(ids[a] as nat, ids[b] as nat),
                    finv(fsub(ids[a] as nat, ids[b] as nat)),
                ),
            forall|k: int|
                0 <= k < i ==> out[k].value() == lagrange_at_zero(points_of(ids@), k),
        decreases ids.len() - i,
    {
        match lagrange_coefficient(ids, i) {
            Some(c) => {
                out.push(c);
            },
            None => {
                return None;
            },
        }
        i += 1;
    }
    assert(values(out@) =~= lagrange_coefficients_at_zero(points_of(ids@)));
    proof {
        let points = points_of(ids@);
        assert forall|a: int, b: int|
            #![trigger points[a], points[b]]
            0 <= a < points.len() && 0 <= b < points.len() && a != b implies is_inverse(
            fsub(points[a], points[b]),
            finv(fsub(points[a], points[b])),
        ) by {
            assert(is_inverse(
                fsub(ids[a] as nat, ids[b] as nat),
                finv(fsub(ids[a] as nat, ids[b] as nat)),
            ));
        }
    }
    Some(out)
}

/// Whether the value of every share is the value at its id of the
/// polynomial with the given coefficients.
pub open spec fn lie_on(shares: Seq<SecretShare>, coefficients: Seq<nat>) -> bool {
    forall|i: int|
        0 <= i < shares.len() ==> (#[trigger] shares[i]).spec_value().value() == evaluate(
            coefficients,
            shares[i].spec_agent_id() as nat,
        )
}

/// An id is a residue.
pub proof fn lemma_points_canonical(ids: Seq<u64>)
    ensures
        canonical(points_of(ids)),
{
}

/// What a row of shares rebuilds at zero: the sum of their values, each
/// weighted by the Lagrange coefficient of its id.
pub open spec fn reconstruction(shares: Seq<SecretShare>) -> nat {
    dot(lagrange_coefficients_at_zero(points_of(share_ids(shares))), share_values(shares))
}

/// Rebuilds the value at zero from a row of shares; nothing where two
/// shares have one id. Shares of distinct agents that lie on a polynomial
/// with no more coefficients than there are shares rebuild its value at
/// zero: as many shares of a split as its threshold asks for, or more,
/// rebuild the secret, whichever they are.
pub fn reconstruct(shares: &Vec<SecretShare>) -> (r: Option<FieldElement>)
    ensures
        r is Some <==> all_distinct(share_ids(shares@)),
        r matches Some(s) ==> s.value() == reconstruction(shares@),
        r matches Some(s) ==> forall|coefficients: Seq<nat>|
            coefficients.len() <= shares.len() && #[trigger] lie_on(shares@, coefficients)
                ==> s.value() == evaluate(coefficients, 0),
        r matches Some(s) ==> forall|secret: nat, coefficients: Seq<nat>|
            secret < modulus() && coefficients.len() < shares.len() && lie_on(
                shares@,
                #[trigger] polynomial(secret, coefficients),
            ) ==> s.value() == secret,
{
    let mut ids: Vec<u64> = Vec::new();
    let mut shares_values: Vec<FieldElement> = Vec::new();
    let mut i: usize = 0;
    while i < shares.len()
        invariant
            i <= shares.len(),
            ids.len() == i,
            shares_values.len() == i,
            forall|k: int| 0 <= k < i ==> ids[k] == shares[k].spec_agent_id(),
            forall|k: int| 0 <= k < i ==> shares_values[k] == shares[k].spec_value(),
        decreases shares.len() - i,
    {
        ids.push(shares[i].agent_id());
        shares_values.push(shares[i].value());
        i += 1;
    }
    assert(ids@ =~= share_ids(shares@));
    assert(values(shares_values@) =~= share_values(shares@));
    match lagrange_coefficients(&ids) {
        Some(coefficients) => {
            assert(values(coefficients@).len() == ids.len());
            let rebuilt = dot_product(&coefficients, &shares_values);
            proof {
                let points = points_of(ids@);
                lemma_points_canonical(ids@);
                assert forall|f: Seq<nat>|
                    f.len() <= shares.len() && #[trigger] lie_on(shares@, f) implies rebuilt.value()
                    == evaluate(f, 0) by {
                    assert forall|i: int| 0 <= i < shares.len() implies share_values(shares@)[i]
                        == evaluations(f, points)[i] by {
                        assert(shares@[i].spec_value().value() == evaluate(
                            f,
                            shares@[i].spec_agent_id() as nat,
                        ));
                    }
                    assert(share_values(shares@) =~= evaluations(f, points));
                    lemma_interpolation_at_zero(points, f);
                }
                assert forall|secret: nat, tail: Seq<nat>|
                    secret < modulus() && tail.len() < shares.len() && lie_on(
                        shares@,
                        #[trigger] polynomial(secret, tail),
                    ) implies rebuilt.value() == secret by {
                    lemma_polynomial_at_zero(secret, tail);
                }
            }
            Some(rebuilt)
        },
        None => None,
    }
}

} // verus!
