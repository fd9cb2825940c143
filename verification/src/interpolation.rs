//! Why Shamir's scheme gives the secret back: the Lagrange coefficients at
//! zero of any points weigh the values of a polynomial at those points to
//! its value at zero, as long as the polynomial has no more coefficients
//! than there are points and the differences of the points have inverses.

use crate::field::{fadd, finv, fmul, fsub, is_inverse, modulus};
use crate::poseidon::matrix::dot;
use crate::ring::{
    congruent, lemma_congruent_residues, lemma_fadd_associates, lemma_fadd_congruent,
    lemma_fadd_rearranges, lemma_fadd_units, lemma_fmul_associates, lemma_fmul_commutes,
    lemma_fmul_congruent, lemma_fmul_distributes, lemma_fmul_swaps, lemma_fmul_units,
    lemma_fsub_congruent, lemma_inverse_cancels,
};
use crate::secret_sharing::{
    evaluate, lagrange_at_zero, lagrange_coefficients_at_zero, lagrange_factor, lagrange_product,
};
use vstd::arithmetic::div_mod::lemma_mod_bound;
use vstd::prelude::*;

verus! {

/// Whether every number of the row is a residue.
pub open spec fn canonical(row: Seq<nat>) -> bool {
    forall|i: int| 0 <= i < row.len() ==> #[trigger] row[i] < modulus()
}

/// Whether the difference of any two of the points has an inverse.
pub open spec fn differences_invertible(points: Seq<nat>) -> bool {
    forall|i: int, j: int|
        #![trigger points[i], points[j]]
        0 <= i < points.len() && 0 <= j < points.len() && i != j ==> is_inverse(
            fsub(points[i], points[j]),
            finv(fsub(points[i], points[j])),
        )
}

/// A row of `n` times the same number.
pub open spec fn constant(n: nat, c: nat) -> Seq<nat> {
    Seq::new(n, |i: int| c)
}

/// A row with every entry multiplied by `c`.
pub open spec fn scaled(c: nat, row: Seq<nat>) -> Seq<nat> {
    Seq::new(row.len(), |i: int| fmul(c, row[i]))
}

/// The values of a polynomial at the points.
pub open spec fn evaluations(coefficients: Seq<nat>, points: Seq<nat>) -> Seq<nat> {
    Seq::new(points.len(), |i: int| evaluate(coefficients, points[i]))
}

/// Every entry of a row of differences to `c`, multiplied by the entry of
/// another row.
pub open spec fn shifted(points: Seq<nat>, c: nat, row: Seq<nat>) -> Seq<nat> {
    Seq::new(points.len(), |i: int| fmul(fsub(points[i], c), row[i]))
}

/// The quotient of a polynomial by `X - c`.
pub open spec fn quotient(coefficients: Seq<nat>, c: nat) -> Seq<nat>
    decreases coefficients.len(),
{
    if coefficients.len() <= 1 {
        Seq::empty()
    } else {
        seq![evaluate(coefficients.skip(1), c)] + quotient(coefficients.skip(1), c)
    }
}

/// The quotient has one coefficient less.
pub proof fn lemma_quotient_len(coefficients: Seq<nat>, c: nat)
    ensures
        quotient(coefficients, c).len() == if coefficients.len() == 0 {
            0
        } else {
            coefficients.len() - 1
        },
    decreases coefficients.len(),
{
    if coefficients.len() > 1 {
        lemma_quotient_len(coefficients.skip(1), c);
    }
}

/// A value of a polynomial is a residue.
pub proof fn lemma_evaluate_canonical(coefficients: Seq<nat>, x: nat)
    ensures
        evaluate(coefficients, x) < modulus(),
{
    if coefficients.len() > 0 {
        let rest = evaluate(coefficients.skip(1), x);
        lemma_mod_bound((coefficients[0] + fmul(x, rest)) as int, modulus() as int);
    }
}

/// An inner product is a residue.
pub proof fn lemma_dot_canonical(a: Seq<nat>, b: Seq<nat>)
    ensures
        dot(a, b) < modulus(),
{
    if a.len() > 0 {
        let inner = dot(a.drop_last(), b.drop_last());
        lemma_mod_bound((inner + fmul(a.last(), b.last())) as int, modulus() as int);
    }
}

/// A factor common to all the entries of the second row can be drawn out
/// of an inner product.
pub proof fn lemma_dot_scaled(a: Seq<nat>, c: nat, row: Seq<nat>)
    requires
        a.len() == row.len(),
    ensures
        dot(a, scaled(c, row)) == fmul(c, dot(a, row)),
    decreases a.len(),
{
    if a.len() == 0 {
        assert(c * 0 == 0) by (nonlinear_arith);
        assert(dot(a, row) == 0);
        assert(dot(a, scaled(c, row)) == 0);
    } else {
        let s = scaled(c, row);
        assert(s.drop_last() =~= scaled(c, row.drop_last()));
        lemma_dot_scaled(a.drop_last(), c, row.drop_last());
        let inner = dot(a.drop_last(), row.drop_last());
        let term = fmul(a.last(), row.last());
        lemma_fmul_swaps(a.last(), c, row.last());
        lemma_fmul_distributes(c, inner, term);
        assert(s.last() == fmul(c, row.last()));
        assert(dot(a, s) == fadd(dot(a.drop_last(), s.drop_last()), fmul(a.last(), s.last())));
        assert(dot(a, row) == fadd(inner, term));
        assert(dot(a, s) == fadd(fmul(c, inner), fmul(c, term)));
    }
}

/// Two inner products whose terms agree one by one are equal.
pub proof fn lemma_dot_termwise(a: Seq<nat>, u: Seq<nat>, b: Seq<nat>, v: Seq<nat>)
    requires
        a.len() == u.len(),
        a.len() == b.len(),
        a.len() == v.len(),
        forall|i: int| 0 <= i < a.len() ==> fmul(a[i], u[i]) == fmul(b[i], v[i]),
    ensures
        dot(a, u) == dot(b, v),
    decreases a.len(),
{
    if a.len() > 0 {
        let last = a.len() - 1;
        assert(fmul(a[last], u[last]) == fmul(b[last], v[last]));
        assert forall|i: int| 0 <= i < a.drop_last().len() implies fmul(
            a.drop_last()[i],
            u.drop_last()[i],
        ) == fmul(b.drop_last()[i], v.drop_last()[i]) by {
            assert(fmul(a[i], u[i]) == fmul(b[i], v[i]));
        }
        lemma_dot_termwise(a.drop_last(), u.drop_last(), b.drop_last(), v.drop_last());
    }
}

/// An inner product whose terms all vanish is zero.
pub proof fn lemma_dot_vanishes(a: Seq<nat>, u: Seq<nat>)
    requires
        a.len() == u.len(),
        forall|i: int| 0 <= i < a.len() ==> fmul(a[i], u[i]) == 0,
    ensures
        dot(a, u) == 0,
    decreases a.len(),
{
    if a.len() > 0 {
        let last = a.len() - 1;
        assert(fmul(a[last], u[last]) == 0);
        assert forall|i: int| 0 <= i < a.drop_last().len() implies fmul(
            a.drop_last()[i],
            u.drop_last()[i],
        ) == 0 by {
            assert(fmul(a[i], u[i]) == 0);
        }
        lemma_dot_vanishes(a.drop_last(), u.drop_last());
        lemma_fadd_units(0);
    }
}

/// The inner product with a row of sums is the sum of the inner products.
pub proof fn lemma_dot_sum(a: Seq<nat>, u: Seq<nat>, v: Seq<nat>, w: Seq<nat>)
    requires
        a.len() == u.len(),
        a.len() == v.len(),
        a.len() == w.len(),
        forall|i: int| 0 <= i < a.len() ==> w[i] == fadd(u[i], v[i]),
    ensures
        dot(a, w) == fadd(dot(a, u), dot(a, v)),
    decreases a.len(),
{
    if a.len() == 0 {
        lemma_fadd_units(0);
    } else {
        let last = a.len() - 1;
        assert(w[last] == fadd(u[last], v[last]));
        assert forall|i: int| 0 <= i < a.drop_last().len() implies w.drop_last()[i] == fadd(
            u.drop_last()[i],
            v.drop_last()[i],
        ) by {
            assert(w[i] == fadd(u[i], v[i]));
        }
        lemma_dot_sum(a.drop_last(), u.drop_last(), v.drop_last(), w.drop_last());
        lemma_fmul_distributes(a.last(), u.last(), v.last());
        lemma_fadd_rearranges(
            dot(a.drop_last(), u.drop_last()),
            dot(a.drop_last(), v.drop_last()),
            fmul(a.last(), u.last()),
            fmul(a.last(), v.last()),
        );
    }
}

/// The first term of an inner product can be taken out of it.
pub proof fn lemma_dot_first(a: Seq<nat>, b: Seq<nat>)
    requires
        a.len() == b.len(),
        a.len() >= 1,
    ensures
        dot(a, b) == fadd(fmul(a[0], b[0]), dot(a.skip(1), b.skip(1))),
    decreases a.len(),
{
    let first = fmul(a[0], b[0]);
    lemma_mod_bound((a[0] * b[0]) as int, modulus() as int);
    if a.len() == 1 {
        assert(a.drop_last().len() == 0);
        assert(a.skip(1).len() == 0);
        assert(dot(a.drop_last(), b.drop_last()) == 0);
        assert(dot(a.skip(1), b.skip(1)) == 0);
        lemma_fadd_units(first);
        assert(a.last() == a[0] && b.last() == b[0]);
    } else {
        lemma_dot_first(a.drop_last(), b.drop_last());
        assert(a.skip(1).drop_last() =~= a.drop_last().skip(1));
        assert(b.skip(1).drop_last() =~= b.drop_last().skip(1));
        assert(a.skip(1).last() == a.last() && b.skip(1).last() == b.last());
        assert(a.drop_last()[0] == a[0] && b.drop_last()[0] == b[0]);
        lemma_fadd_associates(
            first,
            dot(a.drop_last().skip(1), b.drop_last().skip(1)),
            fmul(a.last(), b.last()),
        );
    }
}

/// A product of Lagrange factors looks at the points before `n` and at
/// point `i` only.
pub proof fn lemma_product_prefix(p: Seq<nat>, q: Seq<nat>, i: int, n: int)
    requires
        0 <= n <= p.len(),
        n <= q.len(),
        0 <= i < p.len(),
        i < q.len(),
        p[i] == q[i],
        forall|k: int| 0 <= k < n ==> p[k] == q[k],
    ensures
        lagrange_product(p, i, n) == lagrange_product(q, i, n),
    decreases n,
{
    if n > 0 {
        lemma_product_prefix(p, q, i, n - 1);
        assert(p[n - 1] == q[n - 1]);
    }
}

/// The coefficient of a point among all the points is its coefficient
/// among all but the last, times its factor against the last.
pub proof fn lemma_coefficient_without_last(points: Seq<nat>, i: int)
    requires
        0 <= i < points.len() - 1,
    ensures
        lagrange_at_zero(points, i) == fmul(
            lagrange_at_zero(points.drop_last(), i),
            lagrange_factor(points[i], points.last()),
        ),
{
    let n = points.len() as int;
    lemma_product_prefix(points, points.drop_last(), i, n - 1);
}

/// The product of the factors of a point that is not the first is its
/// factor against the first, times the product without the first.
pub proof fn lemma_product_without_first(points: Seq<nat>, i: int, n: int)
    requires
        1 <= i < points.len(),
        1 <= n <= points.len(),
    ensures
        lagrange_product(points, i, n) == fmul(
            lagrange_factor(points[i], points[0]),
            lagrange_product(points.skip(1), i - 1, n - 1),
        ),
    decreases n,
{
    let rest = points.skip(1);
    let first = lagrange_factor(points[i], points[0]);
    lemma_mod_bound(
        (fsub(0, points[0]) * finv(fsub(points[i], points[0]))) as int,
        modulus() as int,
    );
    if n == 1 {
        lemma_fmul_units(first);
        assert(lagrange_product(points, i, 0) == 1);
        assert(lagrange_product(rest, i - 1, 0) == 1);
    } else {
        lemma_product_without_first(points, i, n - 1);
        if n - 1 != i {
            let inner = lagrange_product(rest, i - 1, n - 2);
            let factor = lagrange_factor(points[i], points[n - 1]);
            assert(rest[i - 1] == points[i] && rest[n - 2] == points[n - 1]);
            lemma_fmul_associates(first, inner, factor);
        }
    }
}

/// A factor times the difference it divides by is the negated point.
pub proof fn lemma_factor_cancels(xi: nat, xj: nat)
    requires
        is_inverse(fsub(xi, xj), finv(fsub(xi, xj))),
    ensures
        fmul(lagrange_factor(xi, xj), fsub(xi, xj)) == fsub(0, xj),
{
    lemma_fsub_congruent(0, xj, 0, xj as int);
    lemma_inverse_cancels(fsub(xi, xj), finv(fsub(xi, xj)), fsub(0, xj));
}

/// All but the last of points with invertible differences have
/// invertible differences, and so have all but the first.
pub proof fn lemma_fewer_points(points: Seq<nat>)
    requires
        points.len() >= 1,
        canonical(points),
        differences_invertible(points),
    ensures
        canonical(points.drop_last()),
        differences_invertible(points.drop_last()),
        canonical(points.skip(1)),
        differences_invertible(points.skip(1)),
{
    let front = points.drop_last();
    let back = points.skip(1);
    assert forall|i: int| 0 <= i < front.len() implies #[trigger] front[i] < modulus() by {
        assert(points[i] < modulus());
    }
    assert forall|i: int| 0 <= i < back.len() implies #[trigger] back[i] < modulus() by {
        assert(points[i + 1] < modulus());
    }
    assert forall|i: int, j: int|
        #![trigger front[i], front[j]]
        0 <= i < front.len() && 0 <= j < front.len() && i != j implies is_inverse(
        fsub(front[i], front[j]),
        finv(fsub(front[i], front[j])),
    ) by {
        assert(is_inverse(fsub(points[i], points[j]), finv(fsub(points[i], points[j]))));
    }
    assert forall|i: int, j: int|
        #![trigger back[i], back[j]]
        0 <= i < back.len() && 0 <= j < back.len() && i != j implies is_inverse(
        fsub(back[i], back[j]),
        finv(fsub(back[i], back[j])),
    ) by {
        assert(is_inverse(
            fsub(points[i + 1], points[j + 1]),
            finv(fsub(points[i + 1], points[j + 1])),
        ));
    }
}

/// The coefficients weigh the differences to the last point, each times
/// the entry of a row, as the coefficients without the last point weigh
/// the row, times the negated last point.
pub proof fn lemma_weighted_without_last(points: Seq<nat>, row: Seq<nat>)
    requires
        points.len() >= 1,
        row.len() == points.len(),
        canonical(points),
        differences_invertible(points),
    ensures
        dot(
            lagrange_coefficients_at_zero(points),
            shifted(points, points.last(), row),
        ) == fmul(
            fsub(0, points.last()),
            dot(lagrange_coefficients_at_zero(points.drop_last()), row.drop_last()),
        ),
{
    let t = points.len() as int;
    let c = points.last();
    let negated = fsub(0, c);
    let all = lagrange_coefficients_at_zero(points);
    let fewer = lagrange_coefficients_at_zero(points.drop_last());
    let w = shifted(points, c, row);
    // the last term vanishes
    assert(points[t - 1] < modulus());
    lemma_fadd_units(c);
    assert(w.last() == fmul(0, row.last()));
    assert(0 * row.last() == 0) by (nonlinear_arith);
    assert(fmul(all.last(), w.last()) == 0) by {
        assert(all.last() * 0 == 0) by (nonlinear_arith);
    }
    lemma_dot_canonical(all.drop_last(), w.drop_last());
    lemma_fadd_units(dot(all.drop_last(), w.drop_last()));
    // the other terms lose their difference
    let target = scaled(negated, row.drop_last());
    assert forall|i: int| 0 <= i < t - 1 implies fmul(all.drop_last()[i], w.drop_last()[i])
        == fmul(fewer[i], target[i]) by {
        let factor = lagrange_factor(points[i], c);
        let difference = fsub(points[i], c);
        assert(is_inverse(
            fsub(points[i], points[t - 1]),
            finv(fsub(points[i], points[t - 1])),
        ));
        lemma_coefficient_without_last(points, i);
        lemma_factor_cancels(points[i], c);
        lemma_fmul_associates(fewer[i], factor, fmul(difference, row[i]));
        lemma_fmul_associates(factor, difference, row[i]);
    }
    lemma_dot_termwise(all.drop_last(), w.drop_last(), fewer, target);
    lemma_dot_scaled(fewer, negated, row.drop_last());
}

/// The same with the first point in the place of the last.
pub proof fn lemma_weighted_without_first(points: Seq<nat>, row: Seq<nat>)
    requires
        points.len() >= 1,
        row.len() == points.len(),
        canonical(points),
        differences_invertible(points),
    ensures
        dot(lagrange_coefficients_at_zero(points), shifted(points, points[0], row)) == fmul(
            fsub(0, points[0]),
            dot(lagrange_coefficients_at_zero(points.skip(1)), row.skip(1)),
        ),
{
    let t = points.len() as int;
    let c = points[0];
    let negated = fsub(0, c);
    let all = lagrange_coefficients_at_zero(points);
    let rest = points.skip(1);
    let fewer = lagrange_coefficients_at_zero(rest);
    let w = shifted(points, c, row);
    // the first term vanishes
    assert(points[0] < modulus());
    lemma_fadd_units(c);
    assert(w[0] == fmul(0, row[0]));
    assert(0 * row[0] == 0) by (nonlinear_arith);
    assert(fmul(all[0], w[0]) == 0) by {
        assert(all[0] * 0 == 0) by (nonlinear_arith);
    }
    lemma_dot_first(all, w);
    lemma_dot_canonical(all.skip(1), w.skip(1));
    lemma_fadd_units(dot(all.skip(1), w.skip(1)));
    // the other terms lose their difference
    let target = scaled(negated, row.skip(1));
    assert forall|i: int| 0 <= i < t - 1 implies fmul(all.skip(1)[i], w.skip(1)[i]) == fmul(
        fewer[i],
        target[i],
    ) by {
        let x = points[i + 1];
        let factor = lagrange_factor(x, c);
        let difference = fsub(x, c);
        assert(rest[i] == x);
        assert(is_inverse(
            fsub(points[i + 1], points[0]),
            finv(fsub(points[i + 1], points[0])),
        ));
        lemma_product_without_first(points, i + 1, t);
        assert(all[i + 1] == fmul(factor, fewer[i]));
        lemma_factor_cancels(x, c);
        lemma_fmul_commutes(factor, fewer[i]);
        lemma_fmul_associates(fewer[i], factor, fmul(difference, row[i + 1]));
        lemma_fmul_associates(factor, difference, row[i + 1]);
    }
    lemma_dot_termwise(all.skip(1), w.skip(1), fewer, target);
    lemma_dot_scaled(fewer, negated, row.skip(1));
}

/// The Lagrange coefficients at zero of points with invertible differences
/// add up to one.
pub proof fn lemma_coefficients_sum_to_one(points: Seq<nat>)
    requires
        points.len() >= 1,
        canonical(points),
        differences_invertible(points),
    ensures
        dot(lagrange_coefficients_at_zero(points), constant(points.len(), 1)) == 1,
    decreases points.len(),
{
    let t = points.len() as int;
    let all = lagrange_coefficients_at_zero(points);
    let ones = constant(points.len(), 1);
    if t == 1 {
        assert(all.drop_last().len() == 0);
        assert(dot(all.drop_last(), ones.drop_last()) == 0);
        assert(all.last() == lagrange_product(points, 0, 1));
        assert(lagrange_product(points, 0, 0) == 1);
        lemma_fmul_units(1);
        lemma_fadd_units(1);
    } else {
        let a = points[0];
        let b = points.last();
        let d = fsub(a, b);
        let inverse = finv(d);
        assert(is_inverse(fsub(points[0], points[t - 1]), finv(fsub(points[0], points[t - 1]))));
        lemma_fewer_points(points);
        lemma_coefficients_sum_to_one(points.drop_last());
        lemma_coefficients_sum_to_one(points.skip(1));
        let fewer_ones = constant((t - 1) as nat, 1);
        assert(ones.drop_last() =~= fewer_ones);
        assert(ones.skip(1) =~= fewer_ones);
        lemma_weighted_without_last(points, ones);
        lemma_weighted_without_first(points, ones);
        let to_b = shifted(points, b, ones);
        let to_a = shifted(points, a, ones);
        let minus_b = fsub(0, b);
        let minus_a = fsub(0, a);
        lemma_fsub_congruent(0, b, 0, b as int);
        lemma_fsub_congruent(0, a, 0, a as int);
        lemma_fmul_units(minus_b);
        lemma_fmul_units(minus_a);
        assert(dot(all, to_b) == minus_b);
        assert(dot(all, to_a) == minus_a);
        // every difference to b is the difference to a plus d
        lemma_fsub_congruent(a, b, a as int, b as int);
        lemma_fmul_units(d);
        let ds = scaled(d, ones);
        assert forall|i: int| 0 <= i < t implies to_b[i] == fadd(to_a[i], ds[i]) by {
            let x = points[i];
            lemma_fsub_congruent(x, b, x as int, b as int);
            lemma_fsub_congruent(x, a, x as int, a as int);
            lemma_fmul_units(fsub(x, b));
            lemma_fmul_units(fsub(x, a));
            lemma_fadd_congruent(fsub(x, a), d, x - a, a - b);
            lemma_congruent_residues(fsub(x, b), fadd(fsub(x, a), d));
        }
        lemma_dot_sum(all, to_a, ds, to_b);
        lemma_dot_scaled(all, d, ones);
        let sum = dot(all, ones);
        lemma_dot_canonical(all, ones);
        // d * sum = (-b) - (-a) = d
        let product = fmul(d, sum);
        lemma_fmul_congruent(d, sum, d as int, sum as int);
        assert(minus_b == fadd(minus_a, product));
        lemma_fadd_congruent(minus_a, product, -(a as int), product as int);
        assert(congruent(product as int, a - b)) by {
            vstd::arithmetic::div_mod::lemma_mod_equivalence(
                -(b as int),
                -(a as int) + product as int,
                modulus() as int,
            );
            vstd::arithmetic::div_mod::lemma_mod_equivalence(
                a - b,
                product as int,
                modulus() as int,
            );
        }
        lemma_congruent_residues(product, d);
        lemma_inverse_cancels(d, inverse, sum);
        lemma_fmul_commutes(inverse, d);
    }
}

/// A polynomial is its value at `c` plus `X - c` times its quotient by
/// `X - c`.
pub proof fn lemma_synthetic_division(coefficients: Seq<nat>, c: nat, x: nat)
    ensures
        evaluate(coefficients, x) == fadd(
            evaluate(coefficients, c),
            fmul(fsub(x, c), evaluate(quotient(coefficients, c), x)),
        ),
    decreases coefficients.len(),
{
    let f = coefficients;
    let d = fsub(x, c);
    lemma_fsub_congruent(x, c, x as int, c as int);
    if f.len() == 0 {
        assert(d * 0 == 0) by (nonlinear_arith);
        lemma_fadd_units(0);
    } else if f.len() == 1 {
        assert(f.skip(1).len() == 0);
        assert(evaluate(f.skip(1), x) == 0 && evaluate(f.skip(1), c) == 0);
        assert(x * 0 == 0 && c * 0 == 0 && d * 0 == 0) by (nonlinear_arith);
        lemma_evaluate_canonical(f, c);
        lemma_fadd_units(evaluate(f, c));
    } else {
        let rest = f.skip(1);
        let g = quotient(f, c);
        let at_c = evaluate(rest, c);
        let q = evaluate(quotient(rest, c), x);
        lemma_synthetic_division(rest, c, x);
        assert(g.skip(1) =~= quotient(rest, c));
        assert(g[0] == at_c);
        // rest(x) = rest(c) + d q
        let (f0, xi, ci, ai, qi) = (f[0] as int, x as int, c as int, at_c as int, q as int);
        lemma_fmul_congruent(d, q, xi - ci, qi);
        lemma_fadd_congruent(at_c, fmul(d, q), ai, (xi - ci) * qi);
        // left: f0 + x rest(x)
        lemma_fmul_congruent(x, evaluate(rest, x), xi, ai + (xi - ci) * qi);
        lemma_fadd_congruent(
            f[0],
            fmul(x, evaluate(rest, x)),
            f0,
            xi * (ai + (xi - ci) * qi),
        );
        // right: f0 + c rest(c) + d (rest(c) + x q)
        lemma_fmul_congruent(c, at_c, ci, ai);
        lemma_fadd_congruent(f[0], fmul(c, at_c), f0, ci * ai);
        lemma_fmul_congruent(x, q, xi, qi);
        lemma_fadd_congruent(at_c, fmul(x, q), ai, xi * qi);
        lemma_fmul_congruent(d, evaluate(g, x), xi - ci, ai + xi * qi);
        lemma_fadd_congruent(
            evaluate(f, c),
            fmul(d, evaluate(g, x)),
            f0 + ci * ai,
            (xi - ci) * (ai + xi * qi),
        );
        assert(f0 + xi * (ai + (xi - ci) * qi) == f0 + ci * ai + (xi - ci) * (ai + xi * qi))
            by (nonlinear_arith);
        lemma_congruent_residues(
            evaluate(f, x),
            fadd(evaluate(f, c), fmul(d, evaluate(g, x))),
        );
    }
}

/// Lagrange interpolation at zero: the coefficients of points with
/// invertible differences weigh the values of a polynomial at the points
/// to its value at zero, where the polynomial has no more coefficients
/// than there are points.
pub proof fn lemma_interpolation_at_zero(points: Seq<nat>, coefficients: Seq<nat>)
    requires
        coefficients.len() <= points.len(),
        canonical(points),
        differences_invertible(points),
    ensures
        dot(lagrange_coefficients_at_zero(points), evaluations(coefficients, points)) == evaluate(
            coefficients,
            0,
        ),
    decreases points.len(),
{
    let t = points.len() as int;
    let f = coefficients;
    let all = lagrange_coefficients_at_zero(points);
    let values = evaluations(f, points);
    if f.len() == 0 {
        assert forall|i: int| 0 <= i < t implies fmul(all[i], values[i]) == 0 by {
            assert(all[i] * 0 == 0) by (nonlinear_arith);
        }
        lemma_dot_vanishes(all, values);
    } else {
        let c = points.last();
        let g = quotient(f, c);
        let at_c = evaluate(f, c);
        let ones = constant(points.len(), 1);
        let constants = scaled(at_c, ones);
        let row = evaluations(g, points);
        let w = shifted(points, c, row);
        lemma_quotient_len(f, c);
        lemma_evaluate_canonical(f, c);
        lemma_fmul_units(at_c);
        assert forall|i: int| 0 <= i < t implies values[i] == fadd(constants[i], w[i]) by {
            lemma_synthetic_division(f, c, points[i]);
        }
        lemma_dot_sum(all, constants, w, values);
        lemma_dot_scaled(all, at_c, ones);
        lemma_coefficients_sum_to_one(points);
        lemma_weighted_without_last(points, row);
        lemma_fewer_points(points);
        assert(row.drop_last() =~= evaluations(g, points.drop_last()));
        lemma_interpolation_at_zero(points.drop_last(), g);
        lemma_synthetic_division(f, c, 0);
    }
}

} // verus!
