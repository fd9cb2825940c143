//! Linear algebra over the field, as far as deriving the parameters asks
//! for it: transposition, products, Cauchy matrices and inverses.

use crate::field::{fadd, finv, fmul, fsub, FieldElement};
use crate::poseidon::matrix::{dot, dot_product, has_shape, mat_vec, matrix_values};
use crate::poseidon::state::values;
use vstd::prelude::*;

verus! {

/// The `n`-by-`n` identity matrix.
pub open spec fn identity(n: nat) -> Seq<Seq<nat>> {
    Seq::new(
        n,
        |i: int|
            Seq::new(
                n,
                |j: int|
                    if i == j {
                        1nat
                    } else {
                        0nat
                    },
            ),
    )
}

/// Column `j` of a matrix.
pub open spec fn column(m: Seq<Seq<nat>>, j: int) -> Seq<nat> {
    Seq::new(m.len(), |i: int| m[i][j])
}

/// The transpose of a square matrix.
pub open spec fn transpose(m: Seq<Seq<nat>>) -> Seq<Seq<nat>> {
    Seq::new(m.len(), |j: int| column(m, j))
}

/// The product of two square matrices of one size.
pub open spec fn mat_mul(a: Seq<Seq<nat>>, b: Seq<Seq<nat>>) -> Seq<Seq<nat>> {
    Seq::new(a.len(), |i: int| Seq::new(b.len(), |j: int| dot(a[i], column(b, j))))
}

/// Whether the Cauchy matrix of `xs` and `ys` exists: no `x + y` is zero.
pub open spec fn cauchy_defined(xs: Seq<nat>, ys: Seq<nat>) -> bool {
    forall|i: int, j: int|
        0 <= i < xs.len() && 0 <= j < ys.len() ==> #[trigger] fadd(xs[i], ys[j]) != 0
}

/// The Cauchy matrix of `xs` and `ys`: entry `(i, j)` is `1 / (x_i + y_j)`.
pub open spec fn cauchy(xs: Seq<nat>, ys: Seq<nat>) -> Seq<Seq<nat>> {
    Seq::new(xs.len(), |i: int| Seq::new(ys.len(), |j: int| finv(fadd(xs[i], ys[j]))))
}

/// A square matrix with the identity written to its right.
pub open spec fn augment(m: Seq<Seq<nat>>) -> Seq<Seq<nat>> {
    Seq::new(m.len(), |i: int| m[i] + identity(m.len())[i])
}

/// The row `target - factor * source`.
pub open spec fn row_axpy(target: Seq<nat>, source: Seq<nat>, factor: nat) -> Seq<nat> {
    Seq::new(target.len(), |k: int| fsub(target[k], fmul(factor, source[k])))
}

/// Clears column `i` in every row but row `i`, by subtracting multiples of
/// row `i`.
pub open spec fn pivot_step(m: Seq<Seq<nat>>, i: int) -> Seq<Seq<nat>> {
    Seq::new(
        m.len(),
        |j: int|
            if j == i {
                m[i]
            } else {
                row_axpy(m[j], m[i], fmul(m[j][i], finv(m[i][i])))
            },
    )
}

/// The first `n` pivot steps, in order, with no exchange of rows; nothing
/// where a pivot is zero.
pub open spec fn eliminate(m: Seq<Seq<nat>>, n: nat) -> Option<Seq<Seq<nat>>>
    decreases n,
{
    if n == 0 {
        Some(m)
    } else {
        match eliminate(m, (n - 1) as nat) {
            Some(a) => if a[n - 1][n - 1] == 0 {
                None
            } else {
                Some(pivot_step(a, n - 1))
            },
            None => None,
        }
    }
}

/// Whether every entry on the diagonal is non-zero.
pub open spec fn diagonal_nonzero(a: Seq<Seq<nat>>) -> bool {
    forall|i: int| 0 <= i < a.len() ==> (#[trigger] a[i])[i] != 0
}

/// The right half of an eliminated matrix, each row divided by its entry
/// on the diagonal.
pub open spec fn normalise(a: Seq<Seq<nat>>) -> Seq<Seq<nat>> {
    Seq::new(
        a.len(),
        |i: int| Seq::new(a.len(), |j: int| fmul(a[i][a.len() + j], finv(a[i][i]))),
    )
}

/// The inverse of a square matrix by Gauss-Jordan elimination without
/// exchange of rows; nothing where the elimination meets a zero pivot.
pub open spec fn inverse(m: Seq<Seq<nat>>) -> Option<Seq<Seq<nat>>> {
    match eliminate(augment(m), m.len()) {
        Some(a) => if diagonal_nonzero(a) {
            Some(normalise(a))
        } else {
            None
        },
        None => None,
    }
}

/// An elimination that has failed stays failed.
pub proof fn lemma_eliminate_fails(m: Seq<Seq<nat>>, k: nat, n: nat)
    requires
        eliminate(m, k) is None,
        k <= n,
    ensures
        eliminate(m, n) is None,
    decreases n,
{
    if k < n {
        lemma_eliminate_fails(m, k, (n - 1) as nat);
    }
}

/// A pivot step keeps the shape of a matrix.
pub proof fn lemma_pivot_shape(m: Seq<Seq<nat>>, i: int, rows: nat, cols: nat)
    requires
        has_shape(m, rows, cols),
        0 <= i < rows,
    ensures
        has_shape(pivot_step(m, i), rows, cols),
{
    assert forall|j: int| 0 <= j < rows implies (#[trigger] pivot_step(m, i)[j]).len() == cols by {
        assert(m[j].len() == cols);
        assert(m[i].len() == cols);
    }
}

/// Column `j` of a matrix whose rows all reach that far.
pub fn column_of(m: &Vec<Vec<FieldElement>>, j: usize) -> (r: Vec<FieldElement>)
    requires
        forall|i: int| 0 <= i < m.len() ==> j < (#[trigger] m[i]).len(),
    ensures
        values(r@) == column(matrix_values(m@), j as int),
{
    let mut out: Vec<FieldElement> = Vec::new();
    let mut i: usize = 0;
    while i < m.len()
        invariant
            i <= m.len(),
            out.len() == i,
            forall|k: int| 0 <= k < m.len() ==> j < (#[trigger] m[k]).len(),
            forall|k: int| 0 <= k < i ==> out[k].value() == m[k][j as int].value(),
        decreases m.len() - i,
    {
        out.push(m[i][j]);
        i += 1;
    }
    assert(values(out@) =~= column(matrix_values(m@), j as int));
    out
}

/// The transpose of a square matrix.
pub fn transpose_rows(m: &Vec<Vec<FieldElement>>) -> (r: Vec<Vec<FieldElement>>)
    requires
        has_shape(matrix_values(m@), m.len() as nat, m.len() as nat),
    ensures
        matrix_values(r@) == transpose(matrix_values(m@)),
        has_shape(matrix_values(r@), m.len() as nat, m.len() as nat),
{
    let n = m.len();
    let ghost mv = matrix_values(m@);
    assert forall|k: int| 0 <= k < n implies (#[trigger] m[k]).len() == n by {
        assert(mv[k].len() == n);
    }
    let mut out: Vec<Vec<FieldElement>> = Vec::new();
    let mut j: usize = 0;
    while j < n
        invariant
            j <= n,
            n == m.len(),
            mv == matrix_values(m@),
            out.len() == j,
            forall|k: int| 0 <= k < n ==> (#[trigger] m[k]).len() == n,
            forall|k: int| 0 <= k < j ==> values((#[trigger] out[k])@) == column(mv, k),
        decreases n - j,
    {
        let c = column_of(m, j);
        out.push(c);
        j += 1;
    }
    assert(matrix_values(out@) =~= transpose(mv));
    assert forall|k: int| 0 <= k < n implies (#[trigger] matrix_values(out@)[k]).len() == n by {
        assert(values(out[k]@) == column(mv, k));
    }
    out
}

/// The product of two square matrices of one size.
pub fn multiply_rows(a: &Vec<Vec<FieldElement>>, b: &Vec<Vec<FieldElement>>) -> (r: Vec<
    Vec<FieldElement>,
>)
    requires
        has_shape(matrix_values(a@), a.len() as nat, a.len() as nat),
        has_shape(matrix_values(b@), a.len() as nat, a.len() as nat),
    ensures
        matrix_values(r@) == mat_mul(matrix_values(a@), matrix_values(b@)),
        has_shape(matrix_values(r@), a.len() as nat, a.len() as nat),
{
    let n = a.len();
    let ghost av = matrix_values(a@);
    let ghost bv = matrix_values(b@);
    let bt = transpose_rows(b);
    assert forall|k: int| 0 <= k < n implies (#[trigger] a[k]).len() == n by {
        assert(av[k].len() == n);
    }
    assert forall|k: int| 0 <= k < n implies (#[trigger] bt[k]).len() == n && values(bt[k]@)
        == column(bv, k) by {
        assert(matrix_values(bt@)[k].len() == n);
        assert(matrix_values(bt@)[k] == transpose(bv)[k]);
    }
    let mut out: Vec<Vec<FieldElement>> = Vec::new();
    let mut i: usize = 0;
    while i < n
        invariant
            i <= n,
            n == a.len(),
            n == bt.len(),
            n == bv.len(),
            av == matrix_values(a@),
            out.len() == i,
            forall|k: int| 0 <= k < n ==> (#[trigger] a[k]).len() == n,
            forall|k: int|
                0 <= k < n ==> (#[trigger] bt[k]).len() == n && values(bt[k]@) == column(bv, k),
            forall|k: int| 0 <= k < i ==> values((#[trigger] out[k])@) == mat_mul(av, bv)[k],
        decreases n - i,
    {
        let mut row: Vec<FieldElement> = Vec::new();
        let mut j: usize = 0;
        while j < n
            invariant
                j <= n,
                i < n,
                n == a.len(),
                n == bt.len(),
                av == matrix_values(a@),
                row.len() == j,
                forall|k: int| 0 <= k < n ==> (#[trigger] a[k]).len() == n,
                forall|k: int|
                    0 <= k < n ==> (#[trigger] bt[k]).len() == n && values(bt[k]@) == column(
                        bv,
                        k,
                    ),
                forall|k: int| 0 <= k < j ==> row[k].value() == dot(av[i as int], column(bv, k)),
            decreases n - j,
        {
            let d = dot_product(&a[i], &bt[j]);
            row.push(d);
            j += 1;
        }
        assert(values(row@) =~= mat_mul(av, bv)[i as int]);
        out.push(row);
        i += 1;
    }
    assert(matrix_values(out@) =~= mat_mul(av, bv));
    assert forall|k: int| 0 <= k < n implies (#[trigger] matrix_values(out@)[k]).len() == n by {
        assert(values(out[k]@) == mat_mul(av, bv)[k]);
    }
    out
}

/// The product of a matrix and a column that is as long as each row.
pub fn multiply_vector(m: &Vec<Vec<FieldElement>>, v: &Vec<FieldElement>) -> (r: Vec<FieldElement>)
    requires
        has_shape(matrix_values(m@), m.len() as nat, v.len() as nat),
    ensures
        values(r@) == mat_vec(matrix_values(m@), values(v@)),
        r.len() == m.len(),
{
    let n = m.len();
    let ghost mv = matrix_values(m@);
    assert forall|k: int| 0 <= k < n implies (#[trigger] m[k]).len() == v.len() by {
        assert(mv[k].len() == v.len());
    }
    let mut out: Vec<FieldElement> = Vec::new();
    let mut i: usize = 0;
    while i < n
        invariant
            i <= n,
            n == m.len(),
            mv == matrix_values(m@),
            out.len() == i,
            forall|k: int| 0 <= k < n ==> (#[trigger] m[k]).len() == v.len(),
            forall|k: int| 0 <= k < i ==> out[k].value() == dot(mv[k], values(v@)),
        decreases n - i,
    {
        let d = dot_product(&m[i], v);
        out.push(d);
        i += 1;
    }
    assert(values(out@) =~= mat_vec(mv, values(v@)));
    out
}

/// The Cauchy matrix of `xs` and `ys`; nothing where some `x + y` is zero.
pub fn cauchy_rows(xs: &Vec<FieldElement>, ys: &Vec<FieldElement>) -> (r: Option<
    Vec<Vec<FieldElement>>,
>)
    ensures
        r is Some <==> cauchy_defined(values(xs@), values(ys@)),
        r matches Some(m) ==> matrix_values(m@) == cauchy(values(xs@), values(ys@)) && has_shape(
            matrix_values(m@),
            xs.len() as nat,
            ys.len() as nat,
        ),
{
    let ghost xv = values(xs@);
    let ghost yv = values(ys@);
    let mut out: Vec<Vec<FieldElement>> = Vec::new();
    let mut i: usize = 0;
    while i < xs.len()
        invariant
            i <= xs.len(),
            xv == values(xs@),
            yv == values(ys@),
            out.len() == i,
            forall|a: int, b: int| 0 <= a < i && 0 <= b < ys.len() ==> #[trigger] fadd(xv[a], yv[b]) != 0,
            forall|k: int| 0 <= k < i ==> values((#[trigger] out[k])@) == cauchy(xv, yv)[k],
        decreases xs.len() - i,
    {
        let mut row: Vec<FieldElement> = Vec::new();
        let mut j: usize = 0;
        while j < ys.len()
            invariant
                j <= ys.len(),
                i < xs.len(),
                xv == values(xs@),
                yv == values(ys@),
                row.len() == j,
                forall|b: int| 0 <= b < j ==> #[trigger] fadd(xv[i as int], yv[b]) != 0,
                forall|k: int| 0 <= k < j ==> row[k].value() == finv(fadd(xv[i as int], yv[k])),
            decreases ys.len() - j,
        {
            let sum = xs[i].add(&ys[j]);
            match sum.invert() {
                Some(inv) => {
                    row.push(inv);
                },
                None => {
                    assert(fadd(xv[i as int], yv[j as int]) == 0);
                    return None;
                },
            }
            j += 1;
        }
        assert(values(row@) =~= cauchy(xv, yv)[i as int]);
        out.push(row);
        i += 1;
    }
    assert(matrix_values(out@) =~= cauchy(xv, yv));
    assert forall|k: int| 0 <= k < xs.len() implies (#[trigger] matrix_values(out@)[k]).len()
        == ys.len() by {
        assert(values(out[k]@) == cauchy(xv, yv)[k]);
    }
    Some(out)
}

/// A square matrix with the identity written to its right.
fn augment_rows(m: &Vec<Vec<FieldElement>>) -> (r: Vec<Vec<FieldElement>>)
    requires
        has_shape(matrix_values(m@), m.len() as nat, m.len() as nat),
        2 * m.len() <= usize::MAX,
    ensures
        matrix_values(r@) == augment(matrix_values(m@)),
        has_shape(matrix_values(r@), m.len() as nat, (2 * m.len()) as nat),
{
    let n = m.len();
    let ghost mv = matrix_values(m@);
    assert forall|k: int| 0 <= k < n implies (#[trigger] m[k]).len() == n by {
        assert(mv[k].len() == n);
    }
    let mut out: Vec<Vec<FieldElement>> = Vec::new();
    let mut i: usize = 0;
    while i < n
        invariant
            i <= n,
            n == m.len(),
            2 * n <= usize::MAX,
            mv == matrix_values(m@),
            out.len() == i,
            forall|k: int| 0 <= k < n ==> (#[trigger] m[k]).len() == n,
            forall|k: int| 0 <= k < i ==> values((#[trigger] out[k])@) == augment(mv)[k],
        decreases n - i,
    {
        let mut row: Vec<FieldElement> = Vec::new();
        let mut j: usize = 0;
        while j < 2 * n
            invariant
                j <= 2 * n,
                2 * n <= usize::MAX,
                i < n,
                n == m.len(),
                m[i as int].len() == n,
                row.len() == j,
                forall|k: int|
                    0 <= k < j ==> row[k].value() == (if k < n {
                        m[i as int][k].value()
                    } else if k - n == i {
                        1nat
                    } else {
                        0nat
                    }),
            decreases 2 * n - j,
        {
            if j < n {
                row.push(m[i][j]);
            } else if j - n == i {
                row.push(FieldElement::one());
            } else {
                row.push(FieldElement::zero());
            }
            j += 1;
        }
        assert(values(row@) =~= augment(mv)[i as int]);
        out.push(row);
        i += 1;
    }
    assert(matrix_values(out@) =~= augment(mv));
    assert forall|k: int| 0 <= k < n implies (#[trigger] matrix_values(out@)[k]).len() == 2
        * n by {
        assert(values(out[k]@) == augment(mv)[k]);
        assert(mv[k].len() == n);
    }
    out
}

/// The row `target - factor * source`.
fn axpy_row(target: &Vec<FieldElement>, source: &Vec<FieldElement>, factor: &FieldElement) -> (r:
    Vec<FieldElement>)
    requires
        target.len() == source.len(),
    ensures
        values(r@) == row_axpy(values(target@), values(source@), factor.value()),
{
    let n = target.len();
    let mut out: Vec<FieldElement> = Vec::new();
    let mut k: usize = 0;
    while k < n
        invariant
            k <= n,
            n == target.len(),
            n == source.len(),
            out.len() == k,
            forall|c: int|
                0 <= c < k ==> out[c].value() == fsub(
                    target[c].value(),
                    fmul(factor.value(), source[c].value()),
                ),
        decreases n - k,
    {
        let scaled = factor.mul(&source[k]);
        out.push(target[k].sub(&scaled));
        k += 1;
    }
    assert(values(out@) =~= row_axpy(values(target@), values(source@), factor.value()));
    out
}

/// One pivot step, given the inverse of the pivot.
fn pivot_rows(a: &Vec<Vec<FieldElement>>, i: usize, pivot_inverse: &FieldElement, width: usize) -> (r:
    Vec<Vec<FieldElement>>)
    requires
        has_shape(matrix_values(a@), a.len() as nat, width as nat),
        i < a.len(),
        i < width,
        pivot_inverse.value() == finv(matrix_values(a@)[i as int][i as int]),
    ensures
        matrix_values(r@) == pivot_step(matrix_values(a@), i as int),
        has_shape(matrix_values(r@), a.len() as nat, width as nat),
{
    let n = a.len();
    let ghost av = matrix_values(a@);
    assert forall|k: int| 0 <= k < n implies (#[trigger] a[k]).len() == width by {
        assert(av[k].len() == width);
    }
    let mut out: Vec<Vec<FieldElement>> = Vec::new();
    let mut j: usize = 0;
    while j < n
        invariant
            j <= n,
            n == a.len(),
            i < n,
            i < width,
            av == matrix_values(a@),
            pivot_inverse.value() == finv(av[i as int][i as int]),
            out.len() == j,
            forall|k: int| 0 <= k < n ==> (#[trigger] a[k]).len() == width,
            forall|k: int| 0 <= k < j ==> values((#[trigger] out[k])@) == pivot_step(av, i as int)[k],
        decreases n - j,
    {
        if j == i {
            let row = crate::poseidon::sponge::copy_elements(&a[i]);
            out.push(row);
        } else {
            let factor = a[j][i].mul(pivot_inverse);
            let row = axpy_row(&a[j], &a[i], &factor);
            out.push(row);
        }
        j += 1;
    }
    assert(matrix_values(out@) =~= pivot_step(av, i as int));
    proof {
        lemma_pivot_shape(av, i as int, n as nat, width as nat);
    }
    out
}

/// The inverse of a square matrix by Gauss-Jordan elimination without
/// exchange of rows; nothing where the elimination meets a zero pivot.
pub fn invert_rows(m: &Vec<Vec<FieldElement>>) -> (r: Option<Vec<Vec<FieldElement>>>)
    requires
        has_shape(matrix_values(m@), m.len() as nat, m.len() as nat),
        2 * m.len() <= usize::MAX,
    ensures
        r is Some <==> inverse(matrix_values(m@)) is Some,
        r matches Some(inv) ==> Some(matrix_values(inv@)) == inverse(matrix_values(m@))
            && has_shape(matrix_values(inv@), m.len() as nat, m.len() as nat),
{
    let n = m.len();
    let ghost mv = matrix_values(m@);
    let mut a = augment_rows(m);
    let mut i: usize = 0;
    while i < n
        invariant
            i <= n,
            n == m.len(),
            n == mv.len(),
            mv == matrix_values(m@),
            2 * n <= usize::MAX,
            a.len() == n,
            has_shape(matrix_values(a@), n as nat, (2 * n) as nat),
            eliminate(augment(mv), i as nat) == Some(matrix_values(a@)),
        decreases n - i,
    {
        assert(matrix_values(a@)[i as int].len() == 2 * n);
        let pivot = a[i][i];
        match pivot.invert() {
            Some(p) => {
                a = pivot_rows(&a, i, &p, 2 * n);
            },
            None => {
                proof {
                    assert(eliminate(augment(mv), (i + 1) as nat) is None);
                    lemma_eliminate_fails(augment(mv), (i + 1) as nat, n as nat);
                }
                return None;
            },
        }
        i += 1;
    }
    let ghost av = matrix_values(a@);
    let mut out: Vec<Vec<FieldElement>> = Vec::new();
    let mut i: usize = 0;
    while i < n
        invariant
            i <= n,
            n == a.len(),
            n == mv.len(),
            mv == matrix_values(m@),
            eliminate(augment(mv), n as nat) == Some(av),
            2 * n <= usize::MAX,
            av == matrix_values(a@),
            has_shape(av, n as nat, (2 * n) as nat),
            out.len() == i,
            forall|k: int| 0 <= k < i ==> (#[trigger] av[k])[k] != 0,
            forall|k: int| 0 <= k < i ==> values((#[trigger] out[k])@) == normalise(av)[k],
        decreases n - i,
    {
        assert(av[i as int].len() == 2 * n);
        let pivot = a[i][i];
        let p = match pivot.invert() {
            Some(p) => p,
            None => {
                assert(av[i as int][i as int] == 0);
                assert(!diagonal_nonzero(av));
                return None;
            },
        };
        let mut row: Vec<FieldElement> = Vec::new();
        let mut j: usize = 0;
        while j < n
            invariant
                j <= n,
                i < n,
                n == a.len(),
                2 * n <= usize::MAX,
                a[i as int].len() == 2 * n,
                av == matrix_values(a@),
                p.value() == finv(av[i as int][i as int]),
                row.len() == j,
                forall|k: int| 0 <= k < j ==> row[k].value() == fmul(av[i as int][n + k], p.value()),
            decreases n - j,
        {
            row.push(a[i][n + j].mul(&p));
            j += 1;
        }
        assert(values(row@) =~= normalise(av)[i as int]);
        out.push(row);
        i += 1;
    }
    assert(matrix_values(out@) =~= normalise(av));
    assert(diagonal_nonzero(av));
    assert forall|k: int| 0 <= k < n implies (#[trigger] matrix_values(out@)[k]).len() == n by {
        assert(values(out[k]@) == normalise(av)[k]);
    }
    Some(out)
}

} // verus!
