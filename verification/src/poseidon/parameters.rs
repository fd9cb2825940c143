//! How the parameters of an instance follow from its width and its numbers
//! of rounds.
//!
//! The round constants and a Cauchy matrix are drawn from the Grain stream.
//! They are then brought into the optimised form: the constants of the
//! partial rounds are folded into one constant each, and the matrix of
//! every partial round is replaced by a sparse factor.

use crate::field::FieldElement;
use crate::poseidon::algebra::{
    cauchy, cauchy_defined, cauchy_rows, inverse, invert_rows, mat_mul, multiply_rows,
    multiply_vector, transpose, transpose_rows,
};
use crate::poseidon::grain::{
    is_stream, next_reduced_row, next_sampled_row, reduced_row, sampled_row, seed_bits,
    seed_stream, DISCARDED_BITS, REGISTER_BITS, STREAM_LIMIT,
};
use crate::poseidon::matrix::{has_shape, mat_vec, matrix_values, MDSMatrix, SparseMDSMatrix};
use crate::poseidon::spec::{
    parameters_view, sparse_cols, sparse_rows, MDSMatrices, OptimizedConstants, Spec, SpecView,
};
use crate::poseidon::sponge::copy_elements;
use crate::poseidon::state::{add_constants, values};
use vstd::prelude::*;

verus! {

/// The next `rows` rows of `width` elements each, drawn by rejection.
pub open spec fn sampled_rows(seed: Seq<bool>, at: nat, rows: nat, width: nat) -> Option<
    (Seq<Seq<nat>>, nat),
>
    decreases rows,
{
    if rows == 0 {
        Some((Seq::empty(), at))
    } else {
        match sampled_rows(seed, at, (rows - 1) as nat, width) {
            Some((m, next)) => match sampled_row(seed, next, width) {
                Some((row, after)) => Some((m.push(row), after)),
                None => None,
            },
            None => None,
        }
    }
}

/// The round constants as drawn, one row for each round, and the MDS
/// matrix: the Cauchy matrix of the two rows drawn after the constants.
pub open spec fn unoptimized(width: nat, r_f: nat, r_p: nat) -> Option<
    (Seq<Seq<nat>>, Seq<Seq<nat>>),
> {
    let seed = seed_bits(width, r_f, r_p);
    match sampled_rows(seed, 240, r_f + r_p, width) {
        Some((constants, after_constants)) => match reduced_row(seed, after_constants, width) {
            Some((xs, after_xs)) => match reduced_row(seed, after_xs, width) {
                Some((ys, _)) => if cauchy_defined(xs, ys) {
                    Some((constants, cauchy(xs, ys)))
                } else {
                    None
                },
                None => None,
            },
            None => None,
        },
        None => None,
    }
}

/// A row with its first entry set to zero.
pub open spec fn clear_first(v: Seq<nat>) -> Seq<nat> {
    v.update(0, 0)
}

/// The constants of the last `j` partial rounds and of the round after
/// them, folded into one row by way of the inverse matrix.
pub open spec fn folded(
    constants: Seq<Seq<nat>>,
    inv: Seq<Seq<nat>>,
    half: int,
    r_p: int,
    j: nat,
) -> Seq<nat>
    decreases j,
{
    if j == 0 {
        constants[half + r_p]
    } else {
        add_constants(
            clear_first(mat_vec(inv, folded(constants, inv, half, r_p, (j - 1) as nat))),
            constants[half + r_p - j],
        )
    }
}

/// The optimised constants of the first half of the full rounds.
pub open spec fn optimized_start(
    constants: Seq<Seq<nat>>,
    inv: Seq<Seq<nat>>,
    half: int,
    r_p: int,
) -> Seq<Seq<nat>> {
    Seq::new(
        (half + 1) as nat,
        |i: int|
            if i == 0 {
                constants[0]
            } else if i < half {
                mat_vec(inv, constants[i])
            } else {
                mat_vec(inv, folded(constants, inv, half, r_p, r_p as nat))
            },
    )
}

/// The optimised constants of the partial rounds.
pub open spec fn optimized_partial(
    constants: Seq<Seq<nat>>,
    inv: Seq<Seq<nat>>,
    half: int,
    r_p: int,
) -> Seq<nat> {
    Seq::new(
        r_p as nat,
        |k: int| mat_vec(inv, folded(constants, inv, half, r_p, (r_p - 1 - k) as nat))[0],
    )
}

/// The optimised constants of the second half of the full rounds.
pub open spec fn optimized_end(
    constants: Seq<Seq<nat>>,
    inv: Seq<Seq<nat>>,
    half: int,
    r_p: int,
) -> Seq<Seq<nat>> {
    Seq::new((half - 1) as nat, |i: int| mat_vec(inv, constants[half + r_p + 1 + i]))
}

/// A matrix without its first row and its first column.
pub open spec fn sub_matrix(m: Seq<Seq<nat>>) -> Seq<Seq<nat>> {
    Seq::new((m.len() - 1) as nat, |i: int| m[i + 1].skip(1))
}

/// The first column of a matrix below its first entry.
pub open spec fn first_column_tail(m: Seq<Seq<nat>>) -> Seq<nat> {
    Seq::new((m.len() - 1) as nat, |i: int| m[i + 1][0])
}

/// A matrix with a row and a column of the identity put before it.
pub open spec fn bordered(hat: Seq<Seq<nat>>) -> Seq<Seq<nat>> {
    Seq::new(
        hat.len() + 1,
        |i: int|
            Seq::new(
                hat.len() + 1,
                |j: int|
                    if i == 0 || j == 0 {
                        if i == j {
                            1nat
                        } else {
                            0nat
                        }
                    } else {
                        hat[i - 1][j - 1]
                    },
            ),
    )
}

/// The matrix that is left to factor after `j` sparse factors have been
/// split off the transposed MDS matrix `mt`; nothing where a matrix that
/// has to be inverted on the way has no inverse by elimination.
pub open spec fn sparse_rest(mt: Seq<Seq<nat>>, j: nat) -> Option<Seq<Seq<nat>>>
    decreases j,
{
    if j == 0 {
        Some(mt)
    } else {
        match sparse_rest(mt, (j - 1) as nat) {
            Some(a) => if inverse(sub_matrix(a)) is Some {
                Some(mat_mul(mt, bordered(sub_matrix(a))))
            } else {
                None
            },
            None => None,
        }
    }
}

/// The first row of the sparse factor that is split off `a`.
pub open spec fn sparse_row_of(a: Seq<Seq<nat>>) -> Seq<nat> {
    seq![a[0][0]] + mat_vec(inverse(sub_matrix(a))->0, first_column_tail(a))
}

/// The first column, without its first entry, of the sparse factor that is
/// split off `a`.
pub open spec fn sparse_col_of(a: Seq<Seq<nat>>) -> Seq<nat> {
    a[0].skip(1)
}

/// The parameters for the given width and numbers of rounds. There are
/// none where the width is below 2 or does not fit 12 bits, where a number
/// of rounds does not fit 10 bits, where the number of full rounds is odd
/// or below 2, where the stream would be read past its limit, or where a
/// matrix on the way has no inverse.
pub open spec fn parameters(width: nat, r_f: nat, r_p: nat) -> Option<SpecView> {
    if !(2 <= width < 0x1000 && 2 <= r_f < 0x400 && r_f % 2 == 0 && r_p < 0x400) {
        None
    } else {
        match unoptimized(width, r_f, r_p) {
            Some((constants, mds)) => match inverse(mds) {
                Some(inv) => match sparse_rest(transpose(mds), r_p) {
                    Some(last) => {
                        let half = (r_f / 2) as int;
                        let mt = transpose(mds);
                        let view = SpecView {
                            width: mds.len(),
                            full_rounds: r_f,
                            partial_rounds: r_p,
                            start: optimized_start(constants, inv, half, r_p as int),
                            partial: optimized_partial(constants, inv, half, r_p as int),
                            end: optimized_end(constants, inv, half, r_p as int),
                            mds: mds,
                            pre_sparse_mds: transpose(last),
                            sparse_rows: Seq::new(
                                r_p,
                                |k: int| sparse_row_of(sparse_rest(mt, (r_p - 1 - k) as nat)->0),
                            ),
                            sparse_cols: Seq::new(
                                r_p,
                                |k: int| sparse_col_of(sparse_rest(mt, (r_p - 1 - k) as nat)->0),
                            ),
                        };
                        if view.well_formed() {
                            Some(view)
                        } else {
                            None
                        }
                    },
                    None => None,
                },
                None => None,
            },
            None => None,
        }
    }
}

/// A draw of rows that has failed stays failed.
pub proof fn lemma_sampled_rows_fail(seed: Seq<bool>, at: nat, k: nat, rows: nat, width: nat)
    requires
        sampled_rows(seed, at, k, width) is None,
        k <= rows,
    ensures
        sampled_rows(seed, at, rows, width) is None,
    decreases rows,
{
    if k < rows {
        lemma_sampled_rows_fail(seed, at, k, (rows - 1) as nat, width);
    }
}

/// A factoring that has failed stays failed.
pub proof fn lemma_sparse_rest_fails(mt: Seq<Seq<nat>>, k: nat, n: nat)
    requires
        sparse_rest(mt, k) is None,
        k <= n,
    ensures
        sparse_rest(mt, n) is None,
    decreases n,
{
    if k < n {
        lemma_sparse_rest_fails(mt, k, (n - 1) as nat);
    }
}

/// Draws `rows` rows of `width` elements each by rejection.
fn sample_rows(stream: &mut Vec<bool>, at: usize, rows: usize, width: usize) -> (r: Option<
    (Vec<Vec<FieldElement>>, usize),
>)
    requires
        is_stream(old(stream)@),
        at <= STREAM_LIMIT,
    ensures
        is_stream(final(stream)@),
        final(stream)@.take(80) == old(stream)@.take(80),
        match r {
            Some((m, next)) => sampled_rows(
                old(stream)@.take(80),
                at as nat,
                rows as nat,
                width as nat,
            ) == Some((matrix_values(m@), next as nat)) && next <= STREAM_LIMIT && has_shape(
                matrix_values(m@),
                rows as nat,
                width as nat,
            ),
            None => sampled_rows(old(stream)@.take(80), at as nat, rows as nat, width as nat)
                is None,
        },
{
    let ghost seed = stream@.take(80);
    let mut out: Vec<Vec<FieldElement>> = Vec::new();
    let mut position: usize = at;
    let mut k: usize = 0;
    assert(matrix_values(out@) =~= Seq::<Seq<nat>>::empty());
    while k < rows
        invariant
            k <= rows,
            is_stream(stream@),
            stream@.take(80) == seed,
            seed == old(stream)@.take(80),
            position <= STREAM_LIMIT,
            out.len() == k,
            forall|i: int| 0 <= i < k ==> (#[trigger] out[i]).len() == width,
            sampled_rows(seed, at as nat, k as nat, width as nat) == Some(
                (matrix_values(out@), position as nat),
            ),
        decreases rows - k,
    {
        let ghost before = matrix_values(out@);
        match next_sampled_row(stream, position, width) {
            Some((row, next)) => {
                out.push(row);
                position = next;
                assert(matrix_values(out@) =~= before.push(values(row@)));
            },
            None => {
                proof {
                    assert(sampled_rows(seed, at as nat, (k + 1) as nat, width as nat) is None);
                    lemma_sampled_rows_fail(
                        seed,
                        at as nat,
                        (k + 1) as nat,
                        rows as nat,
                        width as nat,
                    );
                }
                return None;
            },
        }
        k += 1;
    }
    assert forall|i: int| 0 <= i < rows implies (#[trigger] matrix_values(out@)[i]).len()
        == width by {
        assert(out[i].len() == width);
    }
    Some((out, position))
}

/// The sum of two rows of one length, element by element.
fn add_rows(a: &Vec<FieldElement>, b: &Vec<FieldElement>) -> (r: Vec<FieldElement>)
    requires
        a.len() == b.len(),
    ensures
        values(r@) == add_constants(values(a@), values(b@)),
        r.len() == a.len(),
{
    let n = a.len();
    let mut out: Vec<FieldElement> = Vec::new();
    let mut i: usize = 0;
    while i < n
        invariant
            i <= n,
            n == a.len(),
            n == b.len(),
            out.len() == i,
            forall|k: int|
                0 <= k < i ==> out[k].value() == crate::field::fadd(a[k].value(), b[k].value()),
        decreases n - i,
    {
        out.push(a[i].add(&b[i]));
        i += 1;
    }
    assert(values(out@) =~= add_constants(values(a@), values(b@)));
    out
}

/// Brings the constants into the optimised form.
fn optimize_constants(
    constants: &Vec<Vec<FieldElement>>,
    inv: &Vec<Vec<FieldElement>>,
    half: usize,
    r_p: usize,
    width: usize,
) -> (r: OptimizedConstants)
    requires
        1 <= half,
        1 <= width,
        2 * half + r_p <= usize::MAX,
        has_shape(matrix_values(constants@), (2 * half + r_p) as nat, width as nat),
        has_shape(matrix_values(inv@), width as nat, width as nat),
    ensures
        matrix_values(r.start@) == optimized_start(
            matrix_values(constants@),
            matrix_values(inv@),
            half as int,
            r_p as int,
        ),
        values(r.partial@) == optimized_partial(
            matrix_values(constants@),
            matrix_values(inv@),
            half as int,
            r_p as int,
        ),
        matrix_values(r.end@) == optimized_end(
            matrix_values(constants@),
            matrix_values(inv@),
            half as int,
            r_p as int,
        ),
{
    let ghost cv = matrix_values(constants@);
    let ghost iv = matrix_values(inv@);
    assert(inv.len() == width);
    assert(constants.len() == 2 * half + r_p);
    assert forall|k: int| 0 <= k < constants.len() implies (#[trigger] constants[k]).len()
        == width by {
        assert(cv[k].len() == width);
    }

    // first half of the full rounds, but for its last row
    let mut start: Vec<Vec<FieldElement>> = Vec::new();
    start.push(copy_elements(&constants[0]));
    let mut i: usize = 1;
    while i < half
        invariant
            1 <= i <= half,
            cv == matrix_values(constants@),
            iv == matrix_values(inv@),
            inv.len() == width,
            has_shape(iv, width as nat, width as nat),
            constants.len() == 2 * half + r_p,
            forall|k: int| 0 <= k < constants.len() ==> (#[trigger] constants[k]).len() == width,
            start.len() == i,
            forall|k: int|
                0 <= k < i ==> values((#[trigger] start[k])@) == optimized_start(
                    cv,
                    iv,
                    half as int,
                    r_p as int,
                )[k],
        decreases half - i,
    {
        let row = multiply_vector(inv, &constants[i]);
        start.push(row);
        i += 1;
    }

    // partial rounds, last round first
    let mut acc: Vec<FieldElement> = copy_elements(&constants[half + r_p]);
    let mut reversed: Vec<FieldElement> = Vec::new();
    let mut j: usize = 0;
    while j < r_p
        invariant
            j <= r_p,
            cv == matrix_values(constants@),
            iv == matrix_values(inv@),
            inv.len() == width,
            1 <= width,
            has_shape(iv, width as nat, width as nat),
            constants.len() == 2 * half + r_p,
            forall|k: int| 0 <= k < constants.len() ==> (#[trigger] constants[k]).len() == width,
            acc.len() == width,
            values(acc@) == folded(cv, iv, half as int, r_p as int, j as nat),
            reversed.len() == j,
            forall|q: int|
                0 <= q < j ==> reversed[q].value() == mat_vec(
                    iv,
                    folded(cv, iv, half as int, r_p as int, q as nat),
                )[0],
        decreases r_p - j,
    {
        let mut tmp = multiply_vector(inv, &acc);
        let ghost product = values(tmp@);
        reversed.push(tmp[0]);
        tmp.set(0, FieldElement::zero());
        assert(values(tmp@) =~= clear_first(product));
        acc = add_rows(&tmp, &constants[half + r_p - 1 - j]);
        j += 1;
    }
    let last = multiply_vector(inv, &acc);
    start.push(last);
    assert(matrix_values(start@) =~= optimized_start(cv, iv, half as int, r_p as int));

    let mut partial: Vec<FieldElement> = Vec::new();
    let mut k: usize = 0;
    while k < r_p
        invariant
            k <= r_p,
            reversed.len() == r_p,
            partial.len() == k,
            forall|q: int| 0 <= q < k ==> partial[q] == reversed[r_p - 1 - q],
        decreases r_p - k,
    {
        partial.push(reversed[r_p - 1 - k]);
        k += 1;
    }
    assert(values(partial@) =~= optimized_partial(cv, iv, half as int, r_p as int));

    // second half of the full rounds
    let mut end: Vec<Vec<FieldElement>> = Vec::new();
    let mut i: usize = 0;
    while i < half - 1
        invariant
            i <= half - 1,
            cv == matrix_values(constants@),
            iv == matrix_values(inv@),
            inv.len() == width,
            has_shape(iv, width as nat, width as nat),
            constants.len() == 2 * half + r_p,
            forall|k: int| 0 <= k < constants.len() ==> (#[trigger] constants[k]).len() == width,
            end.len() == i,
            forall|k: int|
                0 <= k < i ==> values((#[trigger] end[k])@) == optimized_end(
                    cv,
                    iv,
                    half as int,
                    r_p as int,
                )[k],
        decreases half - 1 - i,
    {
        let row = multiply_vector(inv, &constants[half + r_p + 1 + i]);
        end.push(row);
        i += 1;
    }
    assert(matrix_values(end@) =~= optimized_end(cv, iv, half as int, r_p as int));
    OptimizedConstants { start, partial, end }
}

/// A matrix without its first row and its first column.
fn sub_rows(m: &Vec<Vec<FieldElement>>) -> (r: Vec<Vec<FieldElement>>)
    requires
        m.len() >= 1,
        has_shape(matrix_values(m@), m.len() as nat, m.len() as nat),
    ensures
        matrix_values(r@) == sub_matrix(matrix_values(m@)),
        has_shape(matrix_values(r@), (m.len() - 1) as nat, (m.len() - 1) as nat),
        r.len() == m.len() - 1,
{
    let n = m.len();
    let ghost mv = matrix_values(m@);
    assert forall|k: int| 0 <= k < n implies (#[trigger] m[k]).len() == n by {
        assert(mv[k].len() == n);
    }
    let mut out: Vec<Vec<FieldElement>> = Vec::new();
    let mut i: usize = 1;
    while i < n
        invariant
            1 <= i <= n,
            n == m.len(),
            mv == matrix_values(m@),
            out.len() == i - 1,
            forall|k: int| 0 <= k < n ==> (#[trigger] m[k]).len() == n,
            forall|k: int| 0 <= k < i - 1 ==> values((#[trigger] out[k])@) == sub_matrix(mv)[k],
        decreases n - i,
    {
        let mut row: Vec<FieldElement> = Vec::new();
        let mut j: usize = 1;
        while j < n
            invariant
                1 <= j <= n,
                i < n,
                n == m.len(),
                m[i as int].len() == n,
                row.len() == j - 1,
                forall|c: int| 0 <= c < j - 1 ==> row[c] == m[i as int][c + 1],
            decreases n - j,
        {
            row.push(m[i][j]);
            j += 1;
        }
        assert(values(row@) =~= sub_matrix(mv)[i - 1]);
        out.push(row);
        i += 1;
    }
    assert(matrix_values(out@) =~= sub_matrix(mv));
    assert forall|k: int| 0 <= k < n - 1 implies (#[trigger] matrix_values(out@)[k]).len() == n
        - 1 by {
        assert(values(out[k]@) == sub_matrix(mv)[k]);
        assert(mv[k + 1].len() == n);
    }
    out
}

/// The first column of a matrix below its first entry.
fn column_tail(m: &Vec<Vec<FieldElement>>) -> (r: Vec<FieldElement>)
    requires
        m.len() >= 1,
        has_shape(matrix_values(m@), m.len() as nat, m.len() as nat),
    ensures
        values(r@) == first_column_tail(matrix_values(m@)),
        r.len() == m.len() - 1,
{
    let n = m.len();
    let ghost mv = matrix_values(m@);
    assert forall|k: int| 0 <= k < n implies (#[trigger] m[k]).len() == n by {
        assert(mv[k].len() == n);
    }
    let mut out: Vec<FieldElement> = Vec::new();
    let mut i: usize = 1;
    while i < n
        invariant
            1 <= i <= n,
            n == m.len(),
            out.len() == i - 1,
            forall|k: int| 0 <= k < n ==> (#[trigger] m[k]).len() == n,
            forall|k: int| 0 <= k < i - 1 ==> out[k] == m[k + 1][0],
        decreases n - i,
    {
        out.push(m[i][0]);
        i += 1;
    }
    assert(values(out@) =~= first_column_tail(mv));
    out
}

/// A matrix with a row and a column of the identity put before it.
fn bordered_rows(hat: &Vec<Vec<FieldElement>>) -> (r: Vec<Vec<FieldElement>>)
    requires
        hat.len() < usize::MAX,
        has_shape(matrix_values(hat@), hat.len() as nat, hat.len() as nat),
    ensures
        matrix_values(r@) == bordered(matrix_values(hat@)),
        has_shape(matrix_values(r@), (hat.len() + 1) as nat, (hat.len() + 1) as nat),
        r.len() == hat.len() + 1,
{
    let n = hat.len() + 1;
    let ghost hv = matrix_values(hat@);
    assert forall|k: int| 0 <= k < hat.len() implies (#[trigger] hat[k]).len() == hat.len() by {
        assert(hv[k].len() == hat.len());
    }
    let mut out: Vec<Vec<FieldElement>> = Vec::new();
    let mut i: usize = 0;
    while i < n
        invariant
            i <= n,
            n == hat.len() + 1,
            hv == matrix_values(hat@),
            out.len() == i,
            forall|k: int| 0 <= k < hat.len() ==> (#[trigger] hat[k]).len() == hat.len(),
            forall|k: int| 0 <= k < i ==> values((#[trigger] out[k])@) == bordered(hv)[k],
        decreases n - i,
    {
        let mut row: Vec<FieldElement> = Vec::new();
        let mut j: usize = 0;
        while j < n
            invariant
                j <= n,
                i < n,
                n == hat.len() + 1,
                i >= 1 ==> hat[i - 1].len() == hat.len(),
                row.len() == j,
                forall|c: int|
                    0 <= c < j ==> row[c].value() == (if i == 0 || c == 0 {
                        if i as int == c {
                            1nat
                        } else {
                            0nat
                        }
                    } else {
                        hat[i - 1][c - 1].value()
                    }),
            decreases n - j,
        {
            if i == 0 || j == 0 {
                if i == j {
                    row.push(FieldElement::one());
                } else {
                    row.push(FieldElement::zero());
                }
            } else {
                row.push(hat[i - 1][j - 1]);
            }
            j += 1;
        }
        assert(values(row@) =~= bordered(hv)[i as int]);
        out.push(row);
        i += 1;
    }
    assert(matrix_values(out@) =~= bordered(hv));
    assert forall|k: int| 0 <= k < n implies (#[trigger] matrix_values(out@)[k]).len() == n by {
        assert(values(out[k]@) == bordered(hv)[k]);
    }
    out
}

/// Splits `r_p` sparse factors off the transposed MDS matrix. Gives the
/// factors in the order of the rounds, and the matrix that is left.
fn derive_sparse(mt: &Vec<Vec<FieldElement>>, r_p: usize) -> (r: Option<
    (Vec<SparseMDSMatrix>, Vec<Vec<FieldElement>>),
>)
    requires
        2 <= mt.len(),
        2 * mt.len() <= usize::MAX,
        has_shape(matrix_values(mt@), mt.len() as nat, mt.len() as nat),
    ensures
        r is Some <==> sparse_rest(matrix_values(mt@), r_p as nat) is Some,
        r matches Some((sparse, last)) ==> {
            &&& sparse_rest(matrix_values(mt@), r_p as nat) == Some(matrix_values(last@))
            &&& has_shape(matrix_values(last@), mt.len() as nat, mt.len() as nat)
            &&& sparse.len() == r_p
            &&& forall|k: int|
                0 <= k < r_p ==> (#[trigger] sparse[k]).row_view() == sparse_row_of(
                    sparse_rest(matrix_values(mt@), (r_p - 1 - k) as nat)->0,
                )
            &&& forall|k: int|
                0 <= k < r_p ==> (#[trigger] sparse[k]).col_hat_view() == sparse_col_of(
                    sparse_rest(matrix_values(mt@), (r_p - 1 - k) as nat)->0,
                )
        },
{
    let n = mt.len();
    let ghost mv = matrix_values(mt@);
    let mut acc: Vec<Vec<FieldElement>> = transpose_rows(&transpose_rows(mt));
    proof {
        assert forall|k: int| 0 <= k < n implies (#[trigger] mv[k]).len() == n by {}
        assert(matrix_values(acc@) =~~= mv);
    }
    let mut reversed: Vec<SparseMDSMatrix> = Vec::new();
    let mut j: usize = 0;
    while j < r_p
        invariant
            j <= r_p,
            n == mt.len(),
            2 <= n,
            2 * n <= usize::MAX,
            mv == matrix_values(mt@),
            has_shape(mv, n as nat, n as nat),
            acc.len() == n,
            has_shape(matrix_values(acc@), n as nat, n as nat),
            sparse_rest(mv, j as nat) == Some(matrix_values(acc@)),
            reversed.len() == j,
            forall|q: int|
                0 <= q < j ==> (#[trigger] reversed[q]).row_view() == sparse_row_of(
                    sparse_rest(mv, q as nat)->0,
                ),
            forall|q: int|
                0 <= q < j ==> (#[trigger] reversed[q]).col_hat_view() == sparse_col_of(
                    sparse_rest(mv, q as nat)->0,
                ),
        decreases r_p - j,
    {
        let ghost av = matrix_values(acc@);
        assert(av[0].len() == n);
        let hat = sub_rows(&acc);
        let hat_inverse = match invert_rows(&hat) {
            Some(inv) => inv,
            None => {
                proof {
                    assert(sparse_rest(mv, (j + 1) as nat) is None);
                    lemma_sparse_rest_fails(mv, (j + 1) as nat, r_p as nat);
                }
                return None;
            },
        };
        let w = column_tail(&acc);
        let w_hat = multiply_vector(&hat_inverse, &w);
        let mut row: Vec<FieldElement> = Vec::new();
        row.push(acc[0][0]);
        let mut c: usize = 0;
        while c < n - 1
            invariant
                c <= n - 1,
                2 <= n,
                acc.len() == n,
                acc[0].len() == n,
                w_hat.len() == n - 1,
                row.len() == c + 1,
                row[0] == acc[0][0],
                forall|q: int| 0 <= q < c ==> row[q + 1] == w_hat[q],
            decreases n - 1 - c,
        {
            row.push(w_hat[c]);
            c += 1;
        }
        assert(values(row@) =~= sparse_row_of(av));
        let mut col: Vec<FieldElement> = Vec::new();
        let mut c: usize = 1;
        while c < n
            invariant
                1 <= c <= n,
                acc.len() == n,
                acc[0].len() == n,
                col.len() == c - 1,
                forall|q: int| 0 <= q < c - 1 ==> col[q] == acc[0][q + 1],
            decreases n - c,
        {
            col.push(acc[0][c]);
            c += 1;
        }
        assert(values(col@) =~= sparse_col_of(av));
        let factor = match SparseMDSMatrix::from_parts(row, col) {
            Some(f) => f,
            None => {
                assert(false);
                return None;
            },
        };
        reversed.push(factor);
        let prime = bordered_rows(&hat);
        acc = multiply_rows(mt, &prime);
        j += 1;
    }
    let mut sparse: Vec<SparseMDSMatrix> = Vec::new();
    let ghost all = reversed@;
    let mut k: usize = 0;
    while k < r_p
        invariant
            k <= r_p,
            all.len() == r_p,
            reversed@ == all.take(r_p - k),
            sparse.len() == k,
            forall|q: int| 0 <= q < k ==> (#[trigger] sparse[q]) == all[r_p - 1 - q],
        decreases r_p - k,
    {
        let ghost before = reversed@;
        match reversed.pop() {
            Some(factor) => {
                assert(factor == all[r_p - 1 - k]);
                assert(reversed@ =~= all.take(r_p - k - 1));
                sparse.push(factor);
            },
            None => {
                assert(false);
            },
        }
        k += 1;
    }
    Some((sparse, acc))
}

/// The parameters for the given width and numbers of rounds.
pub fn derive(width: usize, r_f: usize, r_p: usize) -> (r: Option<Spec>)
    ensures
        r is Some <==> parameters(width as nat, r_f as nat, r_p as nat) is Some,
        r matches Some(spec) ==> parameters(width as nat, r_f as nat, r_p as nat) == Some(spec@),
{
    if width < 2 || width >= 0x1000 || r_f < 2 || r_f >= 0x400 || r_f % 2 != 0 || r_p >= 0x400 {
        return None;
    }
    let half = r_f / 2;
    let mut stream = seed_stream(width, r_f, r_p);
    let ghost seed = stream@.take(80);
    assert(seed =~= seed_bits(width as nat, r_f as nat, r_p as nat));
    let (constants, after_constants) = match sample_rows(
        &mut stream,
        REGISTER_BITS + DISCARDED_BITS,
        r_f + r_p,
        width,
    ) {
        Some(drawn) => drawn,
        None => {
            return None;
        },
    };
    let (xs, after_xs) = match next_reduced_row(&mut stream, after_constants, width) {
        Some(drawn) => drawn,
        None => {
            return None;
        },
    };
    let (ys, _) = match next_reduced_row(&mut stream, after_xs, width) {
        Some(drawn) => drawn,
        None => {
            return None;
        },
    };
    let mds_rows = match cauchy_rows(&xs, &ys) {
        Some(m) => m,
        None => {
            return None;
        },
    };
    let ghost cv = matrix_values(constants@);
    let ghost mv = matrix_values(mds_rows@);
    assert(unoptimized(width as nat, r_f as nat, r_p as nat) == Some((cv, mv)));
    let inv = match invert_rows(&mds_rows) {
        Some(m) => m,
        None => {
            return None;
        },
    };
    let optimized = optimize_constants(&constants, &inv, half, r_p, width);
    let mt = transpose_rows(&mds_rows);
    let (sparse, last) = match derive_sparse(&mt, r_p) {
        Some(split) => split,
        None => {
            return None;
        },
    };
    let pre_sparse_rows = transpose_rows(&last);
    let mds = match MDSMatrix::from_rows(mds_rows) {
        Some(m) => m,
        None => {
            assert(false);
            return None;
        },
    };
    let pre_sparse_mds = match MDSMatrix::from_rows(pre_sparse_rows) {
        Some(m) => m,
        None => {
            assert(false);
            return None;
        },
    };
    let matrices = MDSMatrices { mds, pre_sparse_mds, sparse_matrices: sparse };
    proof {
        let view = parameters_view(r_f, optimized, matrices);
        assert(view.sparse_rows =~= Seq::new(
            r_p as nat,
            |k: int| sparse_row_of(sparse_rest(transpose(mv), (r_p - 1 - k) as nat)->0),
        ));
        assert(view.sparse_cols =~= Seq::new(
            r_p as nat,
            |k: int| sparse_col_of(sparse_rest(transpose(mv), (r_p - 1 - k) as nat)->0),
        ));
    }
    Spec::assemble(r_f, optimized, matrices)
}

} // verus!
