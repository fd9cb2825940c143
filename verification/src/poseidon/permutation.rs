//! The permutation, as a function on rows of residues.
//!
//! Half of the full rounds come first, then the partial rounds, then the
//! other half. Round constants and matrices are in the optimised form: the
//! partial rounds add one constant and multiply by a sparse matrix.

use crate::poseidon::matrix::{mat_vec, sparse_apply};
use crate::poseidon::spec::SpecView;
use crate::poseidon::state::{add_constant, add_constants, sbox_full, sbox_part};
use vstd::prelude::*;

verus! {

/// One full round: S-box on every element, a row of constants, the matrix.
pub open spec fn full_round(s: Seq<nat>, constants: Seq<nat>, matrix: Seq<Seq<nat>>) -> Seq<nat> {
    mat_vec(matrix, add_constants(sbox_full(s), constants))
}

/// The full rounds that use the rows `from..to` of `constants`, in order.
pub open spec fn full_rounds(
    s: Seq<nat>,
    constants: Seq<Seq<nat>>,
    matrix: Seq<Seq<nat>>,
    from: int,
    to: int,
) -> Seq<nat>
    decreases to - from,
{
    if to <= from {
        s
    } else {
        full_round(full_rounds(s, constants, matrix, from, to - 1), constants[to - 1], matrix)
    }
}

/// One partial round: S-box on the first element, one constant, a sparse
/// matrix.
pub open spec fn partial_round(s: Seq<nat>, constant: nat, row: Seq<nat>, col_hat: Seq<nat>) -> Seq<
    nat,
> {
    sparse_apply(row, col_hat, add_constant(sbox_part(s), constant))
}

/// The first `n` partial rounds.
pub open spec fn partial_rounds(s: Seq<nat>, view: SpecView, n: int) -> Seq<nat>
    decreases n,
{
    if n <= 0 {
        s
    } else {
        partial_round(
            partial_rounds(s, view, n - 1),
            view.partial[n - 1],
            view.sparse_rows[n - 1],
            view.sparse_cols[n - 1],
        )
    }
}

/// The state after the first half of the full rounds.
pub open spec fn first_half(view: SpecView, s: Seq<nat>) -> Seq<nat> {
    let half = (view.full_rounds / 2) as int;
    let opened = add_constants(s, view.start[0]);
    let mixed = full_rounds(opened, view.start, view.mds, 1, half);
    mat_vec(view.pre_sparse_mds, add_constants(sbox_full(mixed), view.start[half]))
}

/// The state after the second half of the full rounds.
pub open spec fn second_half(view: SpecView, s: Seq<nat>) -> Seq<nat> {
    let half = (view.full_rounds / 2) as int;
    let mixed = full_rounds(s, view.end, view.mds, 0, half - 1);
    mat_vec(view.mds, sbox_full(mixed))
}

/// The whole permutation.
pub open spec fn permutation(view: SpecView, s: Seq<nat>) -> Seq<nat> {
    second_half(view, partial_rounds(first_half(view, s), view, view.partial_rounds as int))
}

} // verus!
