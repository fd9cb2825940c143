//! The parameters of one Poseidon instance, and the permutation they give.

use crate::field::FieldElement;
use crate::poseidon::matrix::{has_shape, matrix_values, MDSMatrix, SparseMDSMatrix};
use crate::poseidon::permutation::{
    first_half, full_rounds, partial_rounds, permutation, second_half,
};
use crate::poseidon::state::{values, State};
use vstd::prelude::*;

verus! {

/// The parameters as residues: what the permutation is a function of.
pub struct SpecView {
    /// The number of elements in the state.
    pub width: nat,
    /// The number of full rounds, both halves together.
    pub full_rounds: nat,
    /// The number of partial rounds.
    pub partial_rounds: nat,
    /// The constants of the first half of the full rounds.
    pub start: Seq<Seq<nat>>,
    /// The constants of the partial rounds.
    pub partial: Seq<nat>,
    /// The constants of the second half of the full rounds.
    pub end: Seq<Seq<nat>>,
    /// The MDS matrix.
    pub mds: Seq<Seq<nat>>,
    /// The matrix that ends the first half.
    pub pre_sparse_mds: Seq<Seq<nat>>,
    /// The first rows of the sparse matrices of the partial rounds.
    pub sparse_rows: Seq<Seq<nat>>,
    /// Their first columns, each without its first entry.
    pub sparse_cols: Seq<Seq<nat>>,
}

impl SpecView {
    /// Whether every part has the size that the widths and round numbers
    /// ask for.
    pub open spec fn well_formed(self) -> bool {
        &&& self.width >= 2
        &&& self.full_rounds >= 2
        &&& self.full_rounds % 2 == 0
        &&& has_shape(self.start, self.full_rounds / 2 + 1, self.width)
        &&& self.partial.len() == self.partial_rounds
        &&& has_shape(self.end, (self.full_rounds / 2 - 1) as nat, self.width)
        &&& has_shape(self.mds, self.width, self.width)
        &&& has_shape(self.pre_sparse_mds, self.width, self.width)
        &&& has_shape(self.sparse_rows, self.partial_rounds, self.width)
        &&& has_shape(self.sparse_cols, self.partial_rounds, (self.width - 1) as nat)
    }
}

/// The first rows of a list of sparse matrices.
pub open spec fn sparse_rows(s: Seq<SparseMDSMatrix>) -> Seq<Seq<nat>> {
    Seq::new(s.len(), |i: int| s[i].row_view())
}

/// The first columns of a list of sparse matrices.
pub open spec fn sparse_cols(s: Seq<SparseMDSMatrix>) -> Seq<Seq<nat>> {
    Seq::new(s.len(), |i: int| s[i].col_hat_view())
}

/// The round constants in their optimised form.
#[derive(Debug)]
pub struct OptimizedConstants {
    pub start: Vec<Vec<FieldElement>>,
    pub partial: Vec<FieldElement>,
    pub end: Vec<Vec<FieldElement>>,
}

/// The MDS matrix and the factors that the partial rounds use.
#[derive(Debug)]
pub struct MDSMatrices {
    pub mds: MDSMatrix,
    pub pre_sparse_mds: MDSMatrix,
    pub sparse_matrices: Vec<SparseMDSMatrix>,
}

/// What a set of parameters with the given round numbers is as residues.
pub open spec fn parameters_view(
    r_f: usize,
    constants: OptimizedConstants,
    matrices: MDSMatrices,
) -> SpecView {
    SpecView {
        width: matrices.mds@.len(),
        full_rounds: r_f as nat,
        partial_rounds: constants.partial.len() as nat,
        start: matrix_values(constants.start@),
        partial: values(constants.partial@),
        end: matrix_values(constants.end@),
        mds: matrices.mds@,
        pre_sparse_mds: matrices.pre_sparse_mds@,
        sparse_rows: sparse_rows(matrices.sparse_matrices@),
        sparse_cols: sparse_cols(matrices.sparse_matrices@),
    }
}

/// The parameters of one Poseidon instance. Built once, read-only after.
#[derive(Debug)]
pub struct Spec {
    r_f: usize,
    mds_matrices: MDSMatrices,
    constants: OptimizedConstants,
}

impl View for Spec {
    type V = SpecView;

    closed spec fn view(&self) -> SpecView {
        parameters_view(self.r_f, self.constants, self.mds_matrices)
    }
}

impl Spec {
    /// Every part has the size that the width and the round numbers ask
    /// for.
    #[verifier::type_invariant]
    pub closed spec fn well_formed(self) -> bool {
        self@.well_formed()
    }

    /// The parameters for a state of `width` elements, `r_f` full rounds
    /// and `r_p` partial rounds, drawn from the Grain stream.
    pub fn new(width: usize, r_f: usize, r_p: usize) -> (r: Option<Spec>)
        ensures
            r is Some <==> crate::poseidon::parameters::parameters(
                width as nat,
                r_f as nat,
                r_p as nat,
            ) is Some,
            r matches Some(spec) ==> crate::poseidon::parameters::parameters(
                width as nat,
                r_f as nat,
                r_p as nat,
            ) == Some(spec@),
    {
        crate::poseidon::parameters::derive(width, r_f, r_p)
    }

    /// Puts parameters together; `None` where a part has the wrong size.
    pub fn assemble(r_f: usize, constants: OptimizedConstants, matrices: MDSMatrices) -> (r:
        Option<Spec>)
        ensures
            r is Some <==> parameters_view(r_f, constants, matrices).well_formed(),
            r matches Some(s) ==> s@ == parameters_view(r_f, constants, matrices),
    {
        let ghost view = parameters_view(r_f, constants, matrices);
        let width = matrices.mds.dimension();
        let pre_width = matrices.pre_sparse_mds.dimension();
        if width < 2 || r_f < 2 || r_f % 2 != 0 || pre_width != width {
            return None;
        }
        let half = r_f / 2;
        if constants.start.len() != half + 1 || constants.end.len() != half - 1
            || matrices.sparse_matrices.len() != constants.partial.len() {
            return None;
        }
        let mut i: usize = 0;
        while i < constants.start.len()
            invariant
                i <= constants.start.len(),
                view == parameters_view(r_f, constants, matrices),
                width == view.width,
                forall|k: int| 0 <= k < i ==> (#[trigger] view.start[k]).len() == width,
            decreases constants.start.len() - i,
        {
            if constants.start[i].len() != width {
                assert(view.start[i as int].len() != width);
                return None;
            }
            i += 1;
        }
        let mut i: usize = 0;
        while i < constants.end.len()
            invariant
                i <= constants.end.len(),
                view == parameters_view(r_f, constants, matrices),
                width == view.width,
                forall|k: int| 0 <= k < i ==> (#[trigger] view.end[k]).len() == width,
            decreases constants.end.len() - i,
        {
            if constants.end[i].len() != width {
                assert(view.end[i as int].len() != width);
                return None;
            }
            i += 1;
        }
        let mut i: usize = 0;
        while i < matrices.sparse_matrices.len()
            invariant
                i <= matrices.sparse_matrices.len(),
                view == parameters_view(r_f, constants, matrices),
                width == view.width,
                forall|k: int| 0 <= k < i ==> (#[trigger] view.sparse_rows[k]).len() == width,
                forall|k: int| 0 <= k < i ==> (#[trigger] view.sparse_cols[k]).len() == width - 1,
            decreases matrices.sparse_matrices.len() - i,
        {
            let n = matrices.sparse_matrices[i].dimension();
            if n != width {
                assert(view.sparse_rows[i as int].len() != width);
                return None;
            }
            i += 1;
        }
        Some(Spec { r_f, mds_matrices: matrices, constants })
    }

    /// The number of elements in the state.
    pub fn width(&self) -> (t: usize)
        ensures
            t == self@.width,
            t >= 2,
            self@.well_formed(),
    {
        proof {
            use_type_invariant(self);
        }
        self.mds_matrices.mds.dimension()
    }

    /// The number of elements that one permutation absorbs.
    pub fn rate(&self) -> (r: usize)
        ensures
            r == self@.width - 1,
            r >= 1,
    {
        self.width() - 1
    }

    /// The number of full rounds.
    pub fn r_f(&self) -> (n: usize)
        ensures
            n == self@.full_rounds,
    {
        self.r_f
    }

    /// The number of partial rounds.
    pub fn r_p(&self) -> (n: usize)
        ensures
            n == self@.partial_rounds,
    {
        self.constants.partial.len()
    }

    /// The round constants.
    pub fn constants(&self) -> (r: &OptimizedConstants)
        ensures
            matrix_values(r.start@) == self@.start,
            values(r.partial@) == self@.partial,
            matrix_values(r.end@) == self@.end,
    {
        &self.constants
    }

    /// The matrices.
    pub fn mds_matrices(&self) -> (r: &MDSMatrices)
        ensures
            r.mds@ == self@.mds,
            r.pre_sparse_mds@ == self@.pre_sparse_mds,
            sparse_rows(r.sparse_matrices@) == self@.sparse_rows,
            sparse_cols(r.sparse_matrices@) == self@.sparse_cols,
    {
        &self.mds_matrices
    }

    /// Applies the permutation to the state.
    pub fn permute(&self, state: &mut State)
        requires
            old(state)@.len() == self@.width,
        ensures
            final(state)@ == permutation(self@, old(state)@),
            final(state)@.len() == self@.width,
    {
        proof {
            use_type_invariant(self);
        }
        let ghost v = self@;
        let ghost s0 = state@;
        let half = self.r_f / 2;
        let r_p = self.constants.partial.len();

        // first half of the full rounds
        assert(v.start[0].len() == v.width);
        state.add_constants(&self.constants.start[0]);
        let ghost opened = state@;
        let mut k: usize = 1;
        while k < half
            invariant
                1 <= k <= half,
                half == self.r_f / 2,
                self.well_formed(),
                v == self@,
                state@.len() == v.width,
                state@ == full_rounds(opened, v.start, v.mds, 1, k as int),
            decreases half - k,
        {
            assert(v.start[k as int].len() == v.width);
            state.sbox_full();
            state.add_constants(&self.constants.start[k]);
            self.mds_matrices.mds.apply(state);
            k += 1;
        }
        assert(v.start[half as int].len() == v.width);
        state.sbox_full();
        state.add_constants(&self.constants.start[half]);
        self.mds_matrices.pre_sparse_mds.apply(state);
        assert(state@ == first_half(v, s0));
        let ghost s1 = state@;

        // partial rounds
        let mut k: usize = 0;
        while k < r_p
            invariant
                k <= r_p,
                r_p == self.constants.partial.len(),
                self.well_formed(),
                v == self@,
                state@.len() == v.width,
                state@ == partial_rounds(s1, v, k as int),
            decreases r_p - k,
        {
            assert(v.sparse_rows[k as int].len() == v.width);
            state.sbox_part();
            state.add_constant(&self.constants.partial[k]);
            self.mds_matrices.sparse_matrices[k].apply(state);
            k += 1;
        }
        let ghost s2 = state@;

        // second half of the full rounds
        let mut k: usize = 0;
        while k < half - 1
            invariant
                k <= half - 1,
                half == self.r_f / 2,
                self.well_formed(),
                v == self@,
                state@.len() == v.width,
                state@ == full_rounds(s2, v.end, v.mds, 0, k as int),
            decreases half - 1 - k,
        {
            assert(v.end[k as int].len() == v.width);
            state.sbox_full();
            state.add_constants(&self.constants.end[k]);
            self.mds_matrices.mds.apply(state);
            k += 1;
        }
        state.sbox_full();
        self.mds_matrices.mds.apply(state);
        assert(state@ == second_half(v, s2));
    }
}

} // verus!
