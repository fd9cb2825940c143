//! Matrices over the field: the dense MDS matrix and its sparse factors.

use crate::field::{fadd, fmul, FieldElement};
use crate::poseidon::state::{values, State};
use vstd::prelude::*;

verus! {

/// The residues that the rows of a matrix hold.
pub open spec fn matrix_values(rows: Seq<Vec<FieldElement>>) -> Seq<Seq<nat>> {
    Seq::new(rows.len(), |i: int| values(rows[i]@))
}

/// Whether `m` has `rows` rows of `cols` entries each.
pub open spec fn has_shape(m: Seq<Seq<nat>>, rows: nat, cols: nat) -> bool {
    m.len() == rows && forall|i: int| 0 <= i < rows ==> (#[trigger] m[i]).len() == cols
}

/// The inner product of two rows in the field.
pub open spec fn dot(a: Seq<nat>, b: Seq<nat>) -> nat
    decreases a.len(),
{
    if a.len() == 0 {
        0
    } else {
        fadd(dot(a.drop_last(), b.drop_last()), fmul(a.last(), b.last()))
    }
}

/// The product of a matrix and a column.
pub open spec fn mat_vec(m: Seq<Seq<nat>>, v: Seq<nat>) -> Seq<nat> {
    Seq::new(m.len(), |i: int| dot(m[i], v))
}

/// What a sparse matrix, given by its first row and the rest of its first
/// column, makes of a state: the first element becomes the inner product of
/// the row and the state, every other element takes the first element
/// scaled by its column entry.
pub open spec fn sparse_apply(row: Seq<nat>, col_hat: Seq<nat>, s: Seq<nat>) -> Seq<nat> {
    Seq::new(
        s.len(),
        |i: int|
            if i == 0 {
                dot(row, s)
            } else {
                fadd(fmul(col_hat[i - 1], s[0]), s[i])
            },
    )
}

/// The inner product of two rows of equal length.
pub fn dot_product(a: &Vec<FieldElement>, b: &Vec<FieldElement>) -> (r: FieldElement)
    requires
        a.len() == b.len(),
    ensures
        r.value() == dot(values(a@), values(b@)),
{
    let n = a.len();
    let ghost va = values(a@);
    let ghost vb = values(b@);
    let mut acc = FieldElement::zero();
    let mut i: usize = 0;
    while i < n
        invariant
            i <= n,
            n == a.len(),
            n == b.len(),
            va == values(a@),
            vb == values(b@),
            acc.value() == dot(va.subrange(0, i as int), vb.subrange(0, i as int)),
        decreases n - i,
    {
        let p = a[i].mul(&b[i]);
        acc = acc.add(&p);
        proof {
            let j = i as int;
            assert(va.subrange(0, j + 1).drop_last() =~= va.subrange(0, j));
            assert(vb.subrange(0, j + 1).drop_last() =~= vb.subrange(0, j));
        }
        i += 1;
    }
    proof {
        assert(va.subrange(0, n as int) =~= va);
        assert(vb.subrange(0, n as int) =~= vb);
    }
    acc
}

/// A square matrix of field elements.
#[derive(Debug)]
pub struct MDSMatrix {
    rows: Vec<Vec<FieldElement>>,
}

impl View for MDSMatrix {
    type V = Seq<Seq<nat>>;

    closed spec fn view(&self) -> Seq<Seq<nat>> {
        matrix_values(self.rows@)
    }
}

impl MDSMatrix {
    /// Every matrix is square.
    #[verifier::type_invariant]
    pub closed spec fn is_square(self) -> bool {
        forall|i: int| 0 <= i < self.rows.len() ==> (#[trigger] self.rows[i]).len() == self.rows.len()
    }

    /// The matrix with the given rows, if there are as many rows as each
    /// has entries.
    pub fn from_rows(rows: Vec<Vec<FieldElement>>) -> (r: Option<MDSMatrix>)
        ensures
            r is Some <==> has_shape(matrix_values(rows@), rows.len() as nat, rows.len() as nat),
            r matches Some(m) ==> m@ == matrix_values(rows@),
    {
        let n = rows.len();
        let mut i: usize = 0;
        while i < n
            invariant
                i <= n,
                n == rows.len(),
                forall|k: int| 0 <= k < i ==> (#[trigger] rows[k]).len() == n,
            decreases n - i,
        {
            if rows[i].len() != n {
                proof {
                    assert(matrix_values(rows@)[i as int].len() != n);
                }
                return None;
            }
            i += 1;
        }
        proof {
            assert forall|k: int| 0 <= k < n implies (#[trigger] matrix_values(rows@)[k]).len()
                == n by {
                assert(rows[k].len() == n);
            }
        }
        Some(MDSMatrix { rows })
    }

    pub fn dimension(&self) -> (n: usize)
        ensures
            has_shape(self@, n as nat, n as nat),
    {
        proof {
            use_type_invariant(self);
            assert forall|k: int| 0 <= k < self.rows.len() implies (#[trigger] self@[k]).len()
                == self.rows.len() by {
                assert(self.rows[k].len() == self.rows.len());
            }
        }
        self.rows.len()
    }

    /// The rows of the matrix.
    pub fn rows(&self) -> (r: &Vec<Vec<FieldElement>>)
        ensures
            matrix_values(r@) == self@,
            has_shape(self@, r.len() as nat, r.len() as nat),
    {
        let _ = self.dimension();
        &self.rows
    }

    /// The product of the matrix and a column.
    pub fn mul_vector(&self, v: &Vec<FieldElement>) -> (r: Vec<FieldElement>)
        requires
            v.len() == self@.len(),
        ensures
            values(r@) == mat_vec(self@, values(v@)),
    {
        proof {
            use_type_invariant(self);
        }
        let n = self.rows.len();
        let mut out: Vec<FieldElement> = Vec::new();
        let mut i: usize = 0;
        while i < n
            invariant
                i <= n,
                n == self.rows.len(),
                n == v.len(),
                self.is_square(),
                out.len() == i,
                forall|k: int| 0 <= k < i ==> out[k].value() == dot(values(self.rows[k]@), values(v@)),
            decreases n - i,
        {
            let d = dot_product(&self.rows[i], v);
            out.push(d);
            i += 1;
        }
        assert(values(out@) =~= mat_vec(self@, values(v@)));
        out
    }

    /// Multiplies the state by the matrix, in place.
    pub fn apply(&self, state: &mut State)
        requires
            old(state)@.len() == self@.len(),
        ensures
            final(state)@ == mat_vec(self@, old(state)@),
    {
        let next = self.mul_vector(state.words());
        state.set_words(next);
    }
}

/// A matrix that differs from the identity in its first row and its first
/// column only, held as that row and the rest of that column.
#[derive(Debug)]
pub struct SparseMDSMatrix {
    row: Vec<FieldElement>,
    col_hat: Vec<FieldElement>,
}

impl SparseMDSMatrix {
    /// The column is one shorter than the row.
    #[verifier::type_invariant]
    pub closed spec fn is_shaped(self) -> bool {
        self.row.len() == self.col_hat.len() + 1
    }

    /// The first row.
    pub closed spec fn row_view(self) -> Seq<nat> {
        values(self.row@)
    }

    /// The first column below its first entry.
    pub closed spec fn col_hat_view(self) -> Seq<nat> {
        values(self.col_hat@)
    }

    /// The sparse matrix with the given row and column, if the column is
    /// one shorter than the row.
    pub fn from_parts(row: Vec<FieldElement>, col_hat: Vec<FieldElement>) -> (r: Option<
        SparseMDSMatrix,
    >)
        ensures
            r is Some <==> row.len() == col_hat.len() + 1,
            r matches Some(m) ==> m.row_view() == values(row@) && m.col_hat_view() == values(
                col_hat@,
            ),
    {
        if col_hat.len() < usize::MAX && row.len() == col_hat.len() + 1 {
            Some(SparseMDSMatrix { row, col_hat })
        } else {
            None
        }
    }

    pub fn dimension(&self) -> (n: usize)
        ensures
            n == self.row_view().len(),
            n == self.col_hat_view().len() + 1,
    {
        proof {
            use_type_invariant(self);
        }
        self.row.len()
    }

    pub fn row(&self) -> (r: &Vec<FieldElement>)
        ensures
            values(r@) == self.row_view(),
    {
        &self.row
    }

    pub fn col_hat(&self) -> (r: &Vec<FieldElement>)
        ensures
            values(r@) == self.col_hat_view(),
    {
        &self.col_hat
    }

    /// Multiplies the state by the matrix, in place.
    pub fn apply(&self, state: &mut State)
        requires
            old(state)@.len() == self.row_view().len(),
        ensures
            final(state)@ == sparse_apply(self.row_view(), self.col_hat_view(), old(state)@),
    {
        proof {
            use_type_invariant(self);
        }
        let n = self.row.len();
        let words = state.words();
        let first = dot_product(&self.row, words);
        let head = words[0];
        let mut out: Vec<FieldElement> = Vec::new();
        out.push(first);
        let mut i: usize = 1;
        while i < n
            invariant
                1 <= i <= n,
                n == self.row.len(),
                n == words.len(),
                self.is_shaped(),
                out.len() == i,
                out[0].value() == dot(values(self.row@), values(words@)),
                head == words[0],
                forall|k: int| 1 <= k < i ==> out[k].value() == fadd(fmul(self.col_hat[k - 1].value(), head.value()), words[k].value()),
            decreases n - i,
        {
            let scaled = self.col_hat[i - 1].mul(&head);
            let x = scaled.add(&words[i]);
            out.push(x);
            i += 1;
        }
        assert(values(out@) =~= sparse_apply(self.row_view(), self.col_hat_view(), values(words@)));
        state.set_words(out);
    }
}

} // verus!
