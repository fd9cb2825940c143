//! The sponge: absorbs field elements at the rate of its parameters and
//! squeezes one element out.

use crate::field::{fadd, FieldElement};
use crate::poseidon::permutation::permutation;
use crate::poseidon::spec::{Spec, SpecView};
use crate::poseidon::state::{values, State};
use vstd::prelude::*;

verus! {

/// The state with a block of inputs added into the positions after the
/// first. A block shorter than the rate leaves the last positions as they
/// are, which is what padding it with zeros would do.
pub open spec fn add_block(s: Seq<nat>, block: Seq<nat>) -> Seq<nat> {
    Seq::new(
        s.len(),
        |i: int|
            if 1 <= i <= block.len() {
                fadd(s[i], block[i - 1])
            } else {
                s[i]
            },
    )
}

/// What a sponge holds between calls: the state and the inputs that wait
/// for a full block.
pub struct SpongeView {
    pub state: Seq<nat>,
    pub pending: Seq<nat>,
}

/// Takes one input in: it joins the pending inputs, and a full block is
/// added to the state and permuted.
pub open spec fn absorb_one(spec: SpecView, sponge: SpongeView, x: nat) -> SpongeView {
    let block = sponge.pending.push(x);
    if block.len() == spec.width - 1 {
        SpongeView {
            state: permutation(spec, add_block(sponge.state, block)),
            pending: Seq::empty(),
        }
    } else {
        SpongeView { state: sponge.state, pending: block }
    }
}

/// Takes a row of inputs in, one after the other.
pub open spec fn absorb(spec: SpecView, sponge: SpongeView, inputs: Seq<nat>) -> SpongeView
    decreases inputs.len(),
{
    if inputs.len() == 0 {
        sponge
    } else {
        absorb_one(spec, absorb(spec, sponge, inputs.drop_last()), inputs.last())
    }
}

/// The sponge after a squeeze: the pending inputs are added, the state is
/// permuted once more, and nothing is pending.
pub open spec fn finish(spec: SpecView, sponge: SpongeView) -> SpongeView {
    SpongeView {
        state: permutation(spec, add_block(sponge.state, sponge.pending)),
        pending: Seq::empty(),
    }
}

/// A sponge that has absorbed nothing yet.
pub open spec fn fresh(spec: SpecView) -> SpongeView {
    SpongeView { state: Seq::new(spec.width, |i: int| 0nat), pending: Seq::empty() }
}

/// The element that a fresh sponge squeezes out after it has absorbed
/// `inputs`.
pub open spec fn hash(spec: SpecView, inputs: Seq<nat>) -> nat {
    finish(spec, absorb(spec, fresh(spec), inputs)).state[1]
}

/// A Poseidon sponge over parameters that it borrows.
#[derive(Debug)]
pub struct Poseidon<'a> {
    state: State,
    spec: &'a Spec,
    absorbing: Vec<FieldElement>,
}

impl<'a> View for Poseidon<'a> {
    type V = SpongeView;

    closed spec fn view(&self) -> SpongeView {
        SpongeView { state: self.state@, pending: values(self.absorbing@) }
    }
}

impl<'a> Poseidon<'a> {
    /// The state has the width of the parameters, and fewer inputs than
    /// the rate are pending.
    #[verifier::type_invariant]
    pub closed spec fn well_formed(self) -> bool {
        &&& self.spec@.well_formed()
        &&& self.state@.len() == self.spec@.width
        &&& self.absorbing.len() < self.spec@.width - 1
    }

    /// The parameters of the sponge.
    pub closed spec fn parameters(self) -> SpecView {
        self.spec@
    }

    /// A fresh sponge: the state is zero and nothing is pending.
    pub fn new_with_spec(spec: &'a Spec) -> (r: Poseidon<'a>)
        ensures
            r.parameters() == spec@,
            r@ == fresh(spec@),
    {
        let width = spec.width();
        let state = State::zeroed(width);
        proof {
            assert(state@ =~= fresh(spec@).state);
        }
        let absorbing: Vec<FieldElement> = Vec::new();
        proof {
            assert(values(absorbing@) =~= Seq::<nat>::empty());
        }
        Poseidon { state, spec, absorbing }
    }

    /// Absorbs the elements; the state is permuted whenever a block is
    /// full.
    pub fn update(&mut self, elements: &[FieldElement])
        ensures
            final(self).parameters() == old(self).parameters(),
            final(self)@ == absorb(old(self).parameters(), old(self)@, values(elements@)),
    {
        proof {
            use_type_invariant(&*self);
        }
        let ghost v = self.spec@;
        let ghost start = self@;
        let ghost inputs = values(elements@);
        let rate = self.spec.rate();
        let mut state = State::from_words(copy_elements(self.state.words()));
        let mut pending = copy_elements(&self.absorbing);
        let n = elements.len();
        let mut i: usize = 0;
        while i < n
            invariant
                i <= n,
                n == elements.len(),
                inputs == values(elements@),
                v == self.spec@,
                v.well_formed(),
                rate == v.width - 1,
                state@.len() == v.width,
                pending.len() < rate,
                (SpongeView { state: state@, pending: values(pending@) }) == absorb(
                    v,
                    start,
                    inputs.subrange(0, i as int),
                ),
            decreases n - i,
        {
            let x = elements[i];
            proof {
                assert(inputs.subrange(0, i + 1).drop_last() =~= inputs.subrange(0, i as int));
                assert(inputs.subrange(0, i + 1).last() == x.value());
            }
            let ghost before = values(pending@);
            pending.push(x);
            assert(values(pending@) =~= before.push(x.value()));
            if pending.len() == rate {
                state.absorb_block(&pending);
                self.spec.permute(&mut state);
                pending = Vec::new();
                assert(values(pending@) =~= Seq::<nat>::empty());
            }
            i += 1;
        }
        proof {
            assert(inputs.subrange(0, n as int) =~= inputs);
        }
        self.state = state;
        self.absorbing = pending;
    }

    /// Adds what is pending to the state, permutes once more and returns
    /// the element at position 1.
    pub fn squeeze(&mut self) -> (r: FieldElement)
        ensures
            final(self).parameters() == old(self).parameters(),
            final(self)@ == finish(old(self).parameters(), old(self)@),
            r.value() == final(self)@.state[1],
    {
        proof {
            use_type_invariant(&*self);
        }
        let mut state = State::from_words(copy_elements(self.state.words()));
        state.absorb_block(&self.absorbing);
        self.spec.permute(&mut state);
        let r = state.result();
        let pending: Vec<FieldElement> = Vec::new();
        assert(values(pending@) =~= Seq::<nat>::empty());
        self.state = state;
        self.absorbing = pending;
        r
    }
}

/// A copy of a row of elements.
pub fn copy_elements(v: &Vec<FieldElement>) -> (r: Vec<FieldElement>)
    ensures
        r@ == v@,
{
    let mut out: Vec<FieldElement> = Vec::new();
    let mut i: usize = 0;
    while i < v.len()
        invariant
            i <= v.len(),
            out@ == v@.subrange(0, i as int),
        decreases v.len() - i,
    {
        out.push(v[i]);
        assert(out@ =~= v@.subrange(0, i + 1));
        i += 1;
    }
    assert(v@.subrange(0, v.len() as int) =~= v@);
    out
}

} // verus!
