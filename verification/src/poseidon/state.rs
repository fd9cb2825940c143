//! The state of the permutation: a row of field elements.

use crate::field::{fadd, fpow5, FieldElement};
use vstd::prelude::*;

verus! {

/// The residues that a row of elements holds.
pub open spec fn values(s: Seq<FieldElement>) -> Seq<nat> {
    Seq::new(s.len(), |i: int| s[i].value())
}

/// Adds a row of constants to the state, element by element.
pub open spec fn add_constants(s: Seq<nat>, c: Seq<nat>) -> Seq<nat> {
    Seq::new(s.len(), |i: int| fadd(s[i], c[i]))
}

/// Adds one constant to the first element.
pub open spec fn add_constant(s: Seq<nat>, c: nat) -> Seq<nat> {
    s.update(0, fadd(s[0], c))
}

/// The S-box `x -> x^5` on every element.
pub open spec fn sbox_full(s: Seq<nat>) -> Seq<nat> {
    Seq::new(s.len(), |i: int| fpow5(s[i]))
}

/// The S-box on the first element only.
pub open spec fn sbox_part(s: Seq<nat>) -> Seq<nat> {
    s.update(0, fpow5(s[0]))
}

/// The state of the permutation.
#[derive(Debug)]
pub struct State {
    words: Vec<FieldElement>,
}

impl View for State {
    type V = Seq<nat>;

    closed spec fn view(&self) -> Seq<nat> {
        values(self.words@)
    }
}

impl State {
    /// A state of `width` zeros.
    pub fn zeroed(width: usize) -> (r: State)
        ensures
            r@.len() == width,
            forall|i: int| 0 <= i < width ==> r@[i] == 0,
    {
        let mut words: Vec<FieldElement> = Vec::new();
        let mut i: usize = 0;
        while i < width
            invariant
                i <= width,
                words.len() == i,
                forall|k: int| 0 <= k < i ==> words[k].value() == 0,
            decreases width - i,
        {
            words.push(FieldElement::zero());
            i += 1;
        }
        State { words }
    }

    /// The state that holds the given elements.
    pub fn from_words(words: Vec<FieldElement>) -> (r: State)
        ensures
            r@ == values(words@),
    {
        State { words }
    }

    pub fn width(&self) -> (n: usize)
        ensures
            n == self@.len(),
    {
        self.words.len()
    }

    /// The elements of the state.
    pub fn words(&self) -> (r: &Vec<FieldElement>)
        ensures
            values(r@) == self@,
    {
        &self.words
    }

    /// The element at `index`.
    pub fn word(&self, index: usize) -> (r: FieldElement)
        requires
            index < self@.len(),
        ensures
            r.value() == self@[index as int],
    {
        self.words[index]
    }

    /// The element that a squeeze hands out: the one at position 1.
    pub fn result(&self) -> (r: FieldElement)
        requires
            self@.len() >= 2,
        ensures
            r.value() == self@[1],
    {
        self.words[1]
    }

    /// Replaces the elements of the state.
    pub fn set_words(&mut self, words: Vec<FieldElement>)
        ensures
            final(self)@ == values(words@),
    {
        self.words = words;
    }

    pub fn sbox_full(&mut self)
        ensures
            final(self)@ == sbox_full(old(self)@),
    {
        let n = self.words.len();
        let mut i: usize = 0;
        while i < n
            invariant
                i <= n,
                self.words.len() == n,
                old(self).words.len() == n,
                forall|k: int| 0 <= k < i ==> self.words[k].value() == fpow5(old(self).words[k].value()),
                forall|k: int| i <= k < n ==> self.words[k] == old(self).words[k],
            decreases n - i,
        {
            let x = self.words[i].pow5();
            self.words.set(i, x);
            i += 1;
        }
        assert(self@ =~= sbox_full(old(self)@));
    }

    pub fn sbox_part(&mut self)
        requires
            old(self)@.len() >= 1,
        ensures
            final(self)@ == sbox_part(old(self)@),
    {
        let x = self.words[0].pow5();
        self.words.set(0, x);
        assert(self@ =~= sbox_part(old(self)@));
    }

    pub fn add_constants(&mut self, constants: &Vec<FieldElement>)
        requires
            constants.len() == old(self)@.len(),
        ensures
            final(self)@ == add_constants(old(self)@, values(constants@)),
    {
        let n = self.words.len();
        let mut i: usize = 0;
        while i < n
            invariant
                i <= n,
                self.words.len() == n,
                old(self).words.len() == n,
                constants.len() == n,
                forall|k: int| 0 <= k < i ==> self.words[k].value() == fadd(old(self).words[k].value(), constants[k].value()),
                forall|k: int| i <= k < n ==> self.words[k] == old(self).words[k],
            decreases n - i,
        {
            let x = self.words[i].add(&constants[i]);
            self.words.set(i, x);
            i += 1;
        }
        assert(self@ =~= add_constants(old(self)@, values(constants@)));
    }

    /// Adds a block of inputs into the positions after the first.
    pub fn absorb_block(&mut self, block: &Vec<FieldElement>)
        requires
            block.len() < old(self)@.len(),
        ensures
            final(self)@ == crate::poseidon::sponge::add_block(old(self)@, values(block@)),
    {
        let n = block.len();
        let mut i: usize = 0;
        while i < n
            invariant
                i <= n,
                n == block.len(),
                n < self.words.len(),
                self.words.len() == old(self).words.len(),
                forall|k: int| 1 <= k <= i ==> self.words[k].value() == fadd(old(self).words[k].value(), block[k - 1].value()),
                forall|k: int| (k == 0 || i < k) && k < self.words.len() ==> self.words[k] == old(self).words[k],
            decreases n - i,
        {
            let x = self.words[i + 1].add(&block[i]);
            self.words.set(i + 1, x);
            i += 1;
        }
        assert(self@ =~= crate::poseidon::sponge::add_block(old(self)@, values(block@)));
    }

    pub fn add_constant(&mut self, constant: &FieldElement)
        requires
            old(self)@.len() >= 1,
        ensures
            final(self)@ == add_constant(old(self)@, constant.value()),
    {
        let x = self.words[0].add(constant);
        self.words.set(0, x);
        assert(self@ =~= add_constant(old(self)@, constant.value()));
    }
}

} // verus!
