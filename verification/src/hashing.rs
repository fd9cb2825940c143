//! The three Poseidon instances of the library, and what they make of
//! byte buffers.

use crate::buffer::{bytes_as_slice, bytes_contents};
use crate::error::FingerprintError;
use crate::field::{
    bytes32_value, lemma_bytes_word, lemma_limbs_injective, lemma_word_le_bound, modulus, word_le,
    FieldElement,
};
use crate::poseidon::parameters::parameters;
use crate::poseidon::sponge::hash;
use crate::poseidon::{Poseidon, Spec, SpecView};
use bytes::Bytes;
use vstd::prelude::*;

verus! {

/// The number of full rounds of every instance.
pub const FULL_ROUNDS: usize = 8;

/// The number of partial rounds of every instance.
pub const PARTIAL_ROUNDS: usize = 57;

/// The parameters of the instance that folds a curve point: width 2.
pub open spec fn point_parameters() -> SpecView {
    parameters(2, 8, 57)->0
}

/// The parameters of the instance that hashes a transaction: width 5.
pub open spec fn buffer_parameters() -> SpecView {
    parameters(5, 8, 57)->0
}

/// The parameters of the instance that hashes the date, the time and the
/// amount: width 4.
pub open spec fn date_time_parameters() -> SpecView {
    parameters(4, 8, 57)->0
}

/// The three instances. Built once and shared.
#[derive(Debug)]
pub struct Specs {
    spec: Spec,
    spec_big: Spec,
    spec_dc: Spec,
}

impl Specs {
    /// Each instance holds the parameters that its width and the round
    /// numbers give.
    #[verifier::type_invariant]
    pub closed spec fn well_formed(self) -> bool {
        &&& parameters(2, 8, 57) == Some(self.spec@)
        &&& parameters(5, 8, 57) == Some(self.spec_big@)
        &&& parameters(4, 8, 57) == Some(self.spec_dc@)
    }

    /// Derives the three instances; nothing where the derivation of one
    /// fails.
    pub fn new() -> (r: Option<Specs>)
        ensures
            r is Some <==> parameters(2, 8, 57) is Some && parameters(5, 8, 57) is Some
                && parameters(4, 8, 57) is Some,
    {
        let spec = match Spec::new(2, FULL_ROUNDS, PARTIAL_ROUNDS) {
            Some(s) => s,
            None => {
                return None;
            },
        };
        let spec_big = match Spec::new(5, FULL_ROUNDS, PARTIAL_ROUNDS) {
            Some(s) => s,
            None => {
                return None;
            },
        };
        let spec_dc = match Spec::new(4, FULL_ROUNDS, PARTIAL_ROUNDS) {
            Some(s) => s,
            None => {
                return None;
            },
        };
        Some(Specs { spec, spec_big, spec_dc })
    }

    /// The instance of width 2.
    pub fn spec(&self) -> (r: &Spec)
        ensures
            r@ == point_parameters(),
    {
        proof {
            use_type_invariant(self);
        }
        &self.spec
    }

    /// The instance of width 5.
    pub fn spec_big(&self) -> (r: &Spec)
        ensures
            r@ == buffer_parameters(),
    {
        proof {
            use_type_invariant(self);
        }
        &self.spec_big
    }

    /// The instance of width 4.
    pub fn spec_dc(&self) -> (r: &Spec)
        ensures
            r@ == date_time_parameters(),
    {
        proof {
            use_type_invariant(self);
        }
        &self.spec_dc
    }
}

/// Hashes a row of elements with a fresh sponge.
pub fn hash_elements(spec: &Spec, inputs: &[FieldElement]) -> (r: FieldElement)
    ensures
        r.value() == hash(spec@, crate::poseidon::state::values(inputs@)),
{
    let mut sponge = Poseidon::new_with_spec(spec);
    sponge.update(inputs);
    sponge.squeeze()
}

/// Up to 32 bytes, filled up with zeros to 32.
pub open spec fn padded(chunk: Seq<u8>) -> Seq<u8> {
    Seq::new(
        32,
        |i: int|
            if i < chunk.len() {
                chunk[i]
            } else {
                0u8
            },
    )
}

/// The residue that a limb of up to 32 bytes stands for: the bytes as a
/// little-endian number, and zero where that number is not below the
/// modulus.
pub open spec fn limb_value(chunk: Seq<u8>) -> nat {
    let v = bytes32_value(padded(chunk));
    if v < modulus() {
        v
    } else {
        0
    }
}

/// The four limbs of a buffer: it is cut into pieces of a quarter of its
/// length, rounded down, and the first four pieces count. What is left
/// over after them does not enter the hash.
pub open spec fn buffer_limbs(buffer: Seq<u8>) -> Seq<nat> {
    let size = buffer.len() / 4;
    Seq::new(4, |i: int| limb_value(buffer.subrange(i * size, (i + 1) * size)))
}

/// What a buffer hashes to.
pub open spec fn buffer_digest(buffer: Seq<u8>) -> nat {
    hash(buffer_parameters(), buffer_limbs(buffer))
}

/// Limbs of 16 bytes that stand for one residue are the same bytes.
pub proof fn lemma_limb_injective(a: Seq<u8>, b: Seq<u8>)
    requires
        a.len() == 16,
        b.len() == 16,
        limb_value(a) == limb_value(b),
    ensures
        a == b,
{
    let (p, q) = (padded(a), padded(b));
    lemma_word_le_bound(p, 0);
    lemma_word_le_bound(p, 8);
    lemma_word_le_bound(q, 0);
    lemma_word_le_bound(q, 8);
    assert(word_le(p, 16) == 0 && word_le(p, 24) == 0 && word_le(q, 16) == 0 && word_le(q, 24)
        == 0);
    assert(bytes32_value(p) < modulus() && bytes32_value(q) < modulus());
    lemma_limbs_injective(
        word_le(p, 0) as u64,
        word_le(p, 8) as u64,
        0,
        0,
        word_le(q, 0) as u64,
        word_le(q, 8) as u64,
        0,
        0,
    );
    lemma_bytes_word(p, 0);
    lemma_bytes_word(p, 8);
    lemma_bytes_word(q, 0);
    lemma_bytes_word(q, 8);
    assert forall|i: int| 0 <= i < 16 implies a[i] == b[i] by {
        if i < 8 {
            assert(p.subrange(0, 8)[i] == q.subrange(0, 8)[i]);
        } else {
            assert(p.subrange(8, 16)[i - 8] == q.subrange(8, 16)[i - 8]);
        }
    }
    assert(a =~= b);
}

/// Buffers of 66 bytes with the same four limbs agree in their first 64
/// bytes: every byte that lies within the limbs enters the hash.
pub proof fn lemma_limbs_injective_on_64_bytes(a: Seq<u8>, b: Seq<u8>)
    requires
        a.len() == 66,
        b.len() == 66,
        buffer_limbs(a) == buffer_limbs(b),
    ensures
        a.subrange(0, 64) == b.subrange(0, 64),
{
    assert forall|k: int| 0 <= k < 64 implies a[k] == b[k] by {
        let i = k / 16;
        let size = (a.len() / 4) as int;
        assert(size == 16 && (b.len() / 4) as int == 16);
        assert(buffer_limbs(a)[i] == limb_value(a.subrange(i * size, (i + 1) * size)));
        assert(buffer_limbs(b)[i] == limb_value(b.subrange(i * size, (i + 1) * size)));
        assert(buffer_limbs(a)[i] == buffer_limbs(b)[i]);
        lemma_limb_injective(a.subrange(i * 16, (i + 1) * 16), b.subrange(i * 16, (i + 1) * 16));
        assert(a.subrange(i * 16, (i + 1) * 16)[k - i * 16] == b.subrange(i * 16, (i + 1) * 16)[k
            - i * 16]);
    }
    assert(a.subrange(0, 64) =~= b.subrange(0, 64));
}

/// The element that `size` bytes of the buffer stand for, from `from` on.
pub fn limb_of(buffer: &[u8], from: usize, size: usize) -> (r: FieldElement)
    requires
        from + size <= buffer.len(),
        size <= 32,
    ensures
        r.value() == limb_value(buffer@.subrange(from as int, from + size)),
{
    let ghost chunk = buffer@.subrange(from as int, from + size);
    let mut bytes: [u8; 32] = [0u8; 32];
    let mut i: usize = 0;
    while i < size
        invariant
            i <= size,
            size <= 32,
            from + size <= buffer.len(),
            chunk == buffer@.subrange(from as int, from + size),
            forall|k: int| 0 <= k < i ==> bytes@[k] == chunk[k],
            forall|k: int| i <= k < 32 ==> bytes@[k] == 0,
        decreases size - i,
    {
        bytes[i] = buffer[from + i];
        i += 1;
    }
    assert(bytes@ =~= padded(chunk));
    match FieldElement::from_bytes(&bytes) {
        Some(x) => x,
        None => FieldElement::zero(),
    }
}

/// Values that hash to a field element.
pub trait HashSqueeze {
    /// Whether the value can be hashed.
    spec fn hashable(&self) -> bool;

    /// What the value hashes to.
    spec fn digest(&self) -> nat;

    /// Hashes the value.
    fn squeeze(&self, specs: &Specs) -> (r: Result<FieldElement, FingerprintError>)
        requires
            self.hashable(),
        ensures
            r matches Ok(x) && x.value() == self.digest(),
    ;
}

/// The hashing of a buffer: it is cut into four limbs of a quarter of its
/// length each, and the limbs are hashed through the instance of width 5.
pub fn squeeze_buffer(specs: &Specs, buffer: &[u8]) -> (r: FieldElement)
    requires
        4 <= buffer@.len() < 132,
    ensures
        r.value() == buffer_digest(buffer@),
{
    let size = buffer.len() / 4;
    let mut limbs: Vec<FieldElement> = Vec::new();
    let mut i: usize = 0;
    let mut offset: usize = 0;
    assert(0 * size == 0);
    while i < 4
        invariant
            i <= 4,
            size == buffer.len() / 4,
            offset == i * size,
            4 <= buffer@.len() < 132,
            limbs.len() == i,
            forall|k: int|
                0 <= k < i ==> limbs[k].value() == limb_value(
                    buffer@.subrange(k * size, (k + 1) * size),
                ),
        decreases 4 - i,
    {
        assert(offset + size <= 4 * size && (i + 1) * size == offset + size) by (nonlinear_arith)
            requires
                offset == i * size,
                i <= 3,
                0 <= size,
        ;
        let limb = limb_of(buffer, offset, size);
        limbs.push(limb);
        offset = offset + size;
        i += 1;
    }
    assert(crate::poseidon::state::values(limbs@) =~= buffer_limbs(buffer@));
    hash_elements(specs.spec_big(), limbs.as_slice())
}

impl HashSqueeze for Bytes {
    /// A buffer is cut into four limbs of at most 32 bytes each.
    open spec fn hashable(&self) -> bool {
        4 <= bytes_contents(*self).len() < 132
    }

    open spec fn digest(&self) -> nat {
        buffer_digest(bytes_contents(*self))
    }

    fn squeeze(&self, specs: &Specs) -> (r: Result<FieldElement, FingerprintError>) {
        Ok(squeeze_buffer(specs, bytes_as_slice(self)))
    }
}

/// Hashes a buffer where it can be hashed: nothing for a buffer of fewer
/// than 4 bytes, or of 132 bytes or more.
pub fn checked_squeeze(specs: &Specs, buffer: &Bytes) -> (r: Option<FieldElement>)
    ensures
        r is Some <==> buffer.hashable(),
        r matches Some(x) ==> x.value() == buffer.digest(),
{
    let bytes = bytes_as_slice(buffer);
    if bytes.len() < 4 || bytes.len() >= 132 {
        None
    } else {
        Some(squeeze_buffer(specs, bytes))
    }
}

} // verus!
