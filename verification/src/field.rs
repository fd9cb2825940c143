//! Elements of the BN254 scalar field in canonical form.
//!
//! An element is held as the four little-endian 64-bit limbs of its least
//! non-negative representative. The arithmetic itself is done by
//! `halo2curves`; this module states what each operation returns and proves
//! the byte encoding.

use halo2_axiom::halo2curves::bn256::Fr;
use vstd::arithmetic::div_mod::{
    lemma_fundamental_div_mod_converse, lemma_mul_mod_noop_general, lemma_small_mod,
};
use vstd::arithmetic::mul::{lemma_mul_is_associative, lemma_mul_is_commutative};
use vstd::prelude::*;

verus! {

/// The order `r` of the BN254 scalar field.
pub open spec fn modulus() -> nat {
    21888242871839275222246405745257275088548364400416034343698204186575808495617nat
}

/// The limbs of `r`, least significant first.
pub const MODULUS_LIMB_0: u64 = 0x43e1f593f0000001;

pub const MODULUS_LIMB_1: u64 = 0x2833e84879b97091;

pub const MODULUS_LIMB_2: u64 = 0xb85045b68181585d;

pub const MODULUS_LIMB_3: u64 = 0x30644e72e131a029;

/// The number that four little-endian 64-bit limbs stand for.
pub open spec fn limbs_value(l0: u64, l1: u64, l2: u64, l3: u64) -> nat {
    (l0 as nat) + (l1 as nat) * 0x1_0000_0000_0000_0000nat + (l2 as nat)
        * 0x1_0000_0000_0000_0000_0000_0000_0000_0000nat + (l3 as nat)
        * 0x1_0000_0000_0000_0000_0000_0000_0000_0000_0000_0000_0000_0000nat
}

/// The number that the eight bytes of `s` from `at` on stand for, least
/// significant byte first.
pub open spec fn word_le(s: Seq<u8>, at: int) -> nat {
    (s[at] as nat) + (s[at + 1] as nat) * 0x100nat + (s[at + 2] as nat) * 0x1_0000nat + (s[at
        + 3] as nat) * 0x100_0000nat + (s[at + 4] as nat) * 0x1_0000_0000nat + (s[at + 5] as nat)
        * 0x100_0000_0000nat + (s[at + 6] as nat) * 0x1_0000_0000_0000nat + (s[at + 7] as nat)
        * 0x100_0000_0000_0000nat
}

/// The number that 32 bytes stand for, least significant byte first.
pub open spec fn bytes32_value(s: Seq<u8>) -> nat {
    word_le(s, 0) + word_le(s, 8) * 0x1_0000_0000_0000_0000nat + word_le(s, 16)
        * 0x1_0000_0000_0000_0000_0000_0000_0000_0000nat + word_le(s, 24)
        * 0x1_0000_0000_0000_0000_0000_0000_0000_0000_0000_0000_0000_0000nat
}

/// The eight bytes of a 64-bit word, least significant first.
pub open spec fn word_bytes(w: u64) -> Seq<u8> {
    seq![
        (w % 0x100) as u8,
        ((w / 0x100) % 0x100) as u8,
        ((w / 0x1_0000) % 0x100) as u8,
        ((w / 0x100_0000) % 0x100) as u8,
        ((w / 0x1_0000_0000) % 0x100) as u8,
        ((w / 0x100_0000_0000) % 0x100) as u8,
        ((w / 0x1_0000_0000_0000) % 0x100) as u8,
        ((w / 0x100_0000_0000_0000) % 0x100) as u8,
    ]
}

/// Sum of two residues.
pub open spec fn fadd(a: nat, b: nat) -> nat {
    (a + b) % modulus()
}

/// Difference of two residues; meant for `b` below the modulus.
pub open spec fn fsub(a: nat, b: nat) -> nat {
    ((a + modulus() - b) % (modulus() as int)) as nat
}

/// Product of two residues.
pub open spec fn fmul(a: nat, b: nat) -> nat {
    (a * b) % modulus()
}

/// Fifth power of a residue, the S-box of the permutation.
pub open spec fn fpow5(a: nat) -> nat {
    fmul(fmul(fmul(a, a), fmul(a, a)), a)
}

/// Whether `x` is a multiplicative inverse of `a`.
pub open spec fn is_inverse(a: nat, x: nat) -> bool {
    x < modulus() && fmul(a, x) == 1
}

/// The multiplicative inverse of `a`, where it has one.
pub open spec fn finv(a: nat) -> nat {
    choose|x: nat| is_inverse(a, x)
}

/// Limbs are determined by the number they stand for.
pub proof fn lemma_limbs_injective(
    a0: u64,
    a1: u64,
    a2: u64,
    a3: u64,
    b0: u64,
    b1: u64,
    b2: u64,
    b3: u64,
)
    requires
        limbs_value(a0, a1, a2, a3) == limbs_value(b0, b1, b2, b3),
    ensures
        a0 == b0,
        a1 == b1,
        a2 == b2,
        a3 == b3,
{
    let base = 0x1_0000_0000_0000_0000int;
    let a_high = a2 as int + (a3 as int) * base;
    let b_high = b2 as int + (b3 as int) * base;
    let a_mid = a1 as int + a_high * base;
    let b_mid = b1 as int + b_high * base;
    let v = limbs_value(a0, a1, a2, a3) as int;
    assert(v == a_mid * base + a0) by (nonlinear_arith)
        requires
            v == (a0 as int) + (a1 as int) * 0x1_0000_0000_0000_0000int + (a2 as int)
                * 0x1_0000_0000_0000_0000_0000_0000_0000_0000int + (a3 as int)
                * 0x1_0000_0000_0000_0000_0000_0000_0000_0000_0000_0000_0000_0000int,
            a_mid == a1 as int + (a2 as int + (a3 as int) * base) * base,
            base == 0x1_0000_0000_0000_0000int,
    ;
    assert(v == b_mid * base + b0) by (nonlinear_arith)
        requires
            v == (b0 as int) + (b1 as int) * 0x1_0000_0000_0000_0000int + (b2 as int)
                * 0x1_0000_0000_0000_0000_0000_0000_0000_0000int + (b3 as int)
                * 0x1_0000_0000_0000_0000_0000_0000_0000_0000_0000_0000_0000_0000int,
            b_mid == b1 as int + (b2 as int + (b3 as int) * base) * base,
            base == 0x1_0000_0000_0000_0000int,
    ;
    lemma_fundamental_div_mod_converse(v, base, a_mid, a0 as int);
    lemma_fundamental_div_mod_converse(v, base, b_mid, b0 as int);
    assert(a_mid == b_mid);
    lemma_fundamental_div_mod_converse(a_mid, base, a_high, a1 as int);
    lemma_fundamental_div_mod_converse(a_mid, base, b_high, b1 as int);
    assert(a_high == b_high);
    lemma_fundamental_div_mod_converse(a_high, base, a3 as int, a2 as int);
    lemma_fundamental_div_mod_converse(a_high, base, b3 as int, b2 as int);
}

/// A residue has at most one inverse.
pub proof fn lemma_inverse_unique(a: nat, x: nat, y: nat)
    requires
        is_inverse(a, x),
        is_inverse(a, y),
    ensures
        x == y,
{
    let m = modulus() as int;
    let (ai, xi, yi) = (a as int, x as int, y as int);
    // x = x * (a * y) = (x * a) * y = y, all modulo m
    lemma_mul_mod_noop_general(xi, ai * yi, m);
    assert((xi * ((ai * yi) % m)) % m == (xi * (ai * yi)) % m);
    assert(xi * 1 == xi);
    lemma_small_mod(x, modulus());
    assert((xi * (ai * yi)) % m == xi);
    lemma_mul_is_associative(xi, ai, yi);
    lemma_mul_is_commutative(xi, ai);
    assert(xi * (ai * yi) == (ai * xi) * yi);
    lemma_mul_mod_noop_general(ai * xi, yi, m);
    assert((((ai * xi) % m) * yi) % m == ((ai * xi) * yi) % m);
    assert(1 * yi == yi);
    lemma_small_mod(y, modulus());
}

/// A residue modulo `r`, always in canonical form.
#[derive(Clone, Copy, Debug, PartialEq, Eq, Structural)]
pub struct FieldElement {
    l0: u64,
    l1: u64,
    l2: u64,
    l3: u64,
}

impl FieldElement {
    /// The residue as a natural number.
    pub closed spec fn value(self) -> nat {
        limbs_value(self.l0, self.l1, self.l2, self.l3)
    }

    /// Canonical form: the representative is below the modulus.
    #[verifier::type_invariant]
    pub closed spec fn is_canonical(self) -> bool {
        self.value() < modulus()
    }

    /// The canonical 32-byte little-endian encoding.
    pub closed spec fn encoding(self) -> Seq<u8> {
        word_bytes(self.l0) + word_bytes(self.l1) + word_bytes(self.l2) + word_bytes(self.l3)
    }

    /// The element that 32 bytes encode, if they are a canonical encoding.
    pub closed spec fn decoding(bytes: Seq<u8>) -> Option<FieldElement> {
        if bytes.len() == 32 && bytes32_value(bytes) < modulus() {
            Some(
                FieldElement {
                    l0: word_le(bytes, 0) as u64,
                    l1: word_le(bytes, 8) as u64,
                    l2: word_le(bytes, 16) as u64,
                    l3: word_le(bytes, 24) as u64,
                },
            )
        } else {
            None
        }
    }

    /// The element whose residue is `v`, for `v` below the modulus.
    pub closed spec fn from_value(v: nat) -> FieldElement {
        FieldElement {
            l0: (v % 0x1_0000_0000_0000_0000nat) as u64,
            l1: ((v / 0x1_0000_0000_0000_0000nat) % 0x1_0000_0000_0000_0000nat) as u64,
            l2: ((v / 0x1_0000_0000_0000_0000_0000_0000_0000_0000nat)
                % 0x1_0000_0000_0000_0000nat) as u64,
            l3: ((v / 0x1_0000_0000_0000_0000_0000_0000_0000_0000_0000_0000_0000_0000nat)
                % 0x1_0000_0000_0000_0000nat) as u64,
        }
    }

    /// `from_value` gives the element of that residue, and every element
    /// is the one of its own residue.
    pub proof fn lemma_from_value(x: FieldElement)
        ensures
            Self::from_value(x.value()) == x,
    {
        let base = 0x1_0000_0000_0000_0000int;
        let v = x.value() as int;
        let high = x.l2 as int + (x.l3 as int) * base;
        let mid = x.l1 as int + high * base;
        assert(v == mid * base + x.l0) by (nonlinear_arith)
            requires
                v == (x.l0 as int) + (x.l1 as int) * 0x1_0000_0000_0000_0000int + (x.l2 as int)
                    * 0x1_0000_0000_0000_0000_0000_0000_0000_0000int + (x.l3 as int)
                    * 0x1_0000_0000_0000_0000_0000_0000_0000_0000_0000_0000_0000_0000int,
                mid == x.l1 as int + (x.l2 as int + (x.l3 as int) * base) * base,
                base == 0x1_0000_0000_0000_0000int,
        ;
        lemma_fundamental_div_mod_converse(v, base, mid, x.l0 as int);
        lemma_fundamental_div_mod_converse(mid, base, high, x.l1 as int);
        lemma_fundamental_div_mod_converse(high, base, x.l3 as int, x.l2 as int);
        let square = 0x1_0000_0000_0000_0000_0000_0000_0000_0000int;
        let cube = 0x1_0000_0000_0000_0000_0000_0000_0000_0000_0000_0000_0000_0000int;
        let low2 = x.l0 as int + (x.l1 as int) * base;
        assert(v == high * square + low2) by (nonlinear_arith)
            requires
                v == mid * base + x.l0,
                mid == x.l1 as int + high * base,
                low2 == x.l0 as int + (x.l1 as int) * base,
                base == 0x1_0000_0000_0000_0000int,
                square == 0x1_0000_0000_0000_0000_0000_0000_0000_0000int,
        ;
        lemma_fundamental_div_mod_converse(v, square, high, low2);
        let low3 = low2 + (x.l2 as int) * square;
        assert(v == (x.l3 as int) * cube + low3);
        lemma_fundamental_div_mod_converse(v, cube, x.l3 as int, low3);
        lemma_small_mod(x.l3 as nat, 0x1_0000_0000_0000_0000nat);
    }

    /// Every element that executable code holds is canonical.
    pub fn canonical(&self)
        ensures
            self.is_canonical(),
            self.value() < modulus(),
    {
        proof {
            use_type_invariant(self);
        }
    }

    /// Two elements with the same value are the same element.
    pub proof fn lemma_value_injective(a: FieldElement, b: FieldElement)
        requires
            a.value() == b.value(),
        ensures
            a == b,
    {
        lemma_limbs_injective(a.l0, a.l1, a.l2, a.l3, b.l0, b.l1, b.l2, b.l3);
    }

    /// The encoding has 32 bytes and stands for the element's value.
    pub proof fn lemma_encoding(self)
        ensures
            self.encoding().len() == 32,
            bytes32_value(self.encoding()) == self.value(),
    {
        lemma_word_bytes(self.l0);
        lemma_word_bytes(self.l1);
        lemma_word_bytes(self.l2);
        lemma_word_bytes(self.l3);
        let e = self.encoding();
        assert(word_le(e, 0) == self.l0);
        assert(word_le(e, 8) == self.l1);
        assert(word_le(e, 16) == self.l2);
        assert(word_le(e, 24) == self.l3);
    }

    /// What `decoding` accepts, and the value of what it yields.
    pub proof fn lemma_decoding(bytes: Seq<u8>)
        ensures
            Self::decoding(bytes) is Some <==> bytes.len() == 32 && bytes32_value(bytes)
                < modulus(),
            Self::decoding(bytes) matches Some(x) ==> x.value() == bytes32_value(bytes)
                && x.is_canonical() && x.encoding() == bytes,
    {
        if Self::decoding(bytes) is Some {
            let x = Self::decoding(bytes)->0;
            lemma_word_le_bound(bytes, 0);
            lemma_word_le_bound(bytes, 8);
            lemma_word_le_bound(bytes, 16);
            lemma_word_le_bound(bytes, 24);
            lemma_bytes_word(bytes, 0);
            lemma_bytes_word(bytes, 8);
            lemma_bytes_word(bytes, 16);
            lemma_bytes_word(bytes, 24);
            assert(x.encoding() =~= bytes);
        }
    }

    /// Decoding the canonical encoding of an element gives the element back.
    pub proof fn lemma_decode_encode(x: FieldElement)
        requires
            x.is_canonical(),
        ensures
            Self::decoding(x.encoding()) == Some(x),
    {
        x.lemma_encoding();
        Self::lemma_decoding(x.encoding());
        Self::lemma_value_injective(Self::decoding(x.encoding())->0, x);
    }

    pub fn zero() -> (r: Self)
        ensures
            r.value() == 0,
    {
        FieldElement { l0: 0, l1: 0, l2: 0, l3: 0 }
    }

    pub fn one() -> (r: Self)
        ensures
            r.value() == 1,
    {
        FieldElement { l0: 1, l1: 0, l2: 0, l3: 0 }
    }

    pub fn from_u64(n: u64) -> (r: Self)
        ensures
            r.value() == n,
    {
        FieldElement { l0: n, l1: 0, l2: 0, l3: 0 }
    }

    /// The element with the given limbs, if they stand for a number below
    /// the modulus.
    pub fn from_limbs(l0: u64, l1: u64, l2: u64, l3: u64) -> (r: Option<Self>)
        ensures
            r is Some <==> limbs_value(l0, l1, l2, l3) < modulus(),
            r matches Some(x) ==> x.value() == limbs_value(l0, l1, l2, l3),
    {
        if below_modulus(l0, l1, l2, l3) {
            Some(FieldElement { l0, l1, l2, l3 })
        } else {
            None
        }
    }

    /// The residue of a number below twice the modulus, given by its limbs.
    pub fn from_limbs_reduced(l0: u64, l1: u64, l2: u64, l3: u64) -> (r: Self)
        requires
            limbs_value(l0, l1, l2, l3) < 2 * modulus(),
        ensures
            r.value() == limbs_value(l0, l1, l2, l3) % modulus(),
    {
        let ghost v = limbs_value(l0, l1, l2, l3);
        if below_modulus(l0, l1, l2, l3) {
            proof {
                lemma_small_mod(v, modulus());
            }
            FieldElement { l0, l1, l2, l3 }
        } else {
            let (d0, borrow0) = sub_with_borrow(l0, MODULUS_LIMB_0, 0);
            let (d1, borrow1) = sub_with_borrow(l1, MODULUS_LIMB_1, borrow0);
            let (d2, borrow2) = sub_with_borrow(l2, MODULUS_LIMB_2, borrow1);
            let (d3, borrow3) = sub_with_borrow(l3, MODULUS_LIMB_3, borrow2);
            proof {
                let d = limbs_value(d0, d1, d2, d3) as int;
                assert(d == v - modulus() + borrow3
                    * 0x1_0000_0000_0000_0000_0000_0000_0000_0000_0000_0000_0000_0000_0000_0000_0000_0000int);
                assert(borrow3 == 0);
                lemma_fundamental_div_mod_converse(v as int, modulus() as int, 1, d);
            }
            FieldElement { l0: d0, l1: d1, l2: d2, l3: d3 }
        }
    }

    /// The limbs of the canonical representative, least significant first.
    pub fn limbs(&self) -> (r: (u64, u64, u64, u64))
        ensures
            limbs_value(r.0, r.1, r.2, r.3) == self.value(),
    {
        (self.l0, self.l1, self.l2, self.l3)
    }

    pub fn is_zero(&self) -> (b: bool)
        ensures
            b == (self.value() == 0),
    {
        self.l0 == 0 && self.l1 == 0 && self.l2 == 0 && self.l3 == 0
    }

    /// Reads a canonical little-endian encoding; `None` where the bytes
    /// stand for a number that is not below the modulus.
    pub fn from_bytes(bytes: &[u8; 32]) -> (r: Option<Self>)
        ensures
            r == Self::decoding(bytes@),
            r is Some <==> bytes32_value(bytes@) < modulus(),
            r matches Some(x) ==> x.value() == bytes32_value(bytes@),
    {
        let l0: u64 = load_word(bytes, 0);
        let l1: u64 = load_word(bytes, 8);
        let l2: u64 = load_word(bytes, 16);
        let l3: u64 = load_word(bytes, 24);
        proof {
            Self::lemma_decoding(bytes@);
        }
        if below_modulus(l0, l1, l2, l3) {
            Some(FieldElement { l0, l1, l2, l3 })
        } else {
            None
        }
    }

    /// The canonical little-endian encoding.
    pub fn to_bytes(&self) -> (r: [u8; 32])
        ensures
            r@ == self.encoding(),
            bytes32_value(r@) == self.value(),
    {
        let a: [u8; 8] = store_word(self.l0);
        let b: [u8; 8] = store_word(self.l1);
        let c: [u8; 8] = store_word(self.l2);
        let d: [u8; 8] = store_word(self.l3);
        let r: [u8; 32] = [
            a[0], a[1], a[2], a[3], a[4], a[5], a[6], a[7],
            b[0], b[1], b[2], b[3], b[4], b[5], b[6], b[7],
            c[0], c[1], c[2], c[3], c[4], c[5], c[6], c[7],
            d[0], d[1], d[2], d[3], d[4], d[5], d[6], d[7],
        ];
        proof {
            assert(r@ =~= self.encoding());
            self.lemma_encoding();
        }
        r
    }

    /// Field addition.
    pub fn add(&self, other: &FieldElement) -> (r: FieldElement)
        ensures
            r.value() == fadd(self.value(), other.value()),
    {
        fr_add(self, other)
    }

    /// Field subtraction.
    pub fn sub(&self, other: &FieldElement) -> (r: FieldElement)
        ensures
            r.value() == fsub(self.value(), other.value()),
    {
        fr_sub(self, other)
    }

    /// The additive inverse.
    pub fn neg(&self) -> (r: FieldElement)
        ensures
            r.value() == fsub(0, self.value()),
    {
        let zero = FieldElement::zero();
        fr_sub(&zero, self)
    }

    /// Field multiplication.
    pub fn mul(&self, other: &FieldElement) -> (r: FieldElement)
        ensures
            r.value() == fmul(self.value(), other.value()),
    {
        fr_mul(self, other)
    }

    /// The fifth power.
    pub fn pow5(&self) -> (r: FieldElement)
        ensures
            r.value() == fpow5(self.value()),
    {
        let x2 = fr_mul(self, self);
        let x4 = fr_mul(&x2, &x2);
        fr_mul(&x4, self)
    }

    /// The multiplicative inverse; `None` for zero, which has none.
    pub fn invert(&self) -> (r: Option<FieldElement>)
        ensures
            r is None <==> self.value() == 0,
            r matches Some(x) ==> is_inverse(self.value(), x.value()) && x.value() == finv(
                self.value(),
            ),
    {
        let r = fr_invert(self);
        proof {
            if let Some(x) = r {
                use_type_invariant(&x);
                let y = finv(self.value());
                assert(is_inverse(self.value(), x.value()));
                lemma_inverse_unique(self.value(), x.value(), y);
            }
        }
        r
    }
}

/// The word that `word_bytes` spells is the word it was made from.
pub proof fn lemma_word_bytes(w: u64)
    ensures
        word_bytes(w).len() == 8,
        word_le(word_bytes(w), 0) == w,
{
    assert(w == (w % 0x100) + ((w / 0x100) % 0x100) * 0x100 + ((w / 0x1_0000) % 0x100) * 0x1_0000
        + ((w / 0x100_0000) % 0x100) * 0x100_0000 + ((w / 0x1_0000_0000) % 0x100) * 0x1_0000_0000
        + ((w / 0x100_0000_0000) % 0x100) * 0x100_0000_0000 + ((w / 0x1_0000_0000_0000) % 0x100)
        * 0x1_0000_0000_0000 + ((w / 0x100_0000_0000_0000) % 0x100) * 0x100_0000_0000_0000)
        by (bit_vector);
}

/// Eight bytes stand for a number that fits a 64-bit word.
pub proof fn lemma_word_le_bound(s: Seq<u8>, at: int)
    ensures
        word_le(s, at) <= u64::MAX,
{
}

/// The bytes of the word that eight bytes spell are those bytes.
pub proof fn lemma_bytes_word(s: Seq<u8>, at: int)
    requires
        0 <= at,
        at + 8 <= s.len(),
    ensures
        word_bytes(word_le(s, at) as u64) =~= s.subrange(at, at + 8),
{
    let (b0, b1, b2, b3) = (s[at], s[at + 1], s[at + 2], s[at + 3]);
    let (b4, b5, b6, b7) = (s[at + 4], s[at + 5], s[at + 6], s[at + 7]);
    lemma_word_le_bound(s, at);
    let w: u64 = word_le(s, at) as u64;
    assert(w == b0 as u64 + (b1 as u64) * 0x100 + (b2 as u64) * 0x1_0000 + (b3 as u64)
        * 0x100_0000 + (b4 as u64) * 0x1_0000_0000 + (b5 as u64) * 0x100_0000_0000 + (b6 as u64)
        * 0x1_0000_0000_0000 + (b7 as u64) * 0x100_0000_0000_0000);
    assert(w % 0x100 == b0 && (w / 0x100) % 0x100 == b1 && (w / 0x1_0000) % 0x100 == b2 && (w
        / 0x100_0000) % 0x100 == b3 && (w / 0x1_0000_0000) % 0x100 == b4 && (w
        / 0x100_0000_0000) % 0x100 == b5 && (w / 0x1_0000_0000_0000) % 0x100 == b6 && (w
        / 0x100_0000_0000_0000) % 0x100 == b7) by (bit_vector)
        requires
            w == b0 as u64 + (b1 as u64) * 0x100 + (b2 as u64) * 0x1_0000 + (b3 as u64)
                * 0x100_0000 + (b4 as u64) * 0x1_0000_0000 + (b5 as u64) * 0x100_0000_0000 + (
            b6 as u64) * 0x1_0000_0000_0000 + (b7 as u64) * 0x100_0000_0000_0000,
    ;
}

/// Whether four limbs stand for a number below the modulus.
fn below_modulus(l0: u64, l1: u64, l2: u64, l3: u64) -> (b: bool)
    ensures
        b == (limbs_value(l0, l1, l2, l3) < modulus()),
{
    if l3 != MODULUS_LIMB_3 {
        l3 < MODULUS_LIMB_3
    } else if l2 != MODULUS_LIMB_2 {
        l2 < MODULUS_LIMB_2
    } else if l1 != MODULUS_LIMB_1 {
        l1 < MODULUS_LIMB_1
    } else {
        l0 < MODULUS_LIMB_0
    }
}

/// One limb of a subtraction: `a - b - borrow`, with the borrow it leaves.
fn sub_with_borrow(a: u64, b: u64, borrow: u64) -> (r: (u64, u64))
    requires
        borrow <= 1,
    ensures
        r.1 <= 1,
        r.0 == a - b - borrow + r.1 * 0x1_0000_0000_0000_0000,
{
    let wide: u128 = (a as u128) + 0x1_0000_0000_0000_0000u128 - (b as u128) - (borrow as u128);
    if wide >= 0x1_0000_0000_0000_0000u128 {
        ((wide - 0x1_0000_0000_0000_0000u128) as u64, 0)
    } else {
        (wide as u64, 1)
    }
}

/// Reads eight bytes from `at` on as a little-endian word.
fn load_word(bytes: &[u8; 32], at: usize) -> (w: u64)
    requires
        at + 8 <= 32,
    ensures
        w == word_le(bytes@, at as int),
{
    let b0: u64 = bytes[at] as u64;
    let b1: u64 = bytes[at + 1] as u64;
    let b2: u64 = bytes[at + 2] as u64;
    let b3: u64 = bytes[at + 3] as u64;
    let b4: u64 = bytes[at + 4] as u64;
    let b5: u64 = bytes[at + 5] as u64;
    let b6: u64 = bytes[at + 6] as u64;
    let b7: u64 = bytes[at + 7] as u64;
    let w: u64 = b0 | (b1 << 8) | (b2 << 16) | (b3 << 24) | (b4 << 32) | (b5 << 40) | (b6 << 48)
        | (b7 << 56);
    assert(w == b0 + b1 * 0x100 + b2 * 0x1_0000 + b3 * 0x100_0000 + b4 * 0x1_0000_0000 + b5
        * 0x100_0000_0000 + b6 * 0x1_0000_0000_0000 + b7 * 0x100_0000_0000_0000) by (bit_vector)
        requires
            b0 < 0x100,
            b1 < 0x100,
            b2 < 0x100,
            b3 < 0x100,
            b4 < 0x100,
            b5 < 0x100,
            b6 < 0x100,
            b7 < 0x100,
            w == b0 | (b1 << 8) | (b2 << 16) | (b3 << 24) | (b4 << 32) | (b5 << 40) | (b6 << 48)
                | (b7 << 56),
    ;
    w
}

/// Spells a word as eight bytes, least significant first.
fn store_word(w: u64) -> (b: [u8; 8])
    ensures
        b@ == word_bytes(w),
{
    assert((w & 0xff) == w % 0x100 && ((w >> 8) & 0xff) == (w / 0x100) % 0x100 && ((w >> 16)
        & 0xff) == (w / 0x1_0000) % 0x100 && ((w >> 24) & 0xff) == (w / 0x100_0000) % 0x100 && ((w
        >> 32) & 0xff) == (w / 0x1_0000_0000) % 0x100 && ((w >> 40) & 0xff) == (w
        / 0x100_0000_0000) % 0x100 && ((w >> 48) & 0xff) == (w / 0x1_0000_0000_0000) % 0x100 && ((
    w >> 56) & 0xff) == (w / 0x100_0000_0000_0000) % 0x100) by (bit_vector);
    let b: [u8; 8] = [
        (w & 0xff) as u8,
        ((w >> 8) & 0xff) as u8,
        ((w >> 16) & 0xff) as u8,
        ((w >> 24) & 0xff) as u8,
        ((w >> 32) & 0xff) as u8,
        ((w >> 40) & 0xff) as u8,
        ((w >> 48) & 0xff) as u8,
        ((w >> 56) & 0xff) as u8,
    ];
    assert(b@ =~= word_bytes(w));
    b
}

/// `Fr`'s `+`: the sum of the two residues, reduced modulo `r`.
#[verifier::external_body]
fn fr_add(a: &FieldElement, b: &FieldElement) -> (r: FieldElement)
    ensures
        r.value() == fadd(a.value(), b.value()),
{
    let x = Fr::from_raw([a.l0, a.l1, a.l2, a.l3]);
    let y = Fr::from_raw([b.l0, b.l1, b.l2, b.l3]);
    let [l0, l1, l2, l3]: [u64; 4] = (x + y).into();
    FieldElement { l0, l1, l2, l3 }
}

/// `Fr`'s `-`: the difference of the two residues, reduced modulo `r`.
#[verifier::external_body]
fn fr_sub(a: &FieldElement, b: &FieldElement) -> (r: FieldElement)
    ensures
        r.value() == fsub(a.value(), b.value()),
{
    let x = Fr::from_raw([a.l0, a.l1, a.l2, a.l3]);
    let y = Fr::from_raw([b.l0, b.l1, b.l2, b.l3]);
    let [l0, l1, l2, l3]: [u64; 4] = (x - y).into();
    FieldElement { l0, l1, l2, l3 }
}

/// `Fr`'s `*`: the product of the two residues, reduced modulo `r`.
#[verifier::external_body]
fn fr_mul(a: &FieldElement, b: &FieldElement) -> (r: FieldElement)
    ensures
        r.value() == fmul(a.value(), b.value()),
{
    let x = Fr::from_raw([a.l0, a.l1, a.l2, a.l3]);
    let y = Fr::from_raw([b.l0, b.l1, b.l2, b.l3]);
    let [l0, l1, l2, l3]: [u64; 4] = (x * y).into();
    FieldElement { l0, l1, l2, l3 }
}

/// `Fr::invert`: the multiplicative inverse of a residue, and nothing for
/// zero.
#[verifier::external_body]
fn fr_invert(a: &FieldElement) -> (r: Option<FieldElement>)
    ensures
        r is None <==> a.value() == 0,
        r matches Some(x) ==> fmul(a.value(), x.value()) == 1,
{
    let x = Fr::from_raw([a.l0, a.l1, a.l2, a.l3]);
    let inverse: Option<Fr> = x.invert().into();
    match inverse {
        Some(y) => {
            let [l0, l1, l2, l3]: [u64; 4] = y.into();
            Some(FieldElement { l0, l1, l2, l3 })
        },
        None => None,
    }
}

} // verus!
