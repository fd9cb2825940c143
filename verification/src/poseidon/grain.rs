//! The Grain LFSR in self-shrinking mode, from which the round constants
//! and the MDS matrix are drawn.
//!
//! The register holds 80 bits. Bit `i + 80` of its stream is the sum of
//! the bits `i + 62`, `i + 51`, `i + 38`, `i + 23`, `i + 13` and `i`. The
//! stream is read in pairs: where the first bit of a pair is set the second
//! is handed out, otherwise the pair is dropped.

use crate::field::{limbs_value, modulus, FieldElement};
use vstd::arithmetic::power2::{
    lemma2_to64, lemma2_to64_rest, lemma_pow2_strictly_increases, lemma_pow2_unfold, pow2,
};
use vstd::prelude::*;

verus! {

/// The number of bits in the register.
pub const REGISTER_BITS: usize = 80;

/// The number of bits of the stream that are thrown away first.
pub const DISCARDED_BITS: usize = 160;

/// The number of bits read for one field element.
pub const ELEMENT_BITS: usize = 254;

/// No more than this many bits of the stream are ever produced. A draw
/// that would read past it fails.
pub const STREAM_LIMIT: usize = 0x100_0000;

/// The lowest `n` bits of `value`, most significant first.
pub open spec fn bits_msb_first(value: nat, n: nat) -> Seq<bool>
    decreases n,
{
    if n == 0 {
        Seq::empty()
    } else {
        bits_msb_first(value / 2, (n - 1) as nat).push(value % 2 == 1)
    }
}

/// The 80 bits the register starts from: a prime field, the S-box
/// `x -> x^5`, the size of the field, the width and the numbers of rounds,
/// then thirty ones.
pub open spec fn seed_bits(width: nat, r_f: nat, r_p: nat) -> Seq<bool> {
    bits_msb_first(1, 2) + bits_msb_first(0, 4) + bits_msb_first(254, 12) + bits_msb_first(
        width,
        12,
    ) + bits_msb_first(r_f, 10) + bits_msb_first(r_p, 10) + bits_msb_first(0x3fff_ffff, 30)
}

/// Bit `i` of the stream that grows from `seed`.
pub open spec fn raw_bit(seed: Seq<bool>, i: nat) -> bool
    decreases i,
{
    if i < 80 {
        seed[i as int]
    } else {
        (((((raw_bit(seed, (i - 80) as nat) != raw_bit(seed, (i - 67) as nat)) != raw_bit(
            seed,
            (i - 57) as nat,
        )) != raw_bit(seed, (i - 42) as nat)) != raw_bit(seed, (i - 29) as nat)) != raw_bit(
            seed,
            (i - 18) as nat,
        ))
    }
}

/// Whether `s` is a beginning of the stream that grows from its own first
/// 80 bits.
pub open spec fn is_stream(s: Seq<bool>) -> bool {
    &&& 80 <= s.len() <= STREAM_LIMIT
    &&& forall|i: int| 0 <= i < s.len() ==> #[trigger] s[i] == raw_bit(s.take(80), i as nat)
}

/// The next bit that the shrunk stream hands out from position `at` on,
/// with the position after it; nothing where the stream would be read past
/// its limit.
pub open spec fn filtered_bit(seed: Seq<bool>, at: nat) -> Option<(bool, nat)>
    decreases STREAM_LIMIT - at,
{
    if at + 2 > STREAM_LIMIT {
        None
    } else if raw_bit(seed, at) {
        Some((raw_bit(seed, at + 1), at + 2))
    } else {
        filtered_bit(seed, at + 2)
    }
}

/// The next `count` bits of the shrunk stream, with the position after
/// them.
pub open spec fn filtered_bits(seed: Seq<bool>, at: nat, count: nat) -> Option<(Seq<bool>, nat)>
    decreases count,
{
    if count == 0 {
        Some((Seq::empty(), at))
    } else {
        match filtered_bits(seed, at, (count - 1) as nat) {
            Some((bits, next)) => match filtered_bit(seed, next) {
                Some((bit, after)) => Some((bits.push(bit), after)),
                None => None,
            },
            None => None,
        }
    }
}

/// The number that a row of bits stands for, most significant first.
pub open spec fn msb_value(bits: Seq<bool>) -> nat
    decreases bits.len(),
{
    if bits.len() == 0 {
        0
    } else {
        2 * msb_value(bits.drop_last()) + if bits.last() {
            1nat
        } else {
            0nat
        }
    }
}

/// The next field element by rejection: 254 bits are read as a number,
/// and read again for as long as the number is not below the modulus.
pub open spec fn sampled_element(seed: Seq<bool>, at: nat) -> Option<(nat, nat)>
    decreases STREAM_LIMIT - at,
{
    match filtered_bits(seed, at, 254) {
        Some((bits, next)) => if msb_value(bits) < modulus() {
            Some((msb_value(bits), next))
        } else if at < next <= STREAM_LIMIT {
            sampled_element(seed, next)
        } else {
            None
        },
        None => None,
    }
}

/// The next field element without rejection: 254 bits are read as a number
/// and reduced.
pub open spec fn reduced_element(seed: Seq<bool>, at: nat) -> Option<(nat, nat)> {
    match filtered_bits(seed, at, 254) {
        Some((bits, next)) => Some((msb_value(bits) % modulus(), next)),
        None => None,
    }
}

/// The next `count` field elements drawn by rejection.
pub open spec fn sampled_row(seed: Seq<bool>, at: nat, count: nat) -> Option<(Seq<nat>, nat)>
    decreases count,
{
    if count == 0 {
        Some((Seq::empty(), at))
    } else {
        match sampled_row(seed, at, (count - 1) as nat) {
            Some((row, next)) => match sampled_element(seed, next) {
                Some((x, after)) => Some((row.push(x), after)),
                None => None,
            },
            None => None,
        }
    }
}

/// The next `count` field elements drawn without rejection.
pub open spec fn reduced_row(seed: Seq<bool>, at: nat, count: nat) -> Option<(Seq<nat>, nat)>
    decreases count,
{
    if count == 0 {
        Some((Seq::empty(), at))
    } else {
        match reduced_row(seed, at, (count - 1) as nat) {
            Some((row, next)) => match reduced_element(seed, next) {
                Some((x, after)) => Some((row.push(x), after)),
                None => None,
            },
            None => None,
        }
    }
}

/// The number of a row of bits followed by another: the first number
/// shifted by the length of the second row, plus the second number.
pub proof fn lemma_msb_value_concat(a: Seq<bool>, b: Seq<bool>)
    ensures
        msb_value(a + b) == msb_value(a) * pow2(b.len()) + msb_value(b),
    decreases b.len(),
{
    if b.len() == 0 {
        assert(a + b =~= a);
        lemma2_to64();
        let x = msb_value(a);
        let one = pow2(0);
        assert(x * one == x) by (nonlinear_arith)
            requires
                one == 1,
        ;
    } else {
        assert((a + b).drop_last() =~= a + b.drop_last());
        assert((a + b).last() == b.last());
        lemma_msb_value_concat(a, b.drop_last());
        lemma_pow2_unfold(b.len());
        let x = msb_value(a);
        let p = pow2((b.len() - 1) as nat);
        let q = pow2(b.len());
        assert(b.drop_last().len() == b.len() - 1);
        assert(msb_value(a + b.drop_last()) == x * p + msb_value(b.drop_last()));
        assert(x * q == 2 * (x * p)) by (nonlinear_arith)
            requires
                q == 2 * p,
        ;
        assert(msb_value(a + b) == 2 * msb_value(a + b.drop_last()) + if b.last() {
            1nat
        } else {
            0nat
        });
    }
}

/// Reading the shrunk stream moves the position forward, and never past
/// the limit.
pub proof fn lemma_filtered_bit_advances(seed: Seq<bool>, at: nat)
    ensures
        filtered_bit(seed, at) matches Some((_, next)) ==> at < next <= STREAM_LIMIT,
    decreases STREAM_LIMIT - at,
{
    if at + 2 <= STREAM_LIMIT && !raw_bit(seed, at) {
        lemma_filtered_bit_advances(seed, at + 2);
    }
}

/// Reading bits moves the position forward by at least their number.
pub proof fn lemma_filtered_bits_advance(seed: Seq<bool>, at: nat, count: nat)
    ensures
        filtered_bits(seed, at, count) matches Some((bits, next)) ==> bits.len() == count && at
            + count <= next && (at <= STREAM_LIMIT ==> next <= STREAM_LIMIT),
    decreases count,
{
    if count > 0 {
        lemma_filtered_bits_advance(seed, at, (count - 1) as nat);
        if let Some((bits, next)) = filtered_bits(seed, at, (count - 1) as nat) {
            lemma_filtered_bit_advances(seed, next);
        }
    }
}

/// Appends the lowest `n` bits of `value`, most significant first.
fn push_bits(out: &mut Vec<bool>, value: u64, n: usize)
    ensures
        final(out)@ == old(out)@ + bits_msb_first(value as nat, n as nat),
    decreases n,
{
    if n > 0 {
        push_bits(out, value / 2, n - 1);
        out.push(value % 2 == 1);
        assert(out@ =~= old(out)@ + bits_msb_first(value as nat, n as nat));
    } else {
        assert(out@ =~= old(out)@ + bits_msb_first(value as nat, n as nat));
    }
}

/// The length of what `bits_msb_first` gives.
pub proof fn lemma_bits_len(value: nat, n: nat)
    ensures
        bits_msb_first(value, n).len() == n,
    decreases n,
{
    if n > 0 {
        lemma_bits_len(value / 2, (n - 1) as nat);
    }
}

/// The register as it starts for the given width and numbers of rounds.
pub fn seed_stream(width: usize, r_f: usize, r_p: usize) -> (r: Vec<bool>)
    requires
        width < 0x1000,
        r_f < 0x400,
        r_p < 0x400,
    ensures
        r@ == seed_bits(width as nat, r_f as nat, r_p as nat),
        r.len() == 80,
        is_stream(r@),
{
    let mut out: Vec<bool> = Vec::new();
    push_bits(&mut out, 1, 2);
    push_bits(&mut out, 0, 4);
    push_bits(&mut out, 254, 12);
    push_bits(&mut out, width as u64, 12);
    push_bits(&mut out, r_f as u64, 10);
    push_bits(&mut out, r_p as u64, 10);
    push_bits(&mut out, 0x3fff_ffff, 30);
    proof {
        lemma_bits_len(1, 2);
        lemma_bits_len(0, 4);
        lemma_bits_len(254, 12);
        lemma_bits_len(width as nat, 12);
        lemma_bits_len(r_f as nat, 10);
        lemma_bits_len(r_p as nat, 10);
        lemma_bits_len(0x3fff_ffff, 30);
        assert(out@ =~= seed_bits(width as nat, r_f as nat, r_p as nat));
        assert(out@.take(80) =~= out@);
    }
    out
}

/// Bit `index` of the stream; the stream is grown as far as that bit.
pub fn stream_bit(stream: &mut Vec<bool>, index: usize) -> (b: bool)
    requires
        is_stream(old(stream)@),
        index < STREAM_LIMIT,
    ensures
        is_stream(final(stream)@),
        final(stream)@.take(80) == old(stream)@.take(80),
        b == raw_bit(old(stream)@.take(80), index as nat),
{
    let ghost seed = stream@.take(80);
    while stream.len() <= index
        invariant
            is_stream(stream@),
            stream@.take(80) == seed,
            seed == old(stream)@.take(80),
            index < STREAM_LIMIT,
        decreases index + 1 - stream.len(),
    {
        let n = stream.len();
        let ghost before = stream@;
        let b: bool = (((((stream[n - 80] != stream[n - 67]) != stream[n - 57]) != stream[n
            - 42]) != stream[n - 29]) != stream[n - 18]);
        proof {
            assert(before[n - 80] == raw_bit(seed, (n - 80) as nat));
            assert(before[n - 67] == raw_bit(seed, (n - 67) as nat));
            assert(before[n - 57] == raw_bit(seed, (n - 57) as nat));
            assert(before[n - 42] == raw_bit(seed, (n - 42) as nat));
            assert(before[n - 29] == raw_bit(seed, (n - 29) as nat));
            assert(before[n - 18] == raw_bit(seed, (n - 18) as nat));
            assert(b == raw_bit(seed, n as nat));
        }
        stream.push(b);
        proof {
            assert(stream@.take(80) =~= seed);
            assert forall|i: int| 0 <= i < stream@.len() implies #[trigger] stream@[i] == raw_bit(
                stream@.take(80),
                i as nat,
            ) by {
                if i < n {
                    assert(before[i] == raw_bit(before.take(80), i as nat));
                }
            }
        }
    }
    assert(stream@[index as int] == raw_bit(stream@.take(80), index as nat));
    stream[index]
}

/// The next bit of the shrunk stream from `at` on, and the position after
/// it.
pub fn next_filtered_bit(stream: &mut Vec<bool>, at: usize) -> (r: Option<(bool, usize)>)
    requires
        is_stream(old(stream)@),
    ensures
        is_stream(final(stream)@),
        final(stream)@.take(80) == old(stream)@.take(80),
        match r {
            Some((bit, next)) => filtered_bit(old(stream)@.take(80), at as nat) == Some(
                (bit, next as nat),
            ),
            None => filtered_bit(old(stream)@.take(80), at as nat) is None,
        },
{
    let ghost seed = stream@.take(80);
    let mut position: usize = at;
    loop
        invariant
            is_stream(stream@),
            stream@.take(80) == seed,
            seed == old(stream)@.take(80),
            filtered_bit(seed, position as nat) == filtered_bit(seed, at as nat),
        decreases STREAM_LIMIT - position,
    {
        if position > STREAM_LIMIT - 2 {
            return None;
        }
        let first = stream_bit(stream, position);
        if first {
            let second = stream_bit(stream, position + 1);
            return Some((second, position + 2));
        }
        position = position + 2;
    }
}

/// The next `count` bits of the shrunk stream from `at` on, and the
/// position after them.
pub fn next_filtered_bits(stream: &mut Vec<bool>, at: usize, count: usize) -> (r: Option<
    (Vec<bool>, usize),
>)
    requires
        is_stream(old(stream)@),
    ensures
        is_stream(final(stream)@),
        final(stream)@.take(80) == old(stream)@.take(80),
        match r {
            Some((bits, next)) => filtered_bits(old(stream)@.take(80), at as nat, count as nat)
                == Some((bits@, next as nat)),
            None => filtered_bits(old(stream)@.take(80), at as nat, count as nat) is None,
        },
{
    let ghost seed = stream@.take(80);
    let mut bits: Vec<bool> = Vec::new();
    let mut position: usize = at;
    let mut k: usize = 0;
    while k < count
        invariant
            k <= count,
            is_stream(stream@),
            stream@.take(80) == seed,
            seed == old(stream)@.take(80),
            filtered_bits(seed, at as nat, k as nat) == Some((bits@, position as nat)),
        decreases count - k,
    {
        match next_filtered_bit(stream, position) {
            Some((bit, next)) => {
                bits.push(bit);
                position = next;
            },
            None => {
                proof {
                    assert(filtered_bits(seed, at as nat, (k + 1) as nat) is None);
                    lemma_filtered_bits_fail(seed, at as nat, (k + 1) as nat, count as nat);
                }
                return None;
            },
        }
        k += 1;
    }
    Some((bits, position))
}

/// A draw of bits that has failed stays failed.
pub proof fn lemma_filtered_bits_fail(seed: Seq<bool>, at: nat, k: nat, count: nat)
    requires
        filtered_bits(seed, at, k) is None,
        k <= count,
    ensures
        filtered_bits(seed, at, count) is None,
    decreases count,
{
    if k < count {
        lemma_filtered_bits_fail(seed, at, k, (count - 1) as nat);
    }
}

/// The number that `len` of the bits stand for, from `from` on, most
/// significant first.
fn word_of(bits: &Vec<bool>, from: usize, len: usize) -> (w: u64)
    requires
        from + len <= bits.len(),
        len <= 64,
    ensures
        w == msb_value(bits@.subrange(from as int, from + len)),
        w < pow2(len as nat),
{
    let mut w: u64 = 0;
    let mut j: usize = 0;
    proof {
        lemma2_to64();
    }
    while j < len
        invariant
            j <= len,
            len <= 64,
            from + len <= bits.len(),
            w == msb_value(bits@.subrange(from as int, from + j)),
            w < pow2(j as nat),
        decreases len - j,
    {
        proof {
            lemma2_to64_rest();
            if j < 63 {
                lemma_pow2_strictly_increases(j as nat, 63);
            }
            lemma_pow2_unfold((j + 1) as nat);
            let next = bits@.subrange(from as int, from + j + 1);
            assert(next.drop_last() =~= bits@.subrange(from as int, from + j));
            assert(next.last() == bits[from + j]);
        }
        let bit: u64 = if bits[from + j] {
            1
        } else {
            0
        };
        w = 2 * w + bit;
        j += 1;
    }
    w
}

/// The limbs of the number that 254 bits stand for, most significant bit
/// first.
fn limbs_of_bits(bits: &Vec<bool>) -> (r: (u64, u64, u64, u64))
    requires
        bits.len() == 254,
    ensures
        limbs_value(r.0, r.1, r.2, r.3) == msb_value(bits@),
        r.3 < 0x4000_0000_0000_0000,
{
    let l3: u64 = word_of(bits, 0, 62);
    let l2: u64 = word_of(bits, 62, 64);
    let l1: u64 = word_of(bits, 126, 64);
    let l0: u64 = word_of(bits, 190, 64);
    proof {
        let s3 = bits@.subrange(0, 62);
        let s2 = bits@.subrange(62, 126);
        let s1 = bits@.subrange(126, 190);
        let s0 = bits@.subrange(190, 254);
        assert(bits@ =~= ((s3 + s2) + s1) + s0);
        lemma_msb_value_concat(s3, s2);
        lemma_msb_value_concat(s3 + s2, s1);
        lemma_msb_value_concat((s3 + s2) + s1, s0);
        lemma2_to64();
        lemma2_to64_rest();
        let base = 0x1_0000_0000_0000_0000int;
        let (a0, a1, a2, a3) = (l0 as int, l1 as int, l2 as int, l3 as int);
        assert(((a3 * base + a2) * base + a1) * base + a0 == a0 + a1 * base + a2 * (base * base)
            + a3 * (base * base * base)) by (nonlinear_arith);
    }
    (l0, l1, l2, l3)
}

/// The next field element by rejection from `at` on, and the position
/// after it.
pub fn next_sampled_element(stream: &mut Vec<bool>, at: usize) -> (r: Option<
    (FieldElement, usize),
>)
    requires
        is_stream(old(stream)@),
        at <= STREAM_LIMIT,
    ensures
        is_stream(final(stream)@),
        final(stream)@.take(80) == old(stream)@.take(80),
        match r {
            Some((x, next)) => sampled_element(old(stream)@.take(80), at as nat) == Some(
                (x.value(), next as nat),
            ) && next <= STREAM_LIMIT,
            None => sampled_element(old(stream)@.take(80), at as nat) is None,
        },
{
    let ghost seed = stream@.take(80);
    let mut position: usize = at;
    loop
        invariant
            is_stream(stream@),
            stream@.take(80) == seed,
            seed == old(stream)@.take(80),
            position <= STREAM_LIMIT,
            sampled_element(seed, position as nat) == sampled_element(seed, at as nat),
        decreases STREAM_LIMIT - position,
    {
        proof {
            lemma_filtered_bits_advance(seed, position as nat, 254);
        }
        match next_filtered_bits(stream, position, ELEMENT_BITS) {
            Some((bits, next)) => {
                let (l0, l1, l2, l3) = limbs_of_bits(&bits);
                match FieldElement::from_limbs(l0, l1, l2, l3) {
                    Some(x) => {
                        return Some((x, next));
                    },
                    None => {
                        position = next;
                    },
                }
            },
            None => {
                return None;
            },
        }
    }
}

/// The next field element without rejection from `at` on, and the
/// position after it.
pub fn next_reduced_element(stream: &mut Vec<bool>, at: usize) -> (r: Option<
    (FieldElement, usize),
>)
    requires
        is_stream(old(stream)@),
        at <= STREAM_LIMIT,
    ensures
        is_stream(final(stream)@),
        final(stream)@.take(80) == old(stream)@.take(80),
        match r {
            Some((x, next)) => reduced_element(old(stream)@.take(80), at as nat) == Some(
                (x.value(), next as nat),
            ) && next <= STREAM_LIMIT,
            None => reduced_element(old(stream)@.take(80), at as nat) is None,
        },
{
    proof {
        lemma_filtered_bits_advance(stream@.take(80), at as nat, 254);
    }
    match next_filtered_bits(stream, at, ELEMENT_BITS) {
        Some((bits, next)) => {
            let (l0, l1, l2, l3) = limbs_of_bits(&bits);
            let x = FieldElement::from_limbs_reduced(l0, l1, l2, l3);
            Some((x, next))
        },
        None => None,
    }
}

/// The next `count` field elements by rejection.
pub fn next_sampled_row(stream: &mut Vec<bool>, at: usize, count: usize) -> (r: Option<
    (Vec<FieldElement>, usize),
>)
    requires
        is_stream(old(stream)@),
        at <= STREAM_LIMIT,
    ensures
        is_stream(final(stream)@),
        final(stream)@.take(80) == old(stream)@.take(80),
        match r {
            Some((row, next)) => sampled_row(old(stream)@.take(80), at as nat, count as nat)
                == Some((crate::poseidon::state::values(row@), next as nat)) && next
                <= STREAM_LIMIT && row.len() == count,
            None => sampled_row(old(stream)@.take(80), at as nat, count as nat) is None,
        },
{
    let ghost seed = stream@.take(80);
    let mut row: Vec<FieldElement> = Vec::new();
    let mut position: usize = at;
    let mut k: usize = 0;
    assert(crate::poseidon::state::values(row@) =~= Seq::<nat>::empty());
    while k < count
        invariant
            k <= count,
            is_stream(stream@),
            stream@.take(80) == seed,
            seed == old(stream)@.take(80),
            position <= STREAM_LIMIT,
            row.len() == k,
            sampled_row(seed, at as nat, k as nat) == Some(
                (crate::poseidon::state::values(row@), position as nat),
            ),
        decreases count - k,
    {
        let ghost before = crate::poseidon::state::values(row@);
        match next_sampled_element(stream, position) {
            Some((x, next)) => {
                row.push(x);
                position = next;
                assert(crate::poseidon::state::values(row@) =~= before.push(x.value()));
            },
            None => {
                proof {
                    assert(sampled_row(seed, at as nat, (k + 1) as nat) is None);
                    lemma_sampled_row_fails(seed, at as nat, (k + 1) as nat, count as nat);
                }
                return None;
            },
        }
        k += 1;
    }
    Some((row, position))
}

/// The next `count` field elements without rejection.
pub fn next_reduced_row(stream: &mut Vec<bool>, at: usize, count: usize) -> (r: Option<
    (Vec<FieldElement>, usize),
>)
    requires
        is_stream(old(stream)@),
        at <= STREAM_LIMIT,
    ensures
        is_stream(final(stream)@),
        final(stream)@.take(80) == old(stream)@.take(80),
        match r {
            Some((row, next)) => reduced_row(old(stream)@.take(80), at as nat, count as nat)
                == Some((crate::poseidon::state::values(row@), next as nat)) && next
                <= STREAM_LIMIT && row.len() == count,
            None => reduced_row(old(stream)@.take(80), at as nat, count as nat) is None,
        },
{
    let ghost seed = stream@.take(80);
    let mut row: Vec<FieldElement> = Vec::new();
    let mut position: usize = at;
    let mut k: usize = 0;
    assert(crate::poseidon::state::values(row@) =~= Seq::<nat>::empty());
    while k < count
        invariant
            k <= count,
            is_stream(stream@),
            stream@.take(80) == seed,
            seed == old(stream)@.take(80),
            position <= STREAM_LIMIT,
            row.len() == k,
            reduced_row(seed, at as nat, k as nat) == Some(
                (crate::poseidon::state::values(row@), position as nat),
            ),
        decreases count - k,
    {
        let ghost before = crate::poseidon::state::values(row@);
        match next_reduced_element(stream, position) {
            Some((x, next)) => {
                row.push(x);
                position = next;
                assert(crate::poseidon::state::values(row@) =~= before.push(x.value()));
            },
            None => {
                proof {
                    assert(reduced_row(seed, at as nat, (k + 1) as nat) is None);
                    lemma_reduced_row_fails(seed, at as nat, (k + 1) as nat, count as nat);
                }
                return None;
            },
        }
        k += 1;
    }
    Some((row, position))
}

/// A draw of elements that has failed stays failed.
pub proof fn lemma_sampled_row_fails(seed: Seq<bool>, at: nat, k: nat, count: nat)
    requires
        sampled_row(seed, at, k) is None,
        k <= count,
    ensures
        sampled_row(seed, at, count) is None,
    decreases count,
{
    if k < count {
        lemma_sampled_row_fails(seed, at, k, (count - 1) as nat);
    }
}

/// A draw of elements that has failed stays failed.
pub proof fn lemma_reduced_row_fails(seed: Seq<bool>, at: nat, k: nat, count: nat)
    requires
        reduced_row(seed, at, k) is None,
        k <= count,
    ensures
        reduced_row(seed, at, count) is None,
    decreases count,
{
    if k < count {
        lemma_reduced_row_fails(seed, at, k, (count - 1) as nat);
    }
}

} // verus!
