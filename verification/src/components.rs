//! The parts of a transaction that enter its fingerprint, each with the
//! fixed number of bytes it is written as.

use crate::buffer::ByteSink;
use crate::error::FingerprintError;
use crate::field::{word_bytes, FieldElement};
use vstd::prelude::*;
use vstd::string::StringSliceAdditionalSpecFns;
use vstd::utf8::encode_utf8;

verus! {

/// A 32-byte address.
pub type AddressBytes = [u8; 32];

/// Thirty-two bytes.
pub type Bytes32 = [u8; 32];

/// Whole units and the fraction in units of 10^-18.
pub type Amount = (u64, u64);

/// The eight bytes of a 64-bit word, most significant first.
pub open spec fn be_bytes_u64(w: u64) -> Seq<u8> {
    word_bytes(w).reverse()
}

/// The two bytes of a 16-bit word, most significant first.
pub open spec fn be_bytes_u16(w: u16) -> Seq<u8> {
    seq![(w / 0x100) as u8, (w % 0x100) as u8]
}

/// Words with the same bytes are the same word.
pub proof fn lemma_be_bytes_injective(v: u64, w: u64)
    requires
        forall|k: int| 0 <= k < 8 ==> be_bytes_u64(v)[k] == be_bytes_u64(w)[k],
    ensures
        v == w,
{
    assert forall|k: int| 0 <= k < 8 implies word_bytes(v)[k] == word_bytes(w)[k] by {
        assert(be_bytes_u64(v)[7 - k] == be_bytes_u64(w)[7 - k]);
    }
    crate::field::lemma_word_bytes(v);
    crate::field::lemma_word_bytes(w);
}

/// The eight bytes of a 64-bit word, most significant first.
pub fn be_array_u64(w: u64) -> (r: [u8; 8])
    ensures
        r@ == be_bytes_u64(w),
{
    let r: [u8; 8] = [
        ((w / 0x100_0000_0000_0000) % 0x100) as u8,
        ((w / 0x1_0000_0000_0000) % 0x100) as u8,
        ((w / 0x100_0000_0000) % 0x100) as u8,
        ((w / 0x1_0000_0000) % 0x100) as u8,
        ((w / 0x100_0000) % 0x100) as u8,
        ((w / 0x1_0000) % 0x100) as u8,
        ((w / 0x100) % 0x100) as u8,
        (w % 0x100) as u8,
    ];
    assert(r@ =~= be_bytes_u64(w));
    r
}

/// The two bytes of a 16-bit word, most significant first.
pub fn be_array_u16(w: u16) -> (r: [u8; 2])
    ensures
        r@ == be_bytes_u16(w),
{
    let r: [u8; 2] = [(w / 0x100) as u8, (w % 0x100) as u8];
    assert(r@ =~= be_bytes_u16(w));
    r
}

/// An address that enters a fingerprint with all its 32 bytes.
#[derive(Debug)]
pub struct AddressComponent {
    address: [u8; 32],
}

impl AddressComponent {
    /// The bytes that the component is written as.
    pub closed spec fn image(&self) -> Seq<u8> {
        self.address@
    }

    pub fn new(raw: AddressBytes) -> (r: Self)
        ensures
            r.image() == raw@,
    {
        Self { address: raw }
    }

    /// The number of bytes that `serialize` writes.
    pub fn size() -> (n: usize)
        ensures
            n == 32,
    {
        32
    }

    /// Appends all 32 bytes of the address to the buffer.
    pub fn serialize<W: ByteSink>(&self, buffer: &mut W) -> (r: Result<(), FingerprintError>)
        requires
            old(buffer).written().len() + 32 <= isize::MAX,
        ensures
            r is Ok,
            final(buffer).written() == old(buffer).written() + self.image(),
            self.image().len() == 32,
    {
        buffer.put(self.address.as_slice());
        Ok(())
    }

    pub fn raw(&self) -> (r: &AddressBytes)
        ensures
            r@ == self.image(),
    {
        &self.address
    }
}

/// Thirty-two bytes that enter a fingerprint as they are.
#[derive(Debug)]
pub struct Bytes32Component {
    data: [u8; 32],
}

impl Bytes32Component {
    /// The bytes that the component is written as.
    pub closed spec fn image(&self) -> Seq<u8> {
        self.data@
    }

    pub fn new(raw: Bytes32) -> (r: Self)
        ensures
            r.image() == raw@,
    {
        Self { data: raw }
    }

    /// The number of bytes that `serialize` writes.
    pub fn size() -> (n: usize)
        ensures
            n == 32,
    {
        32
    }

    /// Appends all 32 bytes to the buffer.
    pub fn serialize<W: ByteSink>(&self, buffer: &mut W) -> (r: Result<(), FingerprintError>)
        requires
            old(buffer).written().len() + 32 <= isize::MAX,
        ensures
            r is Ok,
            final(buffer).written() == old(buffer).written() + self.image(),
            self.image().len() == 32,
    {
        buffer.put(self.data.as_slice());
        Ok(())
    }

    pub fn raw(&self) -> (r: &Bytes32)
        ensures
            r@ == self.image(),
    {
        &self.data
    }
}

/// A bank identifier: eight bytes, written verbatim.
#[derive(Debug)]
pub struct BankIdentifierComponent {
    bic: String,
}

impl BankIdentifierComponent {
    /// The identifier has exactly eight bytes.
    #[verifier::type_invariant]
    pub closed spec fn is_eight_bytes(self) -> bool {
        encode_utf8(self.bic@).len() == 8
    }

    /// The bytes that the component is written as.
    pub closed spec fn image(&self) -> Seq<u8> {
        encode_utf8(self.bic@)
    }

    /// The identifier as text.
    pub closed spec fn text(&self) -> Seq<char> {
        self.bic@
    }

    /// The component for an identifier; `InvalidInput` unless it has
    /// exactly eight bytes.
    pub fn new(raw: String) -> (r: Result<Self, FingerprintError>)
        ensures
            r is Ok <==> encode_utf8(raw@).len() == 8,
            r matches Ok(c) ==> c.image() == encode_utf8(raw@) && c.text() == raw@,
            r is Err ==> r matches Err(FingerprintError::InvalidInput),
    {
        if raw.as_str().as_bytes().len() == 8 {
            Ok(Self { bic: raw })
        } else {
            Err(FingerprintError::InvalidInput)
        }
    }

    /// The number of bytes that `serialize` writes.
    pub fn size() -> (n: usize)
        ensures
            n == 8,
    {
        8
    }

    /// Appends the eight bytes of the identifier to the buffer.
    pub fn serialize<W: ByteSink>(&self, buffer: &mut W) -> (r: Result<(), FingerprintError>)
        requires
            old(buffer).written().len() + 8 <= isize::MAX,
        ensures
            r is Ok,
            final(buffer).written() == old(buffer).written() + self.image(),
            self.image().len() == 8,
    {
        proof {
            use_type_invariant(self);
        }
        buffer.put(self.bic.as_str().as_bytes());
        Ok(())
    }

    pub fn raw(&self) -> (r: &str)
        ensures
            r@ == self.text(),
            r.spec_bytes() == self.image(),
    {
        self.bic.as_str()
    }
}

/// An amount: sixteen bytes, the whole units and then the fraction, each
/// as a 64-bit word with the most significant byte first.
#[derive(Debug)]
pub struct AmountComponent {
    amount: Amount,
}

impl AmountComponent {
    /// The amount.
    pub closed spec fn value(&self) -> Amount {
        self.amount
    }

    /// The bytes that the component is written as.
    pub open spec fn image(&self) -> Seq<u8> {
        be_bytes_u64(self.value().0) + be_bytes_u64(self.value().1)
    }

    pub fn new(raw: Amount) -> (r: Self)
        ensures
            r.value() == raw,
    {
        Self { amount: raw }
    }

    /// The number of bytes that `serialize` writes.
    pub fn size() -> (n: usize)
        ensures
            n == 16,
    {
        16
    }

    /// Appends the sixteen bytes of the amount to the buffer. No leading
    /// zero is left out.
    pub fn serialize<W: ByteSink>(&self, buffer: &mut W) -> (r: Result<(), FingerprintError>)
        requires
            old(buffer).written().len() + 16 <= isize::MAX,
        ensures
            r is Ok,
            final(buffer).written() == old(buffer).written() + self.image(),
            self.image().len() == 16,
    {
        let units = be_array_u64(self.amount.0);
        let fraction = be_array_u64(self.amount.1);
        buffer.put(units.as_slice());
        buffer.put(fraction.as_slice());
        assert(buffer.written() =~= old(buffer).written() + self.image());
        Ok(())
    }

    pub fn raw(&self) -> (r: &Amount)
        ensures
            *r == self.value(),
    {
        &self.amount
    }
}

/// A currency: the two bytes of its ISO 4217 number, most significant
/// first.
#[derive(Debug)]
pub struct CurrencyComponent {
    code: u16,
}

impl CurrencyComponent {
    /// The ISO 4217 number.
    pub closed spec fn value(&self) -> u16 {
        self.code
    }

    /// The bytes that the component is written as.
    pub open spec fn image(&self) -> Seq<u8> {
        be_bytes_u16(self.value())
    }

    pub fn new(raw: u16) -> (r: Self)
        ensures
            r.value() == raw,
    {
        Self { code: raw }
    }

    /// The number of bytes that `serialize` writes.
    pub fn size() -> (n: usize)
        ensures
            n == 2,
    {
        2
    }

    /// Appends the two bytes of the number to the buffer.
    pub fn serialize<W: ByteSink>(&self, buffer: &mut W) -> (r: Result<(), FingerprintError>)
        requires
            old(buffer).written().len() + 2 <= isize::MAX,
        ensures
            r is Ok,
            final(buffer).written() == old(buffer).written() + self.image(),
            self.image().len() == 2,
    {
        let bytes = be_array_u16(self.code);
        buffer.put(bytes.as_slice());
        Ok(())
    }

    pub fn raw(&self) -> (r: &u16)
        ensures
            *r == self.value(),
    {
        &self.code
    }
}

/// A field element: the 32 bytes of its canonical encoding.
#[derive(Debug)]
pub struct ScalarComponent {
    scalar: FieldElement,
}

impl ScalarComponent {
    /// The element.
    pub closed spec fn value(&self) -> FieldElement {
        self.scalar
    }

    /// The bytes that the component is written as.
    pub open spec fn image(&self) -> Seq<u8> {
        self.value().encoding()
    }

    pub fn new(raw: FieldElement) -> (r: Self)
        ensures
            r.value() == raw,
    {
        Self { scalar: raw }
    }

    /// The number of bytes that `serialize` writes.
    pub fn size() -> (n: usize)
        ensures
            n == 32,
    {
        32
    }

    /// Appends the canonical encoding of the element to the buffer.
    pub fn serialize<W: ByteSink>(&self, buffer: &mut W) -> (r: Result<(), FingerprintError>)
        requires
            old(buffer).written().len() + 32 <= isize::MAX,
        ensures
            r is Ok,
            final(buffer).written() == old(buffer).written() + self.image(),
            self.image().len() == 32,
    {
        let bytes = self.scalar.to_bytes();
        proof {
            self.scalar.lemma_encoding();
        }
        buffer.put(bytes.as_slice());
        Ok(())
    }

    pub fn raw(&self) -> (r: &FieldElement)
        ensures
            *r == self.value(),
    {
        &self.scalar
    }
}

} // verus!
