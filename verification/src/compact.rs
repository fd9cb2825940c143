//! The compact form of bytes and field elements: base58 text.
//!
//! The base58 alphabet and arithmetic are `bs58`'s. They are given names
//! here; all that is stated of them is that decoding undoes encoding.

use crate::buffer::{bytes_as_slice, bytes_contents, bytes_from_slice};
use crate::error::FingerprintError;
use crate::field::{bytes32_value, modulus, FieldElement};
use bytes::Bytes;
use vstd::prelude::*;

verus! {

/// The base58 text of a row of bytes.
pub uninterp spec fn base58_encoding(bytes: Seq<u8>) -> Seq<char>;

/// The bytes that a text is the base58 form of; nothing where it is the
/// form of none.
pub uninterp spec fn base58_decoding(text: Seq<char>) -> Option<Seq<u8>>;

/// What `bs58` reports when a text cannot be decoded.
#[verifier::external_type_specification]
#[verifier::external_body]
pub struct ExDecodeError(bs58::decode::Error);

/// Values with a compact form.
pub trait Compact: Sized {
    /// The bytes that the compact form of the value spells.
    spec fn compact_bytes(&self) -> Seq<u8>;

    /// Why decoded bytes are refused, if they are; the argument is nothing
    /// where the text was not base58 at all.
    spec fn refusal(bytes: Option<Seq<u8>>) -> Option<FingerprintError>;

    /// The compact form: the base58 text of the bytes of the value. It
    /// decodes to those bytes again.
    fn compact(&self) -> (r: String)
        ensures
            r@ == base58_encoding(self.compact_bytes()),
            base58_decoding(r@) == Some(self.compact_bytes()),
    ;

    /// Reads a compact form back.
    fn unwrap(compacted: &String) -> (r: Result<Self, FingerprintError>)
        ensures
            match r {
                Ok(x) => Self::refusal(base58_decoding(compacted@)) is None && base58_decoding(
                    compacted@,
                ) == Some(x.compact_bytes()),
                Err(e) => Self::refusal(base58_decoding(compacted@)) == Some(e),
            },
    ;
}

impl Compact for Bytes {
    open spec fn compact_bytes(&self) -> Seq<u8> {
        bytes_contents(*self)
    }

    /// Any bytes are accepted.
    open spec fn refusal(bytes: Option<Seq<u8>>) -> Option<FingerprintError> {
        match bytes {
            Some(_) => None,
            None => Some(FingerprintError::CompactDecodeError),
        }
    }

    fn compact(&self) -> (r: String) {
        bs58_encode(bytes_as_slice(self))
    }

    fn unwrap(compacted: &String) -> (r: Result<Self, FingerprintError>) {
        match bs58_decode(compacted.as_str()) {
            Ok(bytes) => Ok(bytes_from_slice(bytes.as_slice())),
            Err(_) => Err(FingerprintError::CompactDecodeError),
        }
    }
}

impl Compact for FieldElement {
    /// The canonical little-endian encoding.
    open spec fn compact_bytes(&self) -> Seq<u8> {
        self.encoding()
    }

    /// Exactly 32 bytes are accepted, and only where they stand for a
    /// number below the modulus.
    open spec fn refusal(bytes: Option<Seq<u8>>) -> Option<FingerprintError> {
        match bytes {
            Some(b) => if b.len() != 32 {
                Some(FingerprintError::CompactDecodeError)
            } else if bytes32_value(b) >= modulus() {
                Some(FingerprintError::FieldDecodeError)
            } else {
                None
            },
            None => Some(FingerprintError::CompactDecodeError),
        }
    }

    fn compact(&self) -> (r: String) {
        let bytes = self.to_bytes();
        bs58_encode(bytes.as_slice())
    }

    fn unwrap(compacted: &String) -> (r: Result<Self, FingerprintError>) {
        match bs58_decode(compacted.as_str()) {
            Ok(bytes) => element_from_decoded(&bytes),
            Err(_) => Err(FingerprintError::CompactDecodeError),
        }
    }
}

/// The field element that decoded bytes stand for. `CompactDecodeError`
/// where there are not exactly 32 bytes; `FieldDecodeError` where the 32
/// bytes stand for a number that is not below the modulus; otherwise the
/// element with that number for its value, whose encoding the bytes are.
pub fn element_from_decoded(bytes: &Vec<u8>) -> (r: Result<FieldElement, FingerprintError>)
    ensures
        match r {
            Ok(x) => bytes.len() == 32 && bytes32_value(bytes@) < modulus() && x.value()
                == bytes32_value(bytes@) && x.encoding() == bytes@,
            Err(e) => if bytes.len() != 32 {
                e == FingerprintError::CompactDecodeError
            } else {
                e == FingerprintError::FieldDecodeError && bytes32_value(bytes@) >= modulus()
            },
        },
{
    if bytes.len() != 32 {
        return Err(FingerprintError::CompactDecodeError);
    }
    let mut fixed: [u8; 32] = [0u8; 32];
    let mut i: usize = 0;
    while i < 32
        invariant
            i <= 32,
            bytes.len() == 32,
            forall|k: int| 0 <= k < i ==> fixed@[k] == bytes@[k],
        decreases 32 - i,
    {
        fixed[i] = bytes[i];
        i += 1;
    }
    assert(fixed@ =~= bytes@);
    proof {
        FieldElement::lemma_decoding(fixed@);
    }
    match FieldElement::from_bytes(&fixed) {
        Some(x) => Ok(x),
        None => Err(FingerprintError::FieldDecodeError),
    }
}

/// The compact form of a field element reads back as the element: for
/// every `x`, `unwrap(compact(x))` is `x`.
pub fn compact_round_trip(x: &FieldElement) -> (r: Result<FieldElement, FingerprintError>)
    ensures
        r == Ok::<FieldElement, FingerprintError>(*x),
{
    x.canonical();
    let text = x.compact();
    let back = FieldElement::unwrap(&text);
    proof {
        x.lemma_encoding();
        if let Ok(y) = back {
            FieldElement::lemma_decoding(x.encoding());
            FieldElement::lemma_decoding(y.encoding());
            y.lemma_encoding();
            FieldElement::lemma_value_injective(y, *x);
        }
    }
    back
}

/// `bs58::encode(..).into_string()`: the base58 text of the bytes. What
/// `bs58` encodes it decodes to the same bytes.
#[verifier::external_body]
fn bs58_encode(bytes: &[u8]) -> (r: String)
    ensures
        r@ == base58_encoding(bytes@),
        base58_decoding(r@) == Some(bytes@),
{
    bs58::encode(bytes).into_string()
}

/// `bs58::decode(..).into_vec()`: the bytes that the text is the base58
/// form of, or the error that `bs58` reports.
#[verifier::external_body]
fn bs58_decode(text: &str) -> (r: Result<Vec<u8>, bs58::decode::Error>)
    ensures
        match r {
            Ok(bytes) => base58_decoding(text@) == Some(bytes@),
            Err(_) => base58_decoding(text@) is None,
        },
{
    bs58::decode(text).into_vec()
}

} // verus!
