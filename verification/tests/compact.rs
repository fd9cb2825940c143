use bytes::Bytes;
use fingerprinting::compact::{compact_round_trip, element_from_decoded, Compact};
use fingerprinting::error::FingerprintError;
use fingerprinting::field::FieldElement;
use rand::rngs::OsRng;
use rand::RngCore;

fn random_element() -> FieldElement {
    let mut rng = OsRng;
    // 254 bits are below twice the modulus
    FieldElement::from_limbs_reduced(
        rng.next_u64(),
        rng.next_u64(),
        rng.next_u64(),
        rng.next_u64() >> 2,
    )
}

#[test]
fn compact_test() {
    let fr = random_element();
    let compact_fr = fr.compact();
    let back_to_fr: FieldElement = Compact::unwrap(&compact_fr).unwrap();

    assert_eq!(fr, back_to_fr);
}

#[test]
fn compact_round_trip_holds_for_many_elements() {
    for _ in 0..50 {
        let x = random_element();
        assert_eq!(compact_round_trip(&x), Ok(x));
    }
    for n in [0u64, 1, 58, u64::MAX] {
        let x = FieldElement::from_u64(n);
        assert_eq!(compact_round_trip(&x), Ok(x));
    }
}

#[test]
fn compact_form_is_base58() {
    let bytes = Bytes::from(vec![0x04u8, 0x30, 0x5e, 0x2b, 0x24, 0x73, 0xf0, 0x58]);
    assert_eq!(bytes.compact(), "he11owor1d");
    assert_eq!(Bytes::unwrap(&"he11owor1d".to_string()), Ok(bytes));
    // a zero byte is a leading '1'
    assert_eq!(FieldElement::zero().compact(), "1".repeat(32));
    assert_eq!(Bytes::new().compact(), "");
    assert_eq!(Bytes::unwrap(&String::new()), Ok(Bytes::new()));
}

#[test]
fn compact_form_of_an_element_spells_its_canonical_bytes() {
    let x = FieldElement::from_limbs(1, 2, 3, 4).unwrap();
    assert_eq!(x.compact(), Bytes::copy_from_slice(&x.to_bytes()).compact());
    assert_eq!(Bytes::unwrap(&x.compact()), Ok(Bytes::copy_from_slice(&x.to_bytes())));
}

#[test]
fn text_that_is_not_base58_is_a_compact_decode_error() {
    // '0', 'O', 'I' and 'l' are not in the alphabet
    for text in ["0", "O", "I", "l", "he11owor1d!", "h\u{e9}llo"] {
        assert_eq!(
            FieldElement::unwrap(&text.to_string()),
            Err(FingerprintError::CompactDecodeError)
        );
        assert_eq!(
            Bytes::unwrap(&text.to_string()),
            Err(FingerprintError::CompactDecodeError)
        );
    }
}

#[test]
fn text_of_the_wrong_length_is_a_compact_decode_error() {
    let short = Bytes::from(vec![1u8; 31]).compact();
    let long = Bytes::from(vec![1u8; 33]).compact();
    assert_eq!(FieldElement::unwrap(&short), Err(FingerprintError::CompactDecodeError));
    assert_eq!(FieldElement::unwrap(&long), Err(FingerprintError::CompactDecodeError));
    assert_eq!(
        FieldElement::unwrap(&String::new()),
        Err(FingerprintError::CompactDecodeError)
    );
}

#[test]
fn bytes_outside_the_field_are_a_field_decode_error() {
    let text = Bytes::from(vec![0xffu8; 32]).compact();
    assert_eq!(FieldElement::unwrap(&text), Err(FingerprintError::FieldDecodeError));
}

#[test]
fn decoded_bytes_are_an_element_exactly_where_they_are_32_bytes_below_the_modulus() {
    let seven = FieldElement::from_u64(7);
    assert_eq!(element_from_decoded(&seven.to_bytes().to_vec()), Ok(seven));
    assert_eq!(element_from_decoded(&vec![0u8; 32]), Ok(FieldElement::zero()));
    for length in [0usize, 1, 31, 33, 64] {
        assert_eq!(
            element_from_decoded(&vec![0u8; length]),
            Err(FingerprintError::CompactDecodeError)
        );
    }
    // the modulus itself, and the largest 32 bytes
    let mut modulus = FieldElement::zero().sub(&FieldElement::one()).to_bytes().to_vec();
    assert!(element_from_decoded(&modulus).is_ok());
    modulus[0] += 1;
    assert_eq!(element_from_decoded(&modulus), Err(FingerprintError::FieldDecodeError));
    assert_eq!(element_from_decoded(&vec![0xffu8; 32]), Err(FingerprintError::FieldDecodeError));
}
