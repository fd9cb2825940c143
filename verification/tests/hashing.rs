use bytes::Bytes;
use fingerprinting::curve::CurvePoint;
use fingerprinting::error::FingerprintError;
use fingerprinting::field::FieldElement;
use fingerprinting::hashing::{
    checked_squeeze, hash_elements, limb_of, squeeze_buffer, HashSqueeze, Specs,
};
use fingerprinting::poseidon::Poseidon;

#[test]
fn instances_have_the_widths_2_5_and_4() {
    let specs = Specs::new().unwrap();
    assert_eq!((specs.spec().width(), specs.spec().r_f(), specs.spec().r_p()), (2, 8, 57));
    assert_eq!((specs.spec_big().width(), specs.spec_big().r_f(), specs.spec_big().r_p()), (5, 8, 57));
    assert_eq!((specs.spec_dc().width(), specs.spec_dc().r_f(), specs.spec_dc().r_p()), (4, 8, 57));
}

#[test]
fn limb_is_a_little_endian_number() {
    let buffer: Vec<u8> = (1..=40).collect();
    assert_eq!(limb_of(&buffer, 0, 1), FieldElement::from_u64(1));
    assert_eq!(limb_of(&buffer, 0, 2), FieldElement::from_u64(0x0201));
    assert_eq!(limb_of(&buffer, 3, 8), FieldElement::from_u64(0x0b0a090807060504));
    assert_eq!(
        limb_of(&buffer, 0, 16),
        FieldElement::from_limbs(0x0807060504030201, 0x100f0e0d0c0b0a09, 0, 0).unwrap()
    );
    assert_eq!(limb_of(&buffer, 7, 0), FieldElement::zero());
}

#[test]
fn limb_outside_the_field_is_zero() {
    assert_eq!(limb_of(&[0xffu8; 32], 0, 32), FieldElement::zero());
    let mut below = [0xffu8; 32];
    below[31] = 0x2f;
    assert_ne!(limb_of(&below, 0, 32), FieldElement::zero());
}

#[test]
fn buffer_is_hashed_as_four_limbs() {
    let specs = Specs::new().unwrap();
    let buffer: Vec<u8> = (0..64).collect();
    let limbs: Vec<FieldElement> = (0..4).map(|i| limb_of(&buffer, 16 * i, 16)).collect();
    let mut sponge = Poseidon::new_with_spec(specs.spec_big());
    sponge.update(&limbs);
    let expected = sponge.squeeze();
    assert_eq!(Bytes::from(buffer.clone()).squeeze(&specs), Ok(expected));
    assert_eq!(squeeze_buffer(&specs, &buffer), expected);
    assert_eq!(hash_elements(specs.spec_big(), &limbs), expected);
}

#[test]
fn buffer_limbs_are_a_quarter_of_the_length_each() {
    let specs = Specs::new().unwrap();
    // 7 bytes: four limbs of one byte, three bytes left over
    let buffer: Vec<u8> = vec![1, 2, 3, 4, 5, 6, 7];
    let limbs: Vec<FieldElement> = (1..=4).map(FieldElement::from_u64).collect();
    let buffer = Bytes::from(buffer);
    assert_eq!(buffer.squeeze(&specs), Ok(hash_elements(specs.spec_big(), &limbs)));
    let same_limbs = Bytes::from(vec![1u8, 2, 3, 4, 9, 9, 9]);
    assert_eq!(same_limbs.squeeze(&specs), buffer.squeeze(&specs));
    // 131 bytes: four limbs of 32 bytes
    let long: Vec<u8> = vec![1u8; 131];
    let limb = limb_of(&long, 0, 32);
    assert_eq!(
        Bytes::from(long).squeeze(&specs),
        Ok(hash_elements(specs.spec_big(), &[limb, limb, limb, limb]))
    );
}

#[test]
fn every_byte_of_the_four_limbs_enters_the_hash() {
    let specs = Specs::new().unwrap();
    let buffer: Vec<u8> = (0..66).collect();
    let reference = Bytes::from(buffer.clone()).squeeze(&specs).unwrap();
    for i in 0..64 {
        let mut changed = buffer.clone();
        changed[i] ^= 0x80;
        assert_ne!(Bytes::from(changed).squeeze(&specs).unwrap(), reference, "byte {}", i);
    }
}

#[test]
fn point_is_hashed_as_two_limbs() {
    let specs = Specs::new().unwrap();
    let point = CurvePoint::hash_to_curve(&FieldElement::from_u64(5));
    let bytes = point.to_bytes();
    let limbs = [limb_of(&bytes, 0, 16), limb_of(&bytes, 16, 16)];
    let expected: Result<FieldElement, FingerprintError> = Ok(hash_elements(specs.spec(), &limbs));
    assert_eq!(point.squeeze(&specs), expected);
}

#[test]
fn buffer_is_hashed_from_4_bytes_up_to_131() {
    let specs = Specs::new().unwrap();
    for length in [0usize, 1, 3, 132, 133, 1000] {
        assert_eq!(checked_squeeze(&specs, &Bytes::from(vec![7u8; length])), None, "{}", length);
    }
    for length in [4usize, 5, 66, 131] {
        let buffer = Bytes::from(vec![7u8; length]);
        assert_eq!(checked_squeeze(&specs, &buffer), buffer.squeeze(&specs).ok(), "{}", length);
        assert_eq!(checked_squeeze(&specs, &buffer), Some(squeeze_buffer(&specs, &buffer)));
    }
}
