use fingerprinting::field::{
    FieldElement, MODULUS_LIMB_0, MODULUS_LIMB_1, MODULUS_LIMB_2, MODULUS_LIMB_3,
};

fn modulus_bytes() -> [u8; 32] {
    let mut bytes = [0u8; 32];
    bytes[0..8].copy_from_slice(&MODULUS_LIMB_0.to_le_bytes());
    bytes[8..16].copy_from_slice(&MODULUS_LIMB_1.to_le_bytes());
    bytes[16..24].copy_from_slice(&MODULUS_LIMB_2.to_le_bytes());
    bytes[24..32].copy_from_slice(&MODULUS_LIMB_3.to_le_bytes());
    bytes
}

fn modulus_minus_one() -> FieldElement {
    FieldElement::from_limbs(MODULUS_LIMB_0 - 1, MODULUS_LIMB_1, MODULUS_LIMB_2, MODULUS_LIMB_3)
        .unwrap()
}

#[test]
fn encoding_is_little_endian() {
    let x = FieldElement::from_limbs(0x0807060504030201, 0x100f0e0d0c0b0a09, 0, 0x0100000000000000)
        .unwrap();
    let bytes = x.to_bytes();
    for i in 0..16 {
        assert_eq!(bytes[i], (i + 1) as u8);
    }
    assert_eq!(&bytes[16..31], &[0u8; 15]);
    assert_eq!(bytes[31], 1);
}

#[test]
fn decoding_undoes_encoding() {
    let samples = [
        FieldElement::zero(),
        FieldElement::one(),
        FieldElement::from_u64(u64::MAX),
        FieldElement::from_limbs(1, 2, 3, 4).unwrap(),
        modulus_minus_one(),
    ];
    for x in samples {
        assert_eq!(FieldElement::from_bytes(&x.to_bytes()), Some(x));
    }
}

#[test]
fn encoding_undoes_decoding() {
    let mut bytes = [0u8; 32];
    for (i, b) in bytes.iter_mut().enumerate() {
        *b = (i * 7) as u8;
    }
    bytes[31] = 0x10;
    let x = FieldElement::from_bytes(&bytes).unwrap();
    assert_eq!(x.to_bytes(), bytes);
}

#[test]
fn the_modulus_and_what_lies_above_are_not_canonical() {
    assert_eq!(FieldElement::from_bytes(&modulus_bytes()), None);
    assert_eq!(FieldElement::from_bytes(&[0xff; 32]), None);
    let mut above = modulus_bytes();
    above[0] += 1;
    assert_eq!(FieldElement::from_bytes(&above), None);
    let mut below = modulus_bytes();
    below[0] -= 1;
    assert_eq!(FieldElement::from_bytes(&below), Some(modulus_minus_one()));
}

#[test]
fn limbs_at_or_above_the_modulus_are_refused() {
    assert!(FieldElement::from_limbs(
        MODULUS_LIMB_0,
        MODULUS_LIMB_1,
        MODULUS_LIMB_2,
        MODULUS_LIMB_3
    )
    .is_none());
    assert!(FieldElement::from_limbs(0, 0, 0, MODULUS_LIMB_3 + 1).is_none());
    assert!(FieldElement::from_limbs(u64::MAX, u64::MAX, u64::MAX, MODULUS_LIMB_3 - 1).is_some());
    assert_eq!(FieldElement::from_limbs(5, 0, 0, 0), Some(FieldElement::from_u64(5)));
    assert_eq!(FieldElement::from_limbs(1, 2, 3, 4).unwrap().limbs(), (1, 2, 3, 4));
}

#[test]
fn reduction_subtracts_the_modulus_once() {
    assert_eq!(
        FieldElement::from_limbs_reduced(
            MODULUS_LIMB_0,
            MODULUS_LIMB_1,
            MODULUS_LIMB_2,
            MODULUS_LIMB_3
        ),
        FieldElement::zero()
    );
    assert_eq!(
        FieldElement::from_limbs_reduced(
            MODULUS_LIMB_0 + 7,
            MODULUS_LIMB_1,
            MODULUS_LIMB_2,
            MODULUS_LIMB_3
        ),
        FieldElement::from_u64(7)
    );
    // borrows run through the limbs: 2^192 * (m3 + 1) - modulus
    let reduced = FieldElement::from_limbs_reduced(0, 0, 0, MODULUS_LIMB_3 + 1);
    let expected = FieldElement::from_limbs(0, 0, 0, 1)
        .unwrap()
        .sub(&FieldElement::from_limbs(MODULUS_LIMB_0, MODULUS_LIMB_1, MODULUS_LIMB_2, 0).unwrap());
    assert_eq!(reduced, expected);
    assert_eq!(FieldElement::from_limbs_reduced(9, 0, 0, 0), FieldElement::from_u64(9));
}

#[test]
fn addition_wraps_at_the_modulus() {
    let top = modulus_minus_one();
    assert_eq!(top.add(&FieldElement::one()), FieldElement::zero());
    assert_eq!(top.add(&FieldElement::from_u64(3)), FieldElement::from_u64(2));
    assert_eq!(
        FieldElement::from_u64(2).add(&FieldElement::from_u64(3)),
        FieldElement::from_u64(5)
    );
}

#[test]
fn subtraction_and_negation_wrap_at_the_modulus() {
    assert_eq!(FieldElement::zero().sub(&FieldElement::one()), modulus_minus_one());
    assert_eq!(FieldElement::one().neg(), modulus_minus_one());
    assert_eq!(FieldElement::zero().neg(), FieldElement::zero());
    assert_eq!(
        FieldElement::from_u64(10).sub(&FieldElement::from_u64(4)),
        FieldElement::from_u64(6)
    );
}

#[test]
fn multiplication_is_modular() {
    assert_eq!(
        FieldElement::from_u64(6).mul(&FieldElement::from_u64(7)),
        FieldElement::from_u64(42)
    );
    // (-1) * (-1) = 1
    assert_eq!(modulus_minus_one().mul(&modulus_minus_one()), FieldElement::one());
    // 2^64 * 2^64 = 2^128
    let shifted = FieldElement::from_limbs(0, 1, 0, 0).unwrap();
    assert_eq!(shifted.mul(&shifted), FieldElement::from_limbs(0, 0, 1, 0).unwrap());
}

#[test]
fn fifth_power_is_five_multiplications_deep() {
    assert_eq!(FieldElement::from_u64(2).pow5(), FieldElement::from_u64(32));
    assert_eq!(FieldElement::from_u64(3).pow5(), FieldElement::from_u64(243));
    assert_eq!(modulus_minus_one().pow5(), modulus_minus_one());
    assert_eq!(FieldElement::zero().pow5(), FieldElement::zero());
}

#[test]
fn inverse_times_the_element_is_one() {
    for n in [1u64, 2, 3, 42, u64::MAX] {
        let x = FieldElement::from_u64(n);
        let inverse = x.invert().unwrap();
        assert_eq!(x.mul(&inverse), FieldElement::one());
    }
    assert_eq!(modulus_minus_one().invert(), Some(modulus_minus_one()));
    assert_eq!(FieldElement::one().invert(), Some(FieldElement::one()));
}

#[test]
fn zero_has_no_inverse() {
    assert_eq!(FieldElement::zero().invert(), None);
    assert!(FieldElement::zero().is_zero());
    assert!(!FieldElement::one().is_zero());
}
