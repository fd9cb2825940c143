use bytes::BytesMut;
use fingerprinting::buffer::ByteSink;
use fingerprinting::components::{
    AddressBytes, AddressComponent, AmountComponent, BankIdentifierComponent, Bytes32,
    Bytes32Component, CurrencyComponent, ScalarComponent,
};
use fingerprinting::error::FingerprintError;
use fingerprinting::field::FieldElement;

#[test]
fn address_test_address_component_serialize() {
    let address: AddressBytes = [1u8; 32];
    let component = AddressComponent::new(address);

    let mut buffer = Vec::new();
    component.serialize(&mut buffer).unwrap();

    assert_eq!(buffer.len(), 32);
    assert_eq!(buffer, address.to_vec());
}

#[test]
fn address_test_address_component_size() {
    assert_eq!(AddressComponent::size(), 32);
}

#[test]
fn address_test_address_component_raw() {
    let address: AddressBytes = [2u8; 32];
    let component = AddressComponent::new(address);

    assert_eq!(component.raw(), &address);
}

#[test]
fn bytes32_test_address_component_serialize() {
    let address: Bytes32 = [1u8; 32];
    let component = Bytes32Component::new(address);

    let mut buffer = Vec::new();
    component.serialize(&mut buffer).unwrap();

    assert_eq!(buffer.len(), 32);
    assert_eq!(buffer, address.to_vec());
}

#[test]
fn bytes32_test_address_component_size() {
    assert_eq!(Bytes32Component::size(), 32);
}

#[test]
fn bytes32_test_address_component_raw() {
    let address: Bytes32 = [2u8; 32];
    let component = Bytes32Component::new(address);

    assert_eq!(component.raw(), &address);
}

#[test]
fn serialize_appends_after_what_the_buffer_holds() {
    let component = Bytes32Component::new([7u8; 32]);
    let mut buffer = vec![0xAAu8, 0xBB];
    component.serialize(&mut buffer).unwrap();
    assert_eq!(buffer.len(), 34);
    assert_eq!(&buffer[..2], &[0xAA, 0xBB]);
    assert_eq!(&buffer[2..], &[7u8; 32]);
}

#[test]
fn bank_identifier_is_written_verbatim() {
    let component = BankIdentifierComponent::new("BCEELU21".to_string()).unwrap();
    let mut buffer = Vec::new();
    component.serialize(&mut buffer).unwrap();
    assert_eq!(buffer, b"BCEELU21".to_vec());
    assert_eq!(component.raw(), "BCEELU21");
    assert_eq!(BankIdentifierComponent::size(), 8);
}

#[test]
fn bank_identifier_of_wrong_length_is_invalid_input() {
    assert_eq!(
        BankIdentifierComponent::new("BCEELU2".to_string()).err(),
        Some(FingerprintError::InvalidInput)
    );
    assert_eq!(
        BankIdentifierComponent::new("BCEELU21X".to_string()).err(),
        Some(FingerprintError::InvalidInput)
    );
    assert_eq!(
        BankIdentifierComponent::new(String::new()).err(),
        Some(FingerprintError::InvalidInput)
    );
}

#[test]
fn amount_is_two_big_endian_words() {
    let component = AmountComponent::new((1000, 0x0102_0304_0506_0708));
    let mut buffer = Vec::new();
    component.serialize(&mut buffer).unwrap();
    let mut expected = 1000u64.to_be_bytes().to_vec();
    expected.extend_from_slice(&0x0102_0304_0506_0708u64.to_be_bytes());
    assert_eq!(buffer, expected);
    assert_eq!(buffer.len(), AmountComponent::size());
    assert_eq!(component.raw(), &(1000, 0x0102_0304_0506_0708));
}

#[test]
fn amount_keeps_leading_zeros() {
    let component = AmountComponent::new((0, 0));
    let mut buffer = Vec::new();
    component.serialize(&mut buffer).unwrap();
    assert_eq!(buffer, vec![0u8; 16]);
}

#[test]
fn currency_is_a_big_endian_word() {
    let component = CurrencyComponent::new(978);
    let mut buffer = Vec::new();
    component.serialize(&mut buffer).unwrap();
    assert_eq!(buffer, vec![0x03, 0xD2]);
    assert_eq!(buffer.len(), CurrencyComponent::size());
    assert_eq!(*component.raw(), 978);
}

#[test]
fn scalar_is_its_canonical_encoding() {
    let x = FieldElement::from_u64(0x0102_0304);
    let component = ScalarComponent::new(x);
    let mut buffer = Vec::new();
    component.serialize(&mut buffer).unwrap();
    let mut expected = vec![0u8; 32];
    expected[0] = 0x04;
    expected[1] = 0x03;
    expected[2] = 0x02;
    expected[3] = 0x01;
    assert_eq!(buffer, expected);
    assert_eq!(buffer.len(), ScalarComponent::size());
    assert_eq!(*component.raw(), x);
}

#[test]
fn components_are_written_alike_to_either_kind_of_buffer() {
    let mut grown = BytesMut::with_capacity(4);
    let mut plain: Vec<u8> = Vec::new();
    grown.put(&[0xAAu8, 0xBB]);
    plain.put(&[0xAAu8, 0xBB]);
    let bic = BankIdentifierComponent::new("BCEELU21".to_string()).unwrap();
    bic.serialize(&mut grown).unwrap();
    bic.serialize(&mut plain).unwrap();
    let amount = AmountComponent::new((1000, 7));
    amount.serialize(&mut grown).unwrap();
    amount.serialize(&mut plain).unwrap();
    let currency = CurrencyComponent::new(978);
    currency.serialize(&mut grown).unwrap();
    currency.serialize(&mut plain).unwrap();
    let address = AddressComponent::new([9u8; 32]);
    address.serialize(&mut grown).unwrap();
    address.serialize(&mut plain).unwrap();
    assert_eq!(plain.len(), 2 + 8 + 16 + 2 + 32);
    assert_eq!(&plain[..4], &[0xAA, 0xBB, b'B', b'C']);
    assert_eq!(&plain[10..26], &[0, 0, 0, 0, 0, 0, 0x03, 0xE8, 0, 0, 0, 0, 0, 0, 0, 7]);
    assert_eq!(&plain[26..28], &[0x03, 0xD2]);
    assert_eq!(&grown[..], &plain[..]);
    assert_eq!(grown.freeze().to_vec(), plain);
}
