use ontio_std::abi::codec::Error;
use ontio_std::abi::vm_value::{VmValueBuilder, VmValueParser};
use ontio_std::abi::vm_value_codec::{VmValueDecoder, VmValueEncoder};
use ontio_std::types::{Address, H256};

fn parser_of(b: &VmValueBuilder) -> VmValueParser {
    VmValueParser::new(b.bytes().to_vec())
}

#[test]
fn values_read_back_as_written() {
    let mut b = VmValueBuilder::new();
    "hi".serialize(&mut b);
    (&[7u8, 8][..]).serialize(&mut b);
    true.serialize(&mut b);
    H256 { bytes: [3; 32] }.serialize(&mut b);
    300u128.serialize(&mut b);
    Address { bytes: [4; 20] }.serialize(&mut b);
    (&false).serialize(&mut b);
    assert_eq!(&b.bytes()[..7], &[0x01, 2, 0, 0, 0, b'h', b'i']);
    let mut p = parser_of(&b);
    assert_eq!(String::deserialize(&mut p).unwrap(), "hi");
    assert_eq!(Vec::<u8>::deserialize(&mut p).unwrap(), vec![7, 8]);
    assert_eq!(bool::deserialize(&mut p).unwrap(), true);
    assert_eq!(H256::deserialize(&mut p).unwrap(), H256 { bytes: [3; 32] });
    assert_eq!(u128::deserialize(&mut p).unwrap(), 300);
    assert_eq!(Address::deserialize(&mut p).unwrap(), Address { bytes: [4; 20] });
    assert_eq!(bool::deserialize(&mut p).unwrap(), false);
}

#[test]
fn wrong_tag_is_a_type_error() {
    let mut b = VmValueBuilder::new();
    true.serialize(&mut b);
    let mut p = parser_of(&b);
    assert!(matches!(u128::deserialize(&mut p), Err(Error::TypeInconsistency)));
    let mut p = parser_of(&b);
    assert!(matches!(String::deserialize(&mut p), Err(Error::TypeInconsistency)));
}

#[test]
fn string_that_is_not_utf8_is_irregular() {
    let mut b = VmValueBuilder::new();
    b.sink.write_byte(0x01);
    b.sink.write_u32(2);
    b.sink.write_bytes(&[0xFF, 0xFE]);
    let mut p = parser_of(&b);
    assert!(matches!(String::deserialize(&mut p), Err(Error::IrregularData)));
}

#[test]
fn list_of_values() {
    let mut b = VmValueBuilder::new();
    b.sink.write_byte(0x10);
    b.sink.write_u32(3);
    10u128.serialize(&mut b);
    20u128.serialize(&mut b);
    30u128.serialize(&mut b);
    let mut p = parser_of(&b);
    assert_eq!(Vec::<u128>::deserialize(&mut p).unwrap(), vec![10, 20, 30]);
}

#[test]
fn list_with_a_bad_item_or_tag() {
    let mut b = VmValueBuilder::new();
    b.sink.write_byte(0x10);
    b.sink.write_u32(2);
    10u128.serialize(&mut b);
    true.serialize(&mut b);
    let mut p = parser_of(&b);
    assert!(matches!(Vec::<u128>::deserialize(&mut p), Err(Error::TypeInconsistency)));
    let mut b = VmValueBuilder::new();
    10u128.serialize(&mut b);
    let mut p = parser_of(&b);
    assert!(matches!(Vec::<u128>::deserialize(&mut p), Err(Error::TypeInconsistency)));
    let mut p = VmValueParser::new(vec![0x10, 1]);
    assert!(matches!(Vec::<bool>::deserialize(&mut p), Err(Error::UnexpectedEOF)));
}
