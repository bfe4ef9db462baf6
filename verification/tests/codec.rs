use ontio_std::abi::codec::{Error, Sink, Source};

fn varuint_roundtrip(v: u64, len: usize) {
    let mut sink = Sink::new(0);
    sink.write_varuint(v);
    assert_eq!(sink.bytes().len(), len);
    let mut source = Source::new(sink.bytes().to_vec());
    assert_eq!(source.read_varuint(), Ok(v));
    assert_eq!(source.read_byte(), Err(Error::UnexpectedEOF));
}

#[test]
fn varuint_widths_at_their_boundaries() {
    varuint_roundtrip(0, 1);
    varuint_roundtrip(0xFC, 1);
    varuint_roundtrip(0xFD, 3);
    varuint_roundtrip(0xFFFF, 3);
    varuint_roundtrip(0x1_0000, 5);
    varuint_roundtrip(0xFFFF_FFFF, 5);
    varuint_roundtrip(0x1_0000_0000, 9);
    varuint_roundtrip(u64::MAX, 9);
}

#[test]
fn varuint_bytes_are_little_endian() {
    let mut sink = Sink::new(0);
    sink.write_varuint(0x1234);
    assert_eq!(sink.bytes(), &[0xFD, 0x34, 0x12]);
}

#[test]
fn varuint_written_too_long_is_irregular() {
    let mut s = Source::new(vec![0xFD, 0x10, 0x00]);
    assert_eq!(s.read_varuint(), Err(Error::IrregularData));
    assert_eq!(s.read_byte(), Ok(0xFD));
    let mut s = Source::new(vec![0xFE, 0xFF, 0xFF, 0, 0]);
    assert_eq!(s.read_varuint(), Err(Error::IrregularData));
    let mut s = Source::new(vec![0xFF, 1, 0, 0, 0, 0, 0, 0, 0]);
    assert_eq!(s.read_varuint(), Err(Error::IrregularData));
}

#[test]
fn short_data_is_unexpected_eof() {
    let mut s = Source::new(vec![0xFE, 1, 2]);
    assert_eq!(s.read_varuint(), Err(Error::UnexpectedEOF));
    assert_eq!(s.read_byte(), Ok(0xFE));
    let mut s = Source::new(vec![3, 1, 2]);
    assert_eq!(s.read_varbytes(), Err(Error::UnexpectedEOF));
    assert_eq!(s.read_u32(), Err(Error::UnexpectedEOF));
    assert_eq!(s.read_u64(), Err(Error::UnexpectedEOF));
}

#[test]
fn fixed_width_numbers_and_bool() {
    let mut sink = Sink::new(4);
    sink.write_u16(0xBEEF);
    sink.write_u32(0xDEADBEEF);
    sink.write_u64(0x0102030405060708);
    sink.write_bool(true);
    sink.write_bool(false);
    sink.write_byte(2);
    let mut s = Source::new(sink.bytes().to_vec());
    assert_eq!(s.read_u16(), Ok(0xBEEF));
    assert_eq!(s.read_u32(), Ok(0xDEADBEEF));
    assert_eq!(s.read_u64(), Ok(0x0102030405060708));
    assert_eq!(s.read_bool(), Ok(true));
    assert_eq!(s.read_bool(), Ok(false));
    assert_eq!(s.read_bool(), Err(Error::IrregularData));
    assert_eq!(s.read_byte(), Ok(2));
}

#[test]
fn varbytes_roundtrip() {
    let data: Vec<u8> = (0..300u32).map(|i| i as u8).collect();
    let mut sink = Sink::new(0);
    sink.write_varbytes(&data);
    sink.write_varbytes(&[]);
    assert_eq!(&sink.bytes()[..3], &[0xFD, 0x2C, 0x01]);
    let mut s = Source::new(sink.bytes().to_vec());
    assert_eq!(s.read_varbytes(), Ok(data));
    assert_eq!(s.read_varbytes(), Ok(vec![]));
    assert_eq!(s.read_bytes(1), Err(Error::UnexpectedEOF));
}
