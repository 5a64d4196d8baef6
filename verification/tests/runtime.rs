use verilization::bignum::{BigInt, BigNat, Sign};
use verilization::codec::VerilizationCodec;
use verilization::runtime::{EndOfData, FormatReader, FormatWriter, MemoryReader, MemoryWriter};
use verilization::vlq::{decoede_vlq_signed, decoede_vlq_unsigned, encode_vlq};

fn nat_bytes(n: u64) -> Vec<u8> {
    let mut w = MemoryWriter::new();
    encode_vlq(&mut w, None, &BigNat::from_u64(n)).unwrap();
    w.bytes
}

fn int_bytes(n: i64) -> Vec<u8> {
    let mut w = MemoryWriter::new();
    let value = BigInt::from_i64(n);
    let sign = value.sign();
    let magnitude = value.magnitude().copy();
    encode_vlq(&mut w, Some(sign), &magnitude).unwrap();
    w.bytes
}

fn read_nat(bytes: Vec<u8>) -> Option<u64> {
    let mut r = MemoryReader::new(bytes);
    decoede_vlq_unsigned(&mut r).unwrap().to_u64()
}

fn read_int(bytes: Vec<u8>) -> (Sign, Option<u64>) {
    let mut r = MemoryReader::new(bytes);
    let v = decoede_vlq_signed(&mut r).unwrap();
    (v.sign(), v.magnitude().to_u64())
}

#[test]
fn nat_encodings() {
    assert_eq!(nat_bytes(0), vec![0x00]);
    assert_eq!(nat_bytes(1), vec![0x01]);
    assert_eq!(nat_bytes(127), vec![0x7F]);
    assert_eq!(nat_bytes(128), vec![0x80, 0x01]);
    assert_eq!(nat_bytes(300), vec![0xAC, 0x02]);
}

#[test]
fn int_encodings() {
    assert_eq!(int_bytes(0), vec![0x00]);
    assert_eq!(int_bytes(1), vec![0x01]);
    assert_eq!(int_bytes(63), vec![0x3F]);
    assert_eq!(int_bytes(-1), vec![0x40]);
    assert_eq!(int_bytes(-64), vec![0x7F]);
    assert_eq!(int_bytes(64), vec![0xC0, 0x00]);
    assert_eq!(int_bytes(-65), vec![0xC0, 0x40]);
}

#[test]
fn nat_roundtrip() {
    for n in [0u64, 1, 2, 63, 64, 127, 128, 255, 300, 16383, 16384, 1 << 40, u64::MAX] {
        assert_eq!(read_nat(nat_bytes(n)), Some(n));
    }
}

#[test]
fn int_roundtrip() {
    for n in [0i64, 1, -1, 63, -63, 64, -64, -65, 1000, -1000, i64::MAX, i64::MIN + 1] {
        let (sign, magnitude) = read_int(int_bytes(n));
        let expected_sign = if n < 0 { Sign::Minus } else if n == 0 { Sign::NoSign } else { Sign::Plus };
        assert_eq!(sign, expected_sign);
        assert_eq!(magnitude, Some(n.unsigned_abs()));
    }
}

#[test]
fn nat_reader_stops_after_last_byte() {
    let mut r = MemoryReader::new(vec![0xAC, 0x02, 0x07]);
    let n = decoede_vlq_unsigned(&mut r).unwrap();
    assert_eq!(n.to_u64(), Some(300));
    assert_eq!(r.position(), 2);
    assert_eq!(r.read_u8(), Ok(0x07));
}

#[test]
fn nat_reader_runs_out_of_data() {
    let mut r = MemoryReader::new(vec![0x80, 0x80]);
    assert!(decoede_vlq_unsigned(&mut r).is_err());
}

#[test]
fn fixed_width_little_endian() {
    let mut w = MemoryWriter::new();
    0x1234u16.write_verilization(&mut w).unwrap();
    (-2i32).write_verilization(&mut w).unwrap();
    0x0102030405060708u64.write_verilization(&mut w).unwrap();
    assert_eq!(
        w.bytes,
        vec![0x34, 0x12, 0xFE, 0xFF, 0xFF, 0xFF, 0x08, 0x07, 0x06, 0x05, 0x04, 0x03, 0x02, 0x01]
    );
    let mut r = MemoryReader::new(w.bytes);
    assert_eq!(u16::read_verilization(&mut r).unwrap(), 0x1234);
    assert_eq!(i32::read_verilization(&mut r).unwrap(), -2);
    assert_eq!(u64::read_verilization(&mut r).unwrap(), 0x0102030405060708);
}

#[test]
fn signed_bytes() {
    let mut w = MemoryWriter::new();
    (-1i8).write_verilization(&mut w).unwrap();
    (-300i16).write_verilization(&mut w).unwrap();
    i64::MIN.write_verilization(&mut w).unwrap();
    let mut r = MemoryReader::new(w.bytes);
    assert_eq!(i8::read_verilization(&mut r).unwrap(), -1);
    assert_eq!(i16::read_verilization(&mut r).unwrap(), -300);
    assert_eq!(i64::read_verilization(&mut r).unwrap(), i64::MIN);
}

#[test]
fn option_encoding() {
    let mut w = MemoryWriter::new();
    Some(5u8).write_verilization(&mut w).unwrap();
    None::<u8>.write_verilization(&mut w).unwrap();
    assert_eq!(w.bytes, vec![1, 5, 0]);
    let mut r = MemoryReader::new(w.bytes);
    assert_eq!(Option::<u8>::read_verilization(&mut r).unwrap(), Some(5));
    assert_eq!(Option::<u8>::read_verilization(&mut r).unwrap(), None);
}

#[test]
fn list_and_string_encoding() {
    let mut w = MemoryWriter::new();
    vec![1u16, 2u16].write_verilization(&mut w).unwrap();
    String::from("hé").write_verilization(&mut w).unwrap();
    assert_eq!(w.bytes, vec![2, 1, 0, 2, 0, 3, b'h', 0xC3, 0xA9]);
    let mut r = MemoryReader::new(w.bytes);
    assert_eq!(Vec::<u16>::read_verilization(&mut r).unwrap(), vec![1, 2]);
    assert_eq!(String::read_verilization(&mut r).unwrap(), "hé");
}

#[test]
fn bigint_codec_roundtrip() {
    for n in [0i64, 5, -5, 64, -65, 123456789, -123456789] {
        let mut w = MemoryWriter::new();
        BigInt::from_i64(n).write_verilization(&mut w).unwrap();
        let mut r = MemoryReader::new(w.bytes);
        let v = BigInt::read_verilization(&mut r).unwrap();
        assert_eq!(v.magnitude().to_u64(), Some(n.unsigned_abs()));
        assert_eq!(v.sign() == Sign::Minus, n < 0);
    }
}

#[test]
fn reader_too_short() {
    let mut r = MemoryReader::new(vec![1]);
    assert!(u16::read_verilization(&mut r).is_err());
    let mut r = MemoryReader::new(vec![]);
    assert!(r.read_u8().is_err());
    let mut r = MemoryReader::new(vec![1, 2, 3]);
    assert!(r.read_bytes(4).is_err());
    assert_eq!(r.read_bytes(3).unwrap(), vec![1, 2, 3]);
}

#[test]
fn writer_bytes_in_order() {
    let mut w = MemoryWriter::new();
    w.write_u8(9).unwrap();
    w.write_bytes(&[1, 2]).unwrap();
    w.write_u32(0x0A0B0C0D).unwrap();
    assert_eq!(w.bytes, vec![9, 1, 2, 0x0D, 0x0C, 0x0B, 0x0A]);
}

#[test]
fn nested_lists_read_back() {
    let value = vec![vec![1u32, 2u32], Vec::new(), vec![300u32]];
    let mut w = MemoryWriter::new();
    value.write_verilization(&mut w).unwrap();
    w.bytes.push(7);
    let mut r = MemoryReader::new(w.bytes);
    assert_eq!(Vec::<Vec<u32>>::read_verilization(&mut r).unwrap(), value);
    assert_eq!(r.read_u8().unwrap(), 7);
}

#[test]
fn list_read_fails_with_the_reader_error() {
    let mut r = MemoryReader::new(vec![2, 1, 0, 0, 0, 2]);
    assert_eq!(Vec::<u32>::read_verilization(&mut r), Err(EndOfData));
}
