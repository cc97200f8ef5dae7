use rshttp2::parsers::parse_uint;
use rshttp2::serializers::serialize_uint;

#[test]
fn parsers_test_parse_uint_0() {
    let buf: [u8; 5] = [1, 2, 3, 4, 5];
    let (remain_buf, res) = parse_uint(&buf, 0);
    assert_eq!(res, 0);
    assert_eq!(remain_buf.len(), 5);
    assert_eq!(remain_buf[0], 1);
}

#[test]
fn parsers_test_parse_uint_1() {
    let buf: [u8; 5] = [1, 2, 3, 4, 5];
    let (remain_buf, res) = parse_uint(&buf, 4);
    assert_eq!(res, 0x01020304);
    assert_eq!(remain_buf.len(), 1);
    assert_eq!(remain_buf[0], 5);
}

#[test]
fn parsers_test_parse_uint_2() {
    let buf: [u8; 5] = [1, 2, 3, 4, 5];
    let (remain_buf, res) = parse_uint(&buf, 1);
    assert_eq!(res as u8, 0x1u8);
    assert_eq!(remain_buf.len(), 4);
    assert_eq!(remain_buf[0], 0x2);
}

#[test]
fn serialize_uint_0() {
    let mut buf = vec![];
    serialize_uint(&mut buf, 0x1234u16 as u64, 2);
    assert_eq!(buf, [0x12, 0x34]);
}

#[test]
fn serialize_uint_1() {
    let mut buf = vec![];
    serialize_uint(&mut buf, 0x1234u16 as u64, 3);
    assert_eq!(buf, [0, 0x12, 0x34]);
}

#[test]
fn serialize_uint_2() {
    let mut buf = vec![];
    serialize_uint(&mut buf, 0x1234u16 as u64, 1);
    assert_eq!(buf, [0x34]);
}

#[test]
fn parse_serialize_eight_bytes() {
    let mut buf = vec![0xAAu8];
    serialize_uint(&mut buf, 0x0102_0304_0506_0708, 8);
    assert_eq!(buf, [0xAA, 1, 2, 3, 4, 5, 6, 7, 8]);
    let (rest, v) = parse_uint(&buf[1..], 8);
    assert_eq!(v, 0x0102_0304_0506_0708);
    assert!(rest.is_empty());
    let mut buf = vec![];
    serialize_uint(&mut buf, u64::MAX, 0);
    assert!(buf.is_empty());
    serialize_uint(&mut buf, u64::MAX, 8);
    assert_eq!(parse_uint(&buf, 8).1, u64::MAX);
}
