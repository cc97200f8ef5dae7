use rshttp2::hpack::integer::{parse_uint, serialize_uint};
use rshttp2::hpack::DecodeError;

#[test]
fn test_parse_0() {
    let buf = vec![0u8];
    let (b, res) = parse_uint(buf.as_slice(), 5).unwrap();
    assert!(b.is_empty(), "{:?}", b);
    assert_eq!(res, 0);
}

#[test]
fn test_parse_1() {
    let buf = vec![0x0Au8];
    let (b, res) = parse_uint(buf.as_slice(), 5).unwrap();
    assert!(b.is_empty(), "{:?}", b);
    assert_eq!(res, 10);
}

#[test]
fn test_parse_2() {
    let buf = vec![31u8, 154u8, 10u8];
    let (b, res) = parse_uint(buf.as_slice(), 5).unwrap();
    assert!(b.is_empty(), "{:?}", b);
    assert_eq!(res, 1337);
}

#[test]
fn test_parse_err0() {
    let buf: Vec<u8> = vec![];
    let err = parse_uint(buf.as_slice(), 5);
    assert!(err.is_err());
}

#[test]
fn test_parse_err1() {
    let buf: Vec<u8> = vec![31u8, 154u8];
    let err = parse_uint(buf.as_slice(), 5);
    assert!(err.is_err());
}

#[test]
fn test_serialize_0() {
    let mut buf: Vec<u8> = vec![];
    serialize_uint(&mut buf, 0, 5, 0);
    assert_eq!(buf, [0]);
}

#[test]
fn test_serialize_1() {
    let mut buf: Vec<u8> = vec![];
    serialize_uint(&mut buf, 10, 5, 0xA0);
    assert_eq!(buf, [0xAA]);
}

#[test]
fn test_serialize_2() {
    let mut buf: Vec<u8> = vec![];
    serialize_uint(&mut buf, 1337, 5, 0);
    assert_eq!(buf, [31u8, 154u8, 10u8]);
}

#[test]
fn test_serialize_3() {
    let mut buf: Vec<u8> = vec![];
    serialize_uint(&mut buf, 31, 5, 0);
    assert_eq!(buf, [31, 0]);
}

#[test]
fn test_serialize_4() {
    let mut buf: Vec<u8> = vec![];
    serialize_uint(&mut buf, u64::max_value(), 1, 0);
    let (b, trial_value) = parse_uint(buf.as_slice(), 1).unwrap();

    assert_eq!(trial_value, u64::max_value());
    assert!(b.is_empty());
}

#[test]
fn test_serialize_parse_exhaustive() {
    for prefix_bits in 1usize..9usize {
        for oracle_value in 0u64..2000u64 {
            let mut buf = vec![];
            serialize_uint(&mut buf, oracle_value, prefix_bits, 0);

            let (b, trial_value) = parse_uint(buf.as_slice(), prefix_bits).unwrap();

            assert_eq!(trial_value, oracle_value);
            assert!(b.is_empty());
        }
    }
}

#[test]
fn hpack_test_parse_uint_0() {
    let buf = vec![0u8];
    let (b, res) = parse_uint(buf.as_slice(), 5).unwrap();
    assert!(b.is_empty());
    assert_eq!(res, 0);
}

#[test]
fn hpack_test_parse_uint_1() {
    let buf = vec![0x0Au8];
    let (b, res) = parse_uint(buf.as_slice(), 5).unwrap();
    assert!(b.is_empty());
    assert_eq!(res, 10);
}

#[test]
fn hpack_test_parse_uint_2() {
    let buf = vec![31u8, 154u8, 10u8];
    let (b, res) = parse_uint(buf.as_slice(), 5).unwrap();
    assert!(b.is_empty());
    assert_eq!(res, 1337);
}

#[test]
fn test_parse_uint_err0() {
    let buf: Vec<u8> = vec![];
    let err = parse_uint(buf.as_slice(), 5);
    assert!(err.is_err());
}

#[test]
fn test_parse_uint_err1() {
    let buf: Vec<u8> = vec![31u8, 154u8];
    let err = parse_uint(buf.as_slice(), 5);
    assert!(err.is_err());
}

#[test]
fn test_serialize_uint_0() {
    let mut buf: Vec<u8> = vec![];
    serialize_uint(&mut buf, 0, 5, 0);
    assert_eq!(buf, [0]);
}

#[test]
fn test_serialize_uint_1() {
    let mut buf: Vec<u8> = vec![];
    serialize_uint(&mut buf, 10, 5, 0xA0);
    assert_eq!(buf, [0xAA]);
}

#[test]
fn test_serialize_uint_2() {
    let mut buf: Vec<u8> = vec![];
    serialize_uint(&mut buf, 1337, 5, 0);
    assert_eq!(buf, [31u8, 154u8, 10u8]);
}

#[test]
fn test_serialize_uint_3() {
    let mut buf: Vec<u8> = vec![];
    serialize_uint(&mut buf, 31, 5, 0);
    assert_eq!(buf, [31, 0]);
}

#[test]
fn test_serialize_parse_uint_exhaustive() {
    for prefix_bits in 1usize..9usize {
        for oracle_value in 0u64..2000u64 {
            let mut buf = vec![];
            serialize_uint(&mut buf, oracle_value, prefix_bits, 0);

            let (b, trial_value) = parse_uint(buf.as_slice(), prefix_bits).unwrap();

            assert_eq!(trial_value, oracle_value);
            assert!(b.is_empty());
        }
    }
}

#[test]
fn uint_roundtrip_with_remainder_and_flags() {
    let values = [
        0u64,
        1,
        126,
        127,
        128,
        254,
        255,
        256,
        16383,
        1 << 32,
        u64::MAX - 1,
        u64::MAX,
    ];
    for prefix_bits in 1usize..9usize {
        for v in values.iter() {
            let mut buf = vec![];
            serialize_uint(&mut buf, *v, prefix_bits, 0xFF);
            assert!(buf.len() <= 11);
            let used = buf.len();
            buf.extend_from_slice(&[0xFF, 0x00, 0x80]);
            let (rest, trial) = parse_uint(buf.as_slice(), prefix_bits).unwrap();
            assert_eq!(trial, *v);
            assert_eq!(rest, &[0xFF, 0x00, 0x80]);
            // Every strict prefix is short of input.
            for cut in 0..used {
                assert_eq!(
                    parse_uint(&buf[..cut], prefix_bits),
                    Err(DecodeError::Shortage)
                );
            }
        }
    }
}

#[test]
fn uint_errors() {
    assert_eq!(parse_uint(&[], 7), Err(DecodeError::Shortage));
    assert_eq!(parse_uint(&[0x7F], 7), Err(DecodeError::Shortage));
    assert_eq!(parse_uint(&[0x7F, 0x80, 0x80], 7), Err(DecodeError::Shortage));
    // Ten octets that all ask to go on.
    let mut buf = vec![0xFFu8];
    buf.extend_from_slice(&[0x80; 10]);
    assert_eq!(parse_uint(&buf, 8), Err(DecodeError::CorruptedInput));
    buf.push(0x00);
    assert_eq!(parse_uint(&buf, 8), Err(DecodeError::CorruptedInput));
    // Nine that go on and a tenth that ends: a value of 70 bits.
    let mut buf = vec![0xFFu8];
    buf.extend_from_slice(&[0xFF; 9]);
    buf.push(0x7F);
    assert_eq!(parse_uint(&buf, 8), Err(DecodeError::CorruptedInput));
    // The greatest value that fits.
    let mut buf = vec![];
    serialize_uint(&mut buf, u64::MAX, 8, 0);
    assert_eq!(buf.len(), 11);
    assert_eq!(parse_uint(&buf, 8).unwrap().1, u64::MAX);
    // One more than fits.
    let last = buf.len() - 1;
    buf[1] = buf[1].wrapping_add(1);
    let _ = last;
    assert_eq!(parse_uint(&buf, 8), Err(DecodeError::CorruptedInput));
    // The integer 1337 with a prefix of 5 bits.
    let mut buf = vec![];
    serialize_uint(&mut buf, 1337, 5, 0);
    assert_eq!(buf, [0x1F, 0x9A, 0x0A]);
    // The bits above the prefix are passed over on decoding.
    assert_eq!(parse_uint(&[0xEA], 5).unwrap().1, 10);
}
