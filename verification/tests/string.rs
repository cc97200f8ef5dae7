use random::Source;
use rshttp2::hpack::string::{parse_string, serialize_raw_string, serialize_string};
use rshttp2::hpack::DecodeError;
use rshttp2::sliceable::Sliceable;

#[test]
fn serialize_raw_string_0() {
    let mut buf: Vec<u8> = vec![];
    serialize_raw_string(&mut buf, b"");
    assert_eq!(buf, [0]);
}

#[test]
fn serialize_raw_string_1() {
    let mut buf: Vec<u8> = vec![];
    serialize_raw_string(&mut buf, b"custom-key");
    assert_eq!(
        buf,
        [0x0A, 0x63, 0x75, 0x73, 0x74, 0x6F, 0x6D, 0x2D, 0x6B, 0x65, 0x79]
    );
}

#[test]
fn parse_raw_string_0() {
    let buf = vec![0u8];
    let (b, res) = parse_string(buf.as_slice()).unwrap();
    assert!(b.is_empty(), "{:?}", b);
    assert_eq!(res.as_slice(), []);
}

#[test]
fn parse_raw_string_1() {
    let buf = vec![0x0A, 0x63, 0x75, 0x73, 0x74, 0x6F, 0x6D, 0x2D, 0x6B, 0x65, 0x79];
    let (b, res) = parse_string(buf.as_slice()).unwrap();
    assert!(b.is_empty(), "{:?}", b);
    assert_eq!(res.as_slice(), b"custom-key");
}

#[test]
fn parse_huffman_string_0() {
    let buf = vec![0x80u8];
    let (b, res) = parse_string(buf.as_slice()).unwrap();
    assert!(b.is_empty(), "{:?}", b);
    assert_eq!(res.as_slice(), []);
}

#[test]
fn parse_huffman_string_1() {
    let buf = vec![
        0x8C, 0xF1, 0xE3, 0xC2, 0xE5, 0xF2, 0x3A, 0x6B, 0xA0, 0xAB, 0x90, 0xF4, 0xFF,
    ];
    let (b, res) = parse_string(buf.as_slice()).unwrap();
    assert!(b.is_empty(), "{:?}", b);
    assert_eq!(res.as_slice(), b"www.example.com");
}

fn randomized_vec(rng: &mut random::Default, alphabet: &[u8], terminator: u8) -> Vec<u8> {
    let len = alphabet.len();
    let mut out = vec![];
    loop {
        let x = alphabet[(rng.read_u64() as usize) % len];
        if x == terminator {
            break;
        }
        out.push(x);
    }
    out
}

#[test]
fn string_random() {
    let mut rng = random::default(42);
    for _ in 0..1000 {
        let s = randomized_vec(&mut rng, b"abcdefghijklmn.", b'.');
        let mut buf: Vec<u8> = vec![];
        serialize_string(&mut buf, s.as_slice());
        let (rem, res) = parse_string(buf.as_slice()).unwrap();
        assert_eq!(s.as_slice(), res.as_slice());
        assert!(rem.is_empty());
    }
}

#[test]
fn string_encoding_policy() {
    // Below 16 octets: raw.
    let mut buf = vec![];
    serialize_string(&mut buf, b"www.example.com");
    assert_eq!(buf[0], 15);
    assert_eq!(&buf[1..], b"www.example.com");
    // From 16 octets on: Huffman-coded where that is shorter.
    let mut buf = vec![];
    serialize_string(&mut buf, b"www.example.com/");
    assert_eq!(buf[0] & 0x80, 0x80);
    assert!(buf.len() - 1 < 16);
    let (rem, res) = parse_string(&buf).unwrap();
    assert!(rem.is_empty());
    assert_eq!(res.as_slice(), b"www.example.com/");
    // Octets with long codes stay raw.
    let text = [0u8; 20];
    let mut buf = vec![];
    serialize_string(&mut buf, &text);
    assert_eq!(buf[0], 20);
    assert_eq!(&buf[1..], &text);
    // A length that runs over the prefix.
    let text = vec![1u8; 300];
    let mut buf = vec![];
    serialize_string(&mut buf, &text);
    assert_eq!(&buf[..3], &[0x7F, 0xAD, 0x01]);
    let mut with_rest = buf.clone();
    with_rest.extend_from_slice(b"rest");
    let (rem, res) = parse_string(&with_rest).unwrap();
    assert_eq!(rem, b"rest");
    assert_eq!(res.as_slice(), text.as_slice());
}

#[test]
fn string_errors() {
    assert_eq!(parse_string(&[]).err(), Some(DecodeError::Shortage));
    assert_eq!(parse_string(&[0x03, b'a', b'b']).err(), Some(DecodeError::Shortage));
    assert_eq!(parse_string(&[0x7F]).err(), Some(DecodeError::Shortage));
    assert_eq!(parse_string(&[0x81, 0x50]).err(), Some(DecodeError::HuffmanError));
    let mut long = vec![0x7Fu8];
    long.extend_from_slice(&[0x80; 10]);
    assert_eq!(parse_string(&long).err(), Some(DecodeError::CorruptedInput));
}
