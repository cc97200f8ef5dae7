use random::Source;
use rshttp2::hpack::huffman::{decode, encode, BitIterator, Char, HuffmanTreeWalker};
use rshttp2::hpack::DecodeError;

#[test]
fn bit_iterator_0() {
    let buf: Vec<u8> = vec![];
    let mut iter = BitIterator::new(buf.as_slice());
    assert_eq!(iter.next(), None);
}

#[test]
fn bit_iterator_1() {
    let oracle = 0xCCu8;
    let buf: Vec<u8> = vec![oracle];
    let mut iter = BitIterator::new(buf.as_slice());
    let mut trial = String::new();
    while let Some(x) = iter.next() {
        trial.push(if x > 0 { '1' } else { '0' });
    }
    assert_eq!(trial, format!("{:b}", oracle));
}

#[test]
fn bit_iterator_2() {
    let oracle0 = 0xCCu8;
    let oracle1 = 0x55u8;
    let buf: Vec<u8> = vec![oracle0, oracle1];
    let mut iter = BitIterator::new(buf.as_slice());
    let mut trial = String::new();
    while let Some(x) = iter.next() {
        trial.push(if x > 0 { '1' } else { '0' });
    }
    assert_eq!(trial, format!("{:b}{:08b}", oracle0, oracle1));
}

#[test]
fn huffman_tree_walker_0() {
    let buf = vec![0xF8u8];
    let mut iter = BitIterator::new(buf.as_slice());
    let mut walker = HuffmanTreeWalker::new();
    let mut trial: Vec<Char> = vec![];
    while let Some(x) = iter.next() {
        let c = walker.advance(x);
        if c.is_some() {
            trial.push(c.unwrap());
        }
    }
    assert_eq!(format!("{:?}", trial), "[Normal(38)]");
    assert!(walker.is_root());
}

#[test]
fn huffman_tree_walker_1() {
    let buf = vec![0x53u8, 0xF8u8];
    let mut iter = BitIterator::new(buf.as_slice());
    let mut walker = HuffmanTreeWalker::new();
    let mut trial: Vec<Char> = vec![];
    while let Some(x) = iter.next() {
        let c = walker.advance(x);
        if c.is_some() {
            trial.push(c.unwrap());
        }
    }
    assert_eq!(format!("{:?}", trial), "[Normal(32), Normal(33)]");
    assert!(walker.is_root());
}

#[test]
fn encode_0() {
    let buf = vec![38u8];
    let mut trial: Vec<u8> = vec![];
    encode(&mut trial, buf.as_slice());
    assert_eq!(trial, [0xF8u8]);
}

#[test]
fn encode_1() {
    let buf = vec![32u8];
    let mut trial: Vec<u8> = vec![];
    encode(&mut trial, buf.as_slice());
    assert_eq!(trial, [0x53u8]);
}

#[test]
fn encode_2() {
    let buf = vec![32u8, 33u8];
    let mut trial: Vec<u8> = vec![];
    encode(&mut trial, buf.as_slice());
    assert_eq!(trial, [0x53u8, 0xF8u8]);
}

fn random_str(rng: &mut random::Default) -> Vec<u8> {
    const ALPHABET_SIZE: u64 = 256;
    let mut res: Vec<u8> = vec![];
    loop {
        let x = rng.read_u64() % (ALPHABET_SIZE + ALPHABET_SIZE / 10);
        if x >= ALPHABET_SIZE {
            break;
        }
        res.push(x as u8);
    }
    res
}

#[test]
fn encode_decode_random() {
    let mut rng = random::default(42);
    for _ in 0..1000 {
        let oracle = random_str(&mut rng);

        let mut encoded = vec![];
        encode(&mut encoded, oracle.as_slice());

        let trial = decode(encoded.as_slice()).unwrap();
        assert_eq!(trial, oracle);
    }
}

#[test]
fn encode_decode_every_octet() {
    for c in 0u16..256 {
        let oracle = vec![c as u8];
        let mut encoded = vec![];
        encode(&mut encoded, oracle.as_slice());
        assert_eq!(decode(encoded.as_slice()).unwrap(), oracle);
        let twice = vec![c as u8, c as u8, 0, 255, c as u8];
        let mut encoded = vec![0xAAu8];
        encode(&mut encoded, twice.as_slice());
        assert_eq!(encoded[0], 0xAA);
        assert_eq!(decode(&encoded[1..]).unwrap(), twice);
    }
}

fn hex(s: &str) -> Vec<u8> {
    let digits: Vec<u8> = s
        .bytes()
        .filter(|b| !b.is_ascii_whitespace())
        .map(|b| (b as char).to_digit(16).unwrap() as u8)
        .collect();
    digits.chunks(2).map(|p| p[0] * 16 + p[1]).collect()
}

#[test]
fn huffman_known_strings() {
    let cases: Vec<(&[u8], &str)> = vec![
        (b"www.example.com", "f1e3 c2e5 f23a 6ba0 ab90 f4ff"),
        (b"no-cache", "a8eb 1064 9cbf"),
        (b"custom-key", "25a8 49e9 5ba9 7d7f"),
        (b"custom-value", "25a8 49e9 5bb8 e8b4 bf"),
        (b"302", "6402"),
        (b"private", "aec3 771a 4b"),
        (
            b"Mon, 21 Oct 2013 20:13:21 GMT",
            "d07a be94 1054 d444 a820 0595 040b 8166 e082 a62d 1bff",
        ),
        (
            b"https://www.example.com",
            "9d29 ad17 1863 c78f 0b97 c8e9 ae82 ae43 d3",
        ),
        (b"307", "640e ff"),
        (b"gzip", "9bd9 ab"),
        (
            b"foo=ASDJKHQKBZXOQWEOPIUAXQWEOIU; max-age=3600; version=1",
            "94e7 821d d7f2 e6c7 b335 dfdf cd5b 3960 d5af 2708 7f36 72c1 ab27 0fb5 291f 9587 3160 65c0 03ed 4ee5 b106 3d50 07",
        ),
        (b"", ""),
    ];
    for (text, coded) in cases {
        let mut trial = vec![];
        encode(&mut trial, text);
        assert_eq!(trial, hex(coded));
        assert_eq!(decode(&hex(coded)).unwrap(), text.to_vec());
    }
}

#[test]
fn huffman_decode_errors() {
    // The code of the end of the string in the middle.
    assert_eq!(
        decode(&[0xFF, 0xFF, 0xFF, 0xFF]),
        Err(DecodeError::HuffmanError)
    );
    assert_eq!(
        decode(&[0x53, 0xFF, 0xFF, 0xFF, 0xFF]),
        Err(DecodeError::HuffmanError)
    );
    // A last octet that is filled with zeros.
    assert_eq!(decode(&[0x50]), Err(DecodeError::HuffmanError));
    // A last octet that is filled with a one and a zero.
    assert_eq!(decode(&[0x52]), Err(DecodeError::HuffmanError));
    // One bits up to a whole code less one bit are an initial segment of the
    // end of the string.
    assert_eq!(decode(&[0xFF]), Ok(vec![]));
    assert_eq!(decode(&[0x53, 0xFF, 0xFF]), Ok(vec![32u8]));
    assert_eq!(decode(&[0xFF, 0xFF, 0xFF]), Ok(vec![]));
    assert_eq!(decode(&[0x07]), Ok(vec![b'0']));
}
