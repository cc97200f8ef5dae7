use rshttp2::hpack::{CacheHint, Decoder, Encoder, HeaderField};
use rshttp2::sliceable::Sliceable;

fn hex(s: &str) -> Vec<u8> {
    let digits: Vec<u8> = s
        .bytes()
        .filter(|b| !b.is_ascii_whitespace())
        .map(|b| (b as char).to_digit(16).unwrap() as u8)
        .collect();
    digits.chunks(2).map(|p| p[0] * 16 + p[1]).collect()
}

fn expect_block(decoder: &mut Decoder, wire: &str, fields: &[(&str, &str)], table: &[(&str, &str)], size: usize) {
    let decoded = decoder.parse_header_block(&hex(wire)).unwrap();
    assert_eq!(decoded.len(), fields.len());
    for (field, (name, value)) in decoded.iter().zip(fields.iter()) {
        assert_eq!(field.name(), name.as_bytes());
        assert_eq!(field.value(), value.as_bytes());
    }
    expect_table(decoder, table, size);
}

fn expect_table(decoder: &Decoder, table: &[(&str, &str)], size: usize) {
    let dyntbl = decoder.dynamic_table();
    assert_eq!(dyntbl.len(), table.len());
    assert_eq!(dyntbl.size(), size);
    for (i, (name, value)) in table.iter().enumerate() {
        let item = dyntbl.get(i).unwrap();
        assert_eq!(item.name.as_slice(), name.as_bytes());
        assert_eq!(item.value.unwrap().as_slice(), value.as_bytes());
    }
}

#[test]
fn rfc7541_c_2_1_literal_with_indexing() {
    let mut decoder = Decoder::with_capacity(4096);
    let wire = hex("400a 6375 7374 6f6d 2d6b 6579 0d63 7573 746f 6d2d 6865 6164 6572");
    let (rem, field) = decoder.parse_header_field(&wire).unwrap();
    assert!(rem.is_empty());
    assert!(matches!(field, HeaderField::IncrementalIndex(_)));
    assert_eq!(field.name(), b"custom-key");
    assert_eq!(field.value(), b"custom-header");
    expect_table(&decoder, &[("custom-key", "custom-header")], 55);
    // The index 62 is the entry that has just come in.
    let (rem, field) = decoder.parse_header_field(&[0xBE]).unwrap();
    assert!(rem.is_empty());
    assert!(matches!(field, HeaderField::Index(_)));
    assert_eq!(field.name(), b"custom-key");
    assert_eq!(field.value(), b"custom-header");
    expect_table(&decoder, &[("custom-key", "custom-header")], 55);
}

#[test]
fn rfc7541_c_2_2_literal_without_indexing() {
    let mut decoder = Decoder::with_capacity(4096);
    let wire = hex("040c 2f73 616d 706c 652f 7061 7468");
    let (rem, field) = decoder.parse_header_field(&wire).unwrap();
    assert!(rem.is_empty());
    assert!(matches!(field, HeaderField::NotIndex(_)));
    assert_eq!(field.name(), b":path");
    assert_eq!(field.value(), b"/sample/path");
    expect_table(&decoder, &[], 0);
}

#[test]
fn rfc7541_c_2_3_literal_never_indexed() {
    let mut decoder = Decoder::with_capacity(4096);
    let wire = hex("1008 7061 7373 776f 7264 0673 6563 7265 74");
    let (rem, field) = decoder.parse_header_field(&wire).unwrap();
    assert!(rem.is_empty());
    match field {
        HeaderField::NeverIndex((name, value, raw)) => {
            assert_eq!(name.as_slice(), b"password");
            assert_eq!(value.as_slice(), b"secret");
            assert_eq!(raw.as_slice(), wire.as_slice());
        }
        _ => panic!(),
    }
    expect_table(&decoder, &[], 0);
}

#[test]
fn rfc7541_c_2_4_indexed() {
    let mut decoder = Decoder::with_capacity(4096);
    let (rem, field) = decoder.parse_header_field(&[0x82]).unwrap();
    assert!(rem.is_empty());
    assert!(matches!(field, HeaderField::Index(_)));
    assert_eq!(field.name(), b":method");
    assert_eq!(field.value(), b"GET");
    expect_table(&decoder, &[], 0);
}

const REQUEST_1: [(&str, &str); 4] = [
    (":method", "GET"),
    (":scheme", "http"),
    (":path", "/"),
    (":authority", "www.example.com"),
];
const REQUEST_2: [(&str, &str); 5] = [
    (":method", "GET"),
    (":scheme", "http"),
    (":path", "/"),
    (":authority", "www.example.com"),
    ("cache-control", "no-cache"),
];
const REQUEST_3: [(&str, &str); 5] = [
    (":method", "GET"),
    (":scheme", "https"),
    (":path", "/index.html"),
    (":authority", "www.example.com"),
    ("custom-key", "custom-value"),
];

#[test]
fn rfc7541_c_3_requests_without_huffman() {
    let mut decoder = Decoder::with_capacity(4096);
    expect_block(
        &mut decoder,
        "8286 8441 0f77 7777 2e65 7861 6d70 6c65 2e63 6f6d",
        &REQUEST_1,
        &[(":authority", "www.example.com")],
        57,
    );
    expect_block(
        &mut decoder,
        "8286 84be 5808 6e6f 2d63 6163 6865",
        &REQUEST_2,
        &[("cache-control", "no-cache"), (":authority", "www.example.com")],
        110,
    );
    expect_block(
        &mut decoder,
        "8287 85bf 400a 6375 7374 6f6d 2d6b 6579 0c63 7573 746f 6d2d 7661 6c75 65",
        &REQUEST_3,
        &[
            ("custom-key", "custom-value"),
            ("cache-control", "no-cache"),
            (":authority", "www.example.com"),
        ],
        164,
    );
}

#[test]
fn rfc7541_c_4_requests_with_huffman() {
    let mut decoder = Decoder::with_capacity(4096);
    expect_block(
        &mut decoder,
        "8286 8441 8cf1 e3c2 e5f2 3a6b a0ab 90f4 ff",
        &REQUEST_1,
        &[(":authority", "www.example.com")],
        57,
    );
    expect_block(
        &mut decoder,
        "8286 84be 5886 a8eb 1064 9cbf",
        &REQUEST_2,
        &[("cache-control", "no-cache"), (":authority", "www.example.com")],
        110,
    );
    expect_block(
        &mut decoder,
        "8287 85bf 4088 25a8 49e9 5ba9 7d7f 8925 a849 e95b b8e8 b4bf",
        &REQUEST_3,
        &[
            ("custom-key", "custom-value"),
            ("cache-control", "no-cache"),
            (":authority", "www.example.com"),
        ],
        164,
    );
}

const DATE_1: &str = "Mon, 21 Oct 2013 20:13:21 GMT";
const DATE_2: &str = "Mon, 21 Oct 2013 20:13:22 GMT";
const LOCATION: &str = "https://www.example.com";
const COOKIE: &str = "foo=ASDJKHQKBZXOQWEOPIUAXQWEOIU; max-age=3600; version=1";

fn expect_responses(wire: [&str; 3]) {
    let mut decoder = Decoder::with_capacity(256);
    expect_block(
        &mut decoder,
        wire[0],
        &[
            (":status", "302"),
            ("cache-control", "private"),
            ("date", DATE_1),
            ("location", LOCATION),
        ],
        &[
            ("location", LOCATION),
            ("date", DATE_1),
            ("cache-control", "private"),
            (":status", "302"),
        ],
        222,
    );
    expect_block(
        &mut decoder,
        wire[1],
        &[
            (":status", "307"),
            ("cache-control", "private"),
            ("date", DATE_1),
            ("location", LOCATION),
        ],
        &[
            (":status", "307"),
            ("location", LOCATION),
            ("date", DATE_1),
            ("cache-control", "private"),
        ],
        222,
    );
    expect_block(
        &mut decoder,
        wire[2],
        &[
            (":status", "200"),
            ("cache-control", "private"),
            ("date", DATE_2),
            ("location", LOCATION),
            ("content-encoding", "gzip"),
            ("set-cookie", COOKIE),
        ],
        &[("set-cookie", COOKIE), ("content-encoding", "gzip"), ("date", DATE_2)],
        215,
    );
}

#[test]
fn rfc7541_c_5_responses_without_huffman() {
    expect_responses([
        "4803 3330 3258 0770 7269 7661 7465 611d 4d6f 6e2c 2032 3120 4f63 7420 3230 3133 \
         2032 303a 3133 3a32 3120 474d 546e 1768 7474 7073 3a2f 2f77 7777 2e65 7861 6d70 \
         6c65 2e63 6f6d",
        "4803 3330 37c1 c0bf",
        "88c1 611d 4d6f 6e2c 2032 3120 4f63 7420 3230 3133 2032 303a 3133 3a32 3220 474d \
         54c0 5a04 677a 6970 7738 666f 6f3d 4153 444a 4b48 514b 425a 584f 5157 454f 5049 \
         5541 5851 5745 4f49 553b 206d 6178 2d61 6765 3d33 3630 303b 2076 6572 7369 6f6e \
         3d31",
    ]);
}

#[test]
fn rfc7541_c_6_responses_with_huffman() {
    expect_responses([
        "4882 6402 5885 aec3 771a 4b61 96d0 7abe 9410 54d4 44a8 2005 9504 0b81 66e0 82a6 \
         2d1b ff6e 919d 29ad 1718 63c7 8f0b 97c8 e9ae 82ae 43d3",
        "4883 640e ffc1 c0bf",
        "88c1 6196 d07a be94 1054 d444 a820 0595 040b 8166 e084 a62d 1bff c05a 839b d9ab \
         77ad 94e7 821d d7f2 e6c7 b335 dfdf cd5b 3960 d5af 2708 7f36 72c1 ab27 0fb5 291f \
         9587 3160 65c0 03ed 4ee5 b106 3d50 07",
    ]);
}

fn encode_block(encoder: &mut Encoder, fields: &[(&str, &str)]) -> Vec<u8> {
    let mut out = vec![];
    for (name, value) in fields {
        encoder.encode_header_field(&mut out, CacheHint::PREFER_CACHE, name.as_bytes(), value.as_bytes());
    }
    out
}

#[test]
fn the_encoder_writes_the_requests_of_c_3_bit_for_bit() {
    let mut encoder = Encoder::with_capacity(4096);
    assert_eq!(
        encode_block(&mut encoder, &REQUEST_1),
        hex("8286 8441 0f77 7777 2e65 7861 6d70 6c65 2e63 6f6d")
    );
    assert_eq!(
        encode_block(&mut encoder, &REQUEST_2),
        hex("8286 84be 5808 6e6f 2d63 6163 6865")
    );
    assert_eq!(
        encode_block(&mut encoder, &REQUEST_3),
        hex("8287 85bf 400a 6375 7374 6f6d 2d6b 6579 0c63 7573 746f 6d2d 7661 6c75 65")
    );
}

#[test]
fn the_encoder_writes_the_responses_of_c_5_and_c_6_to_the_same_effect() {
    let mut encoder = Encoder::with_capacity(256);
    let mut decoder = Decoder::with_capacity(256);
    let responses: [Vec<(&str, &str)>; 3] = [
        vec![
            (":status", "302"),
            ("cache-control", "private"),
            ("date", DATE_1),
            ("location", LOCATION),
        ],
        vec![
            (":status", "307"),
            ("cache-control", "private"),
            ("date", DATE_1),
            ("location", LOCATION),
        ],
        vec![
            (":status", "200"),
            ("cache-control", "private"),
            ("date", DATE_2),
            ("location", LOCATION),
            ("content-encoding", "gzip"),
            ("set-cookie", COOKIE),
        ],
    ];
    let sizes = [222usize, 222, 215];
    for (fields, size) in responses.iter().zip(sizes.iter()) {
        let wire = encode_block(&mut encoder, fields);
        let decoded = decoder.parse_header_block(&wire).unwrap();
        assert_eq!(decoded.len(), fields.len());
        for (field, (name, value)) in decoded.iter().zip(fields.iter()) {
            assert_eq!(field.name(), name.as_bytes());
            assert_eq!(field.value(), value.as_bytes());
        }
        assert_eq!(encoder.dynamic_table().size(), *size);
        assert_eq!(decoder.dynamic_table().size(), *size);
    }
    // Short strings go raw as in C.5, long ones Huffman-coded as in C.6.
    let mut encoder = Encoder::with_capacity(256);
    let first = encode_block(&mut encoder, &responses[0]);
    assert_eq!(
        first,
        hex("4803 3330 3258 0770 7269 7661 7465 6196 d07a be94 1054 d444 a820 0595 040b 8166 \
             e082 a62d 1bff 6e91 9d29 ad17 1863 c78f 0b97 c8e9 ae82 ae43 d3")
    );
    assert_eq!(encode_block(&mut encoder, &responses[1]), hex("4803 3330 37c1 c0bf"));
}
