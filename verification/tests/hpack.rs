use random::Source;
use rshttp2::hpack::integer::serialize_uint;
use rshttp2::hpack::string::serialize_string;
use rshttp2::hpack::{CacheHint, DecodeError, Decoder, Encoder, EncoderField, HeaderField};
use rshttp2::sliceable::{AnySliceable, Sliceable};

#[test]
fn parse_header_field_indexed_static_table() {
    let buf = vec![0x82u8];
    let mut decoder = Decoder::with_capacity(1);
    let (rem, res) = decoder.parse_header_field(buf.as_slice()).unwrap();
    assert!(rem.is_empty());
    match res {
        HeaderField::Index((name, value)) => {
            assert_eq!(name.as_slice(), b":method");
            assert_eq!(value.as_slice(), b"GET");
        }
        _ => panic!(),
    }
    assert_eq!(decoder.dynamic_table().len(), 0);
}

fn insert(decoder: &mut Decoder, name: &[u8], value: &[u8]) {
    let mut buf: Vec<u8> = vec![];
    serialize_uint(&mut buf, 0, 6, 0x40);
    serialize_string(&mut buf, name);
    serialize_string(&mut buf, value);
    let (rem, _) = decoder.parse_header_field(buf.as_slice()).unwrap();
    assert!(rem.is_empty());
}

#[test]
fn parse_header_field_indexed_dynamic_table() {
    let mut decoder = Decoder::with_capacity(100);
    const NAME0: &[u8] = b"NAME0";
    const VALUE0: &[u8] = b"VALUE0";
    const NAME1: &[u8] = b"NAME1";
    const VALUE1: &[u8] = b"VALUE1";
    insert(&mut decoder, NAME0, VALUE0);
    insert(&mut decoder, NAME1, VALUE1);

    let buf = vec![0xBEu8]; // 62
    let (rem, res) = decoder.parse_header_field(buf.as_slice()).unwrap();
    assert!(rem.is_empty());
    match res {
        HeaderField::Index((name, value)) => {
            assert_eq!(name.as_slice(), NAME1);
            assert_eq!(value.as_slice(), VALUE1);
        }
        _ => panic!(),
    }
}

#[test]
fn parse_header_field_literal_value_incr_index() {
    const AGE: &[u8] = b"123";
    let mut buf: Vec<u8> = vec![];
    serialize_uint(&mut buf, 21, 6, 0x40);
    serialize_string(&mut buf, AGE);
    let mut decoder = Decoder::with_capacity(100);

    let (rem, res) = decoder.parse_header_field(buf.as_slice()).unwrap();
    assert!(rem.is_empty());
    match res {
        HeaderField::IncrementalIndex((name, value)) => {
            assert_eq!(name.as_slice(), b"age");
            assert_eq!(value.as_slice(), AGE);
        }
        _ => panic!(),
    };
    assert_eq!(decoder.dynamic_table().len(), 1);
    let res = decoder.dynamic_table().get(0).unwrap();
    assert_eq!(res.name.as_slice(), b"age");
    assert!(res.value.is_some());
    assert_eq!(res.value.unwrap().as_slice(), AGE);
}

#[test]
fn parse_header_field_literal_name_value_incr_index() {
    const AGE: &[u8] = b"123";
    let mut buf: Vec<u8> = vec![];
    serialize_uint(&mut buf, 0, 6, 0x40);
    serialize_string(&mut buf, b"age");
    serialize_string(&mut buf, AGE);
    let mut decoder = Decoder::with_capacity(100);

    let (rem, res) = decoder.parse_header_field(buf.as_slice()).unwrap();
    assert!(rem.is_empty());
    match res {
        HeaderField::IncrementalIndex((name, value)) => {
            assert_eq!(name.as_slice(), b"age");
            assert_eq!(value.as_slice(), AGE);
        }
        _ => panic!(),
    };
    assert_eq!(decoder.dynamic_table().len(), 1);
    let res = decoder.dynamic_table().get(0).unwrap();
    assert_eq!(res.name.as_slice(), b"age");
    assert!(res.value.is_some());
    assert_eq!(res.value.unwrap().as_slice(), AGE);
}

#[test]
fn parse_header_field_literal_value_without_indexing() {
    const AGE: &[u8] = b"123";
    let mut buf: Vec<u8> = vec![];
    serialize_uint(&mut buf, 21, 4, 0);
    serialize_string(&mut buf, AGE);
    let mut decoder = Decoder::with_capacity(100);

    let (rem, res) = decoder.parse_header_field(buf.as_slice()).unwrap();
    assert!(rem.is_empty());
    match res {
        HeaderField::NotIndex((name, value)) => {
            assert_eq!(name.as_slice(), b"age");
            assert_eq!(value.as_slice(), AGE);
        }
        _ => panic!(),
    };
    assert_eq!(decoder.dynamic_table().len(), 0);
}

#[test]
fn parse_header_field_literal_name_value_without_indexing() {
    const AGE: &[u8] = b"123";
    let mut buf: Vec<u8> = vec![];
    serialize_uint(&mut buf, 0, 4, 0);
    serialize_string(&mut buf, b"age");
    serialize_string(&mut buf, AGE);
    let mut decoder = Decoder::with_capacity(100);

    let (rem, res) = decoder.parse_header_field(buf.as_slice()).unwrap();
    assert!(rem.is_empty());
    match res {
        HeaderField::NotIndex((name, value)) => {
            assert_eq!(name.as_slice(), b"age");
            assert_eq!(value.as_slice(), AGE);
        }
        _ => panic!(),
    };
    assert_eq!(decoder.dynamic_table().len(), 0);
}

#[test]
fn parse_header_field_literal_value_never_indexing() {
    const AGE: &[u8] = b"123";
    let mut buf: Vec<u8> = vec![];
    serialize_uint(&mut buf, 21, 4, 0x10);
    serialize_string(&mut buf, AGE);
    let mut decoder = Decoder::with_capacity(100);

    let (rem, res) = decoder.parse_header_field(buf.as_slice()).unwrap();
    assert!(rem.is_empty());
    match res {
        HeaderField::NeverIndex((name, value, raw)) => {
            assert_eq!(name.as_slice(), b"age");
            assert_eq!(value.as_slice(), AGE);
            assert_eq!(raw.as_slice(), buf.as_slice());
        }
        _ => {
            println!("{:?}", res);
            panic!()
        }
    };
    assert_eq!(decoder.dynamic_table().len(), 0);
}

#[test]
fn parse_header_field_literal_name_value_never_indexing() {
    const AGE: &[u8] = b"123";
    let mut buf: Vec<u8> = vec![];
    serialize_uint(&mut buf, 0, 4, 0x10);
    serialize_string(&mut buf, b"age");
    serialize_string(&mut buf, AGE);
    let mut decoder = Decoder::with_capacity(100);

    let (rem, res) = decoder.parse_header_field(buf.as_slice()).unwrap();
    assert!(rem.is_empty());
    match res {
        HeaderField::NeverIndex((name, value, raw)) => {
            assert_eq!(name.as_slice(), b"age");
            assert_eq!(value.as_slice(), AGE);
            assert_eq!(raw.as_slice(), buf.as_slice());
        }
        _ => {
            println!("{:?}", res);
            panic!()
        }
    };
    assert_eq!(decoder.dynamic_table().len(), 0);
}

fn same_tables(encoder: &Encoder, decoder: &Decoder) {
    let a = encoder.dynamic_table();
    let b = decoder.dynamic_table();
    assert_eq!(a.len(), b.len());
    assert_eq!(a.size(), b.size());
    assert_eq!(a.capacity(), b.capacity());
    for i in 0..a.len() {
        let x = a.get(i).unwrap();
        let y = b.get(i).unwrap();
        assert_eq!(x.name.as_slice(), y.name.as_slice());
        assert_eq!(x.value.unwrap().as_slice(), y.value.unwrap().as_slice());
    }
}

#[test]
fn mod_random() {
    let names: Vec<&'static [u8]> = vec![b":method", b":status", b"accept", b"smile", b"another-smile"];
    let values: Vec<&'static [u8]> = vec![b"GET", b"POST", b"200", b"haha", b"hoho", b"hehe"];
    const CAP: usize = 50;
    const REPEAT: usize = 10000;
    let mut encoder = Encoder::with_capacity(CAP);
    let mut decoder = Decoder::with_capacity(CAP);
    let mut rng = random::default(42);
    for _ in 0..REPEAT {
        let hint = match rng.read_u64() % 3 {
            0 => CacheHint::PREFER_CACHE,
            1 => CacheHint::PREFER_NOT_CACHE,
            2 => CacheHint::NEVER_CACHE,
            _ => unreachable!(),
        };
        let o_name = names[(rng.read_u64() as usize) % names.len()];
        let o_value = values[(rng.read_u64() as usize) % values.len()];
        let mut buf: Vec<u8> = vec![];
        encoder.encode_header_field(&mut buf, hint, o_name, o_value);
        let (rem, res) = decoder.parse_header_field(buf.as_slice()).unwrap();
        assert!(rem.is_empty(), "{:?}=>{:?}", o_name, o_value);
        match res {
            HeaderField::Index((t_name, t_value)) => {
                assert_eq!(t_name.as_slice(), o_name);
                assert_eq!(t_value.as_slice(), o_value);
            }
            HeaderField::IncrementalIndex((t_name, t_value)) => {
                assert_eq!(hint, CacheHint::PREFER_CACHE);
                assert_eq!(t_name.as_slice(), o_name);
                assert_eq!(t_value.as_slice(), o_value);
            }
            HeaderField::NotIndex((t_name, t_value)) => {
                assert_eq!(hint, CacheHint::PREFER_NOT_CACHE);
                assert_eq!(t_name.as_slice(), o_name);
                assert_eq!(t_value.as_slice(), o_value);
            }
            HeaderField::NeverIndex((t_name, t_value, t_raw)) => {
                assert_eq!(hint, CacheHint::NEVER_CACHE);
                assert_eq!(t_name.as_slice(), o_name);
                assert_eq!(t_value.as_slice(), o_value);
                assert_eq!(t_raw.as_slice(), buf.as_slice());
            }
        }
        same_tables(&encoder, &decoder);
    }
}

#[test]
fn decode_many_fields_from_one_buffer() {
    let fields: Vec<(CacheHint, &[u8], &[u8])> = vec![
        (CacheHint::PREFER_CACHE, b"custom-key", b"custom-header"),
        (CacheHint::NEVER_CACHE, b"password", b"secret"),
        (CacheHint::PREFER_NOT_CACHE, b":path", b"/sample/path"),
        (CacheHint::PREFER_CACHE, b"custom-key", b"custom-header"),
        (CacheHint::NEVER_CACHE, b"custom-key", b"another value that is rather long"),
        (CacheHint::PREFER_CACHE, b"", b""),
        (CacheHint::PREFER_NOT_CACHE, b":method", b"GET"),
    ];
    let mut encoder = Encoder::with_capacity(4096);
    let mut decoder = Decoder::with_capacity(4096);
    let mut buf: Vec<u8> = vec![];
    for (hint, name, value) in fields.iter() {
        encoder.encode_header_field(&mut buf, *hint, name, value);
    }
    let mut rest: &[u8] = buf.as_slice();
    for (_, name, value) in fields.iter() {
        let (rem, res) = decoder.parse_header_field(rest).unwrap();
        assert_eq!(res.name(), *name);
        assert_eq!(res.value(), *value);
        rest = rem;
    }
    assert!(rest.is_empty());
    same_tables(&encoder, &decoder);
    assert_eq!(decoder.dynamic_table().len(), 2);
}

#[test]
fn encoder_picks_the_most_compact_form() {
    let mut encoder = Encoder::with_capacity(4096);
    // In the static table with its value: the index.
    let mut buf = vec![];
    encoder.encode_header_field(&mut buf, CacheHint::NEVER_CACHE, b":method", b"GET");
    assert_eq!(buf, [0x82]);
    // The name in the static table: the index of the name. The lowest index counts.
    let mut buf = vec![];
    encoder.encode_header_field(&mut buf, CacheHint::PREFER_CACHE, b":status", b"302");
    assert_eq!(buf, [0x48, 0x03, b'3', b'0', b'2']);
    let mut buf = vec![];
    encoder.encode_header_field(&mut buf, CacheHint::PREFER_NOT_CACHE, b":path", b"/x");
    assert_eq!(buf, [0x04, 0x02, b'/', b'x']);
    let mut buf = vec![];
    encoder.encode_header_field(&mut buf, CacheHint::NEVER_CACHE, b"password", b"secret");
    assert_eq!(
        buf,
        [0x10, 0x08, b'p', b'a', b's', b's', b'w', b'o', b'r', b'd', 0x06, b's', b'e', b'c', b'r', b'e', b't']
    );
    // Only the hint to cache has put something into the table.
    assert_eq!(encoder.dynamic_table().len(), 1);
    let mut buf = vec![];
    encoder.encode_header_field(&mut buf, CacheHint::NEVER_CACHE, b":status", b"302");
    assert_eq!(buf, [0xBE]);
    assert_eq!(encoder.dynamic_table().len(), 1);
}

#[test]
fn decoder_errors() {
    let mut decoder = Decoder::with_capacity(100);
    assert_eq!(decoder.parse_header_field(&[]).err(), Some(DecodeError::Shortage));
    assert_eq!(decoder.parse_header_field(&[0x80]).err(), Some(DecodeError::IndexZero));
    assert_eq!(decoder.parse_header_field(&[0xBE]).err(), Some(DecodeError::IndexOutOfRange));
    assert_eq!(decoder.parse_header_field(&[0xFF]).err(), Some(DecodeError::Shortage));
    assert_eq!(decoder.parse_header_field(&[0x81]).err(), Some(DecodeError::NoValue));
    assert_eq!(
        decoder.parse_header_field(&[0x20]).err(),
        Some(DecodeError::MisplacedSizeUpdate)
    );
    assert_eq!(decoder.parse_header_field(&[0x7E, 0x00]).err(), Some(DecodeError::IndexOutOfRange));
    assert_eq!(decoder.parse_header_field(&[0x40, 0x01]).err(), Some(DecodeError::Shortage));
    assert_eq!(
        decoder.parse_header_field(&[0x00, 0x81, 0x50, 0x00]).err(),
        Some(DecodeError::HuffmanError)
    );
    let mut long = vec![0x0Fu8];
    long.extend_from_slice(&[0xFF; 10]);
    assert_eq!(decoder.parse_header_field(&long).err(), Some(DecodeError::CorruptedInput));
    assert_eq!(decoder.dynamic_table().len(), 0);
    assert_eq!(DecodeError::IndexZero.code(), rshttp2::error::Code::ProtocolError);
    assert_eq!(DecodeError::NoValue.code(), rshttp2::error::Code::CompressionError);
    assert_eq!(DecodeError::Shortage.message(), "shortage of input on deserialization.");
}

#[test]
fn size_updates_stand_at_the_start_of_a_block() {
    let mut decoder = Decoder::with_capacity(100);
    insert(&mut decoder, b"a", b"b");
    insert(&mut decoder, b"c", b"d");
    assert_eq!(decoder.dynamic_table().len(), 2);
    // To 40, to 100, then a field.
    let fields = decoder.parse_header_block(&[0x3F, 0x09, 0x3F, 0x45, 0x82]).unwrap();
    assert_eq!(fields.len(), 1);
    assert_eq!(fields[0].name(), b":method");
    assert_eq!(decoder.dynamic_table().len(), 1);
    assert_eq!(decoder.dynamic_table().capacity(), 100);
    assert_eq!(decoder.dynamic_table().get(0).unwrap().name.as_slice(), b"c");
    // After a field.
    assert_eq!(
        decoder.parse_header_block(&[0x82, 0x20]).err(),
        Some(DecodeError::MisplacedSizeUpdate)
    );
    // Above the limit agreed on.
    assert_eq!(
        decoder.parse_header_block(&[0x3F, 0x46]).err(),
        Some(DecodeError::OversizedSizeUpdate)
    );
    // A block of nothing but an update, and an empty block.
    assert_eq!(decoder.parse_header_block(&[0x20]).unwrap().len(), 0);
    assert_eq!(decoder.dynamic_table().len(), 0);
    assert_eq!(decoder.dynamic_table().capacity(), 0);
    assert_eq!(decoder.parse_header_block(&[]).unwrap().len(), 0);
    decoder.set_max_capacity(200);
    assert_eq!(decoder.parse_header_block(&[0x3F, 0x46]).unwrap().len(), 0);
    assert_eq!(decoder.dynamic_table().capacity(), 101);
}

#[test]
fn the_encoder_tells_of_a_new_limit() {
    let mut encoder = Encoder::with_capacity(100);
    let mut decoder = Decoder::with_capacity(100);
    let field = |n: &[u8], v: &[u8]| {
        EncoderField::ToCache((AnySliceable::new(n.to_vec()), AnySliceable::new(v.to_vec())))
    };
    let mut block = vec![];
    encoder.encode_header_block(&mut block, &vec![field(b"a", b"b"), field(b"c", b"d")]);
    assert_eq!(decoder.parse_header_block(&block).unwrap().len(), 2);
    same_tables(&encoder, &decoder);
    assert_eq!(encoder.dynamic_table().len(), 2);
    // Of two limits asked for, the last one counts, at the start of the next block.
    encoder.update_capacity(0);
    encoder.update_capacity(40);
    assert_eq!(encoder.dynamic_table().len(), 2);
    let mut block = vec![];
    encoder.encode_header_block(&mut block, &vec![field(b"e", b"f")]);
    assert_eq!(block[0], 0x3F);
    assert_eq!(block[1], 0x09);
    let fields = decoder.parse_header_block(&block).unwrap();
    assert_eq!(fields.len(), 1);
    assert_eq!(fields[0].name(), b"e");
    assert_eq!(fields[0].value(), b"f");
    same_tables(&encoder, &decoder);
    assert_eq!(encoder.dynamic_table().len(), 1);
    assert_eq!(encoder.dynamic_table().capacity(), 40);
    // No update without a new limit.
    let mut block = vec![];
    encoder.encode_header_block(&mut block, &vec![field(b"e", b"f")]);
    assert_eq!(block, [0xBE]);
    // Nor where the limit asked for is the limit that the table has.
    encoder.update_capacity(40);
    let mut block = vec![];
    encoder.encode_header_block(&mut block, &vec![field(b"e", b"f")]);
    assert_eq!(block, [0xBE]);
    // Of a limit that is asked for and taken back, only the last is told.
    encoder.update_capacity(10);
    encoder.update_capacity(40);
    let mut block = vec![];
    encoder.encode_header_block(&mut block, &vec![field(b"e", b"f")]);
    assert_eq!(block, [0x3F, 0x09, 0xBE]);
}

#[test]
fn after_an_error_the_table_is_as_the_block_left_it() {
    let mut decoder = Decoder::with_capacity(100);
    // An update to 90, a field that goes into the table, then an index that names nothing.
    let block = [0x3F, 0x3B, 0x40, 0x01, b'a', 0x01, b'b', 0xC0];
    assert_eq!(
        decoder.parse_header_block(&block).err(),
        Some(DecodeError::IndexOutOfRange)
    );
    assert_eq!(decoder.dynamic_table().capacity(), 90);
    assert_eq!(decoder.dynamic_table().len(), 1);
    assert_eq!(decoder.dynamic_table().get(0).unwrap().name.as_slice(), b"a");
    // A field by itself that fails leaves the table alone.
    assert_eq!(
        decoder.parse_header_field(&[0x40, 0x01, b'c', 0x05, b'd']).err(),
        Some(DecodeError::Shortage)
    );
    assert_eq!(decoder.dynamic_table().len(), 1);
}
