use random::Source;
use rshttp2::connection::{Connection, PREFACE};
use rshttp2::frames::{Frame, FrameHeader};
use rshttp2::hpack::huffman::decode;
use rshttp2::hpack::integer::parse_uint;
use rshttp2::hpack::string::parse_string;
use rshttp2::hpack::Decoder;

fn random_bytes(rng: &mut random::Default, max: u64) -> Vec<u8> {
    let len = rng.read_u64() % max;
    (0..len).map(|_| rng.read_u64() as u8).collect()
}

#[test]
fn whatever_comes_in_nothing_panics() {
    let mut rng = random::default(7);
    let mut decoder = Decoder::with_capacity(256);
    let mut conn = Connection::with_id(1);
    conn.receive_preface(PREFACE.as_bytes());
    for _ in 0..5000 {
        let bytes = random_bytes(&mut rng, 40);
        let _ = decode(&bytes);
        let _ = parse_string(&bytes);
        for prefix_bits in 1..9 {
            let _ = parse_uint(&bytes, prefix_bits);
        }
        let _ = decoder.parse_header_block(&bytes);
        let _ = decoder.parse_header_field(&bytes);
        assert!(decoder.dynamic_table().size() <= decoder.dynamic_table().capacity());
        let mut head = [0u8; 9];
        for b in head.iter_mut() {
            *b = rng.read_u64() as u8;
        }
        // The types that are known come up often.
        head[3] = [1u8, 2, 4, 7, head[3]][(rng.read_u64() % 5) as usize];
        let header = FrameHeader::parse(&head);
        assert!(header.stream_id < 0x8000_0000);
        assert!(header.body_len <= 0xFF_FFFF);
        let _ = Frame::parse(&mut decoder, &header, bytes.clone());
        let reaction = conn.receive_frame(&header, bytes);
        assert!(reaction.replies.len() <= 1);
    }
}
