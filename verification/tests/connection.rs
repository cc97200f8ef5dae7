use random::Source;
use rshttp2::connection::{
    handshake,
    backoff_from, backoff_millis, is_preface, Config, Connection, Reaction, PREFACE,
};
use rshttp2::error::{Code, Level};
use rshttp2::frames::{Frame, FrameHeader, GoAwayFrame, SendFrame, SettingsFrame};
use rshttp2::settings::SettingKey;

fn header(frame_type: u8, flags: u8, stream_id: u32, body: &[u8]) -> FrameHeader {
    FrameHeader { body_len: body.len(), frame_type, flags, stream_id }
}

fn established() -> Connection {
    let mut conn = Connection::with_id(7);
    let r = conn.receive_preface(PREFACE.as_bytes());
    assert!(r.replies.is_empty() && r.deliver.is_none() && r.error.is_none());
    let r = conn.receive_frame(&header(4, 0, 0, &[]), vec![]);
    assert_eq!(r.replies.len(), 1);
    conn
}

fn goaways(r: &Reaction) -> Vec<(u32, Code)> {
    r.replies
        .iter()
        .filter_map(|f| match f {
            SendFrame::GoAway(g) => Some((g.last_stream_id, g.error_code)),
            _ => None,
        })
        .collect()
}

#[test]
fn the_identifier_in_base_62() {
    assert_eq!(Connection::with_id(0).encoded_id(), "0");
    assert_eq!(Connection::with_id(9).encoded_id(), "9");
    assert_eq!(Connection::with_id(10).encoded_id(), "A");
    assert_eq!(Connection::with_id(35).encoded_id(), "Z");
    assert_eq!(Connection::with_id(36).encoded_id(), "a");
    assert_eq!(Connection::with_id(61).encoded_id(), "z");
    assert_eq!(Connection::with_id(62).encoded_id(), "10");
    assert_eq!(Connection::with_id(1337).encoded_id(), "LZ");
    assert_eq!(Connection::with_id(u64::MAX).encoded_id(), "LygHa16AHYF");
    assert_eq!(Connection::with_id(1337).get_id(), 1337);
}

#[test]
fn the_identifier_is_drawn_with_the_seed() {
    for seed in [0u64, 1, 2, 42, u64::MAX] {
        let oracle = random::default(seed).read_u64();
        assert_eq!(Connection::new(seed).get_id(), oracle);
        assert_eq!(backoff_millis(seed), oracle % 30);
        assert!(backoff_millis(seed) < 30);
    }
    assert_ne!(Connection::new(1).get_id(), Connection::new(2).get_id());
    assert_eq!(backoff_from(0), 0);
    assert_eq!(backoff_from(29), 29);
    assert_eq!(backoff_from(30), 0);
    assert_eq!(backoff_from(u64::MAX), (u64::MAX % 30));
}

#[test]
fn the_preface() {
    assert_eq!(PREFACE.len(), 24);
    assert!(is_preface(b"PRI * HTTP/2.0\r\n\r\nSM\r\n\r\n"));
    assert!(!is_preface(b"PRI * HTTP/2.0\r\n\r\nSM\r\n\r"));
    assert!(!is_preface(b"GET / HTTP/1.1\r\n\r\n      "));
    let mut conn = Connection::with_id(1);
    let r = conn.receive_preface(b"GET / HTTP/1.1\r\nHost: x\r\n");
    assert_eq!(goaways(&r), vec![(0, Code::ProtocolError)]);
    let e = r.error.unwrap();
    assert_eq!((e.level, e.code), (Level::ConnectionLevel, Code::ProtocolError));
    // The receiving side has ended.
    let r = conn.receive_frame(&header(4, 0, 0, &[]), vec![]);
    assert!(r.replies.is_empty() && r.deliver.is_none() && r.error.is_none());
}

#[test]
fn frames_before_the_preface_are_left_alone() {
    let mut conn = Connection::with_id(1);
    let r = conn.receive_frame(&header(4, 0, 0, &[]), vec![]);
    assert!(r.replies.is_empty() && r.deliver.is_none() && r.error.is_none());
}

#[test]
fn the_first_frame_must_be_settings() {
    // A SETTINGS frame: acknowledged and handed to the user.
    let mut conn = Connection::with_id(1);
    conn.receive_preface(PREFACE.as_bytes());
    let body = vec![0x00, 0x03, 0x00, 0x00, 0x00, 0x7B];
    let r = conn.receive_frame(&header(4, 0, 0, &body), body.clone());
    assert_eq!(r.replies.len(), 1);
    match &r.replies[0] {
        SendFrame::Settings(f) => assert_eq!(*f, SettingsFrame::new(true, vec![])),
        _ => panic!(),
    }
    match r.deliver.unwrap() {
        Frame::Settings(f) => assert_eq!(f.values, vec![(SettingKey::MaxConcurrentStreams, 123)]),
        _ => panic!(),
    }
    assert_eq!(conn.remote_setting(SettingKey::MaxConcurrentStreams), 123);
    assert_eq!(conn.remote_setting(SettingKey::MaxFrameSize), 16384);

    // Anything else: one GOAWAY frame with a protocol error.
    let others: Vec<(u8, u8, u32, Vec<u8>)> = vec![
        (1, 0x04, 1, vec![0x82]),
        (2, 0, 1, vec![0, 0, 0, 0, 0]),
        (7, 0, 0, vec![0, 0, 0, 0, 0, 0, 0, 0]),
        (4, 1, 0, vec![]),
        (9, 0, 0, vec![]),
        // Frames that are not even well-formed.
        (2, 0, 1, vec![0, 0, 0, 0]),
        (1, 0x04, 1, vec![0xBE]),
        (4, 1, 0, vec![0, 3, 0, 0, 0, 1]),
        (4, 0, 0, vec![0, 3, 0, 0, 0]),
        (4, 0, 1, vec![]),
    ];
    for (frame_type, flags, stream_id, body) in others {
        let mut conn = Connection::with_id(1);
        conn.receive_preface(PREFACE.as_bytes());
        let r = conn.receive_frame(&header(frame_type, flags, stream_id, &body), body.clone());
        assert_eq!(r.replies.len(), 1);
        assert_eq!(goaways(&r), vec![(0, Code::ProtocolError)]);
        assert!(r.deliver.is_none());
        let e = r.error.unwrap();
        assert_eq!((e.level, e.code), (Level::ConnectionLevel, Code::ProtocolError));
        // Nothing is done about what comes after.
        let r = conn.receive_frame(&header(4, 0, 0, &[]), vec![]);
        assert!(r.replies.is_empty() && r.deliver.is_none() && r.error.is_none());
    }
}

#[test]
fn a_goaway_frame_is_answered_once() {
    let mut conn = established();
    let r = conn.receive_frame(&header(1, 0x05, 5, &[0x82]), vec![0x82]);
    assert!(r.replies.is_empty());
    assert!(matches!(r.deliver, Some(Frame::Headers(_))));
    assert_eq!(conn.get_last_received_stream_id(), 5);

    let body = vec![0, 0, 0, 5, 0, 0, 0, 0];
    let r = conn.receive_frame(&header(7, 0, 0, &body), body.clone());
    assert_eq!(r.replies.len(), 1);
    assert_eq!(goaways(&r), vec![(5, Code::NoError)]);
    assert!(matches!(r.deliver, Some(Frame::GoAway(_))));
    assert!(!conn.is_closing());

    // Whatever comes after it, no second GOAWAY frame.
    let r = conn.receive_frame(&header(7, 0, 0, &body), body.clone());
    assert!(r.replies.is_empty());
    assert!(matches!(r.deliver, Some(Frame::GoAway(_))));
    let r = conn.receive_frame(&header(4, 0, 0, &[]), vec![]);
    assert_eq!(r.replies.len(), 1);
    assert!(goaways(&r).is_empty());
    let r = conn.receive_frame(&header(0xEE, 0, 0, &[]), vec![]);
    assert!(r.replies.is_empty());
    assert!(r.error.is_some());

    // With the GOAWAY frame on the wire the connection is closing.
    let wire = conn
        .frame_to_wire(&SendFrame::Settings(SettingsFrame::new(true, vec![])))
        .unwrap()
        .unwrap();
    assert_eq!(wire, [0, 0, 0, 4, 1, 0, 0, 0, 0]);
    assert!(!conn.is_closing());
    let mut goaway = GoAwayFrame::new();
    goaway.last_stream_id = 5;
    let wire = conn.frame_to_wire(&SendFrame::GoAway(goaway)).unwrap().unwrap();
    assert_eq!(wire, [0, 0, 8, 7, 0, 0, 0, 0, 0, 0, 0, 0, 5, 0, 0, 0, 0]);
    assert!(conn.is_closing());
    assert!(conn
        .frame_to_wire(&SendFrame::Settings(SettingsFrame::new(true, vec![])))
        .is_none());
    let r = conn.receive_frame(&header(4, 0, 0, &[]), vec![]);
    assert!(r.replies.is_empty() && r.deliver.is_none() && r.error.is_none());
}

#[test]
fn errors_of_the_connection_and_of_a_stream() {
    let mut conn = established();
    // An error of a stream is left to the user.
    let r = conn.receive_frame(&header(2, 0, 3, &[0; 4]), vec![0; 4]);
    assert!(r.replies.is_empty() && r.deliver.is_none());
    let e = r.error.unwrap();
    assert_eq!((e.level, e.code), (Level::StreamLevel, Code::FrameSizeError));
    let r = conn.receive_frame(&header(1, 0x04, 9, &[0x82]), vec![0x82]);
    assert!(r.error.is_none());
    // An error of the connection ends the receiving side with a GOAWAY frame.
    let r = conn.receive_frame(&header(1, 0x04, 11, &[0xBE]), vec![0xBE]);
    assert_eq!(goaways(&r), vec![(9, Code::CompressionError)]);
    let e = r.error.unwrap();
    assert_eq!((e.level, e.code), (Level::ConnectionLevel, Code::CompressionError));
    let r = conn.receive_frame(&header(1, 0x04, 13, &[0x82]), vec![0x82]);
    assert!(r.replies.is_empty() && r.deliver.is_none() && r.error.is_none());
    assert_eq!(conn.get_last_received_stream_id(), 9);
}

#[test]
fn the_transport_fails() {
    let mut conn = established();
    let r = conn.transport_failed("connection reset".to_string());
    assert_eq!(goaways(&r), vec![(0, Code::ConnectError)]);
    let e = r.error.unwrap();
    assert_eq!((e.level, e.code), (Level::ConnectionLevel, Code::ConnectError));
    assert_eq!(e.cause, Some("connection reset".to_string()));
    let r = conn.transport_failed("again".to_string());
    assert!(r.replies.is_empty());
}

#[test]
fn settings_of_both_sides() {
    let cfg = Config {
        sender_queue_size: 100,
        my_h2_settings: vec![(SettingKey::MaxConcurrentStreams, 123), (SettingKey::HeaderTableSize, 50)],
    };
    let (mut conn, first) = handshake(cfg, 42);
    assert_eq!(conn.get_id(), random::default(42).read_u64());
    match &first {
        SendFrame::Settings(f) => {
            assert!(!f.ack);
            assert_eq!(f.values.len(), 2);
        }
        _ => panic!(),
    }
    assert_eq!(conn.my_setting(SettingKey::MaxConcurrentStreams), 123);
    assert_eq!(conn.my_setting(SettingKey::HeaderTableSize), 50);
    assert_eq!(conn.my_setting(SettingKey::EnablePush), 1);
    assert_eq!(conn.remote_setting(SettingKey::MaxConcurrentStreams), 100);
    let wire = conn.frame_to_wire(&first).unwrap().unwrap();
    assert_eq!(
        wire,
        [0, 0, 12, 4, 0, 0, 0, 0, 0, 0, 3, 0, 0, 0, 123, 0, 1, 0, 0, 0, 50]
    );
    conn.receive_preface(PREFACE.as_bytes());
    conn.receive_frame(&header(4, 0, 0, &[]), vec![]);
    // The other side may set the limit of the table to 50 and no higher.
    let r = conn.receive_frame(&header(1, 0x04, 1, &[0x3F, 0x14, 0x82]), vec![0x3F, 0x14, 0x82]);
    assert_eq!(goaways(&r), vec![(0, Code::CompressionError)]);

    let mut conn = established();
    let ack = conn.update_remote_h2_settings(&vec![(SettingKey::InitialWindowSize, 5)]);
    assert!(matches!(ack, SendFrame::Settings(ref f) if f.ack && f.values.is_empty()));
    assert_eq!(conn.remote_setting(SettingKey::InitialWindowSize), 5);
    conn.async_disconnect();
    assert!(conn.is_closing());
    assert!(conn.frame_to_wire(&ack).is_none());
}
