use rshttp2::error::{Code, Error, Level, ALL_ERRORS};

#[test]
fn errorcode() {
    for oracle in &ALL_ERRORS {
        let x = oracle.to_h2_id();
        let trial = Code::from_h2_id(x);
        assert_eq!(trial, *oracle);
    }
}

#[test]
fn errorcode_numbers() {
    assert_eq!(Code::NoError.to_h2_id(), 0);
    assert_eq!(Code::ProtocolError.to_h2_id(), 1);
    assert_eq!(Code::FrameSizeError.to_h2_id(), 6);
    assert_eq!(Code::CompressionError.to_h2_id(), 9);
    assert_eq!(Code::Http1Required.to_h2_id(), 13);
    assert_eq!(Code::from_wire(13), Code::Http1Required);
    assert_eq!(Code::from_wire(14), Code::Unknown(14));
    assert_eq!(Code::from_wire(0xdead_beef), Code::Unknown(0xdead_beef));
    assert_eq!(Code::Unknown(77).to_h2_id(), 77);
}

#[test]
fn error_messages() {
    let e = Error::new(
        Level::ConnectionLevel,
        Code::ProtocolError,
        "details".to_string(),
    );
    assert_eq!(e.level, Level::ConnectionLevel);
    assert_eq!(e.code, Code::ProtocolError);
    assert_eq!(e.message, "Code: ProtocolError, with details \"details\"");
    assert_eq!(e.to_string(), "Code: ProtocolError, with details \"details\"");
    assert!(e.cause.is_none());
    let e = Error::new_with_cause(
        Level::StreamLevel,
        Code::ConnectError,
        "details".to_string(),
        "broken pipe".to_string(),
    );
    assert_eq!(
        e.message,
        "Code: ConnectError, with details \"details\", caused by broken pipe"
    );
    assert_eq!(e.cause, Some("broken pipe".to_string()));
}
