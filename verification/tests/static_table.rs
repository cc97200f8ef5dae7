use rshttp2::hpack::static_table::{
    raw_table, Seeker, StaticTableSeeker, RAW_TABLE_LEN, TABLE_LEN,
};
use rshttp2::hpack::Context;

#[test]
fn seeker_exhaustive() {
    let seeker = Seeker::new();

    for oracle_idx in 1..RAW_TABLE_LEN {
        let header = raw_table(oracle_idx).name;
        let value = raw_table(oracle_idx).value;

        let trial_idx = match value {
            Some(ref v) => seeker.seek_with_name_value(header, v),
            None => seeker.seek_with_name(header),
        };

        assert_eq!(trial_idx, Some(oracle_idx));
    }
}

#[test]
fn seeker_nonexist_header() {
    let seeker = Seeker::new();
    let res = seeker.seek_with_name(b"NOT_EXIST");
    assert!(res.is_none());
    let res = seeker.seek_with_name_value(b"NOT_EXIST", b"WHATEVER");
    assert!(res.is_none());
}

#[test]
fn seeker_nonexist_value() {
    let seeker = Seeker::new();
    let res = seeker.seek_with_name(b":status");
    assert!(res.is_some());
    let res = seeker.seek_with_name_value(b":status", b"NOT_EXIST");
    assert!(res.is_none());
}

#[test]
fn test_static_table_seeker_exhaustive() {
    let seeker = StaticTableSeeker::new();
    let none = b"";

    for oracle_idx in 1..RAW_TABLE_LEN {
        let header = raw_table(oracle_idx).name;
        let value = raw_table(oracle_idx).value;

        let trial_idx = match value {
            Some(ref v) => seeker.seek(header, v),
            None => seeker.seek(header, none),
        };

        assert_eq!(trial_idx, Some(oracle_idx));
    }
}

#[test]
fn test_static_table_seeker_nonexist_header() {
    let seeker = StaticTableSeeker::new();
    let res = seeker.seek(b"NOT_EXIST", b"WHATEVER");
    assert!(res.is_none());
}

#[test]
fn test_static_table_seeker_nonexist_value() {
    let seeker = StaticTableSeeker::new();
    let res = seeker.seek(b":status", b"NOT_EXIST");
    assert!(res.is_none());
}

#[test]
fn static_table_contents() {
    let oracle: [(&str, Option<&str>); 61] = [
        (":authority", None),
        (":method", Some("GET")),
        (":method", Some("POST")),
        (":path", Some("/")),
        (":path", Some("/index.html")),
        (":scheme", Some("http")),
        (":scheme", Some("https")),
        (":status", Some("200")),
        (":status", Some("204")),
        (":status", Some("206")),
        (":status", Some("304")),
        (":status", Some("400")),
        (":status", Some("404")),
        (":status", Some("500")),
        ("accept-charset", None),
        ("accept-encoding", Some("gzip, deflate")),
        ("accept-language", None),
        ("accept-ranges", None),
        ("accept", None),
        ("access-control-allow-origin", None),
        ("age", None),
        ("allow", None),
        ("authorization", None),
        ("cache-control", None),
        ("content-disposition", None),
        ("content-encoding", None),
        ("content-language", None),
        ("content-length", None),
        ("content-location", None),
        ("content-range", None),
        ("content-type", None),
        ("cookie", None),
        ("date", None),
        ("etag", None),
        ("expect", None),
        ("expires", None),
        ("from", None),
        ("host", None),
        ("if-match", None),
        ("if-modified-since", None),
        ("if-none-match", None),
        ("if-range", None),
        ("if-unmodified-since", None),
        ("last-modified", None),
        ("link", None),
        ("location", None),
        ("max-forwards", None),
        ("proxy-authenticate", None),
        ("proxy-authorization", None),
        ("range", None),
        ("referer", None),
        ("refresh", None),
        ("retry-after", None),
        ("server", None),
        ("set-cookie", None),
        ("strict-transport-security", None),
        ("transfer-encoding", None),
        ("user-agent", None),
        ("vary", None),
        ("via", None),
        ("www-authenticate", None),
    ];
    assert_eq!(TABLE_LEN, 61);
    for (i, (name, value)) in oracle.iter().enumerate() {
        let item = raw_table(i + 1);
        assert_eq!(item.name, name.as_bytes(), "name at {}", i + 1);
        assert_eq!(item.value, value.map(|v| v.as_bytes()), "value at {}", i + 1);
    }
    let none = raw_table(0);
    assert_eq!(none.name, b"");
    assert!(none.value.is_none());
}

#[test]
fn seeker_prefers_the_lowest_index() {
    let seeker = Seeker::new();
    assert_eq!(seeker.seek_with_name(b":method"), Some(2));
    assert_eq!(seeker.seek_with_name(b":path"), Some(4));
    assert_eq!(seeker.seek_with_name(b":scheme"), Some(6));
    assert_eq!(seeker.seek_with_name(b":status"), Some(8));
    assert_eq!(seeker.seek_with_name(b"accept-encoding"), Some(16));
    assert_eq!(seeker.seek_with_name(b"www-authenticate"), Some(61));
    assert_eq!(seeker.seek_with_name(b""), None);
    assert_eq!(seeker.seek_with_name_value(b":status", b"500"), Some(14));
    assert_eq!(seeker.seek_with_name_value(b"age", b""), None);
    let _ = Context::new();
}
