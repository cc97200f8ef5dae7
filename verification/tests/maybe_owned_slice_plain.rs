use rshttp2::maybe_owned_slice::MaybeOwnedSlice;

#[test]
fn enhancedslice_short_slice() {
    let s = MaybeOwnedSlice::new_with_slice(b"012");
    assert_eq!(s.as_slice(), b"012");
}

#[test]
fn long_slice() {
    let s = MaybeOwnedSlice::new_with_slice(b"0123456789ABCDEF");
    assert_eq!(s.as_slice(), b"0123456789ABCDEF");
}

#[test]
fn short_vec() {
    let mut vec: Vec<u8> = vec![];
    vec.extend_from_slice(b"0123");
    let s = MaybeOwnedSlice::new_with_vec(vec);
    assert_eq!(s.as_slice(), b"0123");
}

#[test]
fn long_vec() {
    let mut vec: Vec<u8> = vec![];
    vec.extend_from_slice(b"0123456789ABCDEF");
    let s = MaybeOwnedSlice::new_with_vec(vec);
    assert_eq!(s.as_slice(), b"0123456789ABCDEF");
}

#[test]
fn debug_short() {
    let s = MaybeOwnedSlice::new_with_slice(b"01");
    let t = s.to_debug_string();
    let o = format!("{:?}", b"01");
    assert_eq!(t, o);
}

#[test]
fn debug_slice() {
    let s = MaybeOwnedSlice::new_with_slice(b"0123456789ABCDEF");
    let t = s.to_debug_string();
    let o = format!("{:?}", b"0123456789ABCDEF");
    assert_eq!(t, o);
}

#[test]
fn debug_vec() {
    let mut vec: Vec<u8> = vec![];
    vec.extend_from_slice(b"0123456789ABCDEF");
    let s = MaybeOwnedSlice::new_with_vec(vec);
    let t = s.to_debug_string();
    let o = format!("{:?}", b"0123456789ABCDEF");
    assert_eq!(t, o);
}

#[test]
fn inline_up_to_15_bytes() {
    assert!(matches!(
        MaybeOwnedSlice::new_with_slice(b"0123456789ABCDE"),
        MaybeOwnedSlice::Array(_)
    ));
    assert!(matches!(
        MaybeOwnedSlice::new_with_slice(b"0123456789ABCDEF"),
        MaybeOwnedSlice::Slice(_)
    ));
    assert!(matches!(
        MaybeOwnedSlice::new_with_vec(b"0123456789ABCDEF".to_vec()),
        MaybeOwnedSlice::Vec(_)
    ));
}
