use rshttp2::enhanced_slice::EnhancedSlice;
use rshttp2::hpack::maybe_owned_slice::MaybeOwnedSlice as HpackSlice;
use rshttp2::hpack::self_owned_slice::SelfOwnedSlice;
use rshttp2::maybe_owned_slice::MaybeOwnedSlice;
use rshttp2::ordering::compare_bytes;
use rshttp2::sliceable::bytes_eq;
use std::cmp::Ordering;

#[test]
fn bytes_compare_byte_by_byte() {
    let cases: Vec<(&[u8], &[u8])> = vec![
        (b"", b""),
        (b"", b"a"),
        (b"a", b""),
        (b"a", b"a"),
        (b"a", b"b"),
        (b"ab", b"a"),
        (b"a", b"ab"),
        (b"abc", b"abd"),
        (b"b", b"abcdef"),
        (&[0xFF], &[0x00, 0x01]),
        (b"0123456789ABCDEF", b"0123456789ABCDEG"),
    ];
    for (a, b) in cases {
        assert_eq!(compare_bytes(a, b), a.cmp(b), "{:?} {:?}", a, b);
        assert_eq!(compare_bytes(b, a), b.cmp(a), "{:?} {:?}", a, b);
        assert_eq!(bytes_eq(a, b), a == b);
    }
}

#[test]
fn slices_compare_by_their_bytes() {
    // However the bytes are kept.
    let long = b"0123456789ABCDEF";
    assert_eq!(
        EnhancedSlice::new_with_slice(long),
        EnhancedSlice::new_with_vec(long.to_vec())
    );
    assert_eq!(
        MaybeOwnedSlice::new_with_slice(long),
        MaybeOwnedSlice::new_with_vec(long.to_vec())
    );
    assert_eq!(
        HpackSlice::new_with_slice(long),
        HpackSlice::new_with_vec(long.to_vec())
    );
    assert_eq!(
        SelfOwnedSlice::new_with_slice(long),
        SelfOwnedSlice::new_with_vec(long.to_vec())
    );
    assert_ne!(
        EnhancedSlice::new_with_slice(b"a"),
        EnhancedSlice::new_with_slice(b"b")
    );
    assert!(EnhancedSlice::new_with_slice(b"a") < EnhancedSlice::new_with_slice(b"ab"));
    assert!(EnhancedSlice::new_with_slice(b"b") > EnhancedSlice::new_with_slice(long));
    assert!(MaybeOwnedSlice::new_with_slice(b"abc") <= MaybeOwnedSlice::new_with_slice(b"abc"));
    assert!(HpackSlice::new_with_slice(b"abc") < HpackSlice::new_with_slice(b"abd"));
    assert_eq!(
        SelfOwnedSlice::new_with_slice(b"abd").partial_cmp(&SelfOwnedSlice::new_with_slice(b"abc")),
        Some(Ordering::Greater)
    );
}
