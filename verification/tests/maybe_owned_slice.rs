use rshttp2::hpack::dynamic_table::DynamicTable;
use rshttp2::hpack::maybe_owned_slice::MaybeOwnedSlice;
use rshttp2::sliceable::Sliceable;

#[test]
fn maybe_owned_slice_enhancedslice_short_slice() {
    let s = MaybeOwnedSlice::new_with_slice(b"012");
    assert_eq!(s.as_slice(), b"012");
}

#[test]
fn maybe_owned_slice_long_slice() {
    let s = MaybeOwnedSlice::new_with_slice(b"0123456789ABCDEF");
    assert_eq!(s.as_slice(), b"0123456789ABCDEF");
}

#[test]
fn maybe_owned_slice_short_vec() {
    let mut vec: Vec<u8> = vec![];
    vec.extend_from_slice(b"0123");
    let s = MaybeOwnedSlice::new_with_vec(vec);
    assert_eq!(s.as_slice(), b"0123");
}

#[test]
fn maybe_owned_slice_long_vec() {
    let mut vec: Vec<u8> = vec![];
    vec.extend_from_slice(b"0123456789ABCDEF");
    let s = MaybeOwnedSlice::new_with_vec(vec);
    assert_eq!(s.as_slice(), b"0123456789ABCDEF");
}

#[test]
fn maybe_owned_slice_debug_short() {
    let s = MaybeOwnedSlice::new_with_slice(b"01");
    let t = s.to_debug_string();
    let o = format!("{:?}", b"01");
    assert_eq!(t, o);
}

#[test]
fn maybe_owned_slice_debug_slice() {
    let s = MaybeOwnedSlice::new_with_slice(b"0123456789ABCDEF");
    let t = s.to_debug_string();
    let o = format!("{:?}", b"0123456789ABCDEF");
    assert_eq!(t, o);
}

#[test]
fn maybe_owned_slice_debug_vec() {
    let mut vec: Vec<u8> = vec![];
    vec.extend_from_slice(b"0123456789ABCDEF");
    let s = MaybeOwnedSlice::new_with_vec(vec);
    let t = s.to_debug_string();
    let o = format!("{:?}", b"0123456789ABCDEF");
    assert_eq!(t, o);
}

#[test]
fn maybe_owned_slice_from_cached_str() {
    let mut table = DynamicTable::with_capacity(200);
    let item = table
        .prepend(b"a-name-longer-than-fifteen", b"short")
        .unwrap();
    let name = MaybeOwnedSlice::new_with_cached_str(&item.name);
    assert!(matches!(name, MaybeOwnedSlice::CachedStr(_)));
    assert_eq!(name.as_slice(), b"a-name-longer-than-fifteen");
    let value = MaybeOwnedSlice::new_with_cached_str(&item.value.unwrap());
    assert!(matches!(value, MaybeOwnedSlice::Array(_)));
    assert_eq!(value.as_slice(), b"short");
}
