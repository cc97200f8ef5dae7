use rshttp2::enhanced_slice::EnhancedSlice;

#[test]
fn test_enhancedslice_short_slice() {
    let s = EnhancedSlice::new_with_slice(b"012");
    assert_eq!(s.as_slice(), b"012");
}

#[test]
fn test_enhancedslice_long_slice() {
    let s = EnhancedSlice::new_with_slice(b"0123456789ABCDEF");
    assert_eq!(s.as_slice(), b"0123456789ABCDEF");
}

#[test]
fn test_enhancedslice_short_vec() {
    let mut vec: Vec<u8> = vec![];
    vec.extend_from_slice(b"0123");
    let s = EnhancedSlice::new_with_vec(vec);
    assert_eq!(s.as_slice(), b"0123");
}

#[test]
fn test_enhancedslice_long_vec() {
    let mut vec: Vec<u8> = vec![];
    vec.extend_from_slice(b"0123456789ABCDEF");
    let s = EnhancedSlice::new_with_vec(vec);
    assert_eq!(s.as_slice(), b"0123456789ABCDEF");
}

#[test]
fn test_debug_short() {
    let s = EnhancedSlice::new_with_slice(b"01");
    let t = s.to_debug_string();
    let o = format!("{:?}", b"01");
    assert_eq!(t, o);
}

#[test]
fn test_debug_slice() {
    let s = EnhancedSlice::new_with_slice(b"0123456789ABCDEF");
    let t = s.to_debug_string();
    let o = format!("{:?}", b"0123456789ABCDEF");
    assert_eq!(t, o);
}

#[test]
fn test_debug_vec() {
    let mut vec: Vec<u8> = vec![];
    vec.extend_from_slice(b"0123456789ABCDEF");
    let s = EnhancedSlice::new_with_vec(vec);
    let t = s.to_debug_string();
    let o = format!("{:?}", b"0123456789ABCDEF");
    assert_eq!(t, o);
}

#[test]
fn enhancedslice_inline_up_to_15_bytes() {
    let short = EnhancedSlice::new_with_slice(b"0123456789ABCDE");
    assert!(matches!(short, EnhancedSlice::Array(_)));
    assert_eq!(short.as_slice(), b"0123456789ABCDE");
    let long = EnhancedSlice::new_with_slice(b"0123456789ABCDEF");
    assert!(matches!(long, EnhancedSlice::Slice(_)));
    let owned = EnhancedSlice::new_with_vec(b"0123456789ABCDEF".to_vec());
    assert!(matches!(owned, EnhancedSlice::Vec(_)));
    let empty = EnhancedSlice::new_with_slice(b"");
    assert_eq!(empty.as_slice(), b"");
    assert_eq!(empty.to_debug_string(), "[]");
}

#[test]
fn debug_text_of_all_digit_counts() {
    let s = EnhancedSlice::new_with_vec(vec![0u8, 9, 10, 99, 100, 255]);
    assert_eq!(s.to_debug_string(), "[0, 9, 10, 99, 100, 255]");
}
