use delivery_encoder::models::Resolution;

#[test]
fn labels() {
    assert_eq!(Resolution::K2.as_str(), "2K (2048x2048)");
    assert_eq!(Resolution::K4.as_str(), "4K (4096x4096)");
    assert_eq!(Resolution::K6.as_str(), "6K (Original)");
}

#[test]
fn target_sizes() {
    assert_eq!(Resolution::K2.target_size(), Some((2048, 2048)));
    assert_eq!(Resolution::K4.target_size(), Some((4096, 4096)));
    assert_eq!(Resolution::K6.target_size(), None);
}

#[test]
fn filter_flags_are_fixed() {
    assert_eq!(
        Resolution::K2.filter_flags(),
        "lanczos+full_chroma_inp+full_chroma_int"
    );
    assert_eq!(Resolution::K6.filter_flags(), Resolution::K4.filter_flags());
}
