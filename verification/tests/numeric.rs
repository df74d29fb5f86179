use delivery_encoder::numeric::{parse_u32, parse_u64, trim_bytes};

#[test]
fn parse_plain_numerals() {
    assert_eq!(parse_u32(b"0"), Some(0));
    assert_eq!(parse_u32(b"0042"), Some(42));
    assert_eq!(parse_u64(b"18446744073709551615"), Some(u64::MAX));
}

#[test]
fn parse_at_the_type_boundary() {
    assert_eq!(parse_u32(b"4294967295"), Some(u32::MAX));
    assert_eq!(parse_u32(b"4294967296"), None);
    assert_eq!(parse_u64(b"18446744073709551616"), None);
}

#[test]
fn parse_rejects_non_numerals() {
    assert_eq!(parse_u32(b""), None);
    assert_eq!(parse_u32(b" 12"), None);
    assert_eq!(parse_u32(b"+12"), None);
    assert_eq!(parse_u32(b"1a2"), None);
}

#[test]
fn trimming_strips_both_ends() {
    assert_eq!(trim_bytes(b" \t 12,34\r\n"), b"12,34".to_vec());
    assert_eq!(trim_bytes(b""), Vec::<u8>::new());
    assert_eq!(trim_bytes(b"  \n"), Vec::<u8>::new());
}
