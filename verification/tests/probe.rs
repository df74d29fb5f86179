use delivery_encoder::probe::{
    parse_duration_line, parse_frame_rate_line, parse_resolution_line, ProbeError,
};

#[test]
fn resolution_plain() {
    assert_eq!(parse_resolution_line(b"1920,1080").unwrap(), (1920, 1080));
}

#[test]
fn resolution_trims_whitespace() {
    assert_eq!(parse_resolution_line(b" 4096,2160\n").unwrap(), (4096, 2160));
}

#[test]
fn resolution_single_field_is_rejected() {
    match parse_resolution_line(b"1920") {
        Err(ProbeError::Unparsable(raw)) => assert_eq!(raw, b"1920".to_vec()),
        other => panic!("expected Unparsable, got {:?}", other),
    }
}

#[test]
fn resolution_three_fields_is_rejected() {
    assert!(parse_resolution_line(b"1920,1080,3").is_err());
}

#[test]
fn resolution_garbage_is_rejected() {
    assert!(parse_resolution_line(b"widexhigh").is_err());
}

#[test]
fn duration_whole_seconds() {
    assert_eq!(parse_duration_line(b"10").unwrap(), 10_000);
}

#[test]
fn duration_fractional() {
    assert_eq!(parse_duration_line(b"10.5").unwrap(), 10_500);
    assert_eq!(parse_duration_line(b"97.496333\n").unwrap(), 97_496);
    assert_eq!(parse_duration_line(b".5").unwrap(), 500);
    assert_eq!(parse_duration_line(b"1.").unwrap(), 1_000);
}

#[test]
fn duration_garbage_is_rejected() {
    assert!(parse_duration_line(b"abc").is_err());
    assert!(parse_duration_line(b"").is_err());
    assert!(parse_duration_line(b"1.2.3").is_err());
    assert!(parse_duration_line(b".").is_err());
}

#[test]
fn frame_rate_rational_keeps_its_value() {
    let fr = parse_frame_rate_line(b"30000/1001").unwrap();
    assert_eq!((fr.num, fr.den), (30000, 1001));
    // ~29.97 frames per second, not a parse error
    assert_eq!(fr.num as u64 * 100 / fr.den as u64, 2997);
}

#[test]
fn frame_rate_bare_integer() {
    let fr = parse_frame_rate_line(b"25").unwrap();
    assert_eq!((fr.num, fr.den), (25, 1));
}

#[test]
fn frame_rate_bare_decimal() {
    let fr = parse_frame_rate_line(b" 29.97 ").unwrap();
    assert_eq!((fr.num, fr.den), (2997, 100));
}

#[test]
fn frame_rate_bare_decimal_keeps_trailing_zeros_exact() {
    let fr = parse_frame_rate_line(b"29.970").unwrap();
    assert_eq!((fr.num, fr.den), (29970, 1000));
}

#[test]
fn frame_rate_zero_denominator_is_rejected() {
    assert!(parse_frame_rate_line(b"0/0").is_err());
    assert!(parse_frame_rate_line(b"30/0").is_err());
}

#[test]
fn frame_rate_garbage_is_rejected() {
    assert!(parse_frame_rate_line(b"fast").is_err());
    assert!(parse_frame_rate_line(b"1/2/3").is_err());
}
