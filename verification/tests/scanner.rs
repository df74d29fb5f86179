use delivery_encoder::scanner::{find_resume_point, frame_file_bytes, parse_name_index};

fn names(list: &[&[u8]]) -> Vec<Vec<u8>> {
    list.iter().map(|n| n.to_vec()).collect()
}

#[test]
fn empty_directory_resumes_at_zero() {
    assert_eq!(find_resume_point(&names(&[]), b"clip", b'_'), 0);
}

#[test]
fn non_matching_directory_resumes_at_zero() {
    let ns = names(&[b"other_0001.png", b"clip_one.png", b"clip_0002.txt", b"notes.md"]);
    assert_eq!(find_resume_point(&ns, b"clip", b'_'), 0);
}

#[test]
fn three_existing_frames_resume_at_two() {
    // the boundary frame is regenerated, so index 2 is the resume point
    let ns = names(&[b"clip_0000.png", b"clip_0001.png", b"clip_0002.png"]);
    assert_eq!(find_resume_point(&ns, b"clip", b'_'), 2);
}

#[test]
fn highest_index_wins_regardless_of_order() {
    let ns = names(&[b"clip_0007.png", b"clip_0002.png", b"clip_0005.png"]);
    assert_eq!(find_resume_point(&ns, b"clip", b'_'), 7);
}

#[test]
fn malformed_numerals_are_ignored() {
    let ns = names(&[b"clip_0003.png", b"clip_00x9.png", b"clip_.png"]);
    assert_eq!(find_resume_point(&ns, b"clip", b'_'), 3);
}

#[test]
fn five_digit_indices_count() {
    let ns = names(&[b"clip_0004.png", b"clip_12345.png"]);
    assert_eq!(find_resume_point(&ns, b"clip", b'_'), 12345);
}

#[test]
fn overlarge_numerals_are_ignored() {
    let ns = names(&[b"clip_0004.png", b"clip_99999999999999999999.png"]);
    assert_eq!(find_resume_point(&ns, b"clip", b'_'), 4);
}

#[test]
fn hyphen_separator_is_a_deployment_choice() {
    let ns = names(&[b"clip-0000.png", b"clip-0009.png"]);
    assert_eq!(find_resume_point(&ns, b"clip", b'-'), 9);
    assert_eq!(find_resume_point(&ns, b"clip", b'_'), 0);
}

#[test]
fn produced_names_are_recognized() {
    let name = frame_file_bytes(b"clip", b'_', 7);
    assert_eq!(name, b"clip_0007.png".to_vec());
    assert_eq!(parse_name_index(&name, b"clip", b'_'), Some(7));
    let wide = frame_file_bytes(b"clip", b'_', 12345);
    assert_eq!(wide, b"clip_12345.png".to_vec());
    assert_eq!(parse_name_index(&wide, b"clip", b'_'), Some(12345));
}

#[test]
fn a_produced_directory_resumes_at_its_top() {
    let ns: Vec<Vec<u8>> = (0..5).map(|k| frame_file_bytes(b"clip", b'_', k)).collect();
    assert_eq!(find_resume_point(&ns, b"clip", b'_'), 4);
}

#[test]
fn name_index_of_single_names() {
    assert_eq!(parse_name_index(b"clip_0012.png", b"clip", b'_'), Some(12));
    assert_eq!(parse_name_index(b"clip__0007.png", b"clip", b'_'), Some(7));
    assert_eq!(parse_name_index(b"clip_0001.png.png", b"clip", b'_'), Some(1));
    assert_eq!(parse_name_index(b"clip_1.png", b"clip", b'_'), Some(1));
    assert_eq!(parse_name_index(b"clip_0001.jpg", b"clip", b'_'), None);
    assert_eq!(parse_name_index(b"clipper_0001.png", b"clip", b'_'), None);
    assert_eq!(parse_name_index(b"cli_0001.png", b"clip", b'_'), None);
    assert_eq!(parse_name_index(b"clip", b"clip", b'_'), None);
}
