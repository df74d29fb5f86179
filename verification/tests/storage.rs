use delivery_encoder::models::Resolution;
use delivery_encoder::probe::{FrameRate, MediaInfo};
use delivery_encoder::storage::{check_storage, estimate, total_frames_of, StorageError};

fn media(w: u32, h: u32, duration_ms: u64, num: u32, den: u32) -> MediaInfo {
    MediaInfo { width: w, height: h, duration_ms, rate: FrameRate { num, den } }
}

#[test]
fn insufficient_space_reports_both_figures() {
    // native 1x1 pixels, 110458333.360 s at 25 fps: 2_761_458_334 frames,
    // 11_045_833_336 bytes, 13_255_000_003 with the margin = 12.34 GB;
    // 5.00 GB free: the run refuses to start
    let m = media(1, 1, 110_458_333_360, 25, 1);
    let free: u64 = 5 * (1 << 30);
    match estimate(Resolution::K6, &m, free) {
        Err(StorageError::Insufficient { required_centi_gb, available_centi_gb }) => {
            assert_eq!(required_centi_gb, 1234);
            assert_eq!(available_centi_gb, 500);
        }
        other => panic!("expected Insufficient, got {:?}", other),
    }
}

#[test]
fn sufficient_space_returns_required_gigabytes() {
    // one 2048x2048 frame: 16_777_216 bytes, 20_132_659 with the margin,
    // which is 0.01 GB and change
    let m = media(640, 480, 1_000, 1, 1);
    let free: u64 = 10 * (1 << 30);
    assert_eq!(estimate(Resolution::K2, &m, free), Ok(1));
}

#[test]
fn exact_shortfall_boundary() {
    let m = media(640, 480, 1_000, 1, 1);
    // margined demand is exactly 20_132_659 bytes
    assert!(estimate(Resolution::K2, &m, 20_132_659).is_ok());
    assert!(estimate(Resolution::K2, &m, 20_132_658).is_err());
}

#[test]
fn estimate_is_monotonic_in_material() {
    let short = media(100, 100, 10_000, 25, 1);
    let long = media(100, 100, 60_000, 25, 1);
    let free = u64::MAX;
    let a = estimate(Resolution::K6, &short, free).unwrap();
    let b = estimate(Resolution::K6, &long, free).unwrap();
    assert!(a <= b);
}

#[test]
fn estimate_is_monotonic_in_pixels() {
    let m = media(100, 100, 60_000, 25, 1);
    let free = u64::MAX;
    let small = estimate(Resolution::K2, &m, free).unwrap();
    let large = estimate(Resolution::K4, &m, free).unwrap();
    assert!(small <= large);
}

#[test]
fn frame_count_rounds_up() {
    // 10.5 s at 24 fps is 252 frames exactly; 10.52 s rounds up to 253
    assert_eq!(total_frames_of(&media(1, 1, 10_500, 24, 1)), 252);
    assert_eq!(total_frames_of(&media(1, 1, 10_520, 24, 1)), 253);
    // 1 ms at 30000/1001 fps is a fraction of a frame: still one frame
    assert_eq!(total_frames_of(&media(1, 1, 1, 30000, 1001)), 1);
    assert_eq!(total_frames_of(&media(1, 1, 0, 25, 1)), 0);
}

#[test]
fn free_space_query_on_missing_volume_is_unavailable() {
    let m = media(64, 64, 1_000, 1, 1);
    match check_storage(Resolution::K6, &m, "/nonexistent/surely/not/here") {
        Err(StorageError::Unavailable) => {}
        other => panic!("expected Unavailable, got {:?}", other),
    }
}

#[test]
fn free_space_query_on_real_volume_answers() {
    let m = media(64, 64, 1_000, 1, 1);
    // a tiny demand on the current directory's volume must be satisfiable
    match check_storage(Resolution::K6, &m, ".") {
        Ok(_) => {}
        Err(e) => panic!("expected success on a tiny demand, got {:?}", e),
    }
}
