use delivery_encoder::invocation::EncodingConfig;
use delivery_encoder::models::Resolution;
use delivery_encoder::orchestrator::{
    on_exit, plan_run, supervise_step, validate_assets, AssetKind, Engine, EnginePhase,
    OrchestrationError, StepOutcome,
};
use delivery_encoder::probe::{FrameRate, MediaInfo};
use delivery_encoder::progress::PAUSED_PERCENT_CENTI;

fn config(resolution: Resolution) -> EncodingConfig {
    EncodingConfig {
        input_video: "in.mov".to_string(),
        overlay_image: "ov.png".to_string(),
        output_dir: "out".to_string(),
        ffmpeg_path: "ffmpeg".to_string(),
        ffprobe_path: "ffprobe".to_string(),
        resolution,
        base_name: "clip".to_string(),
    }
}

fn media() -> MediaInfo {
    MediaInfo {
        width: 4096,
        height: 2160,
        duration_ms: 10_000,
        rate: FrameRate { num: 25, den: 1 },
    }
}

#[test]
fn validation_passes_when_everything_exists() {
    assert!(validate_assets(true, true, true, true, true).is_ok());
}

#[test]
fn validation_reports_the_first_missing_asset() {
    match validate_assets(false, false, true, true, true) {
        Err(OrchestrationError::MissingAsset(k)) => assert_eq!(k, AssetKind::FfmpegBinary),
        other => panic!("expected MissingAsset, got {:?}", other),
    }
    match validate_assets(true, true, true, false, true) {
        Err(OrchestrationError::MissingAsset(k)) => assert_eq!(k, AssetKind::OverlayImage),
        other => panic!("expected MissingAsset, got {:?}", other),
    }
    match validate_assets(true, true, true, true, false) {
        Err(OrchestrationError::MissingAsset(k)) => assert_eq!(k, AssetKind::OutputDirectory),
        other => panic!("expected MissingAsset, got {:?}", other),
    }
}

#[test]
fn plan_composes_the_whole_invocation_for_a_preset() {
    let p = plan_run(&config(Resolution::K2), &media(), 0, "/tmp/prog.txt");
    assert_eq!(p.start_frame, 0);
    assert_eq!(p.total_frames, 250);
    assert_eq!((p.target_w, p.target_h), (2048, 2048));
    let args: Vec<&str> = p.args.iter().map(|s| s.as_str()).collect();
    assert_eq!(
        args,
        vec![
            "-ss",
            "0.000",
            "-i",
            "in.mov",
            "-i",
            "ov.png",
            "-filter_complex",
            "[0:v]scale=2048:2048:force_original_aspect_ratio=decrease,\
             pad=2048:2048:(ow-iw)/2:(oh-ih)/2[vid]; \
             [1:v]scale=2048:2048[ovr]; [vid][ovr]overlay=0:0",
            "-vsync",
            "0",
            "-start_number",
            "0",
            "-progress",
            "/tmp/prog.txt",
            "out/clip_%04d.png",
            "-y",
        ]
    );
}

#[test]
fn plan_for_native_scales_only_the_overlay() {
    let p = plan_run(&config(Resolution::K6), &media(), 30, "/tmp/prog.txt");
    assert_eq!((p.target_w, p.target_h), (4096, 2160));
    assert_eq!(p.args[7], "[1:v]scale=4096:2160[ovr]; [0:v][ovr]overlay=0:0");
    // 30 frames at 25 fps: the seek lands at 1.2 s
    assert_eq!(p.args[1], "1.200");
    assert_eq!(p.args[11], "30");
}

#[test]
fn seek_has_floor_millisecond_precision() {
    // one frame at 30000/1001 fps lies 33.366 ms in: the seek names 0.033
    let m = MediaInfo {
        width: 100,
        height: 100,
        duration_ms: 10_000,
        rate: FrameRate { num: 30000, den: 1001 },
    };
    let p = plan_run(&config(Resolution::K6), &m, 1, "/tmp/prog.txt");
    assert_eq!(p.args[1], "0.033");
}

#[test]
fn a_completed_run_seeks_past_the_end() {
    // 250 frames in all; resuming at 250 seeks to 10.000 s, the whole
    // duration: the second run decodes nothing
    let p = plan_run(&config(Resolution::K6), &media(), 250, "/tmp/prog.txt");
    assert_eq!(p.args[1], "10.000");
    assert_eq!(p.start_frame, 250);
}

#[test]
fn cancellation_beats_a_readable_scratch_file() {
    let p = plan_run(&config(Resolution::K2), &media(), 0, "/tmp/prog.txt");
    let mut sup = p.supervisor;
    let contents = b"frame=10\n".to_vec();
    match supervise_step(&mut sup, true, Some(&contents), 1_000) {
        StepOutcome::Pause(ev) => {
            assert_eq!(ev.percent_centi, PAUSED_PERCENT_CENTI);
            assert_eq!(ev.frame, 0);
        }
        other => panic!("expected Pause, got {:?}", other),
    }
}

#[test]
fn a_quiet_tick_reports_progress() {
    let p = plan_run(&config(Resolution::K2), &media(), 0, "/tmp/prog.txt");
    let mut sup = p.supervisor;
    let contents = b"frame=125\n".to_vec();
    match supervise_step(&mut sup, false, Some(&contents), 1_000) {
        StepOutcome::Progress(ev) => {
            assert_eq!(ev.frame, 125);
            assert_eq!(ev.percent_centi, 5_000);
        }
        other => panic!("expected Progress, got {:?}", other),
    }
}

#[test]
fn an_unreadable_scratch_file_is_no_event() {
    let p = plan_run(&config(Resolution::K2), &media(), 0, "/tmp/prog.txt");
    let mut sup = p.supervisor;
    match supervise_step(&mut sup, false, None, 1_000) {
        StepOutcome::Idle => {}
        other => panic!("expected Idle, got {:?}", other),
    }
}

#[test]
fn a_successful_exit_owes_the_final_event() {
    let p = plan_run(&config(Resolution::K2), &media(), 0, "/tmp/prog.txt");
    let ev = on_exit(&p.supervisor, true, 0).unwrap();
    assert_eq!(ev.percent_centi, 10_000);
}

#[test]
fn a_failed_exit_carries_frame_eta_and_status() {
    let p = plan_run(&config(Resolution::K2), &media(), 0, "/tmp/prog.txt");
    let mut sup = p.supervisor;
    let contents = b"frame=50\nout_time_ms=2000000\n".to_vec();
    let _ = supervise_step(&mut sup, false, Some(&contents), 2_000);
    match on_exit(&sup, false, 1) {
        Err(OrchestrationError::ToolFailed { last_frame, last_eta, status }) => {
            assert_eq!(last_frame, 50);
            assert_eq!(last_eta, "00:08");
            assert_eq!(status, 1);
        }
        other => panic!("expected ToolFailed, got {:?}", other),
    }
}

#[test]
fn at_most_one_run_at_a_time() {
    let mut engine = Engine::new();
    assert_eq!(engine.phase, EnginePhase::Idle);
    assert!(engine.try_begin());
    // starting while a run is active is a no-op
    assert!(!engine.try_begin());
    assert_eq!(engine.phase, EnginePhase::Running);
    engine.finish();
    assert_eq!(engine.phase, EnginePhase::Idle);
    assert!(engine.try_begin());
}
