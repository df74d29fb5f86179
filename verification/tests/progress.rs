use delivery_encoder::progress::{
    classify, eta_text, EventClass, Supervisor, ERROR_PERCENT_CENTI, PAUSED_PERCENT_CENTI,
};

#[test]
fn classification_of_percentages() {
    assert_eq!(classify(PAUSED_PERCENT_CENTI), EventClass::Interrupted);
    assert_eq!(classify(ERROR_PERCENT_CENTI), EventClass::Interrupted);
    assert_eq!(classify(-1), EventClass::Interrupted);
    assert_eq!(classify(0), EventClass::Running);
    assert_eq!(classify(9_999), EventClass::Running);
    assert_eq!(classify(10_000), EventClass::Done);
}

#[test]
fn eta_rendering() {
    assert_eq!(eta_text(None), "--:--");
    assert_eq!(eta_text(Some(0)), "00:00");
    assert_eq!(eta_text(Some(36)), "00:36");
    assert_eq!(eta_text(Some(65)), "01:05");
    assert_eq!(eta_text(Some(6_000)), "100:00");
}

#[test]
fn initial_event_names_the_start_frame() {
    let sup = Supervisor::new(3, 100, 10_000, 2048, 2048);
    let ev = sup.initial_event();
    // three of a hundred frames already on disk: three percent
    assert_eq!(ev.percent_centi, 300);
    assert_eq!(ev.frame, 3);
    assert_eq!(ev.message, "Processing | Res: 2048x2048 | Start: 0003 | ETA: --:--");
}

#[test]
fn tick_derives_percent_and_eta() {
    let mut sup = Supervisor::new(0, 100, 10_000, 2048, 2048);
    let contents = b"frame=10\nout_time_ms=500000\n";
    let ev = sup.on_tick(contents, 4_000);
    // ten of a hundred frames: ten percent; projected 40 s, 4 elapsed
    assert_eq!(ev.percent_centi, 1_000);
    assert_eq!(ev.frame, 10);
    assert_eq!(ev.message, "Processing | Res: 2048x2048 | ETA: 00:36");
}

#[test]
fn tick_offsets_by_the_resume_point() {
    let mut sup = Supervisor::new(50, 100, 10_000, 4096, 4096);
    let ev = sup.on_tick(b"frame=25\n", 1_000);
    assert_eq!(ev.frame, 75);
    assert_eq!(ev.percent_centi, 7_500);
}

#[test]
fn tick_caps_percent_at_one_hundred() {
    let mut sup = Supervisor::new(90, 100, 10_000, 100, 100);
    let ev = sup.on_tick(b"frame=200\n", 1_000);
    assert_eq!(ev.frame, 290);
    assert_eq!(ev.percent_centi, 10_000);
}

#[test]
fn torn_and_unknown_lines_are_ignored() {
    let mut sup = Supervisor::new(0, 100, 10_000, 100, 100);
    let ev = sup.on_tick(b"fps=24.0\nframe=xx\nframe=7\nbitrate=1\nframe", 1_000);
    assert_eq!(ev.frame, 7);
    assert_eq!(ev.percent_centi, 700);
    assert_eq!(ev.message, "Processing | Res: 100x100 | ETA: --:--");
}

#[test]
fn empty_scratch_file_reports_the_initial_state() {
    let mut sup = Supervisor::new(20, 100, 10_000, 100, 100);
    let ev = sup.on_tick(b"", 1_000);
    assert_eq!(ev.frame, 20);
    assert_eq!(ev.percent_centi, 2_000);
}

#[test]
fn eta_needs_a_noise_floor() {
    // a tenth of a percent or less is noise: the ETA stays unknown
    let mut sup = Supervisor::new(0, 100_000, 10_000, 100, 100);
    let ev = sup.on_tick(b"frame=1\nout_time_ms=1000\n", 60_000);
    assert_eq!(ev.percent_centi, 0);
    assert_eq!(ev.message, "Processing | Res: 100x100 | ETA: --:--");
}

#[test]
fn the_last_frame_survives_between_ticks() {
    let mut sup = Supervisor::new(0, 100, 10_000, 100, 100);
    let _ = sup.on_tick(b"frame=42\n", 1_000);
    let ev = sup.on_tick(b"fps=24.0\n", 2_000);
    // the file no longer names a frame; the index is kept, the
    // percentage falls back to the initial one
    assert_eq!(ev.frame, 42);
    assert_eq!(ev.percent_centi, 0);
}

#[test]
fn cancellation_is_paused_not_failed() {
    let mut sup = Supervisor::new(0, 100, 10_000, 100, 100);
    let _ = sup.on_tick(b"frame=10\nout_time_ms=400000\n", 4_000);
    let ev = sup.on_cancel();
    assert_eq!(ev.percent_centi, PAUSED_PERCENT_CENTI);
    assert_ne!(ev.percent_centi, ERROR_PERCENT_CENTI);
    assert_eq!(classify(ev.percent_centi), EventClass::Interrupted);
    assert_eq!(ev.frame, 10);
    assert_eq!(ev.message, "Paused | ETA: 00:36");
}

#[test]
fn success_event_is_a_full_hundred() {
    let mut sup = Supervisor::new(0, 100, 10_000, 2048, 2048);
    let _ = sup.on_tick(b"frame=100\n", 10_000);
    let ev = sup.success_event();
    assert_eq!(ev.percent_centi, 10_000);
    assert_eq!(classify(ev.percent_centi), EventClass::Done);
    assert_eq!(ev.frame, 100);
    assert_eq!(ev.message, "Processing | Res: 2048x2048 | ETA: 00:00");
}
