//! The export orchestrator's decisions.
//!
//! The run itself is a child process, a scratch file and a pair of
//! channels, all owned by the caller; what is decided — whether the
//! preconditions hold, where the run resumes, what the encoder is told,
//! what each poll tick means, and how an exit or a cancellation ends the
//! run — stands here, each decision a function of plain values.
//!
//! The state machine: a run is planned only from `Idle`; starting while
//! one is active is a no-op.  A paused or finished run returns the engine
//! to `Idle`, and the next run resumes from whatever the directory then
//! holds.

use vstd::prelude::*;
use vstd::arithmetic::div_mod::{
    lemma_div_is_ordered,
    lemma_div_multiples_vanish,
    lemma_fundamental_div_mod,
    lemma_mod_bound,
};
use crate::invocation::{build_args, spec_args, spec_seek_ms, EncodingConfig};
use crate::probe::MediaInfo;
use crate::progress::{
    spec_classify,
    spec_eta_text,
    spec_initial_percent,
    spec_processing_message,
    spec_scan_lines,
    split_lines,
    EventClass,
    ProgressEvent,
    ScanState,
    Supervisor,
    PAUSED_PERCENT_CENTI,
    ERROR_PERCENT_CENTI,
};
use crate::storage::{spec_dims, spec_total_frames, spec_total_frames_sat, total_frames_of};

verus! {

/// The asset whose absence stopped a run before it began.
#[derive(Debug, Clone, Copy, PartialEq, Eq, Structural)]
pub enum AssetKind {
    FfmpegBinary,
    FfprobeBinary,
    InputVideo,
    OverlayImage,
    OutputDirectory,
}

/// Why a run could not start or could not finish.
#[derive(Debug)]
pub enum OrchestrationError {
    /// A precondition failed before anything was spawned.
    MissingAsset(AssetKind),
    /// The encoder could not be launched; carries the launcher's text.
    SpawnFailed(String),
    /// The encoder exited without success mid- or post-run.
    ToolFailed { last_frame: u32, last_eta: String, status: i32 },
}

/// The outcome of the precondition check: the first missing asset, in a
/// fixed order, or leave to proceed.
pub open spec fn spec_validate(
    ffmpeg_exists: bool,
    ffprobe_exists: bool,
    input_exists: bool,
    overlay_exists: bool,
    output_dir_ok: bool,
) -> Result<(), AssetKind> {
    if !ffmpeg_exists {
        Err(AssetKind::FfmpegBinary)
    } else if !ffprobe_exists {
        Err(AssetKind::FfprobeBinary)
    } else if !input_exists {
        Err(AssetKind::InputVideo)
    } else if !overlay_exists {
        Err(AssetKind::OverlayImage)
    } else if !output_dir_ok {
        Err(AssetKind::OutputDirectory)
    } else {
        Ok(())
    }
}

/// Validates the preconditions of a run: the two tool binaries, the two
/// input files, and a writable output directory.  The first failure wins
/// and nothing is spawned; success is owed exactly when all five hold.
pub fn validate_assets(
    ffmpeg_exists: bool,
    ffprobe_exists: bool,
    input_exists: bool,
    overlay_exists: bool,
    output_dir_ok: bool,
) -> (r: Result<(), OrchestrationError>)
    ensures
        r is Ok <==> (ffmpeg_exists && ffprobe_exists && input_exists && overlay_exists
            && output_dir_ok),
        r matches Err(e) ==> (e matches OrchestrationError::MissingAsset(k) && Err::<(), AssetKind>(
            k,
        ) == spec_validate(
            ffmpeg_exists,
            ffprobe_exists,
            input_exists,
            overlay_exists,
            output_dir_ok,
        )),
{
    if !ffmpeg_exists {
        Err(OrchestrationError::MissingAsset(AssetKind::FfmpegBinary))
    } else if !ffprobe_exists {
        Err(OrchestrationError::MissingAsset(AssetKind::FfprobeBinary))
    } else if !input_exists {
        Err(OrchestrationError::MissingAsset(AssetKind::InputVideo))
    } else if !overlay_exists {
        Err(OrchestrationError::MissingAsset(AssetKind::OverlayImage))
    } else if !output_dir_ok {
        Err(OrchestrationError::MissingAsset(AssetKind::OutputDirectory))
    } else {
        Ok(())
    }
}

/// Everything one run needs: where it resumes, what it spans, what the
/// encoder is told, and the supervision state to poll with.
#[derive(Debug)]
pub struct RunPlan {
    pub start_frame: u32,
    pub total_frames: u64,
    pub target_w: u32,
    pub target_h: u32,
    pub args: Vec<String>,
    pub supervisor: Supervisor,
}

/// Plans a run: the resume point becomes the encoder's start offset — the
/// run never rewrites a frame below it — the target box comes from the
/// policy or the probe, and the argument list and supervision state are
/// pinned to both.
pub fn plan_run(
    config: &EncodingConfig,
    media: &MediaInfo,
    start_frame: u32,
    progress_path: &str,
) -> (p: RunPlan)
    requires
        media.wf(),
    ensures
        p.start_frame == start_frame,
        p.total_frames == spec_total_frames_sat(*media),
        p.target_w == spec_dims(config.resolution, *media).0,
        p.target_h == spec_dims(config.resolution, *media).1,
        p.args.deep_view() == spec_args(*config, *media, start_frame, progress_path@),
        p.supervisor == (Supervisor {
            start_frame,
            total_frames: spec_total_frames_sat(*media),
            duration_ms: media.duration_ms,
            res_w: spec_dims(config.resolution, *media).0,
            res_h: spec_dims(config.resolution, *media).1,
            initial_percent_centi: spec_initial_percent(
                start_frame,
                spec_total_frames_sat(*media),
            ),
            last_frame: start_frame,
            last_eta_secs: None,
        }),
        p.supervisor.wf(),
{
    let (target_w, target_h): (u32, u32) = match config.resolution.target_size() {
        Some(wh) => wh,
        None => (media.width, media.height),
    };
    let total_frames = total_frames_of(media);
    let args = build_args(config, media, start_frame, progress_path);
    let supervisor = Supervisor::new(start_frame, total_frames, media.duration_ms, target_w,
        target_h);
    RunPlan { start_frame, total_frames, target_w, target_h, args, supervisor }
}

/// What one poll tick decides.
#[derive(Debug)]
pub enum StepOutcome {
    /// Stop the child at once and emit this terminal event; the run is
    /// paused, not failed.
    Pause(ProgressEvent),
    /// Emit this event and keep polling.
    Progress(ProgressEvent),
    /// Nothing to report this tick (the scratch file was unreadable);
    /// keep polling.
    Idle,
}

/// One poll tick of the supervision loop.  A pending cancellation beats
/// everything: the outcome is then always `Pause`, carrying the paused
/// sentinel — never the failure one — and the state is left as it was.
/// Otherwise the scratch file's lines, when they could be read, are folded
/// into the state and reported.
pub fn supervise_step(
    sup: &mut Supervisor,
    cancelled: bool,
    contents: Option<&Vec<u8>>,
    elapsed_ms: u64,
) -> (out: StepOutcome)
    requires
        old(sup).wf(),
    ensures
        final(sup).wf(),
        cancelled ==> (out matches StepOutcome::Pause(ev) && ev.percent_centi
            == PAUSED_PERCENT_CENTI && ev.percent_centi != ERROR_PERCENT_CENTI && spec_classify(
            ev.percent_centi as int,
        ) == EventClass::Interrupted && ev.frame == old(sup).last_frame && ev.message@
            == crate::progress::spec_paused_message(old(sup).last_eta_secs) && *final(sup) == *old(
            sup,
        )),
        !cancelled ==> (match contents {
            None => out is Idle && *final(sup) == *old(sup),
            Some(c) => out matches StepOutcome::Progress(ev) && ({
            let st1 = spec_scan_lines(
                ScanState {
                    last_frame: old(sup).last_frame,
                    percent_centi: old(sup).initial_percent_centi,
                    last_eta_secs: old(sup).last_eta_secs,
                },
                split_lines(c@),
                old(sup).start_frame,
                old(sup).total_frames,
                old(sup).duration_ms,
                elapsed_ms,
            );
            &&& *final(sup) == (Supervisor {
                last_frame: st1.last_frame,
                last_eta_secs: st1.last_eta_secs,
                ..*old(sup)
            })
            &&& ev.percent_centi == st1.percent_centi as i32
            &&& ev.frame == st1.last_frame
            &&& ev.message@ == spec_processing_message(
                old(sup).res_w,
                old(sup).res_h,
                st1.last_eta_secs,
            )
            &&& 0 <= ev.percent_centi <= 10000
        }),
        }),
{
    if cancelled {
        StepOutcome::Pause(sup.on_cancel())
    } else {
        match contents {
            Some(c) => StepOutcome::Progress(sup.on_tick(c.as_slice(), elapsed_ms)),
            None => StepOutcome::Idle,
        }
    }
}

/// The end of a run, from the encoder's exit.  Success owes the final
/// full-hundred event; a non-zero exit is the tool's failure, carrying the
/// last frame and ETA the stream had reached — never retried here, since
/// re-running resumes from the frames already on disk.
pub fn on_exit(sup: &Supervisor, success: bool, status: i32) -> (r: Result<
    ProgressEvent,
    OrchestrationError,
>)
    ensures
        success <==> r is Ok,
        r matches Ok(ev) ==> (ev.percent_centi == 10000 && spec_classify(ev.percent_centi as int)
            == EventClass::Done && ev.frame == sup.last_frame && ev.message@
            == spec_processing_message(sup.res_w, sup.res_h, Some(0u64))),
        r matches Err(e) ==> (e matches OrchestrationError::ToolFailed {
            last_frame,
            last_eta,
            status: st,
        } && last_frame == sup.last_frame && last_eta@ == spec_eta_text(sup.last_eta_secs) && st
            == status),
{
    if success {
        Ok(sup.success_event())
    } else {
        Err(
            OrchestrationError::ToolFailed {
                last_frame: sup.last_frame,
                last_eta: crate::progress::eta_text(sup.last_eta_secs),
                status,
            },
        )
    }
}

/// Where the engine stands.
#[derive(Debug, Clone, Copy, PartialEq, Eq, Structural)]
pub enum EnginePhase {
    Idle,
    Running,
}

/// The one-run-at-a-time guard: a run begins only from `Idle`, and every
/// terminal outcome returns the engine there.
#[derive(Debug)]
pub struct Engine {
    pub phase: EnginePhase,
}

impl Engine {
    /// A fresh engine stands idle.
    pub fn new() -> (e: Engine)
        ensures
            e.phase == EnginePhase::Idle,
    {
        Engine { phase: EnginePhase::Idle }
    }

    /// Claims the engine for a run.  While one is active this is a no-op
    /// and reports so; it never starts a second run.
    pub fn try_begin(&mut self) -> (started: bool)
        ensures
            started == (old(self).phase == EnginePhase::Idle),
            final(self).phase == EnginePhase::Running,
    {
        match self.phase {
            EnginePhase::Idle => {
                self.phase = EnginePhase::Running;
                true
            },
            EnginePhase::Running => false,
        }
    }

    /// Returns the engine to idle; every terminal outcome — completion,
    /// failure, pause — leads here, and a later run resumes from the
    /// directory's new frame set.
    pub fn finish(&mut self)
        ensures
            final(self).phase == EnginePhase::Idle,
    {
        self.phase = EnginePhase::Idle;
    }
}

/// A completed run resumes past the end.  When the resume point found on
/// disk is at or beyond the export's whole frame count, the planned seek
/// lands at or beyond the source's duration: the encoder decodes nothing
/// and writes no further frame, so running again after completion is a
/// no-op — and in any case a run never rewrites a frame below its resume
/// point, since that point is its start offset.
pub proof fn lemma_completed_run_is_noop(start_frame: u32, m: MediaInfo)
    requires
        m.wf(),
        m.rate.num > 0,
        start_frame >= spec_total_frames(m.duration_ms as nat, m.rate.num as nat, m.rate.den as nat),
    ensures
        spec_seek_ms(start_frame, m.rate) >= m.duration_ms,
{
    let d = m.duration_ms as int;
    let num = m.rate.num as int;
    let den = m.rate.den as int;
    let a = d * num;
    let b = 1000 * den;
    let c = (a + b - 1) / b;
    lemma_fundamental_div_mod(a + b - 1, b);
    lemma_mod_bound(a + b - 1, b);
    assert(a >= 0) by (nonlinear_arith)
        requires
            a == d * num,
            d >= 0,
            num >= 0,
    ;
    assert(b * c >= a);
    assert(start_frame as int * 1000 * den >= a) by (nonlinear_arith)
        requires
            start_frame as int >= c,
            b == 1000 * den,
            den >= 1,
            b * c >= a,
    ;
    lemma_div_is_ordered(a, start_frame as int * 1000 * den, num);
    lemma_div_multiples_vanish(d, num);
    assert(num * d == d * num) by (nonlinear_arith);
}

} // verus!
