//! The progress parser and per-tick supervision state.
//!
//! The external encoder rewrites a scratch file with `key=value` lines as
//! it runs.  Each tick the whole file is re-read and re-derived: a
//! `frame=` line moves the absolute frame index and the completion
//! percentage, an `out_time_ms=` line refreshes the ETA from the elapsed
//! wall time.  Unknown or torn lines are ignored, never an error.
//!
//! Percentages are carried in hundredths of a percent (`0..=10000`); the
//! negative sentinels mark a run that ended without success.

use vstd::prelude::*;
use vstd::slice::slice_subrange;
use vstd::string::StringExecFns;
use vstd::arithmetic::div_mod::{lemma_div_is_ordered_by_denominator, lemma_div_multiples_vanish};
use crate::numeric::{
    dec_digits,
    dec_value,
    find_first,
    first_index_of,
    padded2,
    parse_u32,
    parse_u64,
    push_decimal,
    push_padded2,
    trim_bytes,
    trimmed,
    u32_parsable,
    u64_parsable,
};

verus! {

/// Sentinel percentage of a run that failed.
pub const ERROR_PERCENT_CENTI: i32 = -100;

/// Sentinel percentage of a run that was cancelled; pausing is not an
/// error.
pub const PAUSED_PERCENT_CENTI: i32 = -200;

/// One emission of the progress stream.
#[derive(Debug)]
pub struct ProgressEvent {
    /// Hundredths of a percent while running; a negative sentinel when the
    /// run ended without success.
    pub percent_centi: i32,
    /// The absolute index of the frame the encoder last reported.
    pub frame: u32,
    /// The human-readable status line.
    pub message: String,
}

/// How the receiving side must treat an event.
#[derive(Debug, Clone, Copy, PartialEq, Eq, Structural)]
pub enum EventClass {
    /// The run goes on; the payload is a fresh percentage.
    Running,
    /// The run reached its end successfully.
    Done,
    /// The run ended without success: paused or failed, told apart by the
    /// sentinel.
    Interrupted,
}

/// The class an event's percentage puts it in.
pub open spec fn spec_classify(percent_centi: int) -> EventClass {
    if percent_centi < 0 {
        EventClass::Interrupted
    } else if percent_centi >= 10000 {
        EventClass::Done
    } else {
        EventClass::Running
    }
}

/// Classifies a received percentage: negative values are terminal
/// non-success, a full hundred percent is completion.
pub fn classify(percent_centi: i32) -> (c: EventClass)
    ensures
        c == spec_classify(percent_centi as int),
{
    if percent_centi < 0 {
        EventClass::Interrupted
    } else if percent_centi >= 10000 {
        EventClass::Done
    } else {
        EventClass::Running
    }
}

/// A line reporting frames encoded so far: `frame=<n>`.
pub open spec fn is_frame_line(l: Seq<u8>) -> bool {
    l.len() >= 6 && l[0] == 102 && l[1] == 114 && l[2] == 97 && l[3] == 109 && l[4] == 101 && l[5]
        == 61
}

/// The numeral of a `frame=` line: between the first equals sign and the
/// next one, or the line's end.
pub open spec fn frame_seg(l: Seq<u8>) -> Seq<u8> {
    let rest = l.skip(6);
    let k = first_index_of(rest, 61);
    if k == -1 {
        rest
    } else {
        rest.take(k)
    }
}

/// The `frame=` numeral parses (after trimming).
pub open spec fn frame_parsable(l: Seq<u8>) -> bool {
    u32_parsable(trimmed(frame_seg(l)))
}

/// Its value.
pub open spec fn frame_value(l: Seq<u8>) -> nat {
    dec_value(trimmed(frame_seg(l)))
}

/// A line reporting elapsed output time: it begins `out_time_ms`.
pub open spec fn is_out_time_line(l: Seq<u8>) -> bool {
    l.len() >= 11 && l[0] == 111 && l[1] == 117 && l[2] == 116 && l[3] == 95 && l[4] == 116
        && l[5] == 105 && l[6] == 109 && l[7] == 101 && l[8] == 95 && l[9] == 109 && l[10] == 115
}

/// Whatever stands after the first equals sign of an `out_time_ms` line.
pub open spec fn out_time_seg(l: Seq<u8>) -> Seq<u8> {
    l.skip(first_index_of(l, 61) + 1)
}

/// The `out_time_ms` line has an equals sign and its value parses
/// (untrimmed, as the encoder writes it).
pub open spec fn out_time_parsable(l: Seq<u8>) -> bool {
    first_index_of(l, 61) != -1 && u64_parsable(out_time_seg(l))
}

/// Addition of frame indices, saturating at the type's top.
pub open spec fn sat_add_u32(a: u32, b: u32) -> u32 {
    if a + b > u32::MAX {
        u32::MAX
    } else {
        (a + b) as u32
    }
}

/// The completion percentage of frame `abs` out of `total`, in hundredths,
/// capped at one hundred percent.
pub open spec fn spec_percent_centi(abs: u32, total: u64) -> u32
    recommends
        total > 0,
{
    let p = (abs * 10000) as int / total as int;
    if p > 10000 {
        10000u32
    } else {
        p as u32
    }
}

/// The ETA by linear extrapolation: how much of the projected total wall
/// time is still to come, in whole seconds.
pub open spec fn spec_eta_secs(elapsed_ms: u64, percent_centi: u32) -> int
    recommends
        0 < percent_centi <= 10000,
{
    ((elapsed_ms * 10000) as int / percent_centi as int - elapsed_ms) / 1000
}

/// The same, saturated to a `u64`.
pub open spec fn spec_eta_secs_sat(elapsed_ms: u64, percent_centi: u32) -> u64 {
    let e = spec_eta_secs(elapsed_ms, percent_centi);
    if e < 0 {
        0u64
    } else if e > u64::MAX {
        u64::MAX
    } else {
        e as u64
    }
}

/// The per-tick scan state: what the lines seen so far have established.
#[derive(Debug, Clone, Copy)]
pub struct ScanState {
    /// The absolute index of the frame last reported.
    pub last_frame: u32,
    /// The completion percentage derived so far, hundredths.
    pub percent_centi: u32,
    /// The ETA last derived, in seconds; `None` renders as unknown.
    pub last_eta_secs: Option<u64>,
}

impl ScanState {
    pub open spec fn wf(self) -> bool {
        self.percent_centi <= 10000
    }
}

/// One progress line folded into the scan state.
pub open spec fn spec_line_step(
    st: ScanState,
    l: Seq<u8>,
    start_frame: u32,
    total_frames: u64,
    duration_ms: u64,
    elapsed_ms: u64,
) -> ScanState {
    if is_frame_line(l) {
        if frame_parsable(l) {
            let abs = sat_add_u32(start_frame, frame_value(l) as u32);
            if total_frames > 0 {
                ScanState {
                    last_frame: abs,
                    percent_centi: spec_percent_centi(abs, total_frames),
                    last_eta_secs: st.last_eta_secs,
                }
            } else {
                ScanState { last_frame: abs, ..st }
            }
        } else {
            st
        }
    } else if is_out_time_line(l) {
        if out_time_parsable(l) && duration_ms > 0 {
            if st.percent_centi > 10 {
                ScanState {
                    last_eta_secs: Some(spec_eta_secs_sat(elapsed_ms, st.percent_centi)),
                    ..st
                }
            } else {
                ScanState { last_eta_secs: None, ..st }
            }
        } else {
            st
        }
    } else {
        st
    }
}

/// A line with its trailing carriage return removed.
pub open spec fn strip_cr(l: Seq<u8>) -> Seq<u8> {
    if l.len() > 0 && l.last() == 13 {
        l.drop_last()
    } else {
        l
    }
}

/// The scratch file's lines: split at newlines, carriage returns stripped,
/// no final empty line.
pub open spec fn split_lines(s: Seq<u8>) -> Seq<Seq<u8>>
    decreases s.len(),
    via split_lines_decreases
{
    if s.len() == 0 {
        Seq::empty()
    } else {
        let i = first_index_of(s, 10);
        if i == -1 {
            seq![strip_cr(s)]
        } else {
            seq![strip_cr(s.take(i))] + split_lines(s.skip(i + 1))
        }
    }
}

#[via_fn]
proof fn split_lines_decreases(s: Seq<u8>) {
    crate::numeric::lemma_first_index_range(s, 10);
}

/// The whole scratch file folded into the scan state, first line first.
pub open spec fn spec_scan_lines(
    st: ScanState,
    ls: Seq<Seq<u8>>,
    start_frame: u32,
    total_frames: u64,
    duration_ms: u64,
    elapsed_ms: u64,
) -> ScanState
    decreases ls.len(),
{
    if ls.len() == 0 {
        st
    } else {
        spec_scan_lines(
            spec_line_step(st, ls.first(), start_frame, total_frames, duration_ms, elapsed_ms),
            ls.drop_first(),
            start_frame,
            total_frames,
            duration_ms,
            elapsed_ms,
        )
    }
}

/// Saturating addition of frame indices.
fn sat_add(a: u32, b: u32) -> (r: u32)
    ensures
        r == sat_add_u32(a, b),
{
    if b > u32::MAX - a {
        u32::MAX
    } else {
        a + b
    }
}

/// The capped completion percentage, hundredths.
fn percent_centi_of(abs: u32, total: u64) -> (r: u32)
    requires
        total > 0,
    ensures
        r == spec_percent_centi(abs, total),
        r <= 10000,
{
    let p: u64 = (abs as u64) * 10000 / total;
    if p > 10000 {
        10000
    } else {
        p as u32
    }
}

/// The saturated ETA in seconds.
fn eta_secs_of(elapsed_ms: u64, percent_centi: u32) -> (r: u64)
    requires
        10 < percent_centi <= 10000,
    ensures
        r == spec_eta_secs_sat(elapsed_ms, percent_centi),
{
    let e10: u128 = (elapsed_ms as u128) * 10000;
    let q: u128 = e10 / (percent_centi as u128);
    proof {
        lemma_div_is_ordered_by_denominator(e10 as int, percent_centi as int, 10000);
        lemma_div_multiples_vanish(elapsed_ms as int, 10000);
        assert(10000 * (elapsed_ms as int) == (elapsed_ms as int) * 10000) by (nonlinear_arith);
        assert(q >= elapsed_ms);
    }
    let diff: u128 = q - (elapsed_ms as u128);
    let secs: u128 = diff / 1000;
    if secs > 0xffff_ffff_ffff_ffff {
        u64::MAX
    } else {
        secs as u64
    }
}

/// One progress line applied to the scan state, exactly as the fold says.
fn line_step(
    st: ScanState,
    line: &[u8],
    start_frame: u32,
    total_frames: u64,
    duration_ms: u64,
    elapsed_ms: u64,
) -> (r: ScanState)
    requires
        st.wf(),
    ensures
        r == spec_line_step(st, line@, start_frame, total_frames, duration_ms, elapsed_ms),
        r.wf(),
{
    if line.len() >= 6 && line[0] == 102 && line[1] == 114 && line[2] == 97 && line[3] == 109
        && line[4] == 101 && line[5] == 61 {
        let rest = slice_subrange(line, 6, line.len());
        let seg = match find_first(rest, 61) {
            Some(k) => slice_subrange(rest, 0, k),
            None => rest,
        };
        proof {
            assert(seg@ =~= frame_seg(line@));
        }
        let tseg = trim_bytes(seg);
        match parse_u32(tseg.as_slice()) {
            Some(v) => {
                let abs = sat_add(start_frame, v);
                if total_frames > 0 {
                    let pc = percent_centi_of(abs, total_frames);
                    ScanState { last_frame: abs, percent_centi: pc, last_eta_secs: st.last_eta_secs }
                } else {
                    ScanState { last_frame: abs, ..st }
                }
            },
            None => st,
        }
    } else if line.len() >= 11 && line[0] == 111 && line[1] == 117 && line[2] == 116 && line[3]
        == 95 && line[4] == 116 && line[5] == 105 && line[6] == 109 && line[7] == 101 && line[8]
        == 95 && line[9] == 109 && line[10] == 115 {
        match find_first(line, 61) {
            Some(e) => {
                let seg = slice_subrange(line, e + 1, line.len());
                proof {
                    assert(seg@ =~= out_time_seg(line@));
                }
                match parse_u64(seg) {
                    Some(_) => {
                        if duration_ms > 0 {
                            if st.percent_centi > 10 {
                                ScanState {
                                    last_eta_secs: Some(eta_secs_of(elapsed_ms, st.percent_centi)),
                                    ..st
                                }
                            } else {
                                ScanState { last_eta_secs: None, ..st }
                            }
                        } else {
                            st
                        }
                    },
                    None => st,
                }
            },
            None => st,
        }
    } else {
        st
    }
}

/// The ETA as the status line shows it: `--:--` when unknown, else
/// zero-padded minutes and seconds.
pub open spec fn spec_eta_text(eta: Option<u64>) -> Seq<char> {
    match eta {
        None => "--:--"@,
        Some(s) => padded2((s / 60) as nat) + ":"@ + padded2((s % 60) as nat),
    }
}

/// Appends the ETA text.
fn push_eta_text(s: &mut String, eta: Option<u64>)
    ensures
        final(s)@ == old(s)@ + spec_eta_text(eta),
{
    match eta {
        None => {
            s.append("--:--");
        },
        Some(secs) => {
            push_padded2(s, secs / 60);
            s.append(":");
            push_padded2(s, secs % 60);
            proof {
                assert(final(s)@ =~= old(s)@ + spec_eta_text(eta));
            }
        },
    }
}

/// Renders the ETA text on its own.
pub fn eta_text(eta: Option<u64>) -> (s: String)
    ensures
        s@ == spec_eta_text(eta),
{
    let mut s = String::new();
    push_eta_text(&mut s, eta);
    proof {
        assert(s@ =~= spec_eta_text(eta));
    }
    s
}

/// The running status line: the dimensions in use and the current ETA.
pub open spec fn spec_processing_message(w: u32, h: u32, eta: Option<u64>) -> Seq<char> {
    "Processing | Res: "@ + dec_digits(w as nat) + "x"@ + dec_digits(h as nat) + " | ETA: "@
        + spec_eta_text(eta)
}

/// Builds the running status line.
pub fn processing_message(w: u32, h: u32, eta: Option<u64>) -> (m: String)
    ensures
        m@ == spec_processing_message(w, h, eta),
{
    let mut s = String::new();
    s.append("Processing | Res: ");
    push_decimal(&mut s, w as u128);
    s.append("x");
    push_decimal(&mut s, h as u128);
    s.append(" | ETA: ");
    push_eta_text(&mut s, eta);
    proof {
        assert(s@ =~= spec_processing_message(w, h, eta));
    }
    s
}

/// The status line of a cancelled run.
pub open spec fn spec_paused_message(eta: Option<u64>) -> Seq<char> {
    "Paused | ETA: "@ + spec_eta_text(eta)
}

/// The status line sent once, right after the encoder is launched.
pub open spec fn spec_initial_message(w: u32, h: u32, start_frame: u32) -> Seq<char> {
    "Processing | Res: "@ + dec_digits(w as nat) + "x"@ + dec_digits(h as nat) + " | Start: "@
        + crate::numeric::padded4(start_frame as nat) + " | ETA: --:--"@
}

/// The completion percentage reported before the encoder has said
/// anything: the resume point against the whole export.
pub open spec fn spec_initial_percent(start_frame: u32, total_frames: u64) -> u32 {
    if total_frames > 0 {
        spec_percent_centi(start_frame, total_frames)
    } else {
        0u32
    }
}

/// The supervision state of one run: what was planned, and what the
/// encoder has reported so far.
#[derive(Debug, Clone, Copy)]
pub struct Supervisor {
    /// The frame index the encoder was told to resume at.
    pub start_frame: u32,
    /// Frames in the whole export, resumed part included.
    pub total_frames: u64,
    /// The source's duration in milliseconds.
    pub duration_ms: u64,
    /// The pixel dimensions shown in status lines.
    pub res_w: u32,
    pub res_h: u32,
    /// The percentage a tick falls back to before any `frame=` line.
    pub initial_percent_centi: u32,
    /// The absolute frame index last reported.
    pub last_frame: u32,
    /// The ETA last derived.
    pub last_eta_secs: Option<u64>,
}

impl Supervisor {
    pub open spec fn wf(self) -> bool {
        self.initial_percent_centi <= 10000
    }

    /// A fresh supervisor for a run resuming at `start_frame`.
    pub fn new(start_frame: u32, total_frames: u64, duration_ms: u64, res_w: u32, res_h: u32) -> (s:
        Supervisor)
        ensures
            s.start_frame == start_frame,
            s.total_frames == total_frames,
            s.duration_ms == duration_ms,
            s.res_w == res_w,
            s.res_h == res_h,
            s.initial_percent_centi == spec_initial_percent(start_frame, total_frames),
            s.last_frame == start_frame,
            s.last_eta_secs is None,
            s.wf(),
    {
        let initial: u32 = if total_frames > 0 {
            percent_centi_of(start_frame, total_frames)
        } else {
            0
        };
        Supervisor {
            start_frame,
            total_frames,
            duration_ms,
            res_w,
            res_h,
            initial_percent_centi: initial,
            last_frame: start_frame,
            last_eta_secs: None,
        }
    }

    /// The event sent once, right after the encoder is launched.
    pub fn initial_event(&self) -> (ev: ProgressEvent)
        ensures
            ev.percent_centi == self.initial_percent_centi as i32,
            ev.frame == self.start_frame,
            ev.message@ == spec_initial_message(self.res_w, self.res_h, self.start_frame),
    {
        let mut s = String::new();
        s.append("Processing | Res: ");
        push_decimal(&mut s, self.res_w as u128);
        s.append("x");
        push_decimal(&mut s, self.res_h as u128);
        s.append(" | Start: ");
        crate::numeric::push_padded4(&mut s, self.start_frame as u64);
        s.append(" | ETA: --:--");
        proof {
            assert(s@ =~= spec_initial_message(self.res_w, self.res_h, self.start_frame));
        }
        ProgressEvent {
            percent_centi: self.initial_percent_centi as i32,
            frame: self.start_frame,
            message: s,
        }
    }

    /// One supervision tick: the scratch file's lines folded over the
    /// state, and the event carrying what they establish.
    pub fn on_tick(&mut self, contents: &[u8], elapsed_ms: u64) -> (ev: ProgressEvent)
        requires
            old(self).wf(),
        ensures
            final(self).wf(),
            ({
                let st0 = ScanState {
                    last_frame: old(self).last_frame,
                    percent_centi: old(self).initial_percent_centi,
                    last_eta_secs: old(self).last_eta_secs,
                };
                let st1 = spec_scan_lines(
                    st0,
                    split_lines(contents@),
                    old(self).start_frame,
                    old(self).total_frames,
                    old(self).duration_ms,
                    elapsed_ms,
                );
                &&& *final(self) == (Supervisor {
                    last_frame: st1.last_frame,
                    last_eta_secs: st1.last_eta_secs,
                    ..*old(self)
                })
                &&& ev.percent_centi == st1.percent_centi as i32
                &&& ev.frame == st1.last_frame
                &&& ev.message@ == spec_processing_message(
                    old(self).res_w,
                    old(self).res_h,
                    st1.last_eta_secs,
                )
                &&& 0 <= ev.percent_centi <= 10000
            }),
    {
        let ghost ls = split_lines(contents@);
        let mut st = ScanState {
            last_frame: self.last_frame,
            percent_centi: self.initial_percent_centi,
            last_eta_secs: self.last_eta_secs,
        };
        let ghost st0 = st;
        let mut pos: usize = 0;
        proof {
            assert(contents@.skip(0) =~= contents@);
        }
        while pos < contents.len()
            invariant
                0 <= pos <= contents@.len(),
                st.wf(),
                spec_scan_lines(
                    st0,
                    ls,
                    self.start_frame,
                    self.total_frames,
                    self.duration_ms,
                    elapsed_ms,
                ) == spec_scan_lines(
                    st,
                    split_lines(contents@.skip(pos as int)),
                    self.start_frame,
                    self.total_frames,
                    self.duration_ms,
                    elapsed_ms,
                ),
                ls == split_lines(contents@),
            decreases contents@.len() - pos,
        {
            let rem = slice_subrange(contents, pos, contents.len());
            let (line_end, next_pos): (usize, usize) = match find_first(rem, 10) {
                Some(k) => (pos + k, pos + k + 1),
                None => (contents.len(), contents.len()),
            };
            let raw = slice_subrange(contents, pos, line_end);
            let line = if raw.len() > 0 && raw[raw.len() - 1] == 13 {
                slice_subrange(raw, 0, raw.len() - 1)
            } else {
                raw
            };
            proof {
                let suf = contents@.skip(pos as int);
                let k = first_index_of(suf, 10);
                if k == -1 {
                    assert(raw@ =~= suf);
                    assert(line@ =~= strip_cr(suf));
                    assert(split_lines(suf) == seq![line@]);
                    assert(contents@.skip(next_pos as int) =~= Seq::<u8>::empty());
                } else {
                    assert(raw@ =~= suf.take(k));
                    assert(line@ =~= strip_cr(suf.take(k)));
                    assert(suf.skip(k + 1) =~= contents@.skip(next_pos as int));
                    assert(split_lines(suf) == seq![line@] + split_lines(
                        contents@.skip(next_pos as int),
                    ));
                }
                let tail = split_lines(contents@.skip(next_pos as int));
                assert((seq![line@] + tail).first() == line@);
                assert((seq![line@] + tail).drop_first() =~= tail);
            }
            st = line_step(
                st,
                line,
                self.start_frame,
                self.total_frames,
                self.duration_ms,
                elapsed_ms,
            );
            pos = next_pos;
        }
        proof {
            assert(contents@.skip(pos as int) =~= Seq::<u8>::empty());
        }
        self.last_frame = st.last_frame;
        self.last_eta_secs = st.last_eta_secs;
        let message = processing_message(self.res_w, self.res_h, st.last_eta_secs);
        ProgressEvent { percent_centi: st.percent_centi as i32, frame: st.last_frame, message }
    }

    /// The terminal event of a cancelled run.  Pausing is not an error:
    /// the sentinel is the paused one, never the failure one.
    pub fn on_cancel(&self) -> (ev: ProgressEvent)
        ensures
            ev.percent_centi == PAUSED_PERCENT_CENTI,
            ev.percent_centi != ERROR_PERCENT_CENTI,
            spec_classify(ev.percent_centi as int) == EventClass::Interrupted,
            ev.frame == self.last_frame,
            ev.message@ == spec_paused_message(self.last_eta_secs),
    {
        let mut s = String::new();
        s.append("Paused | ETA: ");
        push_eta_text(&mut s, self.last_eta_secs);
        proof {
            assert(s@ =~= spec_paused_message(self.last_eta_secs));
        }
        ProgressEvent { percent_centi: PAUSED_PERCENT_CENTI, frame: self.last_frame, message: s }
    }

    /// The final event of a run whose encoder exited successfully: a full
    /// hundred percent, with a spent ETA.
    pub fn success_event(&self) -> (ev: ProgressEvent)
        ensures
            ev.percent_centi == 10000,
            spec_classify(ev.percent_centi as int) == EventClass::Done,
            ev.frame == self.last_frame,
            ev.message@ == spec_processing_message(self.res_w, self.res_h, Some(0u64)),
    {
        let message = processing_message(self.res_w, self.res_h, Some(0));
        ProgressEvent { percent_centi: 10000, frame: self.last_frame, message }
    }
}

} // verus!
