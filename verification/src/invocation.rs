//! Composition of the external encoder's invocation.
//!
//! One run hands the encoder: a seek to the resume point (time-based, at
//! millisecond precision), the two inputs, a filter graph that scales and
//! letterboxes the source to the target box — or, for a native run, only
//! scales the overlay — then composites the overlay, the frame number to
//! resume writing at, the scratch path for its progress stream, the
//! numbered output pattern, and a non-interactive overwrite flag.

use vstd::prelude::*;
use vstd::string::StringExecFns;
use crate::models::Resolution;
use crate::probe::{FrameRate, MediaInfo};
use crate::numeric::{dec_digits, padded3, push_decimal, push_padded3};

verus! {

/// One run's immutable configuration; it crosses to the worker whole.
#[derive(Debug)]
pub struct EncodingConfig {
    pub input_video: String,
    pub overlay_image: String,
    pub output_dir: String,
    pub ffmpeg_path: String,
    pub ffprobe_path: String,
    pub resolution: Resolution,
    pub base_name: String,
}

/// Where the seek lands, in milliseconds: the resume point's frame count
/// over the frame rate.  A rate without frames seeks nowhere.
pub open spec fn spec_seek_ms(start_frame: u32, rate: FrameRate) -> nat {
    if rate.num == 0 {
        0
    } else {
        ((start_frame * 1000 * rate.den) as int / rate.num as int) as nat
    }
}

/// Seconds with three decimals, as the seek argument writes them.
pub open spec fn spec_seconds_text(ms: nat) -> Seq<char> {
    dec_digits(ms / 1000) + "."@ + padded3(ms % 1000)
}

/// The seek argument of a run resuming at `start_frame`.
pub open spec fn spec_seek_text(start_frame: u32, rate: FrameRate) -> Seq<char> {
    spec_seconds_text(spec_seek_ms(start_frame, rate))
}

/// The filter graph: scale-and-pad the source into the target box and
/// scale the overlay to match, or, for a native run, scale the overlay to
/// the source's own dimensions; then composite.
pub open spec fn spec_filter_graph(res: Resolution, m: MediaInfo) -> Seq<char> {
    match res.spec_target_size() {
        Some(wh) => "[0:v]scale="@ + dec_digits(wh.0 as nat) + ":"@ + dec_digits(wh.1 as nat)
            + ":force_original_aspect_ratio=decrease,pad="@ + dec_digits(wh.0 as nat) + ":"@
            + dec_digits(wh.1 as nat) + ":(ow-iw)/2:(oh-ih)/2[vid]; [1:v]scale="@ + dec_digits(
            wh.0 as nat,
        ) + ":"@ + dec_digits(wh.1 as nat) + "[ovr]; [vid][ovr]overlay=0:0"@,
        None => "[1:v]scale="@ + dec_digits(m.width as nat) + ":"@ + dec_digits(m.height as nat)
            + "[ovr]; [0:v][ovr]overlay=0:0"@,
    }
}

/// The output pattern: the base name, a separator, a zero-padded four-digit
/// frame counter, the image suffix.
pub open spec fn spec_output_pattern(base: Seq<char>) -> Seq<char> {
    base + "_%04d.png"@
}

/// The output path: the pattern inside the output directory.
pub open spec fn spec_output_path(dir: Seq<char>, base: Seq<char>) -> Seq<char> {
    dir + "/"@ + spec_output_pattern(base)
}

/// The encoder's whole argument list for one run.
pub open spec fn spec_args(
    config: EncodingConfig,
    m: MediaInfo,
    start_frame: u32,
    progress_path: Seq<char>,
) -> Seq<Seq<char>> {
    seq![
        "-ss"@,
        spec_seek_text(start_frame, m.rate),
        "-i"@,
        config.input_video@,
        "-i"@,
        config.overlay_image@,
        "-filter_complex"@,
        spec_filter_graph(config.resolution, m),
        "-vsync"@,
        "0"@,
        "-start_number"@,
        dec_digits(start_frame as nat),
        "-progress"@,
        progress_path,
        spec_output_path(config.output_dir@, config.base_name@),
        "-y"@,
    ]
}

/// Computes the seek in milliseconds.
pub fn seek_ms(start_frame: u32, rate: FrameRate) -> (r: u128)
    ensures
        r == spec_seek_ms(start_frame, rate),
{
    if rate.num == 0 {
        0
    } else {
        proof {
            assert((start_frame as int) * 1000 * (rate.den as int) < 0x80000000000000000000)
                by (nonlinear_arith)
                requires
                    start_frame <= u32::MAX,
                    rate.den <= u32::MAX,
            ;
        }
        ((start_frame as u128) * 1000 * (rate.den as u128)) / (rate.num as u128)
    }
}

/// Renders milliseconds as seconds with three decimals.
pub fn seconds_text(ms: u128) -> (s: String)
    ensures
        s@ == spec_seconds_text(ms as nat),
{
    let mut s = String::new();
    push_decimal(&mut s, ms / 1000);
    s.append(".");
    push_padded3(&mut s, (ms % 1000) as u64);
    proof {
        assert(s@ =~= spec_seconds_text(ms as nat));
    }
    s
}

/// Builds the filter graph.
pub fn filter_graph(resolution: &Resolution, media: &MediaInfo) -> (s: String)
    ensures
        s@ == spec_filter_graph(*resolution, *media),
{
    let mut s = String::new();
    match resolution.target_size() {
        Some((w, h)) => {
            s.append("[0:v]scale=");
            push_decimal(&mut s, w as u128);
            s.append(":");
            push_decimal(&mut s, h as u128);
            s.append(":force_original_aspect_ratio=decrease,pad=");
            push_decimal(&mut s, w as u128);
            s.append(":");
            push_decimal(&mut s, h as u128);
            s.append(":(ow-iw)/2:(oh-ih)/2[vid]; [1:v]scale=");
            push_decimal(&mut s, w as u128);
            s.append(":");
            push_decimal(&mut s, h as u128);
            s.append("[ovr]; [vid][ovr]overlay=0:0");
            proof {
                assert(s@ =~= spec_filter_graph(*resolution, *media));
            }
        },
        None => {
            s.append("[1:v]scale=");
            push_decimal(&mut s, media.width as u128);
            s.append(":");
            push_decimal(&mut s, media.height as u128);
            s.append("[ovr]; [0:v][ovr]overlay=0:0");
            proof {
                assert(s@ =~= spec_filter_graph(*resolution, *media));
            }
        },
    }
    s
}

/// Builds the output path with its numbered pattern.
pub fn output_path(config: &EncodingConfig) -> (s: String)
    ensures
        s@ == spec_output_path(config.output_dir@, config.base_name@),
{
    let mut s = config.output_dir.clone();
    s.append("/");
    s.append(config.base_name.as_str());
    s.append("_%04d.png");
    proof {
        assert(s@ =~= spec_output_path(config.output_dir@, config.base_name@));
    }
    s
}

/// Builds the encoder's whole argument list for a run resuming at
/// `start_frame`, with its progress stream directed to `progress_path`.
pub fn build_args(
    config: &EncodingConfig,
    media: &MediaInfo,
    start_frame: u32,
    progress_path: &str,
) -> (args: Vec<String>)
    ensures
        args.deep_view() == spec_args(*config, *media, start_frame, progress_path@),
{
    let mut args: Vec<String> = Vec::new();
    args.push(String::from_str("-ss"));
    args.push(seconds_text(seek_ms(start_frame, media.rate)));
    args.push(String::from_str("-i"));
    args.push(config.input_video.clone());
    args.push(String::from_str("-i"));
    args.push(config.overlay_image.clone());
    args.push(String::from_str("-filter_complex"));
    args.push(filter_graph(&config.resolution, media));
    args.push(String::from_str("-vsync"));
    args.push(String::from_str("0"));
    args.push(String::from_str("-start_number"));
    let mut n = String::new();
    push_decimal(&mut n, start_frame as u128);
    args.push(n);
    args.push(String::from_str("-progress"));
    args.push(String::from_str(progress_path));
    args.push(output_path(config));
    args.push(String::from_str("-y"));
    proof {
        let dv = args.deep_view();
        let sv = spec_args(*config, *media, start_frame, progress_path@);
        assert(dv.len() == 16);
        assert(dv[0] == sv[0]);
        assert(dv[1] == sv[1]);
        assert(dv[2] == sv[2]);
        assert(dv[3] == sv[3]);
        assert(dv[4] == sv[4]);
        assert(dv[5] == sv[5]);
        assert(dv[6] == sv[6]);
        assert(dv[7] == sv[7]);
        assert(dv[8] == sv[8]);
        assert(dv[9] == sv[9]);
        assert(dv[10] == sv[10]);
        assert(dv[11] == sv[11]);
        assert(dv[12] == sv[12]);
        assert(dv[13] == sv[13]);
        assert(dv[14] == sv[14]);
        assert(dv[15] == sv[15]);
        assert(dv =~= sv);
    }
    args
}

} // verus!
