//! The storage estimator.  Before a run commits, the engine predicts the
//! disk demand of the whole image sequence — four bytes per pixel, one
//! frame per duration × frame-rate tick, plus a twenty-percent margin —
//! and holds it against the free space on the output volume.
//!
//! Byte counts are exact integers; the gigabyte figures reported to the
//! caller are hundredths of a gigabyte (a gigabyte being `2^30` bytes).

use vstd::prelude::*;
use vstd::arithmetic::div_mod::{
    lemma_div_is_ordered,
    lemma_div_multiples_vanish,
    lemma_fundamental_div_mod,
    lemma_mod_bound,
};
use crate::models::Resolution;
use crate::probe::MediaInfo;

verus! {

/// Why the storage check refused.
#[derive(Debug, Clone, Copy, PartialEq, Eq, Structural)]
pub enum StorageError {
    /// Not enough free space; both figures in hundredths of a gigabyte
    /// (the required figure saturates at `u64::MAX`).
    Insufficient { required_centi_gb: u64, available_centi_gb: u64 },
    /// The free-space query itself failed.
    Unavailable,
}

/// The pixel dimensions of a run: the preset's box, or the source's own.
pub open spec fn spec_dims(res: Resolution, m: MediaInfo) -> (u32, u32) {
    match res.spec_target_size() {
        Some(wh) => wh,
        None => (m.width, m.height),
    }
}

/// Frames in the whole export: `duration_seconds * frame_rate`, rounded up.
pub open spec fn spec_total_frames(duration_ms: nat, num: nat, den: nat) -> nat
    recommends
        den > 0,
{
    ((duration_ms * num + 1000 * den - 1) as int / (1000 * den) as int) as nat
}

/// The frame count as a `u64`, saturated at the type's top.
pub open spec fn spec_total_frames_sat(m: MediaInfo) -> u64 {
    let f = spec_total_frames(m.duration_ms as nat, m.rate.num as nat, m.rate.den as nat);
    if f > u64::MAX {
        u64::MAX
    } else {
        f as u64
    }
}

/// Bytes of the whole export: four bytes per pixel, every frame.
pub open spec fn spec_required_bytes(res: Resolution, m: MediaInfo) -> nat {
    ((spec_dims(res, m).0 as nat) * (spec_dims(res, m).1 as nat) * 4) * spec_total_frames(
        m.duration_ms as nat,
        m.rate.num as nat,
        m.rate.den as nat,
    )
}

/// The demand with its twenty-percent safety margin.
pub open spec fn spec_required_margin_bytes(res: Resolution, m: MediaInfo) -> nat {
    spec_required_bytes(res, m) * 6 / 5
}

/// Hundredths of a gigabyte held in `bytes`.
pub open spec fn spec_centi_gb(bytes: nat) -> nat {
    bytes * 100 / 0x40000000
}

/// The same, saturated to what a `u64` can carry.
pub open spec fn spec_centi_gb_sat(bytes: nat) -> nat {
    if spec_centi_gb(bytes) > u64::MAX {
        u64::MAX as nat
    } else {
        spec_centi_gb(bytes)
    }
}

/// The margin never shrinks the demand.
proof fn lemma_margin_ge(x: nat)
    ensures
        x * 6 / 5 >= x,
{
    assert(x * 5 <= x * 6) by (nonlinear_arith);
    lemma_div_is_ordered((x * 5) as int, (x * 6) as int, 5);
    lemma_div_multiples_vanish(x as int, 5);
    assert(5 * x == x * 5) by (nonlinear_arith);
}

/// Rounded-up division is monotonic across fractions: when `a1/b1` is at
/// most `a2/b2` as rationals, the ceilings are ordered the same way.
proof fn lemma_ceil_div_mono(a1: int, b1: int, a2: int, b2: int)
    requires
        b1 >= 1,
        b2 >= 1,
        a1 >= 0,
        a2 >= 0,
        a1 * b2 <= a2 * b1,
    ensures
        (a1 + b1 - 1) / b1 <= (a2 + b2 - 1) / b2,
{
    let c2 = (a2 + b2 - 1) / b2;
    lemma_fundamental_div_mod(a2 + b2 - 1, b2);
    lemma_mod_bound(a2 + b2 - 1, b2);
    assert(b2 * c2 >= a2);
    assert(a1 <= b1 * c2) by (nonlinear_arith)
        requires
            a1 * b2 <= a2 * b1,
            a2 <= b2 * c2,
            b2 >= 1,
            b1 >= 0,
            a1 >= 0,
    ;
    let c1 = (a1 + b1 - 1) / b1;
    lemma_fundamental_div_mod(a1 + b1 - 1, b1);
    lemma_mod_bound(a1 + b1 - 1, b1);
    assert(b1 * c1 <= a1 + b1 - 1);
    assert(c1 <= c2) by (nonlinear_arith)
        requires
            b1 * c1 <= a1 + b1 - 1,
            a1 <= b1 * c2,
            b1 >= 1,
    ;
}

/// The storage demand is monotonic in the pixel count and in the product
/// of duration and frame rate: a larger target box, or more material to
/// encode, never lowers the estimate.
pub proof fn lemma_estimate_monotonic(r1: Resolution, m1: MediaInfo, r2: Resolution, m2: MediaInfo)
    requires
        m1.wf(),
        m2.wf(),
        spec_dims(r1, m1).0 * spec_dims(r1, m1).1 <= spec_dims(r2, m2).0 * spec_dims(r2, m2).1,
        m1.duration_ms * m1.rate.num * m2.rate.den <= m2.duration_ms * m2.rate.num * m1.rate.den,
    ensures
        spec_required_margin_bytes(r1, m1) <= spec_required_margin_bytes(r2, m2),
{
    let a1 = m1.duration_ms as int * m1.rate.num as int;
    let b1 = 1000 * m1.rate.den as int;
    let a2 = m2.duration_ms as int * m2.rate.num as int;
    let b2 = 1000 * m2.rate.den as int;
    assert(a1 * b2 <= a2 * b1) by (nonlinear_arith)
        requires
            a1 == m1.duration_ms as int * m1.rate.num as int,
            b1 == 1000 * m1.rate.den as int,
            a2 == m2.duration_ms as int * m2.rate.num as int,
            b2 == 1000 * m2.rate.den as int,
            m1.duration_ms as int * m1.rate.num as int * m2.rate.den as int <= m2.duration_ms as int
                * m2.rate.num as int * m1.rate.den as int,
    ;
    lemma_ceil_div_mono(a1, b1, a2, b2);
    let f1 = spec_total_frames(m1.duration_ms as nat, m1.rate.num as nat, m1.rate.den as nat);
    let f2 = spec_total_frames(m2.duration_ms as nat, m2.rate.num as nat, m2.rate.den as nat);
    assert(f1 <= f2);
    let p1 = spec_dims(r1, m1).0 * spec_dims(r1, m1).1 * 4;
    let p2 = spec_dims(r2, m2).0 * spec_dims(r2, m2).1 * 4;
    assert(p1 * f1 <= p2 * f2) by (nonlinear_arith)
        requires
            0 <= f1 <= f2,
            0 <= p1 <= p2,
    ;
    assert(spec_required_bytes(r1, m1) * 6 <= spec_required_bytes(r2, m2) * 6) by (nonlinear_arith)
        requires
            spec_required_bytes(r1, m1) <= spec_required_bytes(r2, m2),
    ;
    lemma_div_is_ordered(
        (spec_required_bytes(r1, m1) * 6) as int,
        (spec_required_bytes(r2, m2) * 6) as int,
        5,
    );
}

/// The estimate: required hundredths of a gigabyte on success, or the
/// shortfall when the volume cannot hold the margined demand.
pub fn estimate(resolution: Resolution, media: &MediaInfo, free_bytes: u64) -> (r: Result<
    u64,
    StorageError,
>)
    requires
        media.wf(),
    ensures
        free_bytes >= spec_required_margin_bytes(resolution, *media) ==> r == Ok::<
            u64,
            StorageError,
        >(spec_centi_gb(spec_required_margin_bytes(resolution, *media)) as u64),
        free_bytes < spec_required_margin_bytes(resolution, *media) ==> r == Err::<
            u64,
            StorageError,
        >(
            StorageError::Insufficient {
                required_centi_gb: spec_centi_gb_sat(
                    spec_required_margin_bytes(resolution, *media),
                ) as u64,
                available_centi_gb: spec_centi_gb(free_bytes as nat) as u64,
            },
        ),
{
    let ghost margin = spec_required_margin_bytes(resolution, *media);
    let num: u128 = media.rate.num as u128;
    let den: u128 = media.rate.den as u128;
    proof {
        assert((media.duration_ms as int) * (media.rate.num as int) < 0x1000000000000000000000000)
            by (nonlinear_arith)
            requires
                media.duration_ms <= u64::MAX,
                media.rate.num <= u32::MAX,
        ;
    }
    let prod: u128 = (media.duration_ms as u128) * num;
    let denx: u128 = 1000 * den;
    let frames: u128 = (prod + (denx - 1)) / denx;
    proof {
        assert(frames as nat == spec_total_frames(
            media.duration_ms as nat,
            media.rate.num as nat,
            media.rate.den as nat,
        ));
    }
    let (w, h): (u32, u32) = match resolution.target_size() {
        Some(wh) => wh,
        None => (media.width, media.height),
    };
    proof {
        assert((w as int) * (h as int) * 4 < 0x50000000000000000) by (nonlinear_arith)
            requires
                w <= u32::MAX,
                h <= u32::MAX,
        ;
        assert(w == spec_dims(resolution, *media).0 && h == spec_dims(resolution, *media).1);
    }
    let bpf: u128 = (w as u128) * (h as u128) * 4;
    let avail_centi: u64 = centi_of_u64(free_bytes);
    if frames != 0 && bpf > u128::MAX / frames {
        proof {
            lemma_fundamental_div_mod(u128::MAX as int, frames as int);
            lemma_mod_bound(u128::MAX as int, frames as int);
            assert(bpf * frames > u128::MAX) by (nonlinear_arith)
                requires
                    bpf as int >= u128::MAX as int / (frames as int) + 1,
                    (frames as int) * (u128::MAX as int / (frames as int)) + u128::MAX as int % (
                    frames as int) == u128::MAX,
                    0 <= u128::MAX as int % (frames as int) < frames as int,
                    frames >= 1,
            ;
            lemma_too_large(spec_required_bytes(resolution, *media));
            assert(spec_required_bytes(resolution, *media) == bpf * frames);
        }
        return Err(
            StorageError::Insufficient {
                required_centi_gb: u64::MAX,
                available_centi_gb: avail_centi,
            },
        );
    }
    proof {
        if frames != 0 {
            lemma_fundamental_div_mod(u128::MAX as int, frames as int);
            lemma_mod_bound(u128::MAX as int, frames as int);
            assert(bpf * frames <= u128::MAX) by (nonlinear_arith)
                requires
                    bpf as int <= u128::MAX as int / (frames as int),
                    (frames as int) * (u128::MAX as int / (frames as int)) + u128::MAX as int % (
                    frames as int) == u128::MAX,
                    0 <= u128::MAX as int % (frames as int),
                    frames >= 1,
                    bpf >= 0,
            ;
        }
    }
    let req: u128 = if frames == 0 {
        0
    } else {
        bpf * frames
    };
    proof {
        let pix: nat = (spec_dims(resolution, *media).0 as nat) * (spec_dims(
            resolution,
            *media,
        ).1 as nat) * 4;
        assert(spec_required_bytes(resolution, *media) == pix * (frames as nat));
        if frames == 0 {
            assert(pix * 0 == 0) by (nonlinear_arith);
        }
        assert(req == spec_required_bytes(resolution, *media));
    }
    if req > u128::MAX / 6 {
        proof {
            assert(req * 6 / 5 >= req) by {
                lemma_margin_ge(req as nat);
            }
            lemma_too_large_margin(req as nat);
        }
        return Err(
            StorageError::Insufficient {
                required_centi_gb: u64::MAX,
                available_centi_gb: avail_centi,
            },
        );
    }
    proof {
        lemma_fundamental_div_mod(u128::MAX as int, 6);
        lemma_mod_bound(u128::MAX as int, 6);
        assert(req * 6 <= u128::MAX) by (nonlinear_arith)
            requires
                req <= u128::MAX as int / 6,
                0 <= req,
                6 * (u128::MAX as int / 6) + u128::MAX as int % 6 == u128::MAX,
                0 <= u128::MAX as int % 6,
        ;
    }
    let margined: u128 = (req * 6) / 5;
    proof {
        assert(margined == margin);
    }
    if margined > u128::MAX / 100 {
        proof {
            lemma_too_large_centi(margin);
        }
        return Err(
            StorageError::Insufficient {
                required_centi_gb: u64::MAX,
                available_centi_gb: avail_centi,
            },
        );
    }
    proof {
        lemma_fundamental_div_mod(u128::MAX as int, 100);
        lemma_mod_bound(u128::MAX as int, 100);
        assert(margined * 100 <= u128::MAX) by (nonlinear_arith)
            requires
                margined <= u128::MAX as int / 100,
                0 <= margined,
                100 * (u128::MAX as int / 100) + u128::MAX as int % 100 == u128::MAX,
                0 <= u128::MAX as int % 100,
        ;
    }
    let rc: u128 = margined * 100 / 0x40000000;
    if (free_bytes as u128) < margined {
        let required_centi: u64 = if rc > 0xffff_ffff_ffff_ffff {
            u64::MAX
        } else {
            rc as u64
        };
        Err(
            StorageError::Insufficient {
                required_centi_gb: required_centi,
                available_centi_gb: avail_centi,
            },
        )
    } else {
        proof {
            assert(margined * 100 <= (free_bytes as int) * 100) by (nonlinear_arith)
                requires
                    margined <= free_bytes as int,
                    0 <= margined,
            ;
            lemma_div_is_ordered((margined * 100) as int, (free_bytes as int) * 100, 0x40000000);
            lemma_centi_of_u64_fits(free_bytes);
        }
        Ok(rc as u64)
    }
}

/// Computes the export's frame count, saturated to a `u64`.
pub fn total_frames_of(media: &MediaInfo) -> (r: u64)
    requires
        media.wf(),
    ensures
        r == spec_total_frames_sat(*media),
{
    proof {
        assert((media.duration_ms as int) * (media.rate.num as int) < 0x1000000000000000000000000)
            by (nonlinear_arith)
            requires
                media.duration_ms <= u64::MAX,
                media.rate.num <= u32::MAX,
        ;
    }
    let prod: u128 = (media.duration_ms as u128) * (media.rate.num as u128);
    let denx: u128 = 1000 * (media.rate.den as u128);
    let frames: u128 = (prod + (denx - 1)) / denx;
    if frames > 0xffff_ffff_ffff_ffff {
        u64::MAX
    } else {
        frames as u64
    }
}

#[verifier::external_type_specification]
#[verifier::external_body]
pub struct ExIoError(std::io::Error);

/// Relies on fs2::available_space: the bytes available to non-privileged
/// users on the file system holding `path`.  The answer depends on the
/// disk's state at the moment of the call, so nothing is promised of it.
#[verifier::external_body]
fn available_space_of(path: &str) -> Result<u64, std::io::Error> {
    fs2::available_space(std::path::Path::new(path))
}

/// Queries free space on the output volume and holds it against this run's
/// demand.  Whatever the volume reports, the required figure is the exact
/// estimate; when the query itself fails the check refuses with
/// `Unavailable` rather than guessing.
pub fn check_storage(resolution: Resolution, media: &MediaInfo, output_dir: &str) -> (r: Result<
    u64,
    StorageError,
>)
    requires
        media.wf(),
    ensures
        r matches Ok(g) ==> g == spec_centi_gb(spec_required_margin_bytes(resolution, *media)),
        r matches Err(e) ==> (e is Unavailable || (e matches StorageError::Insufficient {
            required_centi_gb,
            available_centi_gb,
        } && required_centi_gb == spec_centi_gb_sat(
            spec_required_margin_bytes(resolution, *media),
        ))),
{
    match available_space_of(output_dir) {
        Ok(free) => estimate(resolution, media, free),
        Err(_) => Err(StorageError::Unavailable),
    }
}

/// Demand past the whole `u128` range dwarfs any `u64` of free bytes.
proof fn lemma_too_large(req: nat)
    requires
        req > u128::MAX,
    ensures
        spec_centi_gb_sat(req * 6 / 5) == u64::MAX,
        req * 6 / 5 > u64::MAX,
{
    lemma_margin_ge(req);
    lemma_centi_blows_up(req * 6 / 5);
}

/// The same, phrased for a demand just past the margin multiply.
proof fn lemma_too_large_margin(req: nat)
    requires
        req > u128::MAX / 6,
    ensures
        spec_centi_gb_sat(req * 6 / 5) == u64::MAX,
        req * 6 / 5 > u64::MAX,
{
    assert(req * 6 >= (u128::MAX as nat / 6 + 1) * 6) by (nonlinear_arith)
        requires
            req >= u128::MAX as nat / 6 + 1,
    ;
    lemma_fundamental_div_mod(u128::MAX as int, 6);
    lemma_mod_bound(u128::MAX as int, 6);
    assert(req * 6 >= u128::MAX - 5);
    lemma_div_is_ordered((u128::MAX - 5) as int, (req * 6) as int, 5);
    lemma_centi_blows_up(req * 6 / 5);
}

/// The same, phrased for a margined demand past the centi multiply.
proof fn lemma_too_large_centi(margin: nat)
    requires
        margin > u128::MAX / 100,
    ensures
        spec_centi_gb_sat(margin) == u64::MAX,
        margin > u64::MAX,
{
    lemma_centi_blows_up(margin);
}

/// Any byte count past `u128::MAX / 100` reports more hundredths of a
/// gigabyte than a `u64` can carry.
proof fn lemma_centi_blows_up(b: nat)
    requires
        b > u128::MAX / 100,
    ensures
        spec_centi_gb_sat(b) == u64::MAX,
        b > u64::MAX,
{
    assert(b * 100 > (u128::MAX as nat / 100) * 100) by (nonlinear_arith)
        requires
            b > u128::MAX as nat / 100,
    ;
    lemma_fundamental_div_mod(u128::MAX as int, 100);
    lemma_mod_bound(u128::MAX as int, 100);
    assert(b * 100 > u128::MAX - 99);
    lemma_div_is_ordered((u128::MAX - 99) as int, (b * 100) as int, 0x40000000);
    assert((u128::MAX - 99) as int / 0x40000000 > u64::MAX);
}

/// Hundredths of a gigabyte in a `u64` byte count; always fits.
fn centi_of_u64(bytes: u64) -> (r: u64)
    ensures
        r == spec_centi_gb(bytes as nat),
{
    proof {
        lemma_centi_of_u64_fits(bytes);
    }
    (((bytes as u128) * 100) / 0x40000000) as u64
}

proof fn lemma_centi_of_u64_fits(bytes: u64)
    ensures
        spec_centi_gb(bytes as nat) <= u64::MAX as nat * 100 / 0x40000000,
{
    assert(bytes * 100 <= u64::MAX as nat * 100) by (nonlinear_arith)
        requires
            bytes <= u64::MAX,
    ;
    lemma_div_is_ordered((bytes as nat * 100) as int, (u64::MAX as nat * 100) as int, 0x40000000);
}

} // verus!
