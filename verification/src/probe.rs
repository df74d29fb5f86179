//! The media prober's parsing.  The external probing tool answers each query
//! with a single text line; the functions here turn that line into plain
//! values.  Durations are held in whole milliseconds and frame rates as
//! exact rationals, so an answer such as `30000/1001` keeps its value.
//!
//! Spawning the tool and collecting its output is the caller's business:
//! a non-zero exit becomes `ProbeError::Tool` there, while an answer these
//! functions reject becomes `ProbeError::Unparsable`.

use vstd::prelude::*;
use vstd::slice::{slice_subrange, slice_to_vec};
use crate::numeric::{
    all_digits,
    check_all_digits,
    dec_value,
    find_first,
    first_index_of,
    lemma_dec_value_bound,
    lemma_dec_value_concat,
    lemma_pow10_small,
    parse_u32,
    parse_u64,
    pow10,
    pow10_u32,
    trim_bytes,
    trimmed,
    u32_parsable,
};

verus! {

/// Why a probe failed.
#[derive(Debug)]
pub enum ProbeError {
    /// The external tool was missing, could not be run, or exited with a
    /// diagnostic; the text is the tool's own.
    Tool(String),
    /// The tool's answer did not have the expected shape; carries the
    /// answer as received.
    Unparsable(Vec<u8>),
}

/// An exact frame rate of `num / den` frames per second.
#[derive(Debug, Clone, Copy, PartialEq, Eq, Structural)]
pub struct FrameRate {
    pub num: u32,
    pub den: u32,
}

impl FrameRate {
    /// A frame rate never divides by zero.
    pub open spec fn wf(self) -> bool {
        self.den > 0
    }
}

/// What probing the source reports, as plain values.
#[derive(Debug, Clone, Copy, PartialEq, Eq, Structural)]
pub struct MediaInfo {
    pub width: u32,
    pub height: u32,
    pub duration_ms: u64,
    pub rate: FrameRate,
}

impl MediaInfo {
    pub open spec fn wf(self) -> bool {
        self.rate.wf()
    }
}

/// Wraps the rejected answer.
fn unparsable(line: &[u8]) -> (e: ProbeError)
    ensures
        e matches ProbeError::Unparsable(raw) && raw@ == line@,
{
    ProbeError::Unparsable(slice_to_vec(line))
}

/// The trimmed resolution answer splits at its first comma into two
/// numerals: width and height.
pub open spec fn resolution_line_ok(s: Seq<u8>) -> bool {
    let t = trimmed(s);
    let c = first_index_of(t, 44);
    c >= 0 && u32_parsable(t.take(c)) && u32_parsable(t.skip(c + 1))
}

/// The width denoted by a resolution answer.
pub open spec fn spec_resolution_width(s: Seq<u8>) -> nat {
    dec_value(trimmed(s).take(first_index_of(trimmed(s), 44)))
}

/// The height denoted by a resolution answer.
pub open spec fn spec_resolution_height(s: Seq<u8>) -> nat {
    dec_value(trimmed(s).skip(first_index_of(trimmed(s), 44) + 1))
}

/// Parses the probing tool's resolution answer, `"<width>,<height>"`.
pub fn parse_resolution_line(line: &[u8]) -> (r: Result<(u32, u32), ProbeError>)
    ensures
        resolution_line_ok(line@) ==> (match r {
            Ok(wh) => wh.0 == spec_resolution_width(line@) && wh.1 == spec_resolution_height(
                line@,
            ),
            Err(_) => false,
        }),
        !resolution_line_ok(line@) ==> (match r {
            Ok(_) => false,
            Err(e) => match e {
                ProbeError::Unparsable(raw) => raw@ == line@,
                _ => false,
            },
        }),
{
    let t = trim_bytes(line);
    match find_first(t.as_slice(), 44) {
        Some(c) => {
            let left = slice_subrange(t.as_slice(), 0, c);
            let right = slice_subrange(t.as_slice(), c + 1, t.len());
            proof {
                assert(left@ =~= trimmed(line@).take(c as int));
                assert(right@ =~= trimmed(line@).skip(c + 1));
            }
            match (parse_u32(left), parse_u32(right)) {
                (Some(w), Some(h)) => Ok((w, h)),
                _ => Err(unparsable(line)),
            }
        },
        None => Err(unparsable(line)),
    }
}

/// A decimal numeral, optionally with a fractional part: digits, or digits
/// around a single dot with at least one digit in all.
pub open spec fn decimal_shape_ok(t: Seq<u8>) -> bool {
    let d = first_index_of(t, 46);
    if d == -1 {
        t.len() > 0 && all_digits(t)
    } else {
        all_digits(t.take(d)) && all_digits(t.skip(d + 1)) && t.len() > 1
    }
}

/// The digits before the dot (the whole string when there is no dot).
pub open spec fn decimal_int_part(t: Seq<u8>) -> Seq<u8> {
    let d = first_index_of(t, 46);
    if d == -1 {
        t
    } else {
        t.take(d)
    }
}

/// The digits after the dot (empty when there is no dot).
pub open spec fn decimal_frac_part(t: Seq<u8>) -> Seq<u8> {
    let d = first_index_of(t, 46);
    if d == -1 {
        Seq::empty()
    } else {
        t.skip(d + 1)
    }
}

/// Milliseconds denoted by a fractional-seconds digit string: the first
/// three digits count, shorter strings scale up.
pub open spec fn frac_ms(f: Seq<u8>) -> nat {
    if f.len() >= 3 {
        dec_value(f.take(3))
    } else {
        dec_value(f) * pow10((3 - f.len()) as nat)
    }
}

/// The duration in milliseconds denoted by a duration answer; fractional
/// digits beyond the third are cut off.
pub open spec fn spec_duration_ms(s: Seq<u8>) -> nat {
    let t = trimmed(s);
    dec_value(decimal_int_part(t)) * 1000 + frac_ms(decimal_frac_part(t))
}

/// The trimmed duration answer is a decimal numeral of seconds whose
/// millisecond count fits the result type.
pub open spec fn duration_line_ok(s: Seq<u8>) -> bool {
    decimal_shape_ok(trimmed(s)) && spec_duration_ms(s) <= u64::MAX
}

/// Parses the probing tool's duration answer, seconds as a decimal numeral,
/// into whole milliseconds.
pub fn parse_duration_line(line: &[u8]) -> (r: Result<u64, ProbeError>)
    ensures
        duration_line_ok(line@) ==> r == Ok::<u64, ProbeError>(spec_duration_ms(line@) as u64),
        !duration_line_ok(line@) ==> (r matches Err(e) && e matches ProbeError::Unparsable(raw)
            && raw@ == line@),
{
    let t = trim_bytes(line);
    let ghost tv = trimmed(line@);
    let (ip, fp): (&[u8], &[u8]) = match find_first(t.as_slice(), 46) {
        Some(d) => {
            if t.len() == 1 {
                return Err(unparsable(line));
            }
            (slice_subrange(t.as_slice(), 0, d), slice_subrange(t.as_slice(), d + 1, t.len()))
        },
        None => {
            if t.len() == 0 {
                return Err(unparsable(line));
            }
            (
                slice_subrange(t.as_slice(), 0, t.len()),
                slice_subrange(t.as_slice(), t.len(), t.len()),
            )
        },
    };
    proof {
        assert(ip@ =~= decimal_int_part(tv));
        assert(fp@ =~= decimal_frac_part(tv));
    }
    if !check_all_digits(ip) || !check_all_digits(fp) {
        return Err(unparsable(line));
    }
    let iv: u64 = if ip.len() == 0 {
        0
    } else {
        match parse_u64(ip) {
            Some(v) => v,
            None => {
                proof {
                    assert(dec_value(ip@) > u64::MAX);
                    assert(dec_value(ip@) * 1000 >= dec_value(ip@) * 1) by (nonlinear_arith);
                }
                return Err(unparsable(line));
            },
        }
    };
    let fv: u64 = if fp.len() >= 3 {
        let first3 = slice_subrange(fp, 0, 3);
        proof {
            assert(first3@ =~= decimal_frac_part(tv).take(3));
            assert(all_digits(first3@));
            lemma_dec_value_bound(first3@);
            lemma_pow10_small();
        }
        match parse_u32(first3) {
            Some(v) => v as u64,
            None => {
                proof {
                    assert(false);
                }
                return Err(unparsable(line));
            },
        }
    } else if fp.len() > 0 {
        proof {
            lemma_dec_value_bound(fp@);
            lemma_pow10_small();
        }
        match parse_u32(fp) {
            Some(v) => {
                if fp.len() == 1 {
                    (v as u64) * 100
                } else {
                    (v as u64) * 10
                }
            },
            None => {
                proof {
                    assert(false);
                }
                return Err(unparsable(line));
            },
        }
    } else {
        proof {
            lemma_pow10_small();
        }
        0
    };
    if iv > u64::MAX / 1000 {
        proof {
            assert(iv * 1000 > u64::MAX) by (nonlinear_arith)
                requires
                    iv > u64::MAX as int / 1000,
                    iv <= u64::MAX,
            ;
        }
        return Err(unparsable(line));
    }
    proof {
        assert(iv * 1000 <= u64::MAX) by (nonlinear_arith)
            requires
                iv <= u64::MAX as int / 1000,
                0 <= iv,
        ;
    }
    let base: u64 = iv * 1000;
    if fv > u64::MAX - base {
        return Err(unparsable(line));
    }
    Ok(base + fv)
}

/// The trimmed frame-rate answer is either a rational `num/den` with a
/// non-zero denominator, or a bare decimal numeral small enough that its
/// digits, shifted past the fraction, fit in `u32`.
pub open spec fn frame_rate_line_ok(s: Seq<u8>) -> bool {
    let t = trimmed(s);
    let sl = first_index_of(t, 47);
    if sl >= 0 {
        u32_parsable(t.take(sl)) && u32_parsable(t.skip(sl + 1)) && dec_value(t.skip(sl + 1)) > 0
    } else {
        decimal_shape_ok(t) && decimal_frac_part(t).len() <= 9 && dec_value(decimal_int_part(t))
            * pow10(decimal_frac_part(t).len()) + dec_value(decimal_frac_part(t)) <= u32::MAX
    }
}

/// The numerator denoted by a frame-rate answer.
pub open spec fn spec_rate_num(s: Seq<u8>) -> nat {
    let t = trimmed(s);
    let sl = first_index_of(t, 47);
    if sl >= 0 {
        dec_value(t.take(sl))
    } else {
        dec_value(decimal_int_part(t)) * pow10(decimal_frac_part(t).len()) + dec_value(
            decimal_frac_part(t),
        )
    }
}

/// The denominator denoted by a frame-rate answer.
pub open spec fn spec_rate_den(s: Seq<u8>) -> nat {
    let t = trimmed(s);
    let sl = first_index_of(t, 47);
    if sl >= 0 {
        dec_value(t.skip(sl + 1))
    } else {
        pow10(decimal_frac_part(t).len())
    }
}

/// Parses the probing tool's frame-rate answer: a rational `"num/den"`, or
/// a bare decimal numeral turned into an exact rational.  A zero
/// denominator is rejected.
pub fn parse_frame_rate_line(line: &[u8]) -> (r: Result<FrameRate, ProbeError>)
    ensures
        frame_rate_line_ok(line@) ==> (r matches Ok(fr) && fr.num == spec_rate_num(line@)
            && fr.den == spec_rate_den(line@) && fr.wf()),
        !frame_rate_line_ok(line@) ==> (r matches Err(e) && e matches ProbeError::Unparsable(raw)
            && raw@ == line@),
{
    let t = trim_bytes(line);
    let ghost tv = trimmed(line@);
    match find_first(t.as_slice(), 47) {
        Some(sl) => {
            let left = slice_subrange(t.as_slice(), 0, sl);
            let right = slice_subrange(t.as_slice(), sl + 1, t.len());
            proof {
                assert(left@ =~= tv.take(sl as int));
                assert(right@ =~= tv.skip(sl + 1));
            }
            match (parse_u32(left), parse_u32(right)) {
                (Some(n), Some(d)) => {
                    if d == 0 {
                        Err(unparsable(line))
                    } else {
                        Ok(FrameRate { num: n, den: d })
                    }
                },
                _ => Err(unparsable(line)),
            }
        },
        None => {
            let (ip, fp): (&[u8], &[u8]) = match find_first(t.as_slice(), 46) {
                Some(d) => {
                    if t.len() == 1 {
                        return Err(unparsable(line));
                    }
                    (
                        slice_subrange(t.as_slice(), 0, d),
                        slice_subrange(t.as_slice(), d + 1, t.len()),
                    )
                },
                None => {
                    if t.len() == 0 {
                        return Err(unparsable(line));
                    }
                    (
                        slice_subrange(t.as_slice(), 0, t.len()),
                        slice_subrange(t.as_slice(), t.len(), t.len()),
                    )
                },
            };
            proof {
                assert(ip@ =~= decimal_int_part(tv));
                assert(fp@ =~= decimal_frac_part(tv));
            }
            if !check_all_digits(ip) || !check_all_digits(fp) {
                return Err(unparsable(line));
            }
            if fp.len() > 9 {
                return Err(unparsable(line));
            }
            let mut digits: Vec<u8> = slice_to_vec(ip);
            let mut i: usize = 0;
            while i < fp.len()
                invariant
                    0 <= i <= fp@.len(),
                    digits@ == ip@ + fp@.take(i as int),
                decreases fp@.len() - i,
            {
                digits.push(fp[i]);
                proof {
                    assert(ip@ + fp@.take(i + 1) =~= (ip@ + fp@.take(i as int)).push(
                        fp@[i as int],
                    ));
                }
                i = i + 1;
            }
            proof {
                assert(digits@ =~= ip@ + fp@);
                lemma_dec_value_concat(ip@, fp@);
                assert(digits@.len() > 0);
            }
            match parse_u64(digits.as_slice()) {
                Some(v) => {
                    if v <= 0xffff_ffff {
                        let den: u32 = pow10_u32(fp.len());
                        Ok(FrameRate { num: v as u32, den })
                    } else {
                        Err(unparsable(line))
                    }
                },
                None => {
                    proof {
                        assert(all_digits(digits@)) by {
                            assert(forall|j: int|
                                0 <= j < digits@.len() ==> crate::numeric::is_digit(
                                    #[trigger] digits@[j],
                                )) by {
                                assert(forall|j: int|
                                    0 <= j < digits@.len() ==> digits@[j] == (if j < ip@.len() {
                                        ip@[j]
                                    } else {
                                        fp@[j - ip@.len()]
                                    }));
                            }
                        }
                        assert(dec_value(digits@) > u64::MAX);
                    }
                    Err(unparsable(line))
                },
            }
        },
    }
}

} // verus!
