//! The resume scanner.  The output directory's numbered image files are the
//! only durable record of a run; the highest index found among them is where
//! the next run starts.  Directory listing is the caller's business: the
//! scan works on the plain file names.
//!
//! A name counts when it is the base name, then any run of separator bytes,
//! then a numeral, then `.png` (repeated `.png` suffixes collapse, as the
//! trimming in the encoder's own scan has it).  Anything else — a foreign
//! prefix, a malformed numeral, an overlarge numeral — is silently ignored.

use vstd::prelude::*;
use vstd::slice::{slice_subrange, slice_to_vec};
use crate::numeric::{
    all_digits,
    dec_value,
    is_digit,
    lemma_padded4_bytes,
    padded4_bytes,
    parse_u32,
    push_dec_bytes,
    u32_parsable,
};

verus! {

/// The bytes of the suffix `.png`.
pub open spec fn png_suffix() -> Seq<u8> {
    seq![46u8, 112u8, 110u8, 103u8]
}

/// `s` with every leading `b` byte removed.
pub open spec fn strip_leading(s: Seq<u8>, b: u8) -> Seq<u8>
    decreases s.len(),
{
    if s.len() > 0 && s.first() == b {
        strip_leading(s.drop_first(), b)
    } else {
        s
    }
}

/// `s` with every trailing `.png` group removed.
pub open spec fn strip_pngs(s: Seq<u8>) -> Seq<u8>
    decreases s.len(),
{
    if s.len() >= 4 && s.skip(s.len() - 4) == png_suffix() {
        strip_pngs(s.take(s.len() - 4))
    } else {
        s
    }
}

/// `name` ends in `.png`.
pub open spec fn ends_with_png(name: Seq<u8>) -> bool {
    name.len() >= 4 && name.skip(name.len() - 4) == png_suffix()
}

/// A nonempty numeral whose value fits a frame index.
pub open spec fn digits_ok(d: Seq<u8>) -> bool {
    d.len() > 0 && all_digits(d) && dec_value(d) <= u32::MAX
}

/// What is left of `name` once the base name, the separators and the
/// `.png` groups are gone: the candidate numeral.
pub open spec fn index_digits(name: Seq<u8>, base: Seq<u8>, sep: u8) -> Seq<u8> {
    strip_pngs(strip_leading(name.skip(base.len() as int), sep))
}

/// `name` is a numbered frame of this base name.
pub open spec fn name_matches(name: Seq<u8>, base: Seq<u8>, sep: u8) -> bool {
    &&& name.len() >= base.len()
    &&& name.take(base.len() as int) == base
    &&& ends_with_png(name)
    &&& digits_ok(index_digits(name, base, sep))
}

/// The frame index carried by a matching name.
pub open spec fn name_index(name: Seq<u8>, base: Seq<u8>, sep: u8) -> nat {
    dec_value(index_digits(name, base, sep))
}

/// The resume point of a directory listing: the highest index among the
/// matching names, zero when none match.
pub open spec fn resume_point(names: Seq<Seq<u8>>, base: Seq<u8>, sep: u8) -> nat
    decreases names.len(),
{
    if names.len() == 0 {
        0
    } else {
        let rest = resume_point(names.drop_last(), base, sep);
        if name_matches(names.last(), base, sep) && name_index(names.last(), base, sep) > rest {
            name_index(names.last(), base, sep)
        } else {
            rest
        }
    }
}

proof fn lemma_strip_leading_skip(s: Seq<u8>, b: u8, i: int)
    requires
        0 <= i <= s.len(),
        forall|j: int| 0 <= j < i ==> s[j] == b,
        i == s.len() || s[i] != b,
    ensures
        strip_leading(s, b) =~= s.subrange(i, s.len() as int),
    decreases i,
{
    if i == 0 {
        assert(strip_leading(s, b) =~= s.subrange(0, s.len() as int));
    } else {
        assert(s.first() == b);
        assert(s.drop_first() =~= s.subrange(1, s.len() as int));
        lemma_strip_leading_skip(s.drop_first(), b, i - 1);
        assert(s.drop_first().subrange(i - 1, s.drop_first().len() as int) =~= s.subrange(
            i,
            s.len() as int,
        ));
    }
}

/// The resume point bounds every matching index and, when non-zero, is
/// itself carried by some matching name.
pub proof fn lemma_resume_point_bounds(names: Seq<Seq<u8>>, base: Seq<u8>, sep: u8)
    ensures
        forall|i: int|
            0 <= i < names.len() && name_matches(#[trigger] names[i], base, sep) ==> name_index(
                names[i],
                base,
                sep,
            ) <= resume_point(names, base, sep),
        resume_point(names, base, sep) == 0 || exists|i: int|
            0 <= i < names.len() && name_matches(#[trigger] names[i], base, sep) && name_index(
                names[i],
                base,
                sep,
            ) == resume_point(names, base, sep),
    decreases names.len(),
{
    if names.len() > 0 {
        lemma_resume_point_bounds(names.drop_last(), base, sep);
        assert(forall|i: int|
            0 <= i < names.len() - 1 ==> #[trigger] names.drop_last()[i] == names[i]);
        assert(names.last() == names[names.len() - 1]);
        let r = resume_point(names, base, sep);
        let rest = resume_point(names.drop_last(), base, sep);
        assert forall|i: int|
            0 <= i < names.len() && name_matches(#[trigger] names[i], base, sep) implies name_index(
            names[i],
            base,
            sep,
        ) <= r by {
            if i < names.len() - 1 {
                assert(names.drop_last()[i] == names[i]);
                assert(name_index(names[i], base, sep) <= rest);
            }
        }
        if r != 0 {
            if name_matches(names.last(), base, sep) && name_index(names.last(), base, sep)
                > rest {
                assert(name_matches(names[names.len() - 1], base, sep) && name_index(
                    names[names.len() - 1],
                    base,
                    sep,
                ) == r);
            } else {
                let i = choose|i: int|
                    0 <= i < names.drop_last().len() && name_matches(
                        #[trigger] names.drop_last()[i],
                        base,
                        sep,
                    ) && name_index(names.drop_last()[i], base, sep) == rest;
                assert(name_matches(names[i], base, sep) && name_index(names[i], base, sep) == r);
            }
        }
    }
}

/// An empty or wholly non-matching listing resumes at zero.
pub proof fn lemma_resume_point_no_match(names: Seq<Seq<u8>>, base: Seq<u8>, sep: u8)
    requires
        forall|i: int| 0 <= i < names.len() ==> !name_matches(#[trigger] names[i], base, sep),
    ensures
        resume_point(names, base, sep) == 0,
    decreases names.len(),
{
    if names.len() > 0 {
        assert(forall|i: int|
            0 <= i < names.len() - 1 ==> #[trigger] names.drop_last()[i] == names[i]);
        assert(!name_matches(names[names.len() - 1], base, sep));
        lemma_resume_point_no_match(names.drop_last(), base, sep);
    }
}

/// When some file carries index `k` and no matching file carries more, the
/// scan resumes exactly at `k`.
pub proof fn lemma_resume_point_exact(names: Seq<Seq<u8>>, base: Seq<u8>, sep: u8, k: nat)
    requires
        forall|i: int|
            0 <= i < names.len() && name_matches(#[trigger] names[i], base, sep) ==> name_index(
                names[i],
                base,
                sep,
            ) <= k,
        exists|i: int|
            0 <= i < names.len() && name_matches(#[trigger] names[i], base, sep) && name_index(
                names[i],
                base,
                sep,
            ) == k,
    ensures
        resume_point(names, base, sep) == k,
{
    lemma_resume_point_bounds(names, base, sep);
    let w = choose|i: int|
        0 <= i < names.len() && name_matches(#[trigger] names[i], base, sep) && name_index(
            names[i],
            base,
            sep,
        ) == k;
    assert(name_index(names[w], base, sep) <= resume_point(names, base, sep));
}

/// The file name the export writes for frame `k`: the base name, the
/// separator, the zero-padded four-digit index, the image suffix.
pub open spec fn spec_frame_file(base: Seq<u8>, sep: u8, k: u32) -> Seq<u8> {
    base + seq![sep] + padded4_bytes(k as nat) + png_suffix()
}

/// Builds the file name of frame `k`, as the export writes it.
pub fn frame_file_bytes(base: &[u8], sep: u8, k: u32) -> (r: Vec<u8>)
    ensures
        r@ == spec_frame_file(base@, sep, k),
{
    let mut v: Vec<u8> = slice_to_vec(base);
    v.push(sep);
    if k < 10 {
        v.push(48);
        v.push(48);
        v.push(48);
    } else if k < 100 {
        v.push(48);
        v.push(48);
    } else if k < 1000 {
        v.push(48);
    }
    push_dec_bytes(&mut v, k);
    v.push(46);
    v.push(112);
    v.push(110);
    v.push(103);
    proof {
        assert(v@ =~= spec_frame_file(base@, sep, k));
    }
    v
}

/// The naming convention is consistent end to end: every file name the
/// export writes is recognized by the resume scan, and carries its own
/// frame index — for any separator that is not itself a digit.
pub proof fn lemma_scan_recognizes_produced_names(base: Seq<u8>, sep: u8, k: u32)
    requires
        !is_digit(sep),
    ensures
        name_matches(spec_frame_file(base, sep, k), base, sep),
        name_index(spec_frame_file(base, sep, k), base, sep) == k,
{
    lemma_padded4_bytes(k as nat);
    let digits = padded4_bytes(k as nat);
    let name = spec_frame_file(base, sep, k);
    assert(name.take(base.len() as int) =~= base);
    assert(name.skip(name.len() - 4) =~= png_suffix());
    let rest = name.skip(base.len() as int);
    assert(rest =~= seq![sep] + digits + png_suffix());
    let after_sep = digits + png_suffix();
    assert(rest.first() == sep);
    assert(rest.drop_first() =~= after_sep);
    assert(after_sep.first() == digits[0]);
    assert(is_digit(digits[0]));
    assert(digits[0] != sep);
    assert(strip_leading(after_sep, sep) == after_sep);
    assert(strip_leading(rest, sep) == strip_leading(after_sep, sep));
    assert(after_sep.len() >= 8);
    assert(after_sep.skip(after_sep.len() - 4) =~= png_suffix());
    assert(after_sep.take(after_sep.len() - 4) =~= digits);
    assert(strip_pngs(after_sep) == strip_pngs(digits));
    assert(strip_pngs(digits) == digits) by {
        if digits.len() >= 4 && digits.skip(digits.len() - 4) == png_suffix() {
            assert(digits.skip(digits.len() - 4)[0] == digits[digits.len() - 4]);
            assert(is_digit(digits[digits.len() - 4]));
        }
    }
    assert(index_digits(name, base, sep) == digits);
}

/// Reads the frame index out of one file name, if the name is a numbered
/// frame of this base name.
pub fn parse_name_index(name: &[u8], base: &[u8], sep: u8) -> (r: Option<u32>)
    ensures
        r == (if name_matches(name@, base@, sep) {
            Option::Some(name_index(name@, base@, sep) as u32)
        } else {
            Option::<u32>::None
        }),
{
    if name.len() < base.len() {
        return None;
    }
    let mut p: usize = 0;
    while p < base.len()
        invariant
            0 <= p <= base@.len() <= name@.len(),
            forall|j: int| 0 <= j < p ==> name@[j] == base@[j],
        decreases base@.len() - p,
    {
        if name[p] != base[p] {
            proof {
                assert(name@.take(base@.len() as int)[p as int] != base@[p as int]);
            }
            return None;
        }
        p = p + 1;
    }
    proof {
        assert(name@.take(base@.len() as int) =~= base@);
    }
    if name.len() < 4 {
        return None;
    }
    if !(name[name.len() - 4] == 46 && name[name.len() - 3] == 112 && name[name.len() - 2] == 110
        && name[name.len() - 1] == 103) {
        proof {
            if name@.skip(name@.len() - 4) == png_suffix() {
                assert(name@.skip(name@.len() - 4)[0] == name@[name@.len() - 4]);
                assert(name@.skip(name@.len() - 4)[1] == name@[name@.len() - 3]);
                assert(name@.skip(name@.len() - 4)[2] == name@[name@.len() - 2]);
                assert(name@.skip(name@.len() - 4)[3] == name@[name@.len() - 1]);
            }
        }
        return None;
    }
    proof {
        assert(name@.skip(name@.len() - 4) =~= png_suffix());
    }
    let mut i: usize = base.len();
    while i < name.len() && name[i] == sep
        invariant
            base@.len() <= i <= name@.len(),
            forall|j: int| base@.len() <= j < i ==> name@[j] == sep,
        decreases name@.len() - i,
    {
        i = i + 1;
    }
    proof {
        let rest = name@.skip(base@.len() as int);
        lemma_strip_leading_skip(rest, sep, i - base@.len());
        assert(strip_leading(rest, sep) =~= name@.subrange(i as int, name@.len() as int));
    }
    let mut j: usize = name.len();
    while j - i >= 4 && name[j - 4] == 46 && name[j - 3] == 112 && name[j - 2] == 110 && name[j
        - 1] == 103
        invariant
            i <= j <= name@.len(),
            strip_pngs(name@.subrange(i as int, name@.len() as int)) == strip_pngs(
                name@.subrange(i as int, j as int),
            ),
        decreases j,
    {
        proof {
            let cur = name@.subrange(i as int, j as int);
            assert(cur.skip(cur.len() - 4) =~= png_suffix());
            assert(cur.take(cur.len() - 4) =~= name@.subrange(i as int, j - 4));
        }
        j = j - 4;
    }
    proof {
        let cur = name@.subrange(i as int, j as int);
        if cur.len() >= 4 && cur.skip(cur.len() - 4) == png_suffix() {
            assert(cur.skip(cur.len() - 4)[0] == name@[j - 4]);
            assert(cur.skip(cur.len() - 4)[1] == name@[j - 3]);
            assert(cur.skip(cur.len() - 4)[2] == name@[j - 2]);
            assert(cur.skip(cur.len() - 4)[3] == name@[j - 1]);
            assert(false);
        }
        assert(strip_pngs(cur) == cur);
        assert(index_digits(name@, base@, sep) == cur);
    }
    let digits = slice_subrange(name, i, j);
    parse_u32(digits)
}

/// The resume scan: the highest frame index among the listed names that
/// match the base name, zero when none do.  This index is where the next
/// run starts, so the boundary frame is regenerated rather than trusted.
pub fn find_resume_point(names: &Vec<Vec<u8>>, base: &[u8], sep: u8) -> (r: u32)
    ensures
        r == resume_point(names.deep_view(), base@, sep),
        forall|i: int|
            0 <= i < names.deep_view().len() && name_matches(
                #[trigger] names.deep_view()[i],
                base@,
                sep,
            ) ==> name_index(names.deep_view()[i], base@, sep) <= r,
        r == 0 || exists|i: int|
            0 <= i < names.deep_view().len() && name_matches(
                #[trigger] names.deep_view()[i],
                base@,
                sep,
            ) && name_index(names.deep_view()[i], base@, sep) == r,
{
    let ghost dv = names.deep_view();
    let mut max: u32 = 0;
    let mut k: usize = 0;
    while k < names.len()
        invariant
            dv == names.deep_view(),
            dv.len() == names@.len(),
            0 <= k <= names@.len(),
            max == resume_point(dv.take(k as int), base@, sep),
        decreases names@.len() - k,
    {
        proof {
            assert(dv[k as int] == names@[k as int]@);
        }
        let idx_opt = parse_name_index(names[k].as_slice(), base, sep);
        proof {
            assert(dv.take(k + 1).drop_last() =~= dv.take(k as int));
            assert(dv.take(k + 1).last() == dv[k as int]);
        }
        match idx_opt {
            Some(v) => {
                if v > max {
                    max = v;
                }
            },
            None => {},
        }
        k = k + 1;
    }
    proof {
        assert(dv.take(names@.len() as int) =~= dv);
        lemma_resume_point_bounds(dv, base@, sep);
    }
    max
}

} // verus!
