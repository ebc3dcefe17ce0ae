//! The serialization layer's readers: locating cel and animation blocks in
//! C interchange text, and walking the binary project image.
//!
//! Per-record failures drop that record and the batch degrades gracefully;
//! structural corruption of the binary image (a record running past the end
//! of the file) drops the whole load.

use crate::animation::anim_from_c_bytes;
use crate::animation::spec_anim_frames_from_c;
use crate::animation::spec_anim_from_bin;
use crate::animation::spec_anim_matches;
use crate::animation::spec_frames_cells_ascii;
use crate::animation::spec_frames_sum;
use crate::animation::Animation;
use crate::cel::parse_cel_oams_bytes;
use crate::cel::spec_cel_from_bin;
use crate::cel::spec_parse_cel_oams;
use crate::cel::AnimationCel;
use crate::oam::OAM;
use crate::parse::all_ascii;
use crate::parse::find_from;
use crate::parse::lemma_find_from_ge;
use crate::parse::scan_positions;
use crate::parse::spec_all_ascii;
use crate::parse::spec_ascii_chars;
use crate::parse::spec_find_from;
use crate::parse::spec_scan_positions;
use crate::parse::string_from_ascii;
use vstd::prelude::*;
use vstd::slice::slice_subrange;
use vstd::slice::slice_to_vec;
use vstd::string::StringSliceAdditionalSpecFns;

verus! {

/// The bytes of the marker `"AnimationCel "` that opens a cel block.
pub open spec fn spec_cel_marker() -> Seq<u8> {
    seq![0x41u8, 0x6e, 0x69, 0x6d, 0x61, 0x74, 0x69, 0x6f, 0x6e, 0x43, 0x65, 0x6c, 0x20]
}

/// The bytes of the marker `"struct Animation "` that opens an animation
/// block.
pub open spec fn spec_anim_marker() -> Seq<u8> {
    seq![
        0x73u8,
        0x74,
        0x72,
        0x75,
        0x63,
        0x74,
        0x20,
        0x41,
        0x6e,
        0x69,
        0x6d,
        0x61,
        0x74,
        0x69,
        0x6f,
        0x6e,
        0x20,
    ]
}

/// Name and body of a block whose marker starts at `p` and whose name runs
/// `skip` bytes later up to the first `[`; the body runs from there to the
/// first `;`.  `None` when either delimiter is missing.
pub open spec fn spec_block_at(h: Seq<u8>, p: int, skip: int) -> Option<(Seq<u8>, Seq<u8>)> {
    match spec_find_from(h, seq![0x5bu8], p + skip) {
        None => None,
        Some(b) => match spec_find_from(h, seq![0x3bu8], b + 1) {
            None => None,
            Some(e) => Some((h.subrange(p + skip, b), h.subrange(b + 1, e))),
        },
    }
}

/// The `(name bytes, OAM list)` of every cel block that parses; blocks with
/// missing delimiters, malformed records or non-ASCII names are dropped.
pub open spec fn spec_cels_from_c(h: Seq<u8>, ps: Seq<int>) -> Seq<(Seq<u8>, Seq<OAM>)>
    decreases ps.len(),
{
    if ps.len() == 0 {
        Seq::empty()
    } else {
        let rest = spec_cels_from_c(h, ps.skip(1));
        match spec_block_at(h, ps[0], 13) {
            None => rest,
            Some(blk) => {
                if !spec_all_ascii(blk.0) {
                    rest
                } else {
                    match spec_parse_cel_oams(blk.1) {
                        None => rest,
                        Some(oams) => seq![(blk.0, oams)] + rest,
                    }
                }
            },
        }
    }
}

/// Whether one animation block's body parses completely: frame groups
/// well-formed, cel names ASCII, and the duration sum within `usize`.
pub open spec fn spec_anim_body_ok(body: Seq<u8>) -> bool {
    &&& spec_anim_frames_from_c(body) is Some
    &&& spec_frames_cells_ascii(spec_anim_frames_from_c(body)->0)
    &&& spec_frames_sum(spec_anim_frames_from_c(body)->0) <= usize::MAX
}

/// The `(name bytes, frame pairs)` of every animation block that parses;
/// blocks with missing delimiters, malformed bodies or non-ASCII names are
/// dropped.
pub open spec fn spec_anims_from_c(h: Seq<u8>, ps: Seq<int>) -> Seq<(Seq<u8>, Seq<(Seq<u8>, u8)>)>
    decreases ps.len(),
{
    if ps.len() == 0 {
        Seq::empty()
    } else {
        let rest = spec_anims_from_c(h, ps.skip(1));
        match spec_block_at(h, ps[0], 17) {
            None => rest,
            Some(blk) => {
                if !spec_all_ascii(blk.0) || !spec_anim_body_ok(blk.1) {
                    rest
                } else {
                    seq![(blk.0, spec_anim_frames_from_c(blk.1)->0)] + rest
                }
            },
        }
    }
}

/// One cel parsed from the binary image: name bytes and records.
pub open spec fn spec_cel_matches(c: AnimationCel, v: (Seq<u8>, Seq<OAM>)) -> bool {
    c.name@ == spec_ascii_chars(v.0) && c.oams@ == v.1
}

/// The cel section walk of the binary image.  A record starts at `start`;
/// the byte cursor scans for the 0x00 terminator while it stays below
/// `bound`.  A found terminator yields a record of the following count byte
/// and that many flat 8-byte records, which may overshoot `bound`; the walk
/// then resumes at the record end.  The walk fails (`None`) where the
/// original byte layout would send the cursor past the end of the image.
/// The result carries the parsed cels and the `(start, cursor)` state the
/// animation walk takes over.
pub open spec fn spec_scan_cel_records(h: Seq<u8>, start: int, bound: int) -> Option<
    (Seq<(Seq<u8>, Seq<OAM>)>, int, int),
>
    decreases (if bound - start >= 0 {
        bound - start
    } else {
        0
    }),
    via spec_scan_cel_records_dec
{
    if start >= bound {
        Some((Seq::empty(), start, start))
    } else {
        match spec_find_from(h, seq![0u8], start) {
            None => if bound <= h.len() {
                Some((Seq::empty(), start, bound))
            } else {
                None
            },
            Some(j) => {
                if j >= bound {
                    Some((Seq::empty(), start, bound))
                } else if j + 2 > h.len() {
                    None
                } else {
                    let end = j + 2 + (h[j + 1] as int) * 8;
                    if end > h.len() {
                        None
                    } else {
                        match spec_scan_cel_records(h, end, bound) {
                            None => None,
                            Some(res) => match spec_cel_from_bin(h.subrange(start, end)) {
                                None => Some(res),
                                Some(cv) => Some((seq![cv] + res.0, res.1, res.2)),
                            },
                        }
                    }
                }
            },
        }
    }
}

#[via_fn]
proof fn spec_scan_cel_records_dec(h: Seq<u8>, start: int, bound: int) {
    lemma_find_from_ge(h, seq![0u8], start);
}

/// Whether one binary animation record parses completely: structure sound,
/// names ASCII, duration sum within `usize`.
pub open spec fn spec_anim_bin_ok(sl: Seq<u8>) -> bool {
    &&& spec_anim_from_bin(sl) is Some
    &&& spec_all_ascii((spec_anim_from_bin(sl)->0).0)
    &&& spec_frames_cells_ascii((spec_anim_from_bin(sl)->0).1)
    &&& spec_frames_sum((spec_anim_from_bin(sl)->0).1) <= usize::MAX
}

/// The animation section walk: continues the cel walk's `(start, cursor)`
/// state to the end of the image.  Each terminator found from the cursor
/// yields a record whose length the two following bytes give; records that
/// fail to parse are dropped, and trailing bytes with no terminator too.
pub open spec fn spec_scan_anim_records(h: Seq<u8>, start: int, i: int) -> Option<
    Seq<(Seq<u8>, Seq<(Seq<u8>, u8)>)>,
>
    decreases h.len() + 2 - i,
    via spec_scan_anim_records_dec
{
    if i >= h.len() {
        Some(Seq::empty())
    } else {
        match spec_find_from(h, seq![0u8], i) {
            None => Some(Seq::empty()),
            Some(j) => {
                if j + 3 > h.len() {
                    None
                } else {
                    let end = j + 3 + (h[j + 1] as int) * 256 + (h[j + 2] as int);
                    if end > h.len() {
                        None
                    } else {
                        match spec_scan_anim_records(h, end, end) {
                            None => None,
                            Some(rest) => {
                                let sl = h.subrange(start, end);
                                if spec_anim_bin_ok(sl) {
                                    Some(
                                        seq![
                                            (
                                                (spec_anim_from_bin(sl)->0).0,
                                                (spec_anim_from_bin(sl)->0).1,
                                            ),
                                        ] + rest,
                                    )
                                } else {
                                    Some(rest)
                                }
                            },
                        }
                    }
                }
            },
        }
    }
}

#[via_fn]
proof fn spec_scan_anim_records_dec(h: Seq<u8>, start: int, i: int) {
    lemma_find_from_ge(h, seq![0u8], i);
}

/// The whole binary project image: the header names where the animation
/// section begins; the cel walk runs to that offset and the animation walk
/// takes over its state.  An image shorter than its 7-byte header fails.
pub open spec fn spec_load_project(h: Seq<u8>) -> Option<
    (Seq<(Seq<u8>, Seq<OAM>)>, Seq<(Seq<u8>, Seq<(Seq<u8>, u8)>)>),
> {
    if h.len() < 7 {
        None
    } else {
        let offset = (h[3] as int) * 0x1000000 + (h[4] as int) * 0x10000 + (h[5] as int) * 256 + (
        h[6] as int);
        match spec_scan_cel_records(h, 7, offset) {
            None => None,
            Some(res) => match spec_scan_anim_records(h, res.1, res.2) {
                None => None,
                Some(anims) => Some((res.0, anims)),
            },
        }
    }
}

/// The marker `"AnimationCel "` as bytes.
fn cel_marker() -> (r: Vec<u8>)
    ensures
        r@ == spec_cel_marker(),
{
    let mut r: Vec<u8> = Vec::new();
    r.push(0x41);
    r.push(0x6e);
    r.push(0x69);
    r.push(0x6d);
    r.push(0x61);
    r.push(0x74);
    r.push(0x69);
    r.push(0x6f);
    r.push(0x6e);
    r.push(0x43);
    r.push(0x65);
    r.push(0x6c);
    r.push(0x20);
    proof {
        assert(r@ =~= spec_cel_marker());
    }
    r
}

/// The marker `"struct Animation "` as bytes.
fn anim_marker() -> (r: Vec<u8>)
    ensures
        r@ == spec_anim_marker(),
{
    let mut r: Vec<u8> = Vec::new();
    r.push(0x73);
    r.push(0x74);
    r.push(0x72);
    r.push(0x75);
    r.push(0x63);
    r.push(0x74);
    r.push(0x20);
    r.push(0x41);
    r.push(0x6e);
    r.push(0x69);
    r.push(0x6d);
    r.push(0x61);
    r.push(0x74);
    r.push(0x69);
    r.push(0x6f);
    r.push(0x6e);
    r.push(0x20);
    proof {
        assert(r@ =~= spec_anim_marker());
    }
    r
}

/// Locates the name and body of a block whose marker starts at `p`.
fn block_at(bytes: &[u8], p: usize, skip: usize) -> (r: Option<(Vec<u8>, usize, usize)>)
    requires
        p + skip <= bytes@.len(),
    ensures
        r is Some <==> spec_block_at(bytes@, p as int, skip as int) is Some,
        r is Some ==> ({
            let blk = spec_block_at(bytes@, p as int, skip as int)->0;
            (r->0).0@ == blk.0 && (r->0).1 <= (r->0).2 <= bytes@.len() && bytes@.subrange(
                (r->0).1 as int,
                (r->0).2 as int,
            ) == blk.1
        }),
{
    let text_len = bytes.len();
    proof {
        assert(bytes@.len() == text_len);
    }
    let mut open_bracket: Vec<u8> = Vec::new();
    open_bracket.push(0x5b);
    let mut semicolon: Vec<u8> = Vec::new();
    semicolon.push(0x3b);
    proof {
        assert(open_bracket@ =~= seq![0x5bu8]);
        assert(semicolon@ =~= seq![0x3bu8]);
    }
    let b = match find_from(bytes, open_bracket.as_slice(), p + skip) {
        Some(v) => v,
        None => {
            return None;
        },
    };
    proof {
        lemma_find_from_ge(bytes@, open_bracket@, p as int + skip as int);
    }
    let e = match find_from(bytes, semicolon.as_slice(), b + 1) {
        Some(v) => v,
        None => {
            return None;
        },
    };
    proof {
        lemma_find_from_ge(bytes@, semicolon@, b as int + 1);
    }
    let name_bytes = slice_to_vec(slice_subrange(bytes, p + skip, b));
    Some((name_bytes, b + 1, e))
}

/// Scans C text for `AnimationCel` blocks and parses each one; blocks that
/// fail to parse are dropped from the batch.
pub fn load_animation_cels_from_c(cels_file: &str) -> (r: Vec<AnimationCel>)
    ensures
        ({
            let res = spec_cels_from_c(
                cels_file.spec_bytes(),
                spec_scan_positions(cels_file.spec_bytes(), spec_cel_marker(), 0, 7),
            );
            r@.len() == res.len() && forall|i: int|
                0 <= i < res.len() ==> (#[trigger] r@[i]).name@ == spec_ascii_chars(res[i].0)
                    && r@[i].oams@ == res[i].1
        }),
{
    let bytes = cels_file.as_bytes();
    let marker = cel_marker();
    let positions = scan_positions(bytes, marker.as_slice(), 0, 7);
    let ghost ps = positions@.map_values(|p: usize| p as int);
    let ghost res = spec_cels_from_c(bytes@, ps);
    proof {
        crate::parse::lemma_scan_positions_bounds(bytes@, marker@, 0, 7);
    }

    let mut cels: Vec<AnimationCel> = Vec::new();
    let ghost mut done: Seq<(Seq<u8>, Seq<OAM>)> = Seq::empty();
    let mut k: usize = 0;
    proof {
        assert(ps.skip(0) =~= ps);
        assert(done + spec_cels_from_c(bytes@, ps) =~= spec_cels_from_c(bytes@, ps));
    }
    while k < positions.len()
        invariant
            bytes@ == cels_file.spec_bytes(),
            ps == positions@.map_values(|p: usize| p as int),
            k <= ps.len(),
            forall|m: int| 0 <= m < ps.len() ==> ps[m] == positions@[m],
            forall|m: int| 0 <= m < ps.len() ==> 0 <= #[trigger] ps[m] && ps[m] + 13
                <= bytes@.len(),
            res == spec_cels_from_c(bytes@, ps),
            cels@.len() == done.len(),
            forall|i: int|
                0 <= i < done.len() ==> (#[trigger] cels@[i]).name@ == spec_ascii_chars(done[i].0)
                    && cels@[i].oams@ == done[i].1,
            res == done + spec_cels_from_c(bytes@, ps.skip(k as int)),
        decreases ps.len() - k,
    {
        let p = positions[k];
        proof {
            assert(ps.skip(k as int)[0] == ps[k as int]);
            assert(ps.skip(k as int).skip(1) =~= ps.skip(k as int + 1));
        }
        let parsed = ({
            match block_at(bytes, p, 13) {
                None => None,
                Some((name_bytes, body_start, body_end)) => {
                    if !all_ascii(name_bytes.as_slice()) {
                        None
                    } else {
                        match parse_cel_oams_bytes(slice_subrange(bytes, body_start, body_end)) {
                            None => None,
                            Some(oams) => Some(
                                AnimationCel { name: string_from_ascii(name_bytes), oams },
                            ),
                        }
                    }
                },
            }
        });
        match parsed {
            Some(cel) => {
                let ghost blk = spec_block_at(bytes@, ps[k as int], 13)->0;
                cels.push(cel);
                proof {
                    let prev_done = done;
                    done = done.push((blk.0, spec_parse_cel_oams(blk.1)->0));
                    assert(done + spec_cels_from_c(bytes@, ps.skip(k as int + 1)) =~= prev_done + (
                    seq![(blk.0, spec_parse_cel_oams(blk.1)->0)] + spec_cels_from_c(
                        bytes@,
                        ps.skip(k as int + 1),
                    )));
                }
            },
            None => {
            },
        }
        k = k + 1;
    }
    proof {
        assert(ps.skip(ps.len() as int) =~= Seq::<int>::empty());
        assert(done + Seq::<(Seq<u8>, Seq<OAM>)>::empty() =~= done);
    }
    cels
}

/// Scans C text for `struct Animation` blocks and parses each one; blocks
/// that fail to parse are dropped from the batch.
pub fn load_animations_from_c(anim_file: &str) -> (r: Vec<Animation>)
    ensures
        ({
            let res = spec_anims_from_c(
                anim_file.spec_bytes(),
                spec_scan_positions(anim_file.spec_bytes(), spec_anim_marker(), 0, 17),
            );
            r@.len() == res.len() && forall|i: int|
                0 <= i < res.len() ==> spec_anim_matches(
                    #[trigger] r@[i],
                    spec_ascii_chars(res[i].0),
                    res[i].1,
                )
        }),
{
    let bytes = anim_file.as_bytes();
    let marker = anim_marker();
    let positions = scan_positions(bytes, marker.as_slice(), 0, 17);
    let ghost ps = positions@.map_values(|p: usize| p as int);
    let ghost res = spec_anims_from_c(bytes@, ps);
    proof {
        crate::parse::lemma_scan_positions_bounds(bytes@, marker@, 0, 17);
    }

    let mut anims: Vec<Animation> = Vec::new();
    let ghost mut done: Seq<(Seq<u8>, Seq<(Seq<u8>, u8)>)> = Seq::empty();
    let mut k: usize = 0;
    proof {
        assert(ps.skip(0) =~= ps);
        assert(done + spec_anims_from_c(bytes@, ps) =~= spec_anims_from_c(bytes@, ps));
    }
    while k < positions.len()
        invariant
            bytes@ == anim_file.spec_bytes(),
            ps == positions@.map_values(|p: usize| p as int),
            k <= ps.len(),
            forall|m: int| 0 <= m < ps.len() ==> ps[m] == positions@[m],
            forall|m: int| 0 <= m < ps.len() ==> 0 <= #[trigger] ps[m] && ps[m] + 17
                <= bytes@.len(),
            res == spec_anims_from_c(bytes@, ps),
            anims@.len() == done.len(),
            forall|i: int|
                0 <= i < done.len() ==> spec_anim_matches(
                    #[trigger] anims@[i],
                    spec_ascii_chars(done[i].0),
                    done[i].1,
                ),
            res == done + spec_anims_from_c(bytes@, ps.skip(k as int)),
        decreases ps.len() - k,
    {
        let p = positions[k];
        proof {
            assert(ps.skip(k as int)[0] == ps[k as int]);
            assert(ps.skip(k as int).skip(1) =~= ps.skip(k as int + 1));
        }
        let parsed = ({
            match block_at(bytes, p, 17) {
                None => None,
                Some((name_bytes, body_start, body_end)) => {
                    if !all_ascii(name_bytes.as_slice()) {
                        None
                    } else {
                        anim_from_c_bytes(
                            slice_subrange(bytes, body_start, body_end),
                            string_from_ascii(name_bytes),
                        )
                    }
                },
            }
        });
        match parsed {
            Some(anim) => {
                let ghost blk = spec_block_at(bytes@, ps[k as int], 17)->0;
                anims.push(anim);
                proof {
                    let prev_done = done;
                    done = done.push((blk.0, spec_anim_frames_from_c(blk.1)->0));
                    assert(done + spec_anims_from_c(bytes@, ps.skip(k as int + 1)) =~= prev_done + (
                    seq![(blk.0, spec_anim_frames_from_c(blk.1)->0)] + spec_anims_from_c(
                        bytes@,
                        ps.skip(k as int + 1),
                    )));
                }
            },
            None => {
            },
        }
        k = k + 1;
    }
    proof {
        assert(ps.skip(ps.len() as int) =~= Seq::<int>::empty());
        assert(done + Seq::<(Seq<u8>, Seq<(Seq<u8>, u8)>)>::empty() =~= done);
    }
    anims
}

/// Parses a whole binary project image into its cels and animations.
/// Records that fail to parse are dropped; an image whose byte layout runs
/// a record past the end of the file drops the whole load.
#[verifier::rlimit(100)]
pub fn load_project(project_bytes: &[u8]) -> (r: Option<(Vec<AnimationCel>, Vec<Animation>)>)
    ensures
        r is Some <==> spec_load_project(project_bytes@) is Some,
        r is Some ==> ({
            let res = spec_load_project(project_bytes@)->0;
            &&& (r->0).0@.len() == res.0.len()
            &&& forall|i: int|
                0 <= i < res.0.len() ==> spec_cel_matches(#[trigger] (r->0).0@[i], res.0[i])
            &&& (r->0).1@.len() == res.1.len()
            &&& forall|i: int|
                0 <= i < res.1.len() ==> spec_anim_matches(
                    #[trigger] (r->0).1@[i],
                    spec_ascii_chars(res.1[i].0),
                    res.1[i].1,
                )
        }),
{
    let n = project_bytes.len();
    if n < 7 {
        return None;
    }
    let offset_u32: u32 = (project_bytes[3] as u32) * 0x1000000 + (project_bytes[4] as u32)
        * 0x10000 + (project_bytes[5] as u32) * 256 + (project_bytes[6] as u32);
    let bound = offset_u32 as usize;

    let mut zero: Vec<u8> = Vec::new();
    zero.push(0x00);
    proof {
        assert(zero@ =~= seq![0u8]);
    }
    let ghost h = project_bytes@;
    let ghost cel_phase = spec_scan_cel_records(h, 7, bound as int);

    let mut animation_cels: Vec<AnimationCel> = Vec::new();
    let ghost mut done_cels: Seq<(Seq<u8>, Seq<OAM>)> = Seq::empty();
    let mut start: usize = 7;
    let mut cursor: usize = 7;
    proof {
        if cel_phase is Some {
            assert(done_cels + (cel_phase->0).0 =~= (cel_phase->0).0);
        }
    }
    loop
        invariant_except_break
            h == project_bytes@,
            h.len() == n,
            7 <= n,
            zero@ == seq![0u8],
            bound == offset_u32 as int,
            bound as int == (h[3] as int) * 0x1000000 + (h[4] as int) * 0x10000 + (h[5] as int)
                * 256 + (h[6] as int),
            cel_phase == spec_scan_cel_records(h, 7, bound as int),
            spec_load_project(h) is Some ==> cel_phase is Some,
            cel_phase is None ==> spec_load_project(h) is None,
            7 <= start <= n,
            animation_cels@.len() == done_cels.len(),
            forall|i: int|
                0 <= i < done_cels.len() ==> spec_cel_matches(
                    #[trigger] animation_cels@[i],
                    done_cels[i],
                ),
            match spec_scan_cel_records(h, start as int, bound as int) {
                Some(res) => cel_phase == Some((done_cels + res.0, res.1, res.2)),
                None => cel_phase is None,
            },
        ensures
            h == project_bytes@,
            h.len() == n,
            zero@ == seq![0u8],
            cel_phase == Some((done_cels, start as int, cursor as int)),
            7 <= start <= n,
            start <= cursor,
            animation_cels@.len() == done_cels.len(),
            forall|i: int|
                0 <= i < done_cels.len() ==> spec_cel_matches(
                    #[trigger] animation_cels@[i],
                    done_cels[i],
                ),
        decreases (if start <= bound {
            bound - start
        } else {
            0
        }),
    {
        if start >= bound {
            cursor = start;
            break ;
        }
        let found = find_from(project_bytes, zero.as_slice(), start);
        proof {
            lemma_find_from_ge(h, zero@, start as int);
        }
        match found {
            None => {
                if bound <= n {
                    cursor = bound;
                    break ;
                } else {
                    return None;
                }
            },
            Some(j) => {
                if j >= bound {
                    cursor = bound;
                    break ;
                }
                if n - j < 2 {
                    return None;
                }
                let count = project_bytes[j + 1] as usize;
                if n - (j + 2) < count * 8 {
                    return None;
                }
                let end = j + 2 + count * 8;
                let rec = AnimationCel::from_bin(slice_subrange(project_bytes, start, end));
                let ghost prev_done = done_cels;
                match rec {
                    Some(cel) => {
                        animation_cels.push(cel);
                        proof {
                            done_cels = done_cels.push(
                                spec_cel_from_bin(h.subrange(start as int, end as int))->0,
                            );
                        }
                    },
                    None => {
                    },
                }
                proof {
                    if spec_scan_cel_records(h, end as int, bound as int) is Some {
                        let res = spec_scan_cel_records(h, end as int, bound as int)->0;
                        match spec_cel_from_bin(h.subrange(start as int, end as int)) {
                            Some(cv) => {
                                assert(done_cels + res.0 =~= prev_done + (seq![cv] + res.0));
                            },
                            None => {},
                        }
                    }
                }
                start = end;
            },
        }
    }

    let ghost anim_phase = spec_scan_anim_records(h, start as int, cursor as int);
    proof {
        assert(spec_load_project(h) == (match anim_phase {
            None => None,
            Some(anims) => Some((done_cels, anims)),
        }));
    }

    let mut animations: Vec<Animation> = Vec::new();
    let ghost mut done_anims: Seq<(Seq<u8>, Seq<(Seq<u8>, u8)>)> = Seq::empty();
    let mut i: usize = cursor;
    proof {
        if anim_phase is Some {
            assert(done_anims + anim_phase->0 =~= anim_phase->0);
        }
    }
    loop
        invariant_except_break
            h == project_bytes@,
            h.len() == n,
            zero@ == seq![0u8],
            start <= i,
            i <= n || i == cursor,
            start <= n,
            animations@.len() == done_anims.len(),
            forall|m: int|
                0 <= m < done_anims.len() ==> spec_anim_matches(
                    #[trigger] animations@[m],
                    spec_ascii_chars(done_anims[m].0),
                    done_anims[m].1,
                ),
            match spec_scan_anim_records(h, start as int, i as int) {
                Some(rest) => anim_phase == Some(done_anims + rest),
                None => anim_phase is None,
            },
            anim_phase is None ==> spec_load_project(h) is None,
        ensures
            anim_phase == Some(done_anims),
            animations@.len() == done_anims.len(),
            forall|m: int|
                0 <= m < done_anims.len() ==> spec_anim_matches(
                    #[trigger] animations@[m],
                    spec_ascii_chars(done_anims[m].0),
                    done_anims[m].1,
                ),
        decreases n + 2 - i,
    {
        if i >= n {
            proof {
                assert(done_anims + Seq::<(Seq<u8>, Seq<(Seq<u8>, u8)>)>::empty() =~= done_anims);
            }
            break ;
        }
        let found = find_from(project_bytes, zero.as_slice(), i);
        proof {
            lemma_find_from_ge(h, zero@, i as int);
        }
        match found {
            None => {
                proof {
                    assert(done_anims + Seq::<(Seq<u8>, Seq<(Seq<u8>, u8)>)>::empty()
                        =~= done_anims);
                }
                break ;
            },
            Some(j) => {
                if n - j < 3 {
                    return None;
                }
                let alen = (project_bytes[j + 1] as usize) * 256 + (project_bytes[j + 2] as usize);
                if n - (j + 3) < alen {
                    return None;
                }
                let end = j + 3 + alen;
                let rec = Animation::from_bin(slice_subrange(project_bytes, start, end));
                let ghost prev_done = done_anims;
                let ghost sl = h.subrange(start as int, end as int);
                match rec {
                    Some(anim) => {
                        animations.push(anim);
                        proof {
                            done_anims = done_anims.push(
                                ((spec_anim_from_bin(sl)->0).0, (spec_anim_from_bin(sl)->0).1),
                            );
                        }
                    },
                    None => {
                    },
                }
                proof {
                    if spec_scan_anim_records(h, end as int, end as int) is Some {
                        let rest = spec_scan_anim_records(h, end as int, end as int)->0;
                        if spec_anim_bin_ok(sl) {
                            assert(done_anims + rest =~= prev_done + (seq![
                                ((spec_anim_from_bin(sl)->0).0, (spec_anim_from_bin(sl)->0).1),
                            ] + rest));
                        }
                    }
                }
                start = end;
                i = end;
            },
        }
    }
    Some((animation_cels, animations))
}

} // verus!
