//! The animation timeline engine.
//!
//! The persisted form of an animation is duration-based: an ordered list of
//! frames, each holding a cel name, a duration in ticks and a stable id.
//! Editing operations convert to a position-based form (absolute start
//! offsets), mutate positions, then convert back, sorting by position.  The
//! spec functions here model both forms and every conversion exactly.

use crate::parse::all_ascii;
use crate::parse::dec_value_of;
use crate::parse::find_from;
use crate::parse::scan_positions;
use crate::parse::string_from_ascii;
use vstd::arithmetic::div_mod::lemma_fundamental_div_mod;
use vstd::arithmetic::div_mod::lemma_fundamental_div_mod_converse;
use vstd::prelude::*;
use vstd::slice::slice_subrange;
use vstd::slice::slice_to_vec;
use vstd::string::StringSliceAdditionalSpecFns;

verus! {

/// One keyframe in duration form.  `cell` is a non-owning name reference
/// into the cel collection; `id` is a stable identity that survives
/// representation conversions, unlike an index.
pub struct AnimationFrame {
    pub cell: String,
    pub duration: u8,
    pub id: usize,
}

/// One keyframe in position form: `position` is the absolute start offset in
/// ticks from the start of the animation.
pub struct PositionedAnimationFrame {
    pub cell: String,
    pub position: isize,
    pub id: usize,
}

/// An ordered, timed sequence of references to cels.  `duration` is the
/// declared total length; after every edit the last frame's duration is
/// recomputed so that the frame durations sum to it.
pub struct Animation {
    pub frames: Vec<AnimationFrame>,
    pub name: String,
    pub current_frame: usize,
    pub duration: usize,
}

/// Sum of the frame durations: the animation's play length in ticks.
pub open spec fn spec_total(s: Seq<AnimationFrame>) -> int
    decreases s.len(),
{
    if s.len() == 0 {
        0
    } else {
        spec_total(s.drop_last()) + s.last().duration
    }
}

/// The position form of a duration-based frame list: each frame starts at
/// the sum of the durations before it.
pub open spec fn spec_positioned(s: Seq<AnimationFrame>) -> Seq<PositionedAnimationFrame> {
    Seq::new(
        s.len(),
        |i: int|
            PositionedAnimationFrame {
                cell: s[i].cell,
                position: spec_total(s.take(i)) as isize,
                id: s[i].id,
            },
    )
}

/// Euclidean remainder by 256: the byte an out-of-range tick count wraps to.
pub open spec fn spec_wrap8(x: int) -> u8 {
    (x % 256) as u8
}

/// The duration form recomputed from a position-sorted frame list: each
/// frame lasts until the next frame's position, and the last frame lasts
/// until `total`.
pub open spec fn spec_durations(s: Seq<PositionedAnimationFrame>, total: int) -> Seq<
    AnimationFrame,
> {
    Seq::new(
        s.len(),
        |i: int|
            AnimationFrame {
                cell: s[i].cell,
                duration: spec_wrap8(
                    (if i == s.len() - 1 {
                        total
                    } else {
                        s[i + 1].position as int
                    }) - s[i].position,
                ),
                id: s[i].id,
            },
    )
}

/// Result of inserting `f` into `s` directly before the first element whose
/// position is not below `f`'s: the insertion step of a stable sort.
pub open spec fn spec_insert_by_pos(
    f: PositionedAnimationFrame,
    s: Seq<PositionedAnimationFrame>,
) -> Seq<PositionedAnimationFrame>
    decreases s.len(),
{
    if s.len() == 0 {
        seq![f]
    } else if s[0].position < f.position {
        seq![s[0]] + spec_insert_by_pos(f, s.skip(1))
    } else {
        seq![f] + s
    }
}

/// Stable sort by position: elements with equal positions keep their
/// relative order.
pub open spec fn spec_sort_by_pos(s: Seq<PositionedAnimationFrame>) -> Seq<
    PositionedAnimationFrame,
>
    decreases s.len(),
{
    if s.len() == 0 {
        Seq::empty()
    } else {
        spec_insert_by_pos(s[0], spec_sort_by_pos(s.skip(1)))
    }
}

/// Positions never decrease along the list.
pub open spec fn spec_sorted_by_pos(s: Seq<PositionedAnimationFrame>) -> bool {
    forall|i: int| 0 <= i < s.len() - 1 ==> #[trigger] s[i].position <= s[i + 1].position
}

/// Index of the first frame carrying `id`, or -1 when no frame does.
pub open spec fn spec_first_index_with_id(s: Seq<AnimationFrame>, id: int) -> int
    decreases s.len(),
{
    if s.len() == 0 {
        -1
    } else if s[0].id == id {
        0
    } else {
        let r = spec_first_index_with_id(s.skip(1), id);
        if r == -1 {
            -1
        } else {
            r + 1
        }
    }
}

/// The position form after adding `offset` to the position of the frame at
/// index `j`.
pub open spec fn spec_move_positioned(
    s: Seq<PositionedAnimationFrame>,
    j: int,
    offset: int,
) -> Seq<PositionedAnimationFrame> {
    s.update(
        j,
        PositionedAnimationFrame {
            cell: s[j].cell,
            position: (s[j].position + offset) as isize,
            id: s[j].id,
        },
    )
}

/// The frame list after removing the frame carrying `id`: the removed
/// frame's duration moves onto the frame just before it, so the total play
/// length is conserved.  The head frame (id 0) and unknown ids are no-ops.
pub open spec fn spec_remove_frame(s: Seq<AnimationFrame>, id: int) -> Seq<AnimationFrame> {
    if id == 0 {
        s
    } else {
        let j = spec_first_index_with_id(s, id);
        if j < 0 {
            s
        } else {
            s.update(
                j - 1,
                AnimationFrame {
                    cell: s[j - 1].cell,
                    duration: (s[j - 1].duration + s[j].duration) as u8,
                    id: s[j - 1].id,
                },
            ).remove(j)
        }
    }
}

/// Playback cursor state after `k` ticks: the frame index and the tick
/// counter inside that frame.  The counter restarts at 1 on entering a
/// frame, so a frame of duration `d` is left one tick after the counter
/// reaches `d`; a zero-duration frame past the head is never left.
pub open spec fn spec_walk(s: Seq<AnimationFrame>, k: int) -> (int, int)
    decreases k,
{
    if k <= 0 {
        (0int, 0int)
    } else {
        let prev = spec_walk(s, k - 1);
        if prev.1 == s[prev.0].duration {
            (prev.0 + 1, 1int)
        } else {
            (prev.0, prev.1 + 1)
        }
    }
}

/// Index of the frame shown after `k` elapsed ticks; 0 when the list is
/// empty or `k` runs past the total play length.
pub open spec fn spec_frame_at(s: Seq<AnimationFrame>, k: int) -> int {
    if k > spec_total(s) || s.len() == 0 {
        0
    } else {
        spec_walk(s, k).0
    }
}

/// Cel names referenced by the frames, deduplicated, first appearance
/// first.
pub open spec fn spec_used_cels(s: Seq<AnimationFrame>) -> Seq<Seq<char>>
    decreases s.len(),
{
    if s.len() == 0 {
        Seq::empty()
    } else {
        let p = spec_used_cels(s.drop_last());
        if p.contains(s.last().cell@) {
            p
        } else {
            p.push(s.last().cell@)
        }
    }
}

/// A byte sequence with its ASCII space bytes removed.
pub open spec fn spec_strip_spaces(s: Seq<u8>) -> Seq<u8>
    decreases s.len(),
{
    if s.len() == 0 {
        Seq::empty()
    } else if s.last() == 0x20 {
        spec_strip_spaces(s.drop_last())
    } else {
        spec_strip_spaces(s.drop_last()).push(s.last())
    }
}

/// The cel-name and duration tokens of one `{ cell, duration }` group whose
/// opening brace sits at `p`: the bytes up to the first comma after the
/// brace, and from there up to the first closing brace, each with spaces
/// removed.  `None` when either terminator is missing.
pub open spec fn spec_frame_tokens_at(h: Seq<u8>, p: int) -> Option<(Seq<u8>, Seq<u8>)> {
    match crate::parse::spec_find_from(h, seq![0x2cu8], p + 1) {
        None => None,
        Some(ci) => match crate::parse::spec_find_from(h, seq![0x7du8], ci + 1) {
            None => None,
            Some(ei) => Some(
                (
                    spec_strip_spaces(h.subrange(p + 1, ci)),
                    spec_strip_spaces(h.subrange(ci + 1, ei)),
                ),
            ),
        },
    }
}

/// The `(cell bytes, duration)` pairs read at the given group positions;
/// `None` when any group is unterminated or its duration is not a decimal
/// byte.
pub open spec fn spec_frames_at(h: Seq<u8>, ps: Seq<int>) -> Option<Seq<(Seq<u8>, u8)>>
    decreases ps.len(),
{
    if ps.len() == 0 {
        Some(Seq::empty())
    } else {
        match spec_frame_tokens_at(h, ps[0]) {
            None => None,
            Some(tok) => {
                if !crate::parse::spec_dec_digits_valid(tok.1) || crate::parse::spec_dec_value(
                    tok.1,
                ) > 255 {
                    None
                } else {
                    match spec_frames_at(h, ps.skip(1)) {
                        None => None,
                        Some(rest) => Some(
                            seq![(tok.0, crate::parse::spec_dec_value(tok.1) as u8)] + rest,
                        ),
                    }
                }
            },
        }
    }
}

/// The frame list of one C-array animation body: every `{` after the first
/// (which opens the outer initializer) starts one `{ cell, duration }`
/// group.  `None` when no brace occurs at all.
pub open spec fn spec_anim_frames_from_c(h: Seq<u8>) -> Option<Seq<(Seq<u8>, u8)>> {
    let ps = crate::parse::spec_scan_positions(h, seq![0x7bu8], 0, 4);
    if ps.len() == 0 {
        None
    } else {
        spec_frames_at(h, ps.skip(1))
    }
}

/// The `(cell bytes, duration)` pairs read from the binary form starting at
/// `i`: cell-name bytes up to each 0x00, then one duration byte.  A
/// terminator with no duration byte after it fails; trailing bytes with no
/// terminator are dropped.
pub open spec fn spec_bin_frames(h: Seq<u8>, i: int) -> Option<Seq<(Seq<u8>, u8)>>
    decreases h.len() + 2 - i,
    via spec_bin_frames_dec
{
    match crate::parse::spec_find_from(h, seq![0u8], i) {
        None => Some(Seq::empty()),
        Some(q) => {
            if q + 2 > h.len() {
                None
            } else {
                match spec_bin_frames(h, q + 2) {
                    None => None,
                    Some(rest) => Some(seq![(h.subrange(i, q), h[q + 1])] + rest),
                }
            }
        },
    }
}

#[via_fn]
proof fn spec_bin_frames_dec(h: Seq<u8>, i: int) {
    crate::parse::lemma_find_from_ge(h, seq![0u8], i);
}

/// The name bytes and frame pairs of one binary animation record: ASCII
/// name bytes up to the 0x00 terminator, two length bytes that the parser
/// skips (the record boundary is the caller's concern), then the frames.
pub open spec fn spec_anim_from_bin(h: Seq<u8>) -> Option<(Seq<u8>, Seq<(Seq<u8>, u8)>)> {
    match crate::parse::spec_find_from(h, seq![0u8], 0) {
        None => None,
        Some(z) => match spec_bin_frames(h, z + 3) {
            None => None,
            Some(fs) => Some((h.take(z), fs)),
        },
    }
}

/// Sum of the durations of parsed frame pairs.
pub open spec fn spec_frames_sum(fs: Seq<(Seq<u8>, u8)>) -> int
    decreases fs.len(),
{
    if fs.len() == 0 {
        0
    } else {
        spec_frames_sum(fs.drop_last()) + fs.last().1
    }
}

/// Whether every parsed cell name is ASCII.
pub open spec fn spec_frames_cells_ascii(fs: Seq<(Seq<u8>, u8)>) -> bool {
    forall|i: int| 0 <= i < fs.len() ==> crate::parse::spec_all_ascii((#[trigger] fs[i]).0)
}

/// What a parsed animation promises about its fields: the given name, a
/// zeroed playback cursor, the parsed frames in order under sequential ids,
/// and the declared duration equal to the duration sum.
pub open spec fn spec_anim_matches(
    a: Animation,
    name: Seq<char>,
    fs: Seq<(Seq<u8>, u8)>,
) -> bool {
    &&& a.name@ == name
    &&& a.current_frame == 0
    &&& a.duration == spec_frames_sum(fs)
    &&& a.frames@.len() == fs.len()
    &&& forall|i: int|
        0 <= i < fs.len() ==> (#[trigger] a.frames@[i]).cell@ == crate::parse::spec_ascii_chars(
            fs[i].0,
        ) && a.frames@[i].duration == fs[i].1 && a.frames@[i].id == i
}

/// Every duration is a byte, so no total is negative.
pub proof fn lemma_total_nonneg(s: Seq<AnimationFrame>)
    ensures
        spec_total(s) >= 0,
    decreases s.len(),
{
    if s.len() > 0 {
        lemma_total_nonneg(s.drop_last());
    }
}

/// Extending a prefix by one frame adds that frame's duration to its total.
pub proof fn lemma_total_take_step(s: Seq<AnimationFrame>, i: int)
    requires
        0 <= i < s.len(),
    ensures
        spec_total(s.take(i + 1)) == spec_total(s.take(i)) + s[i].duration,
{
    assert(s.take(i + 1).drop_last() =~= s.take(i));
    assert(s.take(i + 1).last() == s[i]);
}

/// A prefix total never exceeds the whole total, and is never negative.
pub proof fn lemma_total_take_le(s: Seq<AnimationFrame>, i: int)
    requires
        0 <= i <= s.len(),
    ensures
        0 <= spec_total(s.take(i)) <= spec_total(s),
    decreases s.len() - i,
{
    lemma_total_nonneg(s.take(i));
    if i == s.len() {
        assert(s.take(i) =~= s);
    } else {
        lemma_total_take_step(s, i);
        lemma_total_take_le(s, i + 1);
    }
}

/// Totals add over concatenation.
pub proof fn lemma_total_concat(a: Seq<AnimationFrame>, b: Seq<AnimationFrame>)
    ensures
        spec_total(a + b) == spec_total(a) + spec_total(b),
    decreases b.len(),
{
    if b.len() == 0 {
        assert(a + b =~= a);
    } else {
        assert((a + b).drop_last() =~= a + b.drop_last());
        lemma_total_concat(a, b.drop_last());
    }
}

/// The first index with `id`, when one exists, lies in the list and carries
/// `id`.
pub proof fn lemma_first_index_with_id_bounds(s: Seq<AnimationFrame>, id: int)
    ensures
        spec_first_index_with_id(s, id) >= 0 ==> spec_first_index_with_id(s, id) < s.len() && s[
            spec_first_index_with_id(s, id)].id == id,
    decreases s.len(),
{
    if s.len() > 0 && s[0].id != id {
        lemma_first_index_with_id_bounds(s.skip(1), id);
    }
}

/// When the frame at `j` carries `id` and no earlier frame does, `j` is the
/// first index with `id`.
pub proof fn lemma_first_index_with_id_found(s: Seq<AnimationFrame>, id: int, j: int)
    requires
        0 <= j < s.len(),
        s[j].id == id,
        forall|m: int| 0 <= m < j ==> (#[trigger] s[m]).id != id,
    ensures
        spec_first_index_with_id(s, id) == j,
    decreases j,
{
    if j == 0 {
    } else {
        assert(s[0].id != id);
        assert(s.skip(1)[j - 1] == s[j]);
        assert(forall|m: int| 0 <= m < j - 1 ==> (#[trigger] s.skip(1)[m]) == s[m + 1]);
        lemma_first_index_with_id_found(s.skip(1), id, j - 1);
    }
}

/// When no frame carries `id`, the first index with `id` is -1.
pub proof fn lemma_first_index_with_id_absent(s: Seq<AnimationFrame>, id: int)
    requires
        forall|m: int| 0 <= m < s.len() ==> (#[trigger] s[m]).id != id,
    ensures
        spec_first_index_with_id(s, id) == -1,
    decreases s.len(),
{
    if s.len() > 0 {
        assert(forall|m: int| 0 <= m < s.len() - 1 ==> (#[trigger] s.skip(1)[m]) == s[m + 1]);
        lemma_first_index_with_id_absent(s.skip(1), id);
    }
}

/// The position form of any duration list is sorted: positions are prefix
/// sums of nonnegative durations.
pub proof fn lemma_positioned_sorted(s: Seq<AnimationFrame>)
    requires
        spec_total(s) <= isize::MAX,
    ensures
        spec_sorted_by_pos(spec_positioned(s)),
{
    let p = spec_positioned(s);
    assert forall|i: int| 0 <= i < p.len() - 1 implies (#[trigger] p[i]).position <= p[i
        + 1].position by {
        lemma_total_take_step(s, i);
        lemma_total_take_le(s, i);
        lemma_total_take_le(s, i + 1);
    }
}

/// Sorting a list whose positions never decrease leaves every element where
/// it stands.
pub proof fn lemma_sort_identity(s: Seq<PositionedAnimationFrame>)
    requires
        spec_sorted_by_pos(s),
    ensures
        spec_sort_by_pos(s) == s,
    decreases s.len(),
{
    if s.len() == 0 {
        assert(spec_sort_by_pos(s) =~= s);
    } else {
        assert forall|i: int| 0 <= i < s.skip(1).len() - 1 implies (#[trigger] s.skip(
            1,
        )[i]).position <= s.skip(1)[i + 1].position by {
            assert(s.skip(1)[i] == s[i + 1]);
            assert(s.skip(1)[i + 1] == s[i + 2]);
            assert(s[i + 1].position <= s[i + 2].position);
        }
        lemma_sort_identity(s.skip(1));
        if s.len() == 1 {
            assert(spec_insert_by_pos(s[0], s.skip(1)) =~= s);
        } else {
            assert(s.skip(1)[0] == s[1]);
            assert(s[0].position <= s[1].position);
            assert(spec_insert_by_pos(s[0], s.skip(1)) =~= s);
        }
    }
}

/// Round-trip law of the two frame representations: positioning a duration
/// list and recomputing durations against its exact total gives back the
/// original list, element for element.
#[verifier::spinoff_prover]
#[verifier::rlimit(100)]
pub proof fn lemma_duration_position_round_trip(frames: Seq<AnimationFrame>, total: int)
    requires
        total == spec_total(frames),
        total <= isize::MAX,
    ensures
        spec_durations(spec_sort_by_pos(spec_positioned(frames)), total) == frames,
{
    let p = spec_positioned(frames);
    lemma_positioned_sorted(frames);
    lemma_sort_identity(p);
    let d = spec_durations(p, total);
    assert forall|i: int| 0 <= i < d.len() implies #[trigger] d[i] == frames[i] by {
        lemma_total_take_le(frames, i);
        lemma_total_take_le(frames, i + 1);
        lemma_total_take_step(frames, i);
        if i == frames.len() - 1 {
            assert(frames.take(frames.len() as int) =~= frames);
            assert(total - p[i].position == frames[i].duration);
        } else {
            assert(p[i + 1].position as int - p[i].position == frames[i].duration);
        }
    }
    assert(d =~= frames);
}

/// Scrubbing is idempotent: two reads of the frame index at the same
/// elapsed tick count agree, because the index depends only on the frame
/// list and the tick count.
pub proof fn lemma_frame_at_idempotent(s: Seq<AnimationFrame>, k: int, r1: int, r2: int)
    requires
        r1 == spec_frame_at(s, k),
        r2 == spec_frame_at(s, k),
    ensures
        r1 == r2,
{
}

/// Duration conservation: removing a frame hands its whole duration to the
/// frame before it, so the total play length does not change.  This needs
/// the merged duration to fit a byte; with, say, neighbouring durations of
/// 200 and 200 the merge would overflow and the law cannot hold.
pub proof fn lemma_remove_frame_preserves_total(s: Seq<AnimationFrame>, id: int)
    requires
        s.len() >= 2,
        id != 0,
        spec_first_index_with_id(s, id) >= 1,
        s[spec_first_index_with_id(s, id) - 1].duration + s[spec_first_index_with_id(s, id)].duration
            <= 255,
    ensures
        spec_total(spec_remove_frame(s, id)) == spec_total(s),
{
    lemma_first_index_with_id_bounds(s, id);
    let j = spec_first_index_with_id(s, id);
    let merged = AnimationFrame {
        cell: s[j - 1].cell,
        duration: (s[j - 1].duration + s[j].duration) as u8,
        id: s[j - 1].id,
    };
    let result = spec_remove_frame(s, id);
    let front = s.take(j - 1);
    let back = s.skip(j + 1);
    assert(s =~= front + (seq![s[j - 1]] + (seq![s[j]] + back)));
    assert(result =~= front + (seq![merged] + back));
    lemma_total_concat(front, seq![s[j - 1]] + (seq![s[j]] + back));
    lemma_total_concat(seq![s[j - 1]], seq![s[j]] + back);
    lemma_total_concat(seq![s[j]], back);
    lemma_total_concat(front, seq![merged] + back);
    lemma_total_concat(seq![merged], back);
    lemma_total_singleton(s[j - 1]);
    lemma_total_singleton(s[j]);
    lemma_total_singleton(merged);
}

/// The total of a one-frame list is that frame's duration.
proof fn lemma_total_singleton(f: AnimationFrame)
    ensures
        spec_total(seq![f]) == f.duration,
{
    assert(seq![f].drop_last() =~= Seq::<AnimationFrame>::empty());
    assert(spec_total(Seq::<AnimationFrame>::empty()) == 0);
    assert(seq![f].last() == f);
}

/// A parsed duration sum is never negative.
proof fn lemma_frames_sum_nonneg(fs: Seq<(Seq<u8>, u8)>)
    ensures
        spec_frames_sum(fs) >= 0,
    decreases fs.len(),
{
    if fs.len() > 0 {
        lemma_frames_sum_nonneg(fs.drop_last());
    }
}

/// Duration sums add over concatenation.
proof fn lemma_frames_sum_concat(a: Seq<(Seq<u8>, u8)>, b: Seq<(Seq<u8>, u8)>)
    ensures
        spec_frames_sum(a + b) == spec_frames_sum(a) + spec_frames_sum(b),
    decreases b.len(),
{
    if b.len() == 0 {
        assert(a + b =~= a);
    } else {
        assert((a + b).drop_last() =~= a + b.drop_last());
        lemma_frames_sum_concat(a, b.drop_last());
    }
}

/// Copy of `bytes[from..to]` with ASCII space bytes removed.
fn strip_spaces_range(bytes: &[u8], from: usize, to: usize) -> (r: Vec<u8>)
    requires
        from <= to <= bytes@.len(),
    ensures
        r@ == spec_strip_spaces(bytes@.subrange(from as int, to as int)),
{
    let mut r: Vec<u8> = Vec::new();
    let mut i: usize = from;
    proof {
        assert(bytes@.subrange(from as int, from as int) =~= Seq::<u8>::empty());
    }
    while i < to
        invariant
            from <= i <= to <= bytes@.len(),
            r@ == spec_strip_spaces(bytes@.subrange(from as int, i as int)),
        decreases to - i,
    {
        let b = bytes[i];
        proof {
            assert(bytes@.subrange(from as int, i as int + 1).drop_last() =~= bytes@.subrange(
                from as int,
                i as int,
            ));
            assert(bytes@.subrange(from as int, i as int + 1).last() == bytes@[i as int]);
        }
        if b != 0x20 {
            r.push(b);
        }
        i = i + 1;
    }
    r
}

/// The byte a tick difference wraps to: Euclidean remainder by 256.
fn wrap_diff_to_u8(gap: i128) -> (r: u8)
    ensures
        r == spec_wrap8(gap as int),
{
    if gap >= 0 {
        (gap % 256) as u8
    } else {
        let m: i128 = (-1 - gap) % 256;
        proof {
            let k = (-1 - gap) as int;
            lemma_fundamental_div_mod(k, 256);
            lemma_fundamental_div_mod_converse(gap as int, 256, -(k / 256) - 1, 255 - (k % 256));
        }
        (255 - m) as u8
    }
}

/// Inserting before the first element whose position is not below `f`'s
/// splits the sequence at exactly that point.
proof fn lemma_insert_by_pos_at(
    f: PositionedAnimationFrame,
    s: Seq<PositionedAnimationFrame>,
    m: int,
)
    requires
        0 <= m <= s.len(),
        forall|j: int| 0 <= j < m ==> (#[trigger] s[j]).position < f.position,
        m < s.len() ==> s[m].position >= f.position,
    ensures
        spec_insert_by_pos(f, s) == s.take(m) + seq![f] + s.skip(m),
    decreases m,
{
    if m == 0 {
        assert(spec_insert_by_pos(f, s) =~= s.take(0) + seq![f] + s.skip(0));
    } else {
        lemma_insert_by_pos_at(f, s.skip(1), m - 1);
        assert(seq![s[0]] + (s.skip(1).take(m - 1) + seq![f] + s.skip(1).skip(m - 1)) =~= s.take(m)
            + seq![f] + s.skip(m));
    }
}

/// Stable in-place insertion sort by position.
fn sort_by_position(frames: &mut Vec<PositionedAnimationFrame>)
    ensures
        final(frames)@ == spec_sort_by_pos(old(frames)@),
{
    let ghost orig = frames@;
    let n = frames.len();
    let mut k: usize = n;
    while k > 0
        invariant
            frames@.len() == n,
            orig.len() == n,
            k <= n,
            frames@.take(k as int) == orig.take(k as int),
            frames@.skip(k as int) == spec_sort_by_pos(orig.skip(k as int)),
        decreases k,
    {
        k = k - 1;
        proof {
            assert(frames@[k as int] == frames@.take(k as int + 1)[k as int]);
            assert(frames@[k as int] == orig[k as int]);
        }
        let x = frames.remove(k);
        let ghost suffix = spec_sort_by_pos(orig.skip(k as int + 1));
        proof {
            assert(frames@.skip(k as int) =~= suffix);
            assert(frames@.take(k as int) =~= orig.take(k as int));
        }
        let mut p: usize = k;
        while p < frames.len() && frames[p].position < x.position
            invariant
                frames@.len() == n - 1,
                k <= p <= n - 1,
                frames@.take(k as int) == orig.take(k as int),
                frames@.skip(k as int) == suffix,
                forall|j: int| k <= j < p ==> (#[trigger] frames@[j]).position < x.position,
            decreases frames@.len() - p,
        {
            p = p + 1;
        }
        let ghost before_insert = frames@;
        frames.insert(p, x);
        proof {
            assert(forall|j: int|
                0 <= j < p - k ==> (#[trigger] suffix[j]) == before_insert[j + k]);
            assert(p - k < suffix.len() ==> suffix[p - k].position >= x.position);
            lemma_insert_by_pos_at(x, suffix, p - k);
            assert(frames@ =~= orig.take(k as int) + (suffix.take(p - k) + seq![x] + suffix.skip(
                p - k,
            )));
            assert(orig.skip(k as int).skip(1) =~= orig.skip(k as int + 1));
            assert(orig.skip(k as int)[0] == orig[k as int]);
            assert(spec_sort_by_pos(orig.skip(k as int)) == spec_insert_by_pos(
                orig[k as int],
                suffix,
            ));
            assert(frames@.skip(k as int) =~= spec_insert_by_pos(x, suffix));
            assert(frames@.take(k as int) =~= orig.take(k as int));
        }
    }
    proof {
        assert(orig.skip(0) =~= orig);
        assert(frames@.skip(0) =~= frames@);
    }
}

impl Animation {
    /// Parses one animation body in the C-array form: every `{` after the
    /// outer initializer brace opens one `{ cell, duration }` group.  A
    /// missing terminator, a malformed duration, a non-ASCII cel name or a
    /// duration sum beyond `usize` drops the whole animation.
    pub fn from_c(c: &str, name: &str) -> (r: Option<Animation>)
        ensures
            r is Some <==> (spec_anim_frames_from_c(c.spec_bytes()) is Some
                && spec_frames_cells_ascii(spec_anim_frames_from_c(c.spec_bytes())->0)
                && spec_frames_sum(spec_anim_frames_from_c(c.spec_bytes())->0) <= usize::MAX),
            r is Some ==> spec_anim_matches(
                r->0,
                name@,
                spec_anim_frames_from_c(c.spec_bytes())->0,
            ),
    {
        anim_from_c_bytes(c.as_bytes(), name.to_owned())
    }
}

/// Reads one animation body in the C-array form, under an already-built
/// name.
#[verifier::rlimit(50)]
pub(crate) fn anim_from_c_bytes(bytes: &[u8], name: String) -> (r: Option<Animation>)
    ensures
        r is Some <==> (spec_anim_frames_from_c(bytes@) is Some && spec_frames_cells_ascii(
            spec_anim_frames_from_c(bytes@)->0,
        ) && spec_frames_sum(spec_anim_frames_from_c(bytes@)->0) <= usize::MAX),
        r is Some ==> spec_anim_matches(r->0, name@, spec_anim_frames_from_c(bytes@)->0),
{
    let mut open_brace: Vec<u8> = Vec::new();
    open_brace.push(0x7b);
    let mut comma: Vec<u8> = Vec::new();
    comma.push(0x2c);
    let mut close_brace: Vec<u8> = Vec::new();
    close_brace.push(0x7d);
    proof {
        assert(open_brace@ =~= seq![0x7bu8]);
        assert(comma@ =~= seq![0x2cu8]);
        assert(close_brace@ =~= seq![0x7du8]);
    }
    let text_len = bytes.len();
    let frame_positions = scan_positions(bytes, open_brace.as_slice(), 0, 4);
    let ghost ps = frame_positions@.map_values(|p: usize| p as int);
    if frame_positions.len() == 0 {
        return None;
    }
    let ghost fps = ps.skip(1);
    proof {
        crate::parse::lemma_scan_positions_bounds(bytes@, open_brace@, 0, 4);
        assert(spec_anim_frames_from_c(bytes@) == spec_frames_at(bytes@, fps));
    }

    let mut frames: Vec<AnimationFrame> = Vec::new();
    let mut total: usize = 0;
    let ghost mut done: Seq<(Seq<u8>, u8)> = Seq::empty();
    let mut k: usize = 1;
    proof {
        assert(fps.skip(0) =~= fps);
        if spec_frames_at(bytes@, fps) is Some {
            assert(done + spec_frames_at(bytes@, fps)->0 =~= spec_frames_at(bytes@, fps)->0);
        }
    }
    while k < frame_positions.len()
        invariant
            bytes@.len() == text_len,
            comma@ == seq![0x2cu8],
            close_brace@ == seq![0x7du8],
            ps == frame_positions@.map_values(|p: usize| p as int),
            1 <= k <= ps.len(),
            fps == ps.skip(1),
            forall|m: int| 0 <= m < ps.len() ==> ps[m] == frame_positions@[m],
            forall|m: int| 0 <= m < ps.len() ==> 0 <= #[trigger] ps[m] && ps[m] + 1
                <= bytes@.len(),
            spec_anim_frames_from_c(bytes@) == spec_frames_at(bytes@, fps),
            frames@.len() == k - 1,
            done.len() == k - 1,
            forall|i: int|
                0 <= i < done.len() ==> (#[trigger] frames@[i]).cell@
                    == crate::parse::spec_ascii_chars(done[i].0) && frames@[i].duration
                    == done[i].1 && frames@[i].id == i && crate::parse::spec_all_ascii(
                    done[i].0,
                ),
            total == spec_frames_sum(done),
            match spec_frames_at(bytes@, fps.skip(k as int - 1)) {
                Some(rest) => spec_frames_at(bytes@, fps) == Some(done + rest),
                None => spec_frames_at(bytes@, fps) is None,
            },
        decreases ps.len() - k,
    {
        let p = frame_positions[k];
        proof {
            assert(fps.skip(k as int - 1)[0] == fps[k as int - 1]);
            assert(fps[k as int - 1] == ps[k as int]);
            assert(fps.skip(k as int - 1).skip(1) =~= fps.skip(k as int));
        }
        let ci = match find_from(bytes, comma.as_slice(), p + 1) {
            Some(v) => v,
            None => {
                return None;
            },
        };
        proof {
            crate::parse::lemma_find_from_ge(bytes@, comma@, p as int + 1);
        }
        let ei = match find_from(bytes, close_brace.as_slice(), ci + 1) {
            Some(v) => v,
            None => {
                return None;
            },
        };
        proof {
            crate::parse::lemma_find_from_ge(bytes@, close_brace@, ci as int + 1);
        }
        let cell_bytes = strip_spaces_range(bytes, p + 1, ci);
        let dur_bytes = strip_spaces_range(bytes, ci + 1, ei);
        let ghost tok = (cell_bytes@, dur_bytes@);
        let dur = match dec_value_of(dur_bytes.as_slice()) {
            Some(v) => v,
            None => {
                return None;
            },
        };
        let ghost cur = (tok.0, dur);
        let ghost rest_before = spec_frames_at(bytes@, fps.skip(k as int - 1));
        proof {
            if rest_before is Some {
                assert(rest_before->0 == seq![cur] + spec_frames_at(
                    bytes@,
                    fps.skip(k as int),
                )->0);
            }
        }
        if !all_ascii(cell_bytes.as_slice()) {
            proof {
                if spec_frames_at(bytes@, fps) is Some {
                    let fs = spec_frames_at(bytes@, fps)->0;
                    assert(fs == done + rest_before->0);
                    assert(fs[done.len() as int] == cur);
                    assert(!spec_frames_cells_ascii(fs));
                }
            }
            return None;
        }
        if total > usize::MAX - dur as usize {
            proof {
                if spec_frames_at(bytes@, fps) is Some {
                    let fs = spec_frames_at(bytes@, fps)->0;
                    let rest2 = spec_frames_at(bytes@, fps.skip(k as int))->0;
                    assert(fs == done + (seq![cur] + rest2));
                    assert(done + (seq![cur] + rest2) =~= (done + seq![cur]) + rest2);
                    lemma_frames_sum_concat(done + seq![cur], rest2);
                    lemma_frames_sum_concat(done, seq![cur]);
                    assert((seq![cur]).drop_last() =~= Seq::<(Seq<u8>, u8)>::empty());
                    assert(spec_frames_sum(Seq::<(Seq<u8>, u8)>::empty()) == 0);
                    assert((seq![cur]).last() == cur);
                    assert(spec_frames_sum(seq![cur]) == cur.1);
                    lemma_frames_sum_nonneg(rest2);
                    assert(spec_frames_sum(fs) > usize::MAX);
                }
            }
            return None;
        }
        let idx = frames.len();
        frames.push(AnimationFrame { cell: string_from_ascii(cell_bytes), duration: dur, id: idx });
        total = total + dur as usize;
        proof {
            let prev_done = done;
            done = done.push(cur);
            assert(done.drop_last() =~= prev_done);
            assert(done.last() == cur);
            assert(spec_frames_sum(done) == spec_frames_sum(prev_done) + dur);
            if spec_frames_at(bytes@, fps.skip(k as int)) is Some {
                assert(done + spec_frames_at(bytes@, fps.skip(k as int))->0 =~= prev_done + (
                seq![cur] + spec_frames_at(bytes@, fps.skip(k as int))->0));
            }
        }
        k = k + 1;
    }
    proof {
        assert(fps.skip(k as int - 1) =~= Seq::<int>::empty());
        assert(done + Seq::<(Seq<u8>, u8)>::empty() =~= done);
        assert(spec_frames_at(bytes@, fps) == Some(done));
        assert forall|i: int|
            0 <= i < done.len() implies crate::parse::spec_all_ascii(
            (#[trigger] done[i]).0,
        ) by {
            assert(frames@[i].id == i);
        }
        assert(spec_frames_cells_ascii(done));
    }
    Some(Animation { frames, name, current_frame: 0, duration: total })
}

impl Animation {
    /// Parses one animation record of the binary form: ASCII name bytes up
    /// to the 0x00 terminator, two record-length bytes that the caller has
    /// already honoured, then frames of ASCII cel-name bytes, 0x00 and one
    /// duration byte each.  Trailing bytes with no terminator are dropped,
    /// as the stored length bytes make them another record's concern.
    #[verifier::rlimit(50)]
    pub fn from_bin(bin: &[u8]) -> (r: Option<Animation>)
        ensures
            r is Some <==> (spec_anim_from_bin(bin@) is Some && crate::parse::spec_all_ascii(
                (spec_anim_from_bin(bin@)->0).0,
            ) && spec_frames_cells_ascii((spec_anim_from_bin(bin@)->0).1) && spec_frames_sum(
                (spec_anim_from_bin(bin@)->0).1,
            ) <= usize::MAX),
            r is Some ==> spec_anim_matches(
                r->0,
                crate::parse::spec_ascii_chars((spec_anim_from_bin(bin@)->0).0),
                (spec_anim_from_bin(bin@)->0).1,
            ),
    {
        let mut zero: Vec<u8> = Vec::new();
        zero.push(0x00);
        proof {
            assert(zero@ =~= seq![0u8]);
        }
        let z = match find_from(bin, zero.as_slice(), 0) {
            Some(p) => p,
            None => {
                return None;
            },
        };
        proof {
            crate::parse::lemma_find_from_ge(bin@, zero@, 0);
        }
        let name_slice = slice_subrange(bin, 0, z);
        if !all_ascii(name_slice) {
            return None;
        }
        let name = string_from_ascii(slice_to_vec(name_slice));

        let ghost fs_opt = spec_bin_frames(bin@, z as int + 3);
        let mut frames: Vec<AnimationFrame> = Vec::new();
        let mut total: usize = 0;
        let ghost mut done: Seq<(Seq<u8>, u8)> = Seq::empty();
        if bin.len() - z < 3 {
            proof {
                assert(fs_opt == Some(Seq::<(Seq<u8>, u8)>::empty()));
                assert(fs_opt == Some(done));
            }
        } else {
            let mut i: usize = z + 3;
            proof {
                if fs_opt is Some {
                    assert(done + fs_opt->0 =~= fs_opt->0);
                }
            }
            loop
                invariant_except_break
                    bin@.len() <= usize::MAX,
                    zero@ == seq![0u8],
                    z as int + 3 <= i <= bin@.len(),
                    crate::parse::spec_find_from(bin@, seq![0u8], 0) == Some(z as int),
                    fs_opt == spec_bin_frames(bin@, z as int + 3),
                    frames@.len() == done.len(),
                    forall|m: int|
                        0 <= m < done.len() ==> (#[trigger] frames@[m]).cell@
                            == crate::parse::spec_ascii_chars(done[m].0) && frames@[m].duration
                            == done[m].1 && frames@[m].id == m && crate::parse::spec_all_ascii(
                            done[m].0,
                        ),
                    total == spec_frames_sum(done),
                    match spec_bin_frames(bin@, i as int) {
                        Some(rest) => fs_opt == Some(done + rest),
                        None => fs_opt is None,
                    },
                ensures
                    fs_opt == Some(done),
                    frames@.len() == done.len(),
                    forall|m: int|
                        0 <= m < done.len() ==> (#[trigger] frames@[m]).cell@
                            == crate::parse::spec_ascii_chars(done[m].0) && frames@[m].duration
                            == done[m].1 && frames@[m].id == m && crate::parse::spec_all_ascii(
                            done[m].0,
                        ),
                    total == spec_frames_sum(done),
                decreases bin@.len() + 2 - i,
            {
                let q = match find_from(bin, zero.as_slice(), i) {
                    Some(v) => v,
                    None => {
                        proof {
                            assert(done + Seq::<(Seq<u8>, u8)>::empty() =~= done);
                        }
                        break ;
                    },
                };
                proof {
                    crate::parse::lemma_find_from_ge(bin@, zero@, i as int);
                }
                if bin.len() - q < 2 {
                    return None;
                }
                let cell_slice = slice_subrange(bin, i, q);
                let dur = bin[q + 1];
                let ghost cur = (bin@.subrange(i as int, q as int), dur);
                let ghost rest_before = spec_bin_frames(bin@, i as int);
                proof {
                    if rest_before is Some {
                        assert(rest_before->0 == seq![cur] + spec_bin_frames(
                            bin@,
                            q as int + 2,
                        )->0);
                    }
                }
                if !all_ascii(cell_slice) {
                    proof {
                        if fs_opt is Some {
                            let fs = fs_opt->0;
                            assert(fs == done + rest_before->0);
                            assert(fs[done.len() as int] == cur);
                            assert(!spec_frames_cells_ascii(fs));
                        }
                    }
                    return None;
                }
                if total > usize::MAX - dur as usize {
                    proof {
                        if fs_opt is Some {
                            let fs = fs_opt->0;
                            let rest2 = spec_bin_frames(bin@, q as int + 2)->0;
                            assert(fs == done + (seq![cur] + rest2));
                            assert(done + (seq![cur] + rest2) =~= (done + seq![cur]) + rest2);
                            lemma_frames_sum_concat(done + seq![cur], rest2);
                            lemma_frames_sum_concat(done, seq![cur]);
                            assert((seq![cur]).drop_last() =~= Seq::<(Seq<u8>, u8)>::empty());
                            assert(spec_frames_sum(Seq::<(Seq<u8>, u8)>::empty()) == 0);
                            assert((seq![cur]).last() == cur);
                            assert(spec_frames_sum(seq![cur]) == cur.1);
                            lemma_frames_sum_nonneg(rest2);
                            assert(spec_frames_sum(fs) > usize::MAX);
                        }
                    }
                    return None;
                }
                let idx = frames.len();
                frames.push(
                    AnimationFrame {
                        cell: string_from_ascii(slice_to_vec(cell_slice)),
                        duration: dur,
                        id: idx,
                    },
                );
                total = total + dur as usize;
                proof {
                    let prev_done = done;
                    done = done.push(cur);
                    assert(done.drop_last() =~= prev_done);
                    assert(done.last() == cur);
                    assert(spec_frames_sum(done) == spec_frames_sum(prev_done) + dur);
                    if spec_bin_frames(bin@, q as int + 2) is Some {
                        assert(done + spec_bin_frames(bin@, q as int + 2)->0 =~= prev_done + (seq![
                            cur,
                        ] + spec_bin_frames(bin@, q as int + 2)->0));
                    }
                }
                i = q + 2;
            }
        }
        proof {
            assert(spec_anim_from_bin(bin@) == Some((bin@.take(z as int), done)));
            assert forall|i: int|
                0 <= i < done.len() implies crate::parse::spec_all_ascii(
                (#[trigger] done[i]).0,
            ) by {
                assert(frames@[i].id == i);
            }
            assert(spec_frames_cells_ascii(done));
            assert(name_slice@ =~= bin@.take(z as int));
        }
        Some(Animation { frames, name, current_frame: 0, duration: total })
    }

    /// Sum of all frame durations: the animation's play length in ticks.
    pub fn get_total_frames(&self) -> (r: usize)
        requires
            spec_total(self.frames@) <= usize::MAX,
        ensures
            r == spec_total(self.frames@),
    {
        let mut result: usize = 0;
        let mut i: usize = 0;
        while i < self.frames.len()
            invariant
                i <= self.frames@.len(),
                spec_total(self.frames@) <= usize::MAX,
                result == spec_total(self.frames@.take(i as int)),
            decreases self.frames@.len() - i,
        {
            proof {
                lemma_total_take_step(self.frames@, i as int);
                lemma_total_take_le(self.frames@, i as int + 1);
            }
            result = result + self.frames[i].duration as usize;
            i = i + 1;
        }
        proof {
            assert(self.frames@.take(self.frames@.len() as int) =~= self.frames@);
        }
        result
    }

    /// Converts a duration-based frame list to the position form: a running
    /// prefix sum of durations gives each frame's absolute start, and ids
    /// are carried through unchanged.
    pub fn convert_duration_frames_to_positioned(frames: &Vec<AnimationFrame>) -> (r: Vec<
        PositionedAnimationFrame,
    >)
        requires
            spec_total(frames@) <= isize::MAX,
        ensures
            r@ == spec_positioned(frames@),
    {
        let mut positioned_frames: Vec<PositionedAnimationFrame> = Vec::new();
        let mut total_duration: isize = 0;
        let mut i: usize = 0;
        while i < frames.len()
            invariant
                i <= frames@.len(),
                spec_total(frames@) <= isize::MAX,
                total_duration == spec_total(frames@.take(i as int)),
                positioned_frames@ == spec_positioned(frames@).take(i as int),
            decreases frames@.len() - i,
        {
            proof {
                lemma_total_take_step(frames@, i as int);
                lemma_total_take_le(frames@, i as int);
                lemma_total_take_le(frames@, i as int + 1);
            }
            positioned_frames.push(
                PositionedAnimationFrame {
                    cell: frames[i].cell.clone(),
                    position: total_duration,
                    id: frames[i].id,
                },
            );
            total_duration = total_duration + frames[i].duration as isize;
            i = i + 1;
            proof {
                assert(positioned_frames@ =~= spec_positioned(frames@).take(i as int));
            }
        }
        proof {
            assert(spec_positioned(frames@).take(frames@.len() as int) =~= spec_positioned(
                frames@,
            ));
        }
        positioned_frames
    }

    /// Converts a position-based frame list back to the duration form: sorts
    /// by position, then each frame's duration is the distance to the next
    /// frame's position, and the last frame's duration is the distance to
    /// `duration`.  A distance outside the byte range wraps modulo 256.
    pub fn convert_positioned_frames_to_duration(
        frames: Vec<PositionedAnimationFrame>,
        duration: usize,
    ) -> (r: Vec<AnimationFrame>)
        ensures
            r@ == spec_durations(spec_sort_by_pos(frames@), duration as int),
    {
        let mut frames = frames;
        let ghost orig = frames@;
        sort_by_position(&mut frames);

        let mut duration_frames: Vec<AnimationFrame> = Vec::new();
        if frames.len() == 0 {
            proof {
                assert(duration_frames@ =~= spec_durations(
                    spec_sort_by_pos(orig),
                    duration as int,
                ));
            }
            return duration_frames;
        }
        let mut i: usize = 0;
        while i < frames.len()
            invariant
                frames@ == spec_sort_by_pos(orig),
                i <= frames@.len(),
                duration_frames@ == spec_durations(frames@, duration as int).take(i as int),
            decreases frames@.len() - i,
        {
            let next_frame_pos: i128 = if i == frames.len() - 1 {
                duration as i128
            } else {
                frames[i + 1].position as i128
            };
            let gap: i128 = next_frame_pos - frames[i].position as i128;
            let d: u8 = wrap_diff_to_u8(gap);
            duration_frames.push(
                AnimationFrame { cell: frames[i].cell.clone(), duration: d, id: frames[i].id },
            );
            i = i + 1;
            proof {
                assert(duration_frames@ =~= spec_durations(frames@, duration as int).take(
                    i as int,
                ));
            }
        }
        proof {
            assert(spec_durations(frames@, duration as int).take(frames@.len() as int)
                =~= spec_durations(frames@, duration as int));
        }
        duration_frames
    }

    /// Moves the frame carrying `frame_id` by `offset` ticks.  The head frame
    /// (id 0) is anchored and never moves; a zero offset and an unknown id
    /// are no-ops as well.  The new position is not clamped: it may go
    /// negative or past the declared duration, and the re-derived duration
    /// form absorbs it.
    pub fn move_anim_frame(&mut self, frame_id: usize, offset: isize) -> (r: Option<()>)
        requires
            spec_total(old(self).frames@) <= isize::MAX,
            spec_total(old(self).frames@) + offset <= isize::MAX,
        ensures
            final(self).name == old(self).name,
            final(self).current_frame == old(self).current_frame,
            final(self).duration == old(self).duration,
            frame_id == 0 || offset == 0 || spec_first_index_with_id(
                old(self).frames@,
                frame_id as int,
            ) == -1 ==> r is None && final(self).frames@ == old(self).frames@,
            !(frame_id == 0 || offset == 0 || spec_first_index_with_id(
                old(self).frames@,
                frame_id as int,
            ) == -1) ==> r is Some && final(self).frames@ == spec_durations(
                spec_sort_by_pos(
                    spec_move_positioned(
                        spec_positioned(old(self).frames@),
                        spec_first_index_with_id(old(self).frames@, frame_id as int),
                        offset as int,
                    ),
                ),
                old(self).duration as int,
            ),
    {
        if frame_id == 0 {
            return None;
        }
        if offset == 0 {
            return None;
        }

        let mut positioned_frames = Animation::convert_duration_frames_to_positioned(&self.frames);
        let n = positioned_frames.len();
        let mut j: usize = 0;
        while j < n && positioned_frames[j].id != frame_id
            invariant
                n == positioned_frames@.len(),
                j <= n,
                positioned_frames@ == spec_positioned(self.frames@),
                forall|m: int| 0 <= m < j ==> (#[trigger] positioned_frames@[m]).id != frame_id,
            decreases n - j,
        {
            j = j + 1;
        }
        proof {
            assert forall|m: int| 0 <= m < j implies (#[trigger] self.frames@[m]).id != frame_id by {
                assert(positioned_frames@[m].id == self.frames@[m].id);
            }
        }
        if j == n {
            proof {
                lemma_first_index_with_id_absent(self.frames@, frame_id as int);
            }
            return None;
        }
        proof {
            assert(positioned_frames@[j as int].id == self.frames@[j as int].id);
            lemma_first_index_with_id_found(self.frames@, frame_id as int, j as int);
            lemma_total_take_le(self.frames@, j as int);
        }
        let new_position = positioned_frames[j].position + offset;
        positioned_frames[j].position = new_position;
        proof {
            assert(positioned_frames@ =~= spec_move_positioned(
                spec_positioned(old(self).frames@),
                j as int,
                offset as int,
            ));
        }
        self.frames = Animation::convert_positioned_frames_to_duration(
            positioned_frames,
            self.duration,
        );
        Some(())
    }

    /// Appends a new positioned frame for `cell` at the given absolute
    /// position, with a fresh id one past the current frame count, then
    /// re-derives the duration form.
    pub fn insert_anim_frame(&mut self, cell: String, position: isize)
        requires
            spec_total(old(self).frames@) <= isize::MAX,
            old(self).frames@.len() < usize::MAX,
        ensures
            final(self).name == old(self).name,
            final(self).current_frame == old(self).current_frame,
            final(self).duration == old(self).duration,
            final(self).frames@ == spec_durations(
                spec_sort_by_pos(
                    spec_positioned(old(self).frames@).push(
                        (PositionedAnimationFrame {
                            cell: cell,
                            position: position,
                            id: (old(self).frames@.len() + 1) as usize,
                        }),
                    ),
                ),
                old(self).duration as int,
            ),
    {
        let mut positioned_frames = Animation::convert_duration_frames_to_positioned(&self.frames);
        let new_id = positioned_frames.len() + 1;
        positioned_frames.push(PositionedAnimationFrame { cell, position, id: new_id });
        self.frames = Animation::convert_positioned_frames_to_duration(
            positioned_frames,
            self.duration,
        );
    }

    /// Removes the frame carrying `frame_id` and adds its duration onto the
    /// frame just before it, conserving the total play length.  The head
    /// frame (id 0) cannot be removed, and an unknown id is a no-op.
    pub fn remove_anim_frame(&mut self, frame_id: usize)
        requires
            frame_id != 0 && spec_first_index_with_id(old(self).frames@, frame_id as int) >= 0
                ==> ({
                let j = spec_first_index_with_id(old(self).frames@, frame_id as int);
                j >= 1 && old(self).frames@[j - 1].duration + old(self).frames@[j].duration <= 255
            }),
        ensures
            final(self).name == old(self).name,
            final(self).current_frame == old(self).current_frame,
            final(self).duration == old(self).duration,
            final(self).frames@ == spec_remove_frame(old(self).frames@, frame_id as int),
    {
        if frame_id == 0 {
            return ;
        }
        let n = self.frames.len();
        let mut index: usize = 0;
        while index < n && self.frames[index].id != frame_id
            invariant
                n == self.frames@.len(),
                index <= n,
                self.frames@ == old(self).frames@,
                forall|m: int| 0 <= m < index ==> (#[trigger] self.frames@[m]).id != frame_id,
            decreases n - index,
        {
            index = index + 1;
        }
        if index == n {
            proof {
                lemma_first_index_with_id_absent(self.frames@, frame_id as int);
            }
            return ;
        }
        proof {
            lemma_first_index_with_id_found(self.frames@, frame_id as int, index as int);
        }
        let duration = self.frames[index].duration;
        self.frames.remove(index);
        let merged = self.frames[index - 1].duration + duration;
        self.frames[index - 1].duration = merged;
        proof {
            assert(self.frames@ =~= spec_remove_frame(old(self).frames@, frame_id as int));
        }
    }

    /// Position of the last frame in position form: the shortest declared
    /// duration that still fits every frame without truncation.
    pub fn get_minimum_duration(&self) -> (r: usize)
        requires
            spec_total(self.frames@) <= isize::MAX,
        ensures
            self.frames@.len() == 0 ==> r == 0,
            self.frames@.len() > 0 ==> r == spec_total(self.frames@.drop_last()),
    {
        let positioned_frames = Animation::convert_duration_frames_to_positioned(&self.frames);
        if positioned_frames.len() == 0 {
            return 0;
        }
        let last_pos = positioned_frames[positioned_frames.len() - 1].position;
        proof {
            lemma_total_take_le(self.frames@, self.frames@.len() - 1);
            assert(self.frames@.take(self.frames@.len() - 1) =~= self.frames@.drop_last());
        }
        last_pos as usize
    }

    /// Recomputes the last frame's duration as the declared duration minus
    /// the last frame's start position, keeping the declared `duration`
    /// authoritative after the user edits it directly.  A difference beyond
    /// the byte range wraps modulo 256.
    pub fn update_duration(&mut self)
        requires
            spec_total(old(self).frames@) <= isize::MAX,
            old(self).frames@.len() > 0 ==> old(self).duration >= spec_total(
                old(self).frames@.drop_last(),
            ),
        ensures
            final(self).name == old(self).name,
            final(self).current_frame == old(self).current_frame,
            final(self).duration == old(self).duration,
            old(self).frames@.len() == 0 ==> final(self).frames@ == old(self).frames@,
            old(self).frames@.len() > 0 ==> final(self).frames@ == old(self).frames@.update(
                old(self).frames@.len() - 1,
                (AnimationFrame {
                    cell: old(self).frames@.last().cell,
                    duration: spec_wrap8(
                        old(self).duration - spec_total(old(self).frames@.drop_last()),
                    ),
                    id: old(self).frames@.last().id,
                }),
            ),
    {
        let minimum_duration = self.get_minimum_duration();
        let n = self.frames.len();
        if n > 0 {
            let diff = self.duration - minimum_duration;
            let nd = (diff % 256) as u8;
            self.frames[n - 1].duration = nd;
            proof {
                assert(self.frames@ =~= old(self).frames@.update(
                    old(self).frames@.len() - 1,
                    (AnimationFrame {
                        cell: old(self).frames@.last().cell,
                        duration: spec_wrap8(
                            old(self).duration - spec_total(old(self).frames@.drop_last()),
                        ),
                        id: old(self).frames@.last().id,
                    }),
                ));
            }
        }
    }

    /// Index of the frame shown after `frames` elapsed ticks.  Returns 0
    /// when the tick count runs past the total play length or the list is
    /// empty.
    pub fn get_anim_frame_from_frames(&self, frames: usize) -> (r: usize)
        requires
            spec_total(self.frames@) <= usize::MAX,
        ensures
            r as int == spec_frame_at(self.frames@, frames as int),
    {
        if frames > self.get_total_frames() {
            return 0;
        }
        if self.frames.len() == 0 {
            return 0;
        }
        let ghost s = self.frames@;
        let mut result: usize = 0;
        let mut i: usize = 0;
        let mut t: usize = 0;
        while t < frames
            invariant
                s == self.frames@,
                s.len() > 0,
                s.len() <= usize::MAX,
                frames as int <= spec_total(s),
                t <= frames,
                i <= t,
                result < s.len(),
                (result as int, i as int) == spec_walk(s, t as int),
                result == 0 ==> i == t,
                result > 0 ==> 1 <= i && spec_total(s.take(result as int)) + i <= t,
            decreases frames - t,
        {
            let d = self.frames[result].duration;
            if i == d as usize {
                proof {
                    lemma_total_take_step(s, result as int);
                    if result as int + 1 == s.len() {
                        assert(s.take(s.len() as int) =~= s);
                    }
                }
                i = 0;
                result = result + 1;
            }
            i = i + 1;
            t = t + 1;
        }
        result
    }

    /// First-seen-order deduplicated list of the cel names the frames
    /// reference.
    pub fn get_used_cels(&self) -> (r: Vec<String>)
        ensures
            r@.len() == spec_used_cels(self.frames@).len(),
            forall|i: int| 0 <= i < r@.len() ==> (#[trigger] r@[i])@ == spec_used_cels(
                self.frames@,
            )[i],
    {
        let mut used_cels: Vec<String> = Vec::new();
        let mut i: usize = 0;
        while i < self.frames.len()
            invariant
                i <= self.frames@.len(),
                used_cels@.len() == spec_used_cels(self.frames@.take(i as int)).len(),
                forall|m: int|
                    0 <= m < used_cels@.len() ==> (#[trigger] used_cels@[m])@ == spec_used_cels(
                        self.frames@.take(i as int),
                    )[m],
            decreases self.frames@.len() - i,
        {
            let ghost p = spec_used_cels(self.frames@.take(i as int));
            let mut already = false;
            let mut j: usize = 0;
            while j < used_cels.len()
                invariant
                    j <= used_cels@.len(),
                    i < self.frames@.len(),
                    already == exists|m: int|
                        0 <= m < j && (#[trigger] used_cels@[m])@ == self.frames@[i as int].cell@,
                decreases used_cels@.len() - j,
            {
                if used_cels[j].eq(&self.frames[i].cell) {
                    already = true;
                }
                j = j + 1;
            }
            proof {
                let c = self.frames@[i as int].cell@;
                if already {
                    let m = choose|m: int|
                        0 <= m < used_cels@.len() && (#[trigger] used_cels@[m])@ == c;
                    assert(p[m] == c);
                    assert(p.contains(c));
                } else {
                    if p.contains(c) {
                        let m = choose|m: int| 0 <= m < p.len() && p[m] == c;
                        assert(used_cels@[m]@ == c);
                        assert(false);
                    }
                }
            }
            if !already {
                used_cels.push(self.frames[i].cell.clone());
            }
            i = i + 1;
            proof {
                assert(self.frames@.take(i as int).drop_last() =~= self.frames@.take(i as int - 1));
                assert(self.frames@.take(i as int).last() == self.frames@[i as int - 1]);
            }
        }
        proof {
            assert(self.frames@.take(self.frames@.len() as int) =~= self.frames@);
        }
        used_cels
    }
}

} // verus!
