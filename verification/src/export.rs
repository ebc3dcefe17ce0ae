//! The serialization layer's writers: the binary project format and the
//! C-array text form of the cels.
//!
//! Binary layout: the magic `YAN`, a big-endian 32-bit offset to the
//! animations section, cel records (name, 0x00, OAM count, flat 8-byte
//! records), then animation records (name, 0x00, a big-endian 16-bit frames
//! block length, and frames of name, 0x00, duration).
//!
//! The C-array text must stay byte-for-byte compatible with the hand-written
//! C source it mirrors: fixed comment widths, fixed spacing, lowercase
//! four-digit hex words.

use crate::animation::Animation;
use crate::animation::AnimationFrame;
use crate::cel::AnimationCel;
use crate::oam::spec_encode_flat;
use crate::oam::spec_encode_packed;
use crate::oam::OAM;
use crate::parse::spec_ascii_chars;
use crate::parse::string_from_ascii;
use vstd::prelude::*;
use vstd::string::StringExecFns;
use vstd::utf8::encode_utf8;

verus! {

/// The flat records of a cel's OAM list, in order.
pub open spec fn spec_oam_records(s: Seq<OAM>) -> Seq<u8>
    decreases s.len(),
{
    if s.len() == 0 {
        Seq::empty()
    } else {
        spec_oam_records(s.drop_last()) + spec_encode_flat(s.last())
    }
}

/// One cel record of the binary form: UTF-8 name bytes, the 0x00
/// terminator, the OAM count truncated to a byte, then the flat records.
pub open spec fn spec_cel_record(cel: AnimationCel) -> Seq<u8> {
    encode_utf8(cel.name@) + seq![0u8, (cel.oams@.len() % 256) as u8] + spec_oam_records(cel.oams@)
}

/// All cel records, in collection order.
pub open spec fn spec_cel_records(cels: Seq<AnimationCel>) -> Seq<u8>
    decreases cels.len(),
{
    if cels.len() == 0 {
        Seq::empty()
    } else {
        spec_cel_records(cels.drop_last()) + spec_cel_record(cels.last())
    }
}

/// One frame of an animation record: UTF-8 cel-name bytes, the 0x00
/// terminator, then the duration byte.
pub open spec fn spec_frame_record(f: AnimationFrame) -> Seq<u8> {
    encode_utf8(f.cell@) + seq![0u8, f.duration]
}

/// The frames block of an animation record.
pub open spec fn spec_frame_records(fs: Seq<AnimationFrame>) -> Seq<u8>
    decreases fs.len(),
{
    if fs.len() == 0 {
        Seq::empty()
    } else {
        spec_frame_records(fs.drop_last()) + spec_frame_record(fs.last())
    }
}

/// One animation record: UTF-8 name bytes, the 0x00 terminator, the frames
/// block length truncated to big-endian 16 bits, then the frames block.
pub open spec fn spec_anim_record(a: Animation) -> Seq<u8> {
    let block = spec_frame_records(a.frames@);
    encode_utf8(a.name@) + seq![0u8, ((block.len() / 256) % 256) as u8, (block.len() % 256) as u8]
        + block
}

/// All animation records, in collection order.
pub open spec fn spec_anim_records(anims: Seq<Animation>) -> Seq<u8>
    decreases anims.len(),
{
    if anims.len() == 0 {
        Seq::empty()
    } else {
        spec_anim_records(anims.drop_last()) + spec_anim_record(anims.last())
    }
}

/// A value written as four big-endian bytes.
pub open spec fn spec_u32_be(v: int) -> Seq<u8> {
    seq![
        ((v / 0x1000000) % 256) as u8,
        ((v / 0x10000) % 256) as u8,
        ((v / 256) % 256) as u8,
        (v % 256) as u8,
    ]
}

/// The whole binary project image: magic, animations-section offset, cel
/// records, animation records.
pub open spec fn spec_project_bin(cels: Seq<AnimationCel>, anims: Seq<Animation>) -> Seq<u8> {
    seq![0x59u8, 0x41, 0x4e] + spec_u32_be(7 + spec_cel_records(cels).len() as int) + spec_cel_records(
        cels,
    ) + spec_anim_records(anims)
}

/// An OAM section holds 8 bytes per record.
proof fn lemma_oam_records_len(s: Seq<OAM>)
    ensures
        spec_oam_records(s).len() == 8 * s.len(),
    decreases s.len(),
{
    if s.len() > 0 {
        lemma_oam_records_len(s.drop_last());
    }
}

/// The 8 bytes at slot `x` of an OAM section are record `x`.
proof fn lemma_oam_records_index(s: Seq<OAM>, x: int)
    requires
        0 <= x < s.len(),
    ensures
        spec_oam_records(s).subrange(8 * x, 8 * x + 8) == spec_encode_flat(s[x]),
    decreases s.len(),
{
    lemma_oam_records_len(s);
    lemma_oam_records_len(s.drop_last());
    if x == s.len() - 1 {
        assert(spec_oam_records(s).subrange(8 * x, 8 * x + 8) =~= spec_encode_flat(s.last()));
    } else {
        lemma_oam_records_index(s.drop_last(), x);
        assert(spec_oam_records(s).subrange(8 * x, 8 * x + 8) =~= spec_oam_records(
            s.drop_last(),
        ).subrange(8 * x, 8 * x + 8));
    }
}

/// Writing one cel record of the binary form and reading it back restores
/// the name characters and every OAM: the round trip of the binary format
/// at the cel-record level.  The name must be ASCII without NUL characters
/// (nothing escapes the terminator), the record count must fit its byte,
/// and each OAM must fit the flat fields with the transient selection flag
/// clear.
pub proof fn lemma_cel_record_round_trip(cel: AnimationCel)
    requires
        forall|i: int| 0 <= i < cel.name@.len() ==> '\u{1}' <= #[trigger] cel.name@[i] <= '\u{7f}',
        cel.oams@.len() <= 255,
        forall|x: int|
            0 <= x < cel.oams@.len() ==> (#[trigger] cel.oams@[x]).palette < 256
                && cel.oams@[x].tile < 65536 && !cel.oams@[x].selected,
    ensures
        crate::cel::spec_cel_from_bin(spec_cel_record(cel)) is Some,
        spec_ascii_chars((crate::cel::spec_cel_from_bin(spec_cel_record(cel))->0).0) == cel.name@,
        (crate::cel::spec_cel_from_bin(spec_cel_record(cel))->0).1 == cel.oams@,
{
    let h = spec_cel_record(cel);
    let nb = encode_utf8(cel.name@);
    let nl = cel.name@.len() as int;
    assert(vstd::utf8::is_ascii_chars(cel.name@));
    vstd::utf8::is_ascii_chars_encode_utf8(cel.name@);
    lemma_oam_records_len(cel.oams@);
    let cnt = cel.oams@.len() as int;
    assert(h.len() == nl + 2 + 8 * cnt);

    assert forall|m: int| 0 <= m < nl implies h[m] != 0 by {
        assert(h[m] == nb[m]);
        assert(nb[m] == cel.name@[m] as u8);
    }
    assert(h[nl] == 0);
    crate::parse::lemma_find_zero_at(h, 0, nl);
    assert(h[nl + 1] == (cnt % 256) as u8);
    assert(h.len() - (nl + 2) >= cnt * 8);
    assert forall|m: int| 0 <= m < nl implies #[trigger] h.take(nl)[m] < 128 by {
        assert(h[m] == cel.name@[m] as u8);
    }
    assert(crate::parse::spec_all_ascii(h.take(nl)));

    let parsed = (crate::cel::spec_cel_from_bin(h)->0).1;
    assert forall|x: int| 0 <= x < cnt implies #[trigger] parsed[x] == cel.oams@[x] by {
        lemma_oam_records_index(cel.oams@, x);
        assert(h.subrange(nl + 2 + x * 8, nl + 2 + x * 8 + 8) =~= spec_oam_records(
            cel.oams@,
        ).subrange(8 * x, 8 * x + 8));
        crate::oam::lemma_flat_record_round_trip(cel.oams@[x]);
    }
    assert(parsed =~= cel.oams@);
    assert(h.take(nl) =~= nb);
    assert forall|i: int| 0 <= i < nl implies #[trigger] spec_ascii_chars(h.take(nl))[i]
        == cel.name@[i] by {
        assert(h.take(nl)[i] == cel.name@[i] as u8);
    }
    assert(spec_ascii_chars(h.take(nl)) =~= cel.name@);
}

/// A frames block holds each frame's record in order, front first.
proof fn lemma_frame_records_concat(a: Seq<AnimationFrame>, b: Seq<AnimationFrame>)
    ensures
        spec_frame_records(a + b) == spec_frame_records(a) + spec_frame_records(b),
    decreases b.len(),
{
    if b.len() == 0 {
        assert(a + b =~= a);
        assert(spec_frame_records(a) + spec_frame_records(b) =~= spec_frame_records(a));
    } else {
        assert((a + b).drop_last() =~= a + b.drop_last());
        lemma_frame_records_concat(a, b.drop_last());
        assert(spec_frame_records(a) + spec_frame_records(b) =~= (spec_frame_records(a)
            + spec_frame_records(b.drop_last())) + spec_frame_record(b.last()));
    }
}

/// Reading a frames block from `base` yields exactly the written frames,
/// when every cel name is ASCII without NUL characters.
proof fn lemma_frame_records_parse(h: Seq<u8>, fs: Seq<AnimationFrame>, base: int)
    requires
        0 <= base <= h.len(),
        h.subrange(base, h.len() as int) == spec_frame_records(fs),
        forall|i: int, k: int|
            0 <= i < fs.len() && 0 <= k < (#[trigger] fs[i]).cell@.len() ==> '\u{1}' <= #[trigger] fs[i].cell@[k]
                <= '\u{7f}',
    ensures
        crate::animation::spec_bin_frames(h, base) == Some(
            fs.map_values(|f: AnimationFrame| (encode_utf8(f.cell@), f.duration)),
        ),
    decreases fs.len(),
{
    let pairs = fs.map_values(|f: AnimationFrame| (encode_utf8(f.cell@), f.duration));
    if fs.len() == 0 {
        assert(spec_frame_records(fs) =~= Seq::<u8>::empty());
        assert(base >= h.len());
        assert(pairs =~= Seq::<(Seq<u8>, u8)>::empty());
    } else {
        let head = fs[0];
        let cb = encode_utf8(head.cell@);
        assert(vstd::utf8::is_ascii_chars(head.cell@));
        vstd::utf8::is_ascii_chars_encode_utf8(head.cell@);
        let cl = head.cell@.len() as int;
        assert(fs =~= seq![head] + fs.skip(1));
        lemma_frame_records_concat(seq![head], fs.skip(1));
        assert((seq![head]).drop_last() =~= Seq::<AnimationFrame>::empty());
        assert(spec_frame_records(Seq::<AnimationFrame>::empty()) =~= Seq::<u8>::empty());
        assert(spec_frame_records(seq![head]) =~= spec_frame_record(head));
        assert(h.subrange(base, h.len() as int) =~= spec_frame_record(head) + spec_frame_records(
            fs.skip(1),
        ));
        assert(spec_frame_record(head).len() == cl + 2);
        assert(h.subrange(base, h.len() as int).len() == h.len() - base);
        assert((spec_frame_record(head) + spec_frame_records(fs.skip(1))).len()
            == spec_frame_record(head).len() + spec_frame_records(fs.skip(1)).len());
        assert(h.len() - base >= cl + 2);
        assert forall|m: int| base <= m < base + cl + 2 implies #[trigger] h[m]
            == spec_frame_record(head)[m - base] by {
            assert(h[m] == h.subrange(base, h.len() as int)[m - base]);
        }
        assert forall|m: int| base <= m < base + cl implies h[m] != 0 by {
            assert(h[m] == spec_frame_record(head)[m - base]);
            assert(spec_frame_record(head)[m - base] == cb[m - base]);
            assert(cb[m - base] == head.cell@[m - base] as u8);
        }
        assert(h[base + cl] == spec_frame_record(head)[cl]);
        assert(h[base + cl] == 0);
        crate::parse::lemma_find_zero_at(h, base, base + cl);
        assert(h[base + cl + 1] == spec_frame_record(head)[cl + 1]);
        assert(h[base + cl + 1] == head.duration);
        assert forall|m: int| 0 <= m < cl implies #[trigger] h.subrange(base, base + cl)[m]
            == cb[m] by {
            assert(h[base + m] == spec_frame_record(head)[m]);
            assert(spec_frame_record(head)[m] == cb[m]);
        }
        assert(h.subrange(base, base + cl) =~= cb);
        assert forall|m: int|
            0 <= m < h.len() - (base + cl + 2) implies #[trigger] h.subrange(
            base + cl + 2,
            h.len() as int,
        )[m] == spec_frame_records(fs.skip(1))[m] by {
            assert(h.subrange(base + cl + 2, h.len() as int)[m] == h[base + cl + 2 + m]);
            assert(h[base + cl + 2 + m] == h.subrange(base, h.len() as int)[cl + 2 + m]);
            assert(h.subrange(base, h.len() as int)[cl + 2 + m] == (spec_frame_record(head)
                + spec_frame_records(fs.skip(1)))[cl + 2 + m]);
            assert((spec_frame_record(head) + spec_frame_records(fs.skip(1)))[cl + 2 + m]
                == spec_frame_records(fs.skip(1))[m]);
        }
        assert(h.subrange(base + cl + 2, h.len() as int) =~= spec_frame_records(fs.skip(1)));
        assert forall|i: int, k: int|
            0 <= i < fs.skip(1).len() && 0 <= k < (#[trigger] fs.skip(1)[i]).cell@.len() implies '\u{1}'
                <= #[trigger] fs.skip(1)[i].cell@[k] <= '\u{7f}' by {
            assert(fs.skip(1)[i] == fs[i + 1]);
        }
        lemma_frame_records_parse(h, fs.skip(1), base + cl + 2);
        assert(pairs =~= seq![(cb, head.duration)] + fs.skip(1).map_values(
            |f: AnimationFrame| (encode_utf8(f.cell@), f.duration),
        ));
    }
}

/// Writing one animation record of the binary form and reading it back
/// restores the name characters and every frame: the round trip of the
/// binary format at the animation-record level.  Every name must be ASCII
/// without NUL characters.
pub proof fn lemma_anim_record_round_trip(a: Animation)
    requires
        forall|i: int| 0 <= i < a.name@.len() ==> '\u{1}' <= #[trigger] a.name@[i] <= '\u{7f}',
        forall|i: int, k: int|
            0 <= i < a.frames@.len() && 0 <= k < (#[trigger] a.frames@[i]).cell@.len() ==> '\u{1}'
                <= #[trigger] a.frames@[i].cell@[k] <= '\u{7f}',
    ensures
        crate::animation::spec_anim_from_bin(spec_anim_record(a)) is Some,
        spec_ascii_chars((crate::animation::spec_anim_from_bin(spec_anim_record(a))->0).0)
            == a.name@,
        ({
            let pairs = (crate::animation::spec_anim_from_bin(spec_anim_record(a))->0).1;
            pairs.len() == a.frames@.len() && forall|i: int|
                0 <= i < pairs.len() ==> spec_ascii_chars((#[trigger] pairs[i]).0)
                    == a.frames@[i].cell@ && pairs[i].1 == a.frames@[i].duration
        }),
{
    let h = spec_anim_record(a);
    let nb = encode_utf8(a.name@);
    let nl = a.name@.len() as int;
    assert(vstd::utf8::is_ascii_chars(a.name@));
    vstd::utf8::is_ascii_chars_encode_utf8(a.name@);
    assert forall|m: int| 0 <= m < nl implies h[m] != 0 by {
        assert(h[m] == nb[m]);
        assert(nb[m] == a.name@[m] as u8);
    }
    assert(h[nl] == 0);
    crate::parse::lemma_find_zero_at(h, 0, nl);
    assert(h.subrange(nl + 3, h.len() as int) =~= spec_frame_records(a.frames@));
    lemma_frame_records_parse(h, a.frames@, nl + 3);
    let pairs = (crate::animation::spec_anim_from_bin(h)->0).1;
    assert forall|i: int|
        0 <= i < pairs.len() implies spec_ascii_chars((#[trigger] pairs[i]).0)
            == a.frames@[i].cell@ && pairs[i].1 == a.frames@[i].duration by {
        let f = a.frames@[i];
        assert(pairs[i] == (encode_utf8(f.cell@), f.duration));
        assert(vstd::utf8::is_ascii_chars(f.cell@));
        vstd::utf8::is_ascii_chars_encode_utf8(f.cell@);
        assert forall|k: int| 0 <= k < f.cell@.len() implies #[trigger] spec_ascii_chars(
            encode_utf8(f.cell@),
        )[k] == f.cell@[k] by {
            assert(encode_utf8(f.cell@)[k] == f.cell@[k] as u8);
        }
        assert(spec_ascii_chars(encode_utf8(f.cell@)) =~= f.cell@);
    }
    assert(h.take(nl) =~= nb);
    assert forall|i: int| 0 <= i < nl implies #[trigger] spec_ascii_chars(h.take(nl))[i]
        == a.name@[i] by {
        assert(h.take(nl)[i] == a.name@[i] as u8);
    }
    assert(spec_ascii_chars(h.take(nl)) =~= a.name@);
}

/// Lowercase hexadecimal digit byte for a value below 16.
pub open spec fn spec_hex_digit_byte(d: int) -> u8 {
    if d < 10 {
        (0x30 + d) as u8
    } else {
        (0x57 + d) as u8
    }
}

/// Decimal digit bytes of a nonnegative value, most significant first.
pub open spec fn spec_dec_bytes(n: int) -> Seq<u8>
    decreases n,
{
    if n < 10 {
        seq![(0x30 + n) as u8]
    } else {
        spec_dec_bytes(n / 10).push((0x30 + n % 10) as u8)
    }
}

/// The same digits padded with zeros to at least three places.
pub open spec fn spec_dec3_bytes(n: int) -> Seq<u8> {
    if n < 10 {
        seq![0x30u8, 0x30] + spec_dec_bytes(n)
    } else if n < 100 {
        seq![0x30u8] + spec_dec_bytes(n)
    } else {
        spec_dec_bytes(n)
    }
}

/// Four lowercase hexadecimal digit bytes of a 16-bit word.
pub open spec fn spec_hex4_bytes(w: int) -> Seq<u8> {
    seq![
        spec_hex_digit_byte(w / 4096),
        spec_hex_digit_byte((w / 256) % 16),
        spec_hex_digit_byte((w / 16) % 16),
        spec_hex_digit_byte(w % 16),
    ]
}

/// The three packed words of a record, as the C text prints them.
pub open spec fn spec_packed_words(o: OAM) -> (int, int, int) {
    let b = spec_encode_packed(o);
    (b[0] * 256 + b[1], b[2] * 256 + b[3], b[4] * 256 + b[5])
}

/// One row of a cel initializer: the three-wide index comment and the three
/// packed words as `0x%04x` literals.
pub open spec fn spec_oam_row(o: OAM, i: int) -> Seq<char> {
    "      /* "@ + spec_ascii_chars(spec_dec3_bytes(i)) + " */ "@ + "0x"@ + spec_ascii_chars(
        spec_hex4_bytes(spec_packed_words(o).0),
    ) + ", "@ + "0x"@ + spec_ascii_chars(spec_hex4_bytes(spec_packed_words(o).1)) + ", "@ + "0x"@
        + spec_ascii_chars(spec_hex4_bytes(spec_packed_words(o).2))
}

/// The rows of a cel initializer, joined with `",\n"`.
pub open spec fn spec_oam_rows(s: Seq<OAM>) -> Seq<char>
    decreases s.len(),
{
    if s.len() == 0 {
        Seq::empty()
    } else if s.len() == 1 {
        spec_oam_row(s[0], 0)
    } else {
        spec_oam_rows(s.drop_last()) + ",\n"@ + spec_oam_row(s.last(), s.len() - 1)
    }
}

/// One cel as a named C-style initializer array.
pub open spec fn spec_cel_c_text(cel: AnimationCel) -> Seq<char> {
    "\n\nAnimationCel "@ + cel.name@ + "[] = {\n"@ + "      /* Len */ "@ + spec_ascii_chars(
        spec_dec_bytes(cel.oams@.len() as int),
    ) + ",\n"@ + spec_oam_rows(cel.oams@) + "\n};"@
}

/// All cels as one exported C file body, behind the export header line.
pub open spec fn spec_cels_c_text(cels: Seq<AnimationCel>) -> Seq<char>
    decreases cels.len(),
{
    if cels.len() == 0 {
        "// Exported by Yanimator"@
    } else {
        spec_cels_c_text(cels.drop_last()) + spec_cel_c_text(cels.last())
    }
}

/// Decimal digit bytes are ASCII.
proof fn lemma_dec_bytes_ascii(n: int)
    requires
        n >= 0,
    ensures
        crate::parse::spec_all_ascii(spec_dec_bytes(n)),
    decreases n,
{
    if n >= 10 {
        lemma_dec_bytes_ascii(n / 10);
        assert forall|i: int|
            0 <= i < spec_dec_bytes(n).len() implies #[trigger] spec_dec_bytes(n)[i] < 128 by {
            if i < spec_dec_bytes(n).len() - 1 {
                assert(spec_dec_bytes(n)[i] == spec_dec_bytes(n / 10)[i]);
            }
        }
    }
}

/// Padded decimal digit bytes are ASCII.
proof fn lemma_dec3_bytes_ascii(n: int)
    requires
        n >= 0,
    ensures
        crate::parse::spec_all_ascii(spec_dec3_bytes(n)),
{
    lemma_dec_bytes_ascii(n);
}

/// Hexadecimal word digit bytes are ASCII.
proof fn lemma_hex4_bytes_ascii(w: int)
    requires
        0 <= w < 65536,
    ensures
        crate::parse::spec_all_ascii(spec_hex4_bytes(w)),
{
}

/// Lowercase hexadecimal digit for a value below 16.
fn hex_digit_byte(d: u16) -> (r: u8)
    requires
        d < 16,
    ensures
        r == spec_hex_digit_byte(d as int),
{
    if d < 10 {
        0x30 + d as u8
    } else {
        0x57 + d as u8
    }
}

/// Four lowercase hexadecimal digits of a word.
fn hex4_bytes(w: u16) -> (r: Vec<u8>)
    ensures
        r@ == spec_hex4_bytes(w as int),
{
    let mut r: Vec<u8> = Vec::new();
    r.push(hex_digit_byte(w / 4096));
    r.push(hex_digit_byte((w / 256) % 16));
    r.push(hex_digit_byte((w / 16) % 16));
    r.push(hex_digit_byte(w % 16));
    proof {
        assert(r@ =~= spec_hex4_bytes(w as int));
    }
    r
}

/// Decimal digits of a value, most significant first.
fn dec_bytes(n: usize) -> (r: Vec<u8>)
    ensures
        r@ == spec_dec_bytes(n as int),
    decreases n,
{
    if n < 10 {
        let mut r: Vec<u8> = Vec::new();
        r.push(0x30 + n as u8);
        proof {
            assert(r@ =~= spec_dec_bytes(n as int));
        }
        r
    } else {
        let mut r = dec_bytes(n / 10);
        r.push(0x30 + (n % 10) as u8);
        r
    }
}

/// Decimal digits padded with zeros to at least three places.
fn dec3_bytes(n: usize) -> (r: Vec<u8>)
    ensures
        r@ == spec_dec3_bytes(n as int),
{
    let mut r: Vec<u8> = Vec::new();
    if n < 100 {
        r.push(0x30);
    }
    if n < 10 {
        r.push(0x30);
    }
    let mut d = dec_bytes(n);
    r.append(&mut d);
    proof {
        assert(r@ =~= spec_dec3_bytes(n as int));
    }
    r
}

/// Appends every byte of `src` to `dst`.
fn push_bytes(dst: &mut Vec<u8>, src: &[u8])
    ensures
        final(dst)@ == old(dst)@ + src@,
{
    let mut i: usize = 0;
    while i < src.len()
        invariant
            i <= src@.len(),
            dst@ == old(dst)@ + src@.take(i as int),
        decreases src@.len() - i,
    {
        dst.push(src[i]);
        i = i + 1;
        proof {
            assert(dst@ =~= old(dst)@ + src@.take(i as int));
        }
    }
    proof {
        assert(old(dst)@ + src@.take(src@.len() as int) =~= old(dst)@ + src@);
    }
}

/// Builds the bytes of the binary project image for the given cels and
/// animations.  The animations-section offset must fit 32 bits.
pub fn create_project_bin(
    animation_cells: &Vec<AnimationCel>,
    animations: &Vec<Animation>,
) -> (r: Vec<u8>)
    requires
        7 + spec_cel_records(animation_cells@).len() <= u32::MAX,
    ensures
        r@ == spec_project_bin(animation_cells@, animations@),
{
    let mut cel_bytes: Vec<u8> = Vec::new();
    let mut i: usize = 0;
    while i < animation_cells.len()
        invariant
            i <= animation_cells@.len(),
            cel_bytes@ == spec_cel_records(animation_cells@.take(i as int)),
        decreases animation_cells@.len() - i,
    {
        let cell = &animation_cells[i];
        push_bytes(&mut cel_bytes, cell.name.as_str().as_bytes());
        cel_bytes.push(0x00);
        cel_bytes.push((cell.oams.len() % 256) as u8);
        let mut j: usize = 0;
        let ghost record_start = cel_bytes@;
        while j < cell.oams.len()
            invariant
                j <= cell.oams@.len(),
                cel_bytes@ == record_start + spec_oam_records(cell.oams@.take(j as int)),
            decreases cell.oams@.len() - j,
        {
            let oam_bytes = cell.oams[j].to_bin();
            push_bytes(&mut cel_bytes, oam_bytes.as_slice());
            j = j + 1;
            proof {
                assert(cell.oams@.take(j as int).drop_last() =~= cell.oams@.take(j as int - 1));
                assert(cell.oams@.take(j as int).last() == cell.oams@[j as int - 1]);
                assert(cel_bytes@ =~= record_start + spec_oam_records(cell.oams@.take(j as int)));
            }
        }
        i = i + 1;
        proof {
            assert(cell.oams@.take(cell.oams@.len() as int) =~= cell.oams@);
            assert(animation_cells@.take(i as int).drop_last() =~= animation_cells@.take(
                i as int - 1,
            ));
            assert(animation_cells@.take(i as int).last() == animation_cells@[i as int - 1]);
            assert(cel_bytes@ =~= spec_cel_records(animation_cells@.take(i as int)));
        }
    }
    proof {
        assert(animation_cells@.take(animation_cells@.len() as int) =~= animation_cells@);
    }

    let mut bytes: Vec<u8> = Vec::new();
    bytes.push(0x59);
    bytes.push(0x41);
    bytes.push(0x4e);
    let offset = 7 + cel_bytes.len();
    bytes.push(((offset / 0x1000000) % 256) as u8);
    bytes.push(((offset / 0x10000) % 256) as u8);
    bytes.push(((offset / 256) % 256) as u8);
    bytes.push((offset % 256) as u8);
    let mut cel_bytes = cel_bytes;
    bytes.append(&mut cel_bytes);
    let ghost before_anims = bytes@;
    proof {
        assert(before_anims =~= seq![0x59u8, 0x41, 0x4e] + spec_u32_be(
            7 + spec_cel_records(animation_cells@).len() as int,
        ) + spec_cel_records(animation_cells@));
    }

    let mut a: usize = 0;
    while a < animations.len()
        invariant
            a <= animations@.len(),
            bytes@ == before_anims + spec_anim_records(animations@.take(a as int)),
            before_anims == seq![0x59u8, 0x41, 0x4e] + spec_u32_be(
                7 + spec_cel_records(animation_cells@).len() as int,
            ) + spec_cel_records(animation_cells@),
        decreases animations@.len() - a,
    {
        let animation = &animations[a];
        let mut block: Vec<u8> = Vec::new();
        let mut f: usize = 0;
        while f < animation.frames.len()
            invariant
                f <= animation.frames@.len(),
                block@ == spec_frame_records(animation.frames@.take(f as int)),
            decreases animation.frames@.len() - f,
        {
            let frame = &animation.frames[f];
            push_bytes(&mut block, frame.cell.as_str().as_bytes());
            block.push(0x00);
            block.push(frame.duration);
            f = f + 1;
            proof {
                assert(animation.frames@.take(f as int).drop_last() =~= animation.frames@.take(
                    f as int - 1,
                ));
                assert(animation.frames@.take(f as int).last() == animation.frames@[f as int - 1]);
                assert(block@ =~= spec_frame_records(animation.frames@.take(f as int)));
            }
        }
        proof {
            assert(animation.frames@.take(animation.frames@.len() as int) =~= animation.frames@);
        }
        let block_len = block.len();
        push_bytes(&mut bytes, animation.name.as_str().as_bytes());
        bytes.push(0x00);
        bytes.push(((block_len / 256) % 256) as u8);
        bytes.push((block_len % 256) as u8);
        let mut block = block;
        bytes.append(&mut block);
        a = a + 1;
        proof {
            assert(animations@.take(a as int).drop_last() =~= animations@.take(a as int - 1));
            assert(animations@.take(a as int).last() == animations@[a as int - 1]);
            assert(bytes@ =~= before_anims + spec_anim_records(animations@.take(a as int)));
        }
    }
    proof {
        assert(animations@.take(animations@.len() as int) =~= animations@);
        assert(bytes@ =~= spec_project_bin(animation_cells@, animations@));
    }
    bytes
}

/// Appends one initializer row for the record at index `i`.
fn append_oam_row(export: &mut String, o: &OAM, i: usize)
    ensures
        final(export)@ == old(export)@ + spec_oam_row(*o, i as int),
{
    export.append("      /* ");
    proof {
        lemma_dec3_bytes_ascii(i as int);
    }
    let idx_digits = string_from_ascii(dec3_bytes(i));
    export.append(idx_digits.as_str());
    export.append(" */ ");
    let packed = o.to_packed();
    let w1: u16 = packed[0] as u16 * 256 + packed[1] as u16;
    let w2: u16 = packed[2] as u16 * 256 + packed[3] as u16;
    let w3: u16 = packed[4] as u16 * 256 + packed[5] as u16;
    proof {
        lemma_hex4_bytes_ascii(w1 as int);
        lemma_hex4_bytes_ascii(w2 as int);
        lemma_hex4_bytes_ascii(w3 as int);
    }
    export.append("0x");
    let h1 = string_from_ascii(hex4_bytes(w1));
    export.append(h1.as_str());
    export.append(", ");
    export.append("0x");
    let h2 = string_from_ascii(hex4_bytes(w2));
    export.append(h2.as_str());
    export.append(", ");
    export.append("0x");
    let h3 = string_from_ascii(hex4_bytes(w3));
    export.append(h3.as_str());
    proof {
        assert(w1 as int == spec_packed_words(*o).0);
        assert(w2 as int == spec_packed_words(*o).1);
        assert(w3 as int == spec_packed_words(*o).2);
        assert(export@ =~= old(export)@ + spec_oam_row(*o, i as int));
    }
}

/// Appends one cel as a named C-style initializer array.
#[verifier::rlimit(50)]
fn append_cel_text(export: &mut String, cell: &AnimationCel)
    ensures
        final(export)@ == old(export)@ + spec_cel_c_text(*cell),
{
    export.append("\n\nAnimationCel ");
    export.append(cell.name.as_str());
    export.append("[] = {\n");
    export.append("      /* Len */ ");
    proof {
        lemma_dec_bytes_ascii(cell.oams@.len() as int);
    }
    let len_digits = string_from_ascii(dec_bytes(cell.oams.len()));
    export.append(len_digits.as_str());
    export.append(",\n");

    let ghost rows_start = export@;
    let mut oi: usize = 0;
    while oi < cell.oams.len()
        invariant
            oi <= cell.oams@.len(),
            export@ == rows_start + spec_oam_rows(cell.oams@.take(oi as int)) + (if 0 < oi
                < cell.oams@.len() {
                ",\n"@
            } else {
                Seq::<char>::empty()
            }),
        decreases cell.oams@.len() - oi,
    {
        append_oam_row(export, &cell.oams[oi], oi);
        oi = oi + 1;
        proof {
            assert(cell.oams@.take(oi as int).drop_last() =~= cell.oams@.take(oi as int - 1));
            assert(cell.oams@.take(oi as int).last() == cell.oams@[oi as int - 1]);
            assert(export@ =~= rows_start + spec_oam_rows(cell.oams@.take(oi as int)));
        }
        if oi < cell.oams.len() {
            export.append(",\n");
        }
    }
    export.append("\n};");
    proof {
        assert(cell.oams@.take(cell.oams@.len() as int) =~= cell.oams@);
        assert(export@ =~= old(export)@ + spec_cel_c_text(*cell));
    }
}

/// Builds the C text of the given cels, byte-for-byte in the layout the
/// external toolchain expects: one `AnimationCel name[] = { ... };`
/// initializer per cel, a `/* Len */` header and one packed-word row per
/// record.
pub fn export_animation_cels(animation_cells: &Vec<AnimationCel>) -> (r: String)
    ensures
        r@ == spec_cels_c_text(animation_cells@),
{
    let mut export = String::from_str("// Exported by Yanimator");
    let mut ci: usize = 0;
    while ci < animation_cells.len()
        invariant
            ci <= animation_cells@.len(),
            export@ == spec_cels_c_text(animation_cells@.take(ci as int)),
        decreases animation_cells@.len() - ci,
    {
        append_cel_text(&mut export, &animation_cells[ci]);
        ci = ci + 1;
        proof {
            assert(animation_cells@.take(ci as int).drop_last() =~= animation_cells@.take(
                ci as int - 1,
            ));
            assert(animation_cells@.take(ci as int).last() == animation_cells@[ci as int - 1]);
            assert(export@ =~= spec_cels_c_text(animation_cells@.take(ci as int)));
        }
    }
    proof {
        assert(animation_cells@.take(animation_cells@.len() as int) =~= animation_cells@);
    }
    export
}

} // verus!
