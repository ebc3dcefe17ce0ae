//! A cel: a named, ordered collection of OAM placements forming one visual
//! animation frame.  Draw order is back-to-front over the reversed list, so
//! the last-pushed record renders on top.
//!
//! Cels are read from two sources: the C-array text interchange form (one
//! `AnimationCel name[] = { ... };` initializer of packed hex words) and the
//! binary project format (name, count, then flat 8-byte records).

use crate::oam::spec_decode_flat;
use crate::oam::spec_decode_packed;
use crate::oam::OAM;
use crate::parse::find_from;
use crate::parse::scan_positions;
use crate::parse::spec_all_ascii;
use crate::parse::spec_ascii_chars;
use crate::parse::spec_find_from;
use crate::parse::spec_hex_digit;
use crate::parse::spec_scan_positions;
use crate::parse::string_from_ascii;
use vstd::prelude::*;
use vstd::slice::slice_subrange;
use vstd::string::StringSliceAdditionalSpecFns;

verus! {

pub struct AnimationCel {
    pub name: String,
    pub oams: Vec<OAM>,
}

/// The bytes of the marker `"/* Len */ "` that precedes the OAM count in
/// the C-array form.
pub open spec fn spec_len_marker() -> Seq<u8> {
    seq![0x2fu8, 0x2a, 0x20, 0x4c, 0x65, 0x6e, 0x20, 0x2a, 0x2f, 0x20]
}

/// The bytes of the marker `"*/ "` that closes each index comment before a
/// packed record.
pub open spec fn spec_oam_marker() -> Seq<u8> {
    seq![0x2au8, 0x2f, 0x20]
}

/// Whether the two bytes at `q` are hexadecimal digits.
pub open spec fn spec_hex_pair_valid(h: Seq<u8>, q: int) -> bool {
    spec_hex_digit(h[q]) >= 0 && spec_hex_digit(h[q + 1]) >= 0
}

/// Value of the two hexadecimal digits at `q`.
pub open spec fn spec_hex_pair(h: Seq<u8>, q: int) -> u8 {
    (spec_hex_digit(h[q]) * 16 + spec_hex_digit(h[q + 1])) as u8
}

/// Whether a whole packed record can be read at marker position `p`: six
/// two-digit hex fields at fixed offsets, all inside the text.
pub open spec fn spec_oam_fields_valid(h: Seq<u8>, p: int) -> bool {
    &&& p + 25 <= h.len()
    &&& spec_hex_pair_valid(h, p + 5)
    &&& spec_hex_pair_valid(h, p + 7)
    &&& spec_hex_pair_valid(h, p + 13)
    &&& spec_hex_pair_valid(h, p + 15)
    &&& spec_hex_pair_valid(h, p + 21)
    &&& spec_hex_pair_valid(h, p + 23)
}

/// The packed record read at marker position `p`.
pub open spec fn spec_oam_at(h: Seq<u8>, p: int) -> OAM {
    spec_decode_packed(
        seq![
            spec_hex_pair(h, p + 5),
            spec_hex_pair(h, p + 7),
            spec_hex_pair(h, p + 13),
            spec_hex_pair(h, p + 15),
            spec_hex_pair(h, p + 21),
            spec_hex_pair(h, p + 23),
        ],
    )
}

/// The records read at the given marker positions; `None` when any record
/// is malformed or truncated.
pub open spec fn spec_oams_at(h: Seq<u8>, ps: Seq<int>) -> Option<Seq<OAM>>
    decreases ps.len(),
{
    if ps.len() == 0 {
        Some(Seq::empty())
    } else if !spec_oam_fields_valid(h, ps[0]) {
        None
    } else {
        match spec_oams_at(h, ps.skip(1)) {
            None => None,
            Some(rest) => Some(seq![spec_oam_at(h, ps[0])] + rest),
        }
    }
}

/// The OAM list of one C-array cel body: records sit after each `"*/ "`
/// comment marker found past the `"/* Len */ "` header.  `None` when the
/// header is missing or any record is malformed.
pub open spec fn spec_parse_cel_oams(h: Seq<u8>) -> Option<Seq<OAM>> {
    match spec_find_from(h, spec_len_marker(), 0) {
        None => None,
        Some(ls) => spec_oams_at(h, spec_scan_positions(h, spec_oam_marker(), ls + 12, 4)),
    }
}

/// The record list read from the binary form: name bytes up to the 0x00
/// terminator, a count byte, then `count` flat 8-byte records.  `None` when
/// the terminator or any record runs past the end, or the name is not
/// ASCII.
pub open spec fn spec_cel_from_bin(h: Seq<u8>) -> Option<(Seq<u8>, Seq<OAM>)> {
    match spec_find_from(h, seq![0u8], 0) {
        None => None,
        Some(z) => {
            if z + 2 > h.len() {
                None
            } else {
                let count = h[z + 1] as int;
                if h.len() - (z + 2) < count * 8 || !spec_all_ascii(h.take(z)) {
                    None
                } else {
                    Some(
                        (
                            h.take(z),
                            Seq::new(
                                count as nat,
                                |x: int|
                                    spec_decode_flat(h.subrange(z + 2 + x * 8, z + 2 + x * 8 + 8)),
                            ),
                        ),
                    )
                }
            }
        },
    }
}

/// Value of one ASCII hexadecimal digit.
fn hex_digit(b: u8) -> (r: Option<u8>)
    ensures
        r is Some <==> spec_hex_digit(b) >= 0,
        r is Some ==> r == Some(spec_hex_digit(b) as u8),
{
    if 0x30 <= b && b <= 0x39 {
        Some(b - 0x30)
    } else if 0x61 <= b && b <= 0x66 {
        Some(b - 0x57)
    } else if 0x41 <= b && b <= 0x46 {
        Some(b - 0x37)
    } else {
        None
    }
}

/// Value of the two hexadecimal digits at `q`.
fn hex_pair_at(bytes: &[u8], q: usize) -> (r: Option<u8>)
    requires
        q + 2 <= bytes@.len(),
    ensures
        r is Some <==> spec_hex_pair_valid(bytes@, q as int),
        r is Some ==> r == Some(spec_hex_pair(bytes@, q as int)),
{
    let d1 = match hex_digit(bytes[q]) {
        Some(d) => d,
        None => {
            return None;
        },
    };
    let d2 = match hex_digit(bytes[q + 1]) {
        Some(d) => d,
        None => {
            return None;
        },
    };
    Some(d1 * 16 + d2)
}

/// Reads one packed record at marker position `p`: six two-digit hex
/// fields at fixed offsets past the marker.
fn read_packed_at(bytes: &[u8], p: usize) -> (r: Option<OAM>)
    ensures
        r is Some <==> spec_oam_fields_valid(bytes@, p as int),
        r is Some ==> r == Some(spec_oam_at(bytes@, p as int)),
{
    if bytes.len() < 25 || p > bytes.len() - 25 {
        return None;
    }
    let b1 = match hex_pair_at(bytes, p + 5) {
        Some(v) => v,
        None => {
            return None;
        },
    };
    let b2 = match hex_pair_at(bytes, p + 7) {
        Some(v) => v,
        None => {
            return None;
        },
    };
    let b3 = match hex_pair_at(bytes, p + 13) {
        Some(v) => v,
        None => {
            return None;
        },
    };
    let b4 = match hex_pair_at(bytes, p + 15) {
        Some(v) => v,
        None => {
            return None;
        },
    };
    let b5 = match hex_pair_at(bytes, p + 21) {
        Some(v) => v,
        None => {
            return None;
        },
    };
    let b6 = match hex_pair_at(bytes, p + 23) {
        Some(v) => v,
        None => {
            return None;
        },
    };
    let mut packed: Vec<u8> = Vec::new();
    packed.push(b1);
    packed.push(b2);
    packed.push(b3);
    packed.push(b4);
    packed.push(b5);
    packed.push(b6);
    let oam = OAM::new(packed.as_slice());
    proof {
        assert(packed@ =~= seq![
            spec_hex_pair(bytes@, p + 5),
            spec_hex_pair(bytes@, p + 7),
            spec_hex_pair(bytes@, p + 13),
            spec_hex_pair(bytes@, p + 15),
            spec_hex_pair(bytes@, p + 21),
            spec_hex_pair(bytes@, p + 23),
        ]);
    }
    Some(oam)
}

/// The marker `"/* Len */ "` as bytes.
fn len_marker() -> (r: Vec<u8>)
    ensures
        r@ == spec_len_marker(),
{
    let mut r: Vec<u8> = Vec::new();
    r.push(0x2f);
    r.push(0x2a);
    r.push(0x20);
    r.push(0x4c);
    r.push(0x65);
    r.push(0x6e);
    r.push(0x20);
    r.push(0x2a);
    r.push(0x2f);
    r.push(0x20);
    proof {
        assert(r@ =~= spec_len_marker());
    }
    r
}

/// The marker `"*/ "` as bytes.
fn oam_marker() -> (r: Vec<u8>)
    ensures
        r@ == spec_oam_marker(),
{
    let mut r: Vec<u8> = Vec::new();
    r.push(0x2a);
    r.push(0x2f);
    r.push(0x20);
    proof {
        assert(r@ =~= spec_oam_marker());
    }
    r
}

impl AnimationCel {
    /// Parses one cel body in the C-array form: finds the `"/* Len */ "`
    /// header, then reads one packed record after each `"*/ "` index
    /// comment.  A missing header or any malformed or truncated hex field
    /// drops the whole cel.
    pub fn from_c(c: &str, name: &str) -> (r: Option<AnimationCel>)
        ensures
            r is Some <==> spec_parse_cel_oams(c.spec_bytes()) is Some,
            r is Some ==> (r->0).name@ == name@ && (r->0).oams@ == spec_parse_cel_oams(
                c.spec_bytes(),
            )->0,
    {
        match parse_cel_oams_bytes(c.as_bytes()) {
            Some(oams) => Some(AnimationCel { oams, name: name.to_owned() }),
            None => None,
        }
    }
}

/// Reads the OAM list of one C-array cel body.
#[verifier::rlimit(50)]
pub(crate) fn parse_cel_oams_bytes(bytes: &[u8]) -> (r: Option<Vec<OAM>>)
    ensures
        r is Some <==> spec_parse_cel_oams(bytes@) is Some,
        r is Some ==> (r->0)@ == spec_parse_cel_oams(bytes@)->0,
{
    let marker = len_marker();
    let length_start = match find_from(bytes, marker.as_slice(), 0) {
        Some(p) => p,
        None => {
            return None;
        },
    };
    proof {
        crate::parse::lemma_find_from_ge(bytes@, marker@, 0);
    }
    let marker2 = oam_marker();
    let oam_positions = if bytes.len() - length_start < 12 {
        let empty: Vec<usize> = Vec::new();
        proof {
            assert(spec_find_from(bytes@, spec_oam_marker(), length_start + 12) is None);
            assert(empty@.map_values(|p: usize| p as int) =~= spec_scan_positions(
                bytes@,
                spec_oam_marker(),
                length_start + 12,
                4,
            ));
        }
        empty
    } else {
        scan_positions(bytes, marker2.as_slice(), length_start + 12, 4)
    };
    let ghost ps = oam_positions@.map_values(|p: usize| p as int);

    let mut oams: Vec<OAM> = Vec::new();
    let mut k: usize = 0;
    proof {
        assert(ps.skip(0) =~= ps);
        if spec_oams_at(bytes@, ps) is Some {
            assert(oams@ + spec_oams_at(bytes@, ps)->0 =~= spec_oams_at(bytes@, ps)->0);
        }
    }
    while k < oam_positions.len()
        invariant
            ps == oam_positions@.map_values(|p: usize| p as int),
            k <= ps.len(),
            forall|m: int| 0 <= m < ps.len() ==> ps[m] == oam_positions@[m],
            spec_parse_cel_oams(bytes@) == spec_oams_at(bytes@, ps),
            oams@.len() == k,
            match spec_oams_at(bytes@, ps.skip(k as int)) {
                Some(rest) => spec_oams_at(bytes@, ps) == Some(oams@ + rest),
                None => spec_oams_at(bytes@, ps) is None,
            },
        decreases ps.len() - k,
    {
        let p = oam_positions[k];
        proof {
            assert(ps.skip(k as int)[0] == ps[k as int]);
            assert(ps.skip(k as int).skip(1) =~= ps.skip(k as int + 1));
        }
        let oam = match read_packed_at(bytes, p) {
            Some(o) => o,
            None => {
                return None;
            },
        };
        oams.push(oam);
        k = k + 1;
        proof {
            if spec_oams_at(bytes@, ps.skip(k as int)) is Some {
                assert(oams@ + spec_oams_at(bytes@, ps.skip(k as int))->0 =~= oams@.drop_last()
                    + (seq![spec_oam_at(bytes@, ps[k as int - 1])] + spec_oams_at(
                    bytes@,
                    ps.skip(k as int),
                )->0));
            }
        }
    }
    proof {
        assert(ps.skip(ps.len() as int) =~= Seq::<int>::empty());
        assert(oams@ + Seq::<OAM>::empty() =~= oams@);
    }
    Some(oams)
}

impl AnimationCel {
    /// Parses one cel record of the binary project form: ASCII name bytes
    /// up to the 0x00 terminator, a count byte, then `count` flat 8-byte
    /// records.  Truncated records drop the whole cel.
    pub fn from_bin(bin: &[u8]) -> (r: Option<AnimationCel>)
        ensures
            r is Some <==> spec_cel_from_bin(bin@) is Some,
            r is Some ==> (r->0).name@ == spec_ascii_chars((spec_cel_from_bin(bin@)->0).0) && (
            r->0).oams@ == (spec_cel_from_bin(bin@)->0).1,
    {
        let mut zero: Vec<u8> = Vec::new();
        zero.push(0x00);
        proof {
            assert(zero@ =~= seq![0u8]);
        }
        let z = match find_from(bin, zero.as_slice(), 0) {
            Some(p) => p,
            None => {
                return None;
            },
        };
        proof {
            crate::parse::lemma_find_from_ge(bin@, zero@, 0);
        }
        if bin.len() - z < 2 {
            return None;
        }
        let count = bin[z + 1] as usize;
        if (bin.len() - (z + 2)) / 8 < count {
            proof {
                assert(bin@.len() - (z + 2) < count * 8) by (nonlinear_arith)
                    requires
                        (bin@.len() - (z + 2)) / 8 < count,
                        z + 2 <= bin@.len(),
                ;
            }
            return None;
        }
        proof {
            assert(bin@.len() - (z + 2) >= count * 8) by (nonlinear_arith)
                requires
                    (bin@.len() - (z + 2)) / 8 >= count,
                    z + 2 <= bin@.len(),
            ;
        }
        let name_bytes_slice = slice_subrange(bin, 0, z);
        if !crate::parse::all_ascii(name_bytes_slice) {
            return None;
        }
        let mut name_bytes: Vec<u8> = Vec::new();
        let mut i: usize = 0;
        while i < z
            invariant
                i <= z,
                z <= bin@.len(),
                name_bytes@ == bin@.take(z as int).take(i as int),
            decreases z - i,
        {
            name_bytes.push(bin[i]);
            i = i + 1;
            proof {
                assert(name_bytes@ =~= bin@.take(z as int).take(i as int));
            }
        }
        proof {
            assert(bin@.take(z as int).take(z as int) =~= bin@.take(z as int));
        }
        let name = string_from_ascii(name_bytes);

        let ghost expected = (spec_cel_from_bin(bin@)->0).1;
        let mut oams: Vec<OAM> = Vec::new();
        let mut x: usize = 0;
        while x < count
            invariant
                x <= count,
                bin@.len() <= usize::MAX,
                z + 2 + count * 8 <= bin@.len(),
                expected == (spec_cel_from_bin(bin@)->0).1,
                expected.len() == count,
                forall|m: int|
                    0 <= m < count ==> #[trigger] expected[m] == spec_decode_flat(
                        bin@.subrange(z + 2 + m * 8, z + 2 + m * 8 + 8),
                    ),
                oams@ =~= expected.take(x as int),
            decreases count - x,
        {
            proof {
                assert(x * 8 + 8 <= count * 8) by (nonlinear_arith)
                    requires
                        x < count,
                ;
                assert(x * 8 >= 0) by (nonlinear_arith)
                    requires
                        x >= 0,
                ;
            }
            let start = z + 2 + x * 8;
            let record = slice_subrange(bin, start, start + 8);
            let oam = OAM::from_bin(record);
            oams.push(oam);
            x = x + 1;
            proof {
                assert(oams@ =~= expected.take(x as int));
            }
        }
        proof {
            assert(expected.take(count as int) =~= expected);
        }
        Some(AnimationCel { name, oams })
    }

    /// Appends a record; new records sit at the end of the list and render
    /// on top.
    pub fn add_oam(&mut self, oam: OAM)
        ensures
            final(self).name == old(self).name,
            final(self).oams@ == old(self).oams@.push(oam),
    {
        self.oams.push(oam);
    }

    /// Removes the record at `index`; an out-of-range index is a no-op.
    pub fn remove_oam(&mut self, index: usize)
        ensures
            final(self).name == old(self).name,
            index < old(self).oams@.len() ==> final(self).oams@ == old(self).oams@.remove(
                index as int,
            ),
            index >= old(self).oams@.len() ==> final(self).oams@ == old(self).oams@,
    {
        if index < self.oams.len() {
            self.oams.remove(index);
        }
    }

    /// Indices of the records in draw order: back-to-front, so the last
    /// element of `oams` is drawn first and index 0 renders on top.
    pub fn draw_order(&self) -> (r: Vec<usize>)
        ensures
            r@.len() == self.oams@.len(),
            forall|i: int| 0 <= i < r@.len() ==> #[trigger] r@[i] == self.oams@.len() - 1 - i,
    {
        let mut r: Vec<usize> = Vec::new();
        let n = self.oams.len();
        let mut i: usize = 0;
        while i < n
            invariant
                n == self.oams@.len(),
                i <= n,
                r@.len() == i,
                forall|m: int| 0 <= m < i ==> #[trigger] r@[m] == n - 1 - m,
            decreases n - i,
        {
            r.push(n - 1 - i);
            i = i + 1;
        }
        r
    }
}

} // verus!
