//! Byte-level scanning and number parsing used by the text and binary
//! importers: first-occurrence substring search, repeated marker scans, and
//! strict hex/decimal readers.

use vstd::prelude::*;
use vstd::string::StringSliceAdditionalSpecFns;
use vstd::string::StrSliceExecFns;

verus! {

/// First index at or after `from` where `needle` occurs in `h`, or `None`
/// when it does not occur there.
pub open spec fn spec_find_from(h: Seq<u8>, needle: Seq<u8>, from: int) -> Option<int>
    decreases h.len() + 1 - from,
{
    if from < 0 || from + needle.len() > h.len() {
        None
    } else if h.subrange(from, from + needle.len()) == needle {
        Some(from)
    } else {
        spec_find_from(h, needle, from + 1)
    }
}

/// A found index lies between `from` and the last position where the needle
/// still fits.
pub proof fn lemma_find_from_ge(h: Seq<u8>, needle: Seq<u8>, from: int)
    ensures
        match spec_find_from(h, needle, from) {
            Some(p) => from <= p && p + needle.len() <= h.len(),
            None => true,
        },
    decreases h.len() + 1 - from,
{
    if from >= 0 && from + needle.len() <= h.len() && h.subrange(from, from + needle.len())
        != needle {
        lemma_find_from_ge(h, needle, from + 1);
    }
}

/// Match starts of `needle` in `h`, scanning from `from` and resuming `skip`
/// bytes past each match start; the scan ends when resuming would pass the
/// end of `h`.
pub open spec fn spec_scan_positions(h: Seq<u8>, needle: Seq<u8>, from: int, skip: int) -> Seq<int>
    decreases h.len() + 1 - from,
    via spec_scan_positions_dec
{
    if skip < 1 || from < 0 {
        Seq::empty()
    } else {
        match spec_find_from(h, needle, from) {
            None => Seq::empty(),
            Some(p) => if p + skip <= h.len() {
                seq![p] + spec_scan_positions(h, needle, p + skip, skip)
            } else {
                seq![p]
            },
        }
    }
}

#[via_fn]
proof fn spec_scan_positions_dec(h: Seq<u8>, needle: Seq<u8>, from: int, skip: int) {
    lemma_find_from_ge(h, needle, from);
}

/// When `h[j]` is zero and nothing from `from` up to `j` is, the search for
/// a zero byte finds exactly `j`.
pub proof fn lemma_find_zero_at(h: Seq<u8>, from: int, j: int)
    requires
        0 <= from <= j < h.len(),
        h[j] == 0,
        forall|m: int| from <= m < j ==> h[m] != 0,
    ensures
        spec_find_from(h, seq![0u8], from) == Some(j),
    decreases j - from,
{
    assert(h.subrange(from, from + 1) =~= seq![h[from]]);
    if from == j {
        assert(seq![h[from]] =~= seq![0u8]);
    } else {
        assert(h[from] != 0);
        assert(seq![h[from]][0] != seq![0u8][0]);
        lemma_find_zero_at(h, from + 1, j);
    }
}

/// Every scanned position is nonnegative and lies where the needle still
/// fits inside `h`.
pub proof fn lemma_scan_positions_bounds(h: Seq<u8>, needle: Seq<u8>, from: int, skip: int)
    ensures
        forall|m: int|
            0 <= m < spec_scan_positions(h, needle, from, skip).len() ==> 0 <= #[trigger]
                spec_scan_positions(h, needle, from, skip)[m] && spec_scan_positions(
                h,
                needle,
                from,
                skip,
            )[m] + needle.len() <= h.len(),
    decreases h.len() + 1 - from,
{
    if skip >= 1 && from >= 0 {
        match spec_find_from(h, needle, from) {
            None => {},
            Some(p) => {
                lemma_find_from_ge(h, needle, from);
                if p + skip <= h.len() {
                    lemma_scan_positions_bounds(h, needle, p + skip, skip);
                    let s = spec_scan_positions(h, needle, from, skip);
                    let rest = spec_scan_positions(h, needle, p + skip, skip);
                    assert forall|m: int| 0 <= m < s.len() implies 0 <= #[trigger] s[m] && s[m]
                        + needle.len() <= h.len() by {
                        if m > 0 {
                            assert(s[m] == rest[m - 1]);
                        }
                    }
                }
            },
        }
    }
}

/// Value of an ASCII hexadecimal digit, or -1 for any other byte.
pub open spec fn spec_hex_digit(b: u8) -> int {
    if 0x30 <= b <= 0x39 {
        b - 0x30
    } else if 0x61 <= b <= 0x66 {
        b - 0x57
    } else if 0x41 <= b <= 0x46 {
        b - 0x37
    } else {
        -1
    }
}

/// Whether a byte sequence is a nonempty run of hexadecimal digits.
pub open spec fn spec_hex_digits_valid(s: Seq<u8>) -> bool {
    s.len() >= 1 && forall|i: int| 0 <= i < s.len() ==> spec_hex_digit(#[trigger] s[i]) >= 0
}

/// Value of a big-endian run of hexadecimal digits.
pub open spec fn spec_hex_value(s: Seq<u8>) -> int
    decreases s.len(),
{
    if s.len() == 0 {
        0
    } else {
        spec_hex_value(s.drop_last()) * 16 + spec_hex_digit(s.last())
    }
}

/// Value of an ASCII decimal digit, or -1 for any other byte.
pub open spec fn spec_dec_digit(b: u8) -> int {
    if 0x30 <= b <= 0x39 {
        b - 0x30
    } else {
        -1
    }
}

/// Whether a byte sequence is a nonempty run of decimal digits.
pub open spec fn spec_dec_digits_valid(s: Seq<u8>) -> bool {
    s.len() >= 1 && forall|i: int| 0 <= i < s.len() ==> spec_dec_digit(#[trigger] s[i]) >= 0
}

/// Value of a run of decimal digits.
pub open spec fn spec_dec_value(s: Seq<u8>) -> int
    decreases s.len(),
{
    if s.len() == 0 {
        0
    } else {
        spec_dec_value(s.drop_last()) * 10 + spec_dec_digit(s.last())
    }
}

/// A valid digit-run value is nonnegative and grows (weakly) with every
/// digit appended.
proof fn lemma_hex_value_prefix_le(s: Seq<u8>, i: int)
    requires
        0 <= i <= s.len(),
        forall|k: int| 0 <= k < s.len() ==> spec_hex_digit(#[trigger] s[k]) >= 0,
        spec_hex_value(s.take(i)) >= 0,
    ensures
        spec_hex_value(s.take(i)) <= spec_hex_value(s),
        spec_hex_value(s) >= 0,
    decreases s.len() - i,
{
    if i == s.len() {
        assert(s.take(i) =~= s);
    } else {
        assert(s.take(i + 1).drop_last() =~= s.take(i));
        assert(s.take(i + 1).last() == s[i]);
        assert(spec_hex_value(s.take(i + 1)) == spec_hex_value(s.take(i)) * 16 + spec_hex_digit(
            s[i],
        ));
        assert(spec_hex_value(s.take(i)) * 16 >= spec_hex_value(s.take(i))) by (nonlinear_arith)
            requires
                spec_hex_value(s.take(i)) >= 0,
        ;
        lemma_hex_value_prefix_le(s, i + 1);
    }
}

/// Same growth fact for decimal digit runs.
proof fn lemma_dec_value_prefix_le(s: Seq<u8>, i: int)
    requires
        0 <= i <= s.len(),
        forall|k: int| 0 <= k < s.len() ==> spec_dec_digit(#[trigger] s[k]) >= 0,
        spec_dec_value(s.take(i)) >= 0,
    ensures
        spec_dec_value(s.take(i)) <= spec_dec_value(s),
        spec_dec_value(s) >= 0,
    decreases s.len() - i,
{
    if i == s.len() {
        assert(s.take(i) =~= s);
    } else {
        assert(s.take(i + 1).drop_last() =~= s.take(i));
        assert(s.take(i + 1).last() == s[i]);
        assert(spec_dec_value(s.take(i + 1)) == spec_dec_value(s.take(i)) * 10 + spec_dec_digit(
            s[i],
        ));
        assert(spec_dec_value(s.take(i)) * 10 >= spec_dec_value(s.take(i))) by (nonlinear_arith)
            requires
                spec_dec_value(s.take(i)) >= 0,
        ;
        lemma_dec_value_prefix_le(s, i + 1);
    }
}

/// Whether `needle` starts at index `i` of `h`.
fn matches_at(h: &[u8], needle: &[u8], i: usize) -> (r: bool)
    requires
        i + needle@.len() <= h@.len(),
    ensures
        r == (h@.subrange(i as int, i as int + needle@.len()) == needle@),
{
    let n = h.len();
    let mut k: usize = 0;
    while k < needle.len()
        invariant
            n == h@.len(),
            i + needle@.len() <= h@.len(),
            k <= needle@.len(),
            forall|m: int| 0 <= m < k ==> h@[i + m] == needle@[m],
        decreases needle@.len() - k,
    {
        if h[i + k] != needle[k] {
            proof {
                let sub = h@.subrange(i as int, i as int + needle@.len());
                assert(sub[k as int] == h@[i as int + k]);
            }
            return false;
        }
        k = k + 1;
    }
    proof {
        assert(h@.subrange(i as int, i as int + needle@.len()) =~= needle@);
    }
    true
}

/// First occurrence of `needle` in `h` at or after `from`.
pub fn find_from(h: &[u8], needle: &[u8], from: usize) -> (r: Option<usize>)
    requires
        needle@.len() >= 1,
    ensures
        match r {
            Some(p) => spec_find_from(h@, needle@, from as int) == Some(p as int),
            None => spec_find_from(h@, needle@, from as int) is None,
        },
{
    if needle.len() > h.len() {
        return None;
    }
    let last_start = h.len() - needle.len();
    let mut i: usize = from;
    while i <= last_start
        invariant
            1 <= needle@.len() <= h@.len(),
            h@.len() <= usize::MAX,
            last_start == h@.len() - needle@.len(),
            last_start < h@.len(),
            spec_find_from(h@, needle@, from as int) == spec_find_from(h@, needle@, i as int),
        decreases h@.len() - i,
    {
        if matches_at(h, needle, i) {
            return Some(i);
        }
        i = i + 1;
    }
    None
}

/// All match starts of `needle` in `h` from `from` on, resuming `skip` bytes
/// past each match start.
pub fn scan_positions(h: &[u8], needle: &[u8], from: usize, skip: usize) -> (r: Vec<usize>)
    requires
        skip >= 1,
        needle@.len() >= 1,
    ensures
        r@.map_values(|p: usize| p as int) == spec_scan_positions(
            h@,
            needle@,
            from as int,
            skip as int,
        ),
{
    let mut res: Vec<usize> = Vec::new();
    let mut i: usize = from;
    loop
        invariant_except_break
            skip >= 1,
            needle@.len() >= 1,
            spec_scan_positions(h@, needle@, from as int, skip as int) == res@.map_values(
                |p: usize| p as int,
            ) + spec_scan_positions(h@, needle@, i as int, skip as int),
        ensures
            res@.map_values(|p: usize| p as int) == spec_scan_positions(
                h@,
                needle@,
                from as int,
                skip as int,
            ),
        decreases h@.len() + 1 - i,
    {
        let found = find_from(h, needle, i);
        proof {
            lemma_find_from_ge(h@, needle@, i as int);
        }
        match found {
            None => {
                proof {
                    assert(res@.map_values(|p: usize| p as int) + spec_scan_positions(
                        h@,
                        needle@,
                        i as int,
                        skip as int,
                    ) =~= res@.map_values(|p: usize| p as int));
                }
                break ;
            },
            Some(p) => {
                let ghost pre = res@;
                res.push(p);
                proof {
                    assert(res@.map_values(|q: usize| q as int) =~= pre.map_values(
                        |q: usize| q as int,
                    ).push(p as int));
                }
                if h.len() - p < skip {
                    proof {
                        assert(spec_scan_positions(h@, needle@, i as int, skip as int) =~= seq![
                            p as int,
                        ]);
                        assert(pre.map_values(|q: usize| q as int) + seq![p as int]
                            =~= res@.map_values(|q: usize| q as int));
                    }
                    break ;
                }
                proof {
                    assert(spec_scan_positions(h@, needle@, i as int, skip as int) =~= seq![
                        p as int,
                    ] + spec_scan_positions(h@, needle@, p + skip, skip as int));
                    assert(pre.map_values(|q: usize| q as int) + (seq![p as int]
                        + spec_scan_positions(h@, needle@, p + skip, skip as int))
                        =~= res@.map_values(|q: usize| q as int) + spec_scan_positions(
                        h@,
                        needle@,
                        p + skip,
                        skip as int,
                    ));
                }
                i = p + skip;
            },
        }
    }
    res
}

/// Strict hexadecimal reader for a byte run: the value when every byte is a
/// hex digit, the run is nonempty and the value fits a byte.
pub fn hex_value_of(bytes: &[u8]) -> (r: Option<u8>)
    ensures
        r is Some <==> spec_hex_digits_valid(bytes@) && spec_hex_value(bytes@) <= 255,
        r is Some ==> r == Some(spec_hex_value(bytes@) as u8),
{
    if bytes.len() == 0 {
        return None;
    }
    let mut acc: u16 = 0;
    let mut i: usize = 0;
    while i < bytes.len()
        invariant
            i <= bytes@.len(),
            acc <= 255,
            acc == spec_hex_value(bytes@.take(i as int)),
            forall|k: int| 0 <= k < i ==> spec_hex_digit(#[trigger] bytes@[k]) >= 0,
        decreases bytes@.len() - i,
    {
        let b = bytes[i];
        let d: u16 = if 0x30 <= b && b <= 0x39 {
            (b - 0x30) as u16
        } else if 0x61 <= b && b <= 0x66 {
            (b - 0x57) as u16
        } else if 0x41 <= b && b <= 0x46 {
            (b - 0x37) as u16
        } else {
            proof {
                assert(spec_hex_digit(bytes@[i as int]) < 0);
            }
            return None;
        };
        proof {
            assert(bytes@.take(i as int + 1).drop_last() =~= bytes@.take(i as int));
            assert(bytes@.take(i as int + 1).last() == bytes@[i as int]);
        }
        let next = acc * 16 + d;
        if next > 255 {
            proof {
                lemma_hex_value_prefix_le_partial(bytes@, i as int + 1);
            }
            return None;
        }
        acc = next;
        i = i + 1;
    }
    proof {
        assert(bytes@.take(bytes@.len() as int) =~= bytes@);
    }
    Some(acc as u8)
}

/// When some prefix value already exceeds 255 and the digits seen so far are
/// valid, no completion of the run can be accepted: either a later byte is
/// not a digit, or the full value exceeds 255 as well.
proof fn lemma_hex_value_prefix_le_partial(s: Seq<u8>, i: int)
    requires
        0 <= i <= s.len(),
        spec_hex_value(s.take(i)) > 255,
        forall|k: int| 0 <= k < i ==> spec_hex_digit(#[trigger] s[k]) >= 0,
    ensures
        spec_hex_digits_valid(s) ==> spec_hex_value(s) > 255,
{
    if spec_hex_digits_valid(s) {
        lemma_hex_value_prefix_le(s, i);
    }
}

/// Strict decimal reader for a byte run: the value when every byte is a
/// decimal digit, the run is nonempty and the value fits a byte.
pub fn dec_value_of(bytes: &[u8]) -> (r: Option<u8>)
    ensures
        r is Some <==> spec_dec_digits_valid(bytes@) && spec_dec_value(bytes@) <= 255,
        r is Some ==> r == Some(spec_dec_value(bytes@) as u8),
{
    if bytes.len() == 0 {
        return None;
    }
    let mut acc: u16 = 0;
    let mut i: usize = 0;
    while i < bytes.len()
        invariant
            i <= bytes@.len(),
            acc <= 255,
            acc == spec_dec_value(bytes@.take(i as int)),
            forall|k: int| 0 <= k < i ==> spec_dec_digit(#[trigger] bytes@[k]) >= 0,
        decreases bytes@.len() - i,
    {
        let b = bytes[i];
        if !(0x30 <= b && b <= 0x39) {
            proof {
                assert(spec_dec_digit(bytes@[i as int]) < 0);
            }
            return None;
        }
        let d: u16 = (b - 0x30) as u16;
        proof {
            assert(bytes@.take(i as int + 1).drop_last() =~= bytes@.take(i as int));
            assert(bytes@.take(i as int + 1).last() == bytes@[i as int]);
        }
        let next = acc * 10 + d;
        if next > 255 {
            proof {
                if spec_dec_digits_valid(bytes@) {
                    lemma_dec_value_prefix_le(bytes@, i as int + 1);
                }
            }
            return None;
        }
        acc = next;
        i = i + 1;
    }
    proof {
        assert(bytes@.take(bytes@.len() as int) =~= bytes@);
    }
    Some(acc as u8)
}

/// Strict hexadecimal parse of a whole string.  A digit run that is empty,
/// holds any non-digit or overflows a byte is rejected.
pub fn parse_hex_string(string: &str) -> (r: Option<u8>)
    ensures
        r is Some <==> spec_hex_digits_valid(string.spec_bytes()) && spec_hex_value(
            string.spec_bytes(),
        ) <= 255,
        r is Some ==> r == Some(spec_hex_value(string.spec_bytes()) as u8),
{
    hex_value_of(string.as_bytes())
}

/// Whether every byte is ASCII.
pub open spec fn spec_all_ascii(s: Seq<u8>) -> bool {
    forall|i: int| 0 <= i < s.len() ==> #[trigger] s[i] < 128
}

/// The characters spelled by a run of ASCII bytes.
pub open spec fn spec_ascii_chars(s: Seq<u8>) -> Seq<char> {
    s.map_values(|b: u8| b as char)
}

/// Relies on `String::from_utf8`: ASCII bytes are valid UTF-8 and decode to
/// the string whose characters are exactly those bytes.
#[verifier::external_body]
pub(crate) fn string_from_ascii(bytes: Vec<u8>) -> (r: String)
    requires
        spec_all_ascii(bytes@),
    ensures
        r@ == spec_ascii_chars(bytes@),
{
    String::from_utf8(bytes).unwrap_or_default()
}

/// Whether two strings spell the same characters.
pub fn str_eq(a: &str, b: &str) -> (r: bool)
    ensures
        r == (a@ == b@),
{
    let alen = a.unicode_len();
    let blen = b.unicode_len();
    if alen != blen {
        return false;
    }
    let mut i: usize = 0;
    while i < alen
        invariant
            alen == a@.len(),
            alen == b@.len(),
            i <= alen,
            forall|m: int| 0 <= m < i ==> a@[m] == b@[m],
        decreases alen - i,
    {
        if a.get_char(i) != b.get_char(i) {
            return false;
        }
        i = i + 1;
    }
    proof {
        assert(a@ =~= b@);
    }
    true
}

/// Whether every byte of the slice is ASCII.
pub fn all_ascii(bytes: &[u8]) -> (r: bool)
    ensures
        r == spec_all_ascii(bytes@),
{
    let mut i: usize = 0;
    while i < bytes.len()
        invariant
            i <= bytes@.len(),
            forall|k: int| 0 <= k < i ==> #[trigger] bytes@[k] < 128,
        decreases bytes@.len() - i,
    {
        if bytes[i] >= 128 {
            return false;
        }
        i = i + 1;
    }
    true
}

} // verus!
