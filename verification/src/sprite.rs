//! 4bpp sprite decoding: each byte of tile data holds two 16-colour pixels,
//! low nibble first.

use vstd::prelude::*;

verus! {

/// One 8x8 tile as 64 palette indices.
pub struct Sprite {
    pub pixels: Vec<u8>,
}

/// All tiles of a sheet, in file order.
pub struct Spritesheet {
    pub sprites: Vec<Sprite>,
}

/// Whether `pixels` are the decoded form of the 32 tile bytes starting at
/// `base` in `bytes`: pixel pairs from each byte's low then high nibble.
pub open spec fn spec_tile_pixels(pixels: Seq<u8>, bytes: Seq<u8>, base: int) -> bool {
    pixels.len() == 0x40 && forall|i: int|
        0 <= i < 0x20 ==> pixels[2 * i] == (#[trigger] bytes[base + i]) % 16 && pixels[2 * i + 1]
            == bytes[base + i] / 16
}

impl Sprite {
    /// Decodes one 8x8 tile from 32 bytes of 4bpp data.
    pub fn from_4bpp(bytes: &[u8]) -> (r: Sprite)
        requires
            bytes@.len() >= 0x20,
        ensures
            spec_tile_pixels(r.pixels@, bytes@, 0),
    {
        let mut pixels: Vec<u8> = Vec::new();
        let mut i: usize = 0;
        while i < 0x20
            invariant
                i <= 0x20,
                bytes@.len() >= 0x20,
                pixels@.len() == 2 * i,
                forall|m: int|
                    0 <= m < i ==> pixels@[2 * m] == (#[trigger] bytes@[m]) % 16 && pixels@[2 * m
                        + 1] == bytes@[m] / 16,
            decreases 0x20 - i,
        {
            let byte = bytes[i];
            let left_pixel = byte % 16;
            let right_pixel = byte / 16;
            pixels.push(left_pixel);
            pixels.push(right_pixel);
            i = i + 1;
        }
        Sprite { pixels }
    }
}

impl Spritesheet {
    /// Decodes a whole sheet of 4bpp tile data, 32 bytes per tile; trailing
    /// bytes short of a full tile are dropped.
    pub fn from_4bpp(bytes: &[u8]) -> (r: Spritesheet)
        ensures
            r.sprites@.len() == bytes@.len() / 0x20,
            forall|s: int|
                0 <= s < r.sprites@.len() ==> spec_tile_pixels(
                    (#[trigger] r.sprites@[s]).pixels@,
                    bytes@,
                    s * 0x20,
                ),
    {
        let count = bytes.len() / 0x20;
        let mut sprites: Vec<Sprite> = Vec::new();
        let mut s: usize = 0;
        while s < count
            invariant
                s <= count,
                bytes@.len() <= usize::MAX,
                count == bytes@.len() / 0x20,
                sprites@.len() == s,
                forall|m: int|
                    0 <= m < s ==> spec_tile_pixels(
                        (#[trigger] sprites@[m]).pixels@,
                        bytes@,
                        m * 0x20,
                    ),
            decreases count - s,
        {
            proof {
                assert(s * 0x20 + 0x20 <= bytes@.len()) by (nonlinear_arith)
                    requires
                        s < count,
                        count == bytes@.len() / 0x20,
                ;
                assert(s * 0x20 >= 0) by (nonlinear_arith)
                    requires
                        s >= 0,
                ;
            }
            let start = s * 0x20;
            let tile = vstd::slice::slice_subrange(bytes, start, start + 0x20);
            let sprite = Sprite::from_4bpp(tile);
            proof {
                assert forall|i: int|
                    0 <= i < 0x20 implies sprite.pixels@[2 * i] == (#[trigger] bytes@[start as int
                        + i]) % 16 && sprite.pixels@[2 * i + 1] == bytes@[start as int + i]
                        / 16 by {
                    assert(tile@[0 + i] == bytes@[start as int + i]);
                }
                assert(spec_tile_pixels(sprite.pixels@, bytes@, start as int));
            }
            sprites.push(sprite);
            s = s + 1;
        }
        Spritesheet { sprites }
    }
}

} // verus!
