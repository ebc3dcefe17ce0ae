//! Palette decoding from the `.pal` byte layout: fifteen rows of sixteen
//! colours, four bytes per colour starting at offset 0x18, 0x40 bytes per
//! row.

use vstd::prelude::*;

verus! {

#[derive(Debug, PartialEq, Eq, Structural, Copy, Clone)]
pub struct RGB {
    pub r: u8,
    pub g: u8,
    pub b: u8,
}

pub struct Palette {
    pub palettes: Vec<Vec<RGB>>,
}

/// Byte offset of the red component of colour `i` in palette row `p`.
pub open spec fn spec_pal_offset(p: int, i: int) -> int {
    0x18 + i * 4 + p * 0x40
}

impl Palette {
    /// Decodes the palette rows from raw `.pal` bytes.
    pub fn from_pal(bytes: &[u8]) -> (r: Palette)
        requires
            bytes@.len() >= 0x3d7,
        ensures
            r.palettes@.len() == 15,
            forall|p: int| 0 <= p < 15 ==> (#[trigger] r.palettes@[p])@.len() == 16,
            forall|p: int, i: int|
                0 <= p < 15 && 0 <= i < 16 ==> (#[trigger] r.palettes@[p]@[i]) == (RGB {
                    r: bytes@[spec_pal_offset(p, i)],
                    g: bytes@[spec_pal_offset(p, i) + 1],
                    b: bytes@[spec_pal_offset(p, i) + 2],
                }),
    {
        let mut palettes: Vec<Vec<RGB>> = Vec::new();
        let mut pal: usize = 0;
        while pal < 0xf
            invariant
                pal <= 0xf,
                bytes@.len() >= 0x3d7,
                palettes@.len() == pal,
                forall|p: int| 0 <= p < pal ==> (#[trigger] palettes@[p])@.len() == 16,
                forall|p: int, i: int|
                    0 <= p < pal && 0 <= i < 16 ==> (#[trigger] palettes@[p]@[i]) == (RGB {
                        r: bytes@[spec_pal_offset(p, i)],
                        g: bytes@[spec_pal_offset(p, i) + 1],
                        b: bytes@[spec_pal_offset(p, i) + 2],
                    }),
            decreases 0xf - pal,
        {
            let mut colors: Vec<RGB> = Vec::new();
            let mut i: usize = 0;
            while i < 0x10
                invariant
                    i <= 0x10,
                    pal < 0xf,
                    bytes@.len() >= 0x3d7,
                    colors@.len() == i,
                    forall|m: int|
                        0 <= m < i ==> (#[trigger] colors@[m]) == (RGB {
                            r: bytes@[spec_pal_offset(pal as int, m)],
                            g: bytes@[spec_pal_offset(pal as int, m) + 1],
                            b: bytes@[spec_pal_offset(pal as int, m) + 2],
                        }),
                decreases 0x10 - i,
            {
                let r = bytes[0x18 + i * 4 + pal * 0x40];
                let g = bytes[0x19 + i * 4 + pal * 0x40];
                let b = bytes[0x1a + i * 4 + pal * 0x40];
                colors.push(RGB { r, g, b });
                i = i + 1;
            }
            palettes.push(colors);
            pal = pal + 1;
        }
        Palette { palettes }
    }
}

} // verus!
