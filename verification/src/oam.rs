//! One sprite placement record (an OAM entry) and its two byte encodings:
//! the packed 6-byte hardware layout (three big-endian 16-bit words) and the
//! flat 8-byte layout used by the binary project format.

use vstd::prelude::*;

verus! {

#[derive(Debug, PartialEq, Eq, Structural, Copy, Clone)]
pub enum OAMShape {
    Square,
    Horizontal,
    Vertical,
}

#[derive(Debug, PartialEq, Eq, Structural, Copy, Clone)]
pub enum OAMSize {
    Size0,
    Size1,
    Size2,
    Size3,
}

#[derive(Debug, PartialEq, Eq, Structural, Copy, Clone)]
pub enum OAMFlip {
    NoFlip,
    Horizontal,
    Vertical,
    Both,
}

#[derive(Debug, PartialEq, Eq, Structural, Copy, Clone)]
pub struct OAM {
    pub shape: OAMShape,
    pub size: OAMSize,
    pub flip: OAMFlip,
    pub x: i8,
    pub y: i8,
    pub palette: usize,
    pub tile: usize,
    pub selected: bool,
}

/// The low byte of a word read as a signed 8-bit offset: values at or above
/// 0x80 wrap around to the negative range.
pub open spec fn spec_signed8(b: u8) -> i8 {
    if b >= 128 {
        (b - 256) as i8
    } else {
        b as i8
    }
}

/// The two's-complement byte that stores a signed 8-bit offset.
pub open spec fn spec_unsigned8(x: i8) -> u8 {
    if x < 0 {
        (x + 256) as u8
    } else {
        x as u8
    }
}

/// Shape selected by the high nibble of the first packed word; nibbles other
/// than 0x0, 0x4 and 0x8 fall back to `Square`.
pub open spec fn spec_shape_of_nibble(n: u8) -> OAMShape {
    if n == 0x4 {
        OAMShape::Horizontal
    } else if n == 0x8 {
        OAMShape::Vertical
    } else {
        OAMShape::Square
    }
}

/// High-nibble value that encodes a shape.
pub open spec fn spec_shape_code(s: OAMShape) -> u8 {
    match s {
        OAMShape::Square => 0x0,
        OAMShape::Horizontal => 0x4,
        OAMShape::Vertical => 0x8,
    }
}

/// Size selected by the upper two bits of the flip/size nibble.
pub open spec fn spec_size_of_bits(n: u8) -> OAMSize {
    if n == 1 {
        OAMSize::Size1
    } else if n == 2 {
        OAMSize::Size2
    } else if n == 3 {
        OAMSize::Size3
    } else {
        OAMSize::Size0
    }
}

pub open spec fn spec_size_ord(s: OAMSize) -> u8 {
    match s {
        OAMSize::Size0 => 0,
        OAMSize::Size1 => 1,
        OAMSize::Size2 => 2,
        OAMSize::Size3 => 3,
    }
}

/// Flip selected by the lower two bits of the flip/size nibble.
pub open spec fn spec_flip_of_bits(n: u8) -> OAMFlip {
    if n == 1 {
        OAMFlip::Horizontal
    } else if n == 2 {
        OAMFlip::Vertical
    } else if n == 3 {
        OAMFlip::Both
    } else {
        OAMFlip::NoFlip
    }
}

pub open spec fn spec_flip_ord(f: OAMFlip) -> u8 {
    match f {
        OAMFlip::NoFlip => 0,
        OAMFlip::Horizontal => 1,
        OAMFlip::Vertical => 2,
        OAMFlip::Both => 3,
    }
}

pub open spec fn spec_shape_of_ord(n: u8) -> OAMShape {
    if n == 1 {
        OAMShape::Horizontal
    } else if n == 2 {
        OAMShape::Vertical
    } else {
        OAMShape::Square
    }
}

pub open spec fn spec_shape_ord(s: OAMShape) -> u8 {
    match s {
        OAMShape::Square => 0,
        OAMShape::Horizontal => 1,
        OAMShape::Vertical => 2,
    }
}

/// The record decoded from the packed 6-byte layout: three big-endian words
/// `0xSYYY, 0xFXXX, 0xPTTT`.  The x and y fields hold 8 significant bits, so
/// only the low byte of each word reaches the stored offset.
pub open spec fn spec_decode_packed(b: Seq<u8>) -> OAM {
    OAM {
        shape: spec_shape_of_nibble(b[0] / 16),
        size: spec_size_of_bits((b[2] / 16) / 4),
        flip: spec_flip_of_bits((b[2] / 16) % 4),
        x: spec_signed8(b[3]),
        y: spec_signed8(b[1]),
        palette: (b[4] / 16) as usize,
        tile: ((b[4] % 16) as usize * 256 + b[5] as usize) as usize,
        selected: false,
    }
}

/// The packed 6-byte layout written for a record.  A negative x sets bit 8 of
/// the second word (9-bit two's complement); palette and tile are masked to
/// their 4-bit and 12-bit fields.
pub open spec fn spec_encode_packed(o: OAM) -> Seq<u8> {
    seq![
        (spec_shape_code(o.shape) * 16) as u8,
        spec_unsigned8(o.y),
        ((spec_size_ord(o.size) * 4 + spec_flip_ord(o.flip)) * 16 + (if o.x < 0 {
            1u8
        } else {
            0u8
        })) as u8,
        spec_unsigned8(o.x),
        ((o.palette % 16) * 16 + (o.tile % 4096) / 256) as u8,
        (o.tile % 256) as u8,
    ]
}

/// The record decoded from the flat 8-byte layout: one byte per field with
/// the tile index in the last two bytes, big-endian.  Out-of-range enum
/// ordinals fall back to the first variant.
pub open spec fn spec_decode_flat(b: Seq<u8>) -> OAM {
    OAM {
        shape: spec_shape_of_ord(b[0]),
        size: spec_size_of_bits(if b[1] <= 3 {
            b[1]
        } else {
            0
        }),
        flip: spec_flip_of_bits(if b[2] <= 3 {
            b[2]
        } else {
            0
        }),
        x: spec_signed8(b[3]),
        y: spec_signed8(b[4]),
        palette: b[5] as usize,
        tile: (b[6] as usize * 256 + b[7] as usize) as usize,
        selected: false,
    }
}

/// The flat 8-byte layout written for a record; palette and tile are truncated
/// to the 8 and 16 bits the layout stores.
pub open spec fn spec_encode_flat(o: OAM) -> Seq<u8> {
    seq![
        spec_shape_ord(o.shape),
        spec_size_ord(o.size),
        spec_flip_ord(o.flip),
        spec_unsigned8(o.x),
        spec_unsigned8(o.y),
        (o.palette % 256) as u8,
        ((o.tile / 256) % 256) as u8,
        (o.tile % 256) as u8,
    ]
}

/// Width in tiles of the area a record covers, from the shape/size table.
pub open spec fn spec_grid_width(shape: OAMShape, size: OAMSize) -> int {
    match shape {
        OAMShape::Square => match size {
            OAMSize::Size0 => 1,
            OAMSize::Size1 => 2,
            OAMSize::Size2 => 4,
            OAMSize::Size3 => 8,
        },
        OAMShape::Horizontal => match size {
            OAMSize::Size0 => 2,
            OAMSize::Size1 => 4,
            OAMSize::Size2 => 4,
            OAMSize::Size3 => 8,
        },
        OAMShape::Vertical => match size {
            OAMSize::Size0 => 1,
            OAMSize::Size1 => 1,
            OAMSize::Size2 => 2,
            OAMSize::Size3 => 4,
        },
    }
}

/// Height in tiles of the area a record covers, from the shape/size table.
pub open spec fn spec_grid_height(shape: OAMShape, size: OAMSize) -> int {
    match shape {
        OAMShape::Square => match size {
            OAMSize::Size0 => 1,
            OAMSize::Size1 => 2,
            OAMSize::Size2 => 4,
            OAMSize::Size3 => 8,
        },
        OAMShape::Horizontal => match size {
            OAMSize::Size0 => 1,
            OAMSize::Size1 => 1,
            OAMSize::Size2 => 2,
            OAMSize::Size3 => 4,
        },
        OAMShape::Vertical => match size {
            OAMSize::Size0 => 2,
            OAMSize::Size1 => 4,
            OAMSize::Size2 => 4,
            OAMSize::Size3 => 8,
        },
    }
}

/// Column of the sheet read for display column `c`: a horizontal flip reverses
/// the traversal order, not the computed indices.
pub open spec fn spec_grid_col(o: OAM, c: int) -> int {
    if o.flip == OAMFlip::Horizontal || o.flip == OAMFlip::Both {
        spec_grid_width(o.shape, o.size) - 1 - c
    } else {
        c
    }
}

/// Row of the sheet read for display row `r`: a vertical flip reverses the
/// traversal order, not the computed indices.
pub open spec fn spec_grid_row(o: OAM, r: int) -> int {
    if o.flip == OAMFlip::Vertical || o.flip == OAMFlip::Both {
        spec_grid_height(o.shape, o.size) - 1 - r
    } else {
        r
    }
}

/// Tile-sheet index shown in display cell `(r, c)`; 32 is the fixed sheet
/// row stride.
pub open spec fn spec_grid_index(o: OAM, r: int, c: int) -> int {
    o.tile + spec_grid_col(o, c) + spec_grid_row(o, r) * 32
}

/// Largest tile-sheet index the record can touch; the bound that keeps the
/// grid arithmetic inside `usize`.
pub open spec fn spec_grid_fits(o: OAM) -> bool {
    o.tile + spec_grid_width(o.shape, o.size) - 1 + (spec_grid_height(o.shape, o.size) - 1) * 32
        <= usize::MAX
}

/// Pixel dimension label for a size under a shape (tiles are 8 pixels).
pub open spec fn spec_size_string(size: OAMSize, shape: OAMShape) -> Seq<char> {
    match shape {
        OAMShape::Square => match size {
            OAMSize::Size0 => "8x8"@,
            OAMSize::Size1 => "16x16"@,
            OAMSize::Size2 => "32x32"@,
            OAMSize::Size3 => "64x64"@,
        },
        OAMShape::Horizontal => match size {
            OAMSize::Size0 => "16x8"@,
            OAMSize::Size1 => "32x8"@,
            OAMSize::Size2 => "32x16"@,
            OAMSize::Size3 => "64x32"@,
        },
        OAMShape::Vertical => match size {
            OAMSize::Size0 => "8x16"@,
            OAMSize::Size1 => "8x32"@,
            OAMSize::Size2 => "16x32"@,
            OAMSize::Size3 => "32x64"@,
        },
    }
}

/// Pixel dimension label shown for a size under a shape.
pub fn get_size_string_with_shape(size: &OAMSize, shape: &OAMShape) -> (r: &'static str)
    ensures
        r@ == spec_size_string(*size, *shape),
{
    match shape {
        OAMShape::Square => match size {
            OAMSize::Size0 => "8x8",
            OAMSize::Size1 => "16x16",
            OAMSize::Size2 => "32x32",
            OAMSize::Size3 => "64x64",
        },
        OAMShape::Horizontal => match size {
            OAMSize::Size0 => "16x8",
            OAMSize::Size1 => "32x8",
            OAMSize::Size2 => "32x16",
            OAMSize::Size3 => "64x32",
        },
        OAMShape::Vertical => match size {
            OAMSize::Size0 => "8x16",
            OAMSize::Size1 => "8x32",
            OAMSize::Size2 => "16x32",
            OAMSize::Size3 => "32x64",
        },
    }
}

/// Reads the low byte of a word as a signed 8-bit offset.
fn signed8(b: u8) -> (r: i8)
    ensures
        r == spec_signed8(b),
{
    if b >= 128 {
        (b as i16 - 256) as i8
    } else {
        b as i8
    }
}

/// Two's-complement byte of a signed 8-bit offset.
fn unsigned8(x: i8) -> (r: u8)
    ensures
        r == spec_unsigned8(x),
{
    if x < 0 {
        (x as i16 + 256) as u8
    } else {
        x as u8
    }
}

impl OAM {
    /// Decodes a record from the packed hardware layout: words `0xSYYY`,
    /// `0xFXXX`, `0xPTTT`, each big-endian.  Unknown shape nibbles fall back
    /// to `Square` silently.
    pub fn new(bytes: &[u8]) -> (r: OAM)
        requires
            bytes@.len() >= 6,
        ensures
            r == spec_decode_packed(bytes@),
    {
        let shape_nibble = bytes[0] / 16;
        let shape = if shape_nibble == 0x4 {
            OAMShape::Horizontal
        } else if shape_nibble == 0x8 {
            OAMShape::Vertical
        } else {
            OAMShape::Square
        };

        let flip_size_nibble = bytes[2] / 16;
        let size_bits = flip_size_nibble / 4;
        let size = if size_bits == 1 {
            OAMSize::Size1
        } else if size_bits == 2 {
            OAMSize::Size2
        } else if size_bits == 3 {
            OAMSize::Size3
        } else {
            OAMSize::Size0
        };
        let flip_bits = flip_size_nibble % 4;
        let flip = if flip_bits == 1 {
            OAMFlip::Horizontal
        } else if flip_bits == 2 {
            OAMFlip::Vertical
        } else if flip_bits == 3 {
            OAMFlip::Both
        } else {
            OAMFlip::NoFlip
        };

        let x = signed8(bytes[3]);
        let y = signed8(bytes[1]);
        let palette = (bytes[4] / 16) as usize;
        let tile = (bytes[4] % 16) as usize * 256 + bytes[5] as usize;

        OAM { shape, size, flip, x, y, palette, tile, selected: false }
    }

    /// Encodes this record into the packed 6-byte layout, the inverse of
    /// [`OAM::new`] on canonical inputs.
    pub fn to_packed(&self) -> (r: Vec<u8>)
        ensures
            r@ == spec_encode_packed(*self),
    {
        let mut r: Vec<u8> = Vec::new();
        let shape_code: u8 = match self.shape {
            OAMShape::Square => 0x0,
            OAMShape::Horizontal => 0x4,
            OAMShape::Vertical => 0x8,
        };
        let size_ord: u8 = match self.size {
            OAMSize::Size0 => 0,
            OAMSize::Size1 => 1,
            OAMSize::Size2 => 2,
            OAMSize::Size3 => 3,
        };
        let flip_ord: u8 = match self.flip {
            OAMFlip::NoFlip => 0,
            OAMFlip::Horizontal => 1,
            OAMFlip::Vertical => 2,
            OAMFlip::Both => 3,
        };
        r.push(shape_code * 16);
        r.push(unsigned8(self.y));
        r.push((size_ord * 4 + flip_ord) * 16 + (if self.x < 0 { 1 } else { 0 }));
        r.push(unsigned8(self.x));
        r.push(((self.palette % 16) * 16) as u8 + ((self.tile % 4096) / 256) as u8);
        r.push((self.tile % 256) as u8);
        proof {
            assert(r@ =~= spec_encode_packed(*self));
        }
        r
    }

    /// Decodes a record from the flat 8-byte layout of the binary project
    /// format.  Out-of-range enum ordinals fall back to the first variant.
    pub fn from_bin(bytes: &[u8]) -> (r: OAM)
        requires
            bytes@.len() >= 8,
        ensures
            r == spec_decode_flat(bytes@),
    {
        let shape = if bytes[0] == 1 {
            OAMShape::Horizontal
        } else if bytes[0] == 2 {
            OAMShape::Vertical
        } else {
            OAMShape::Square
        };
        let size = if bytes[1] == 1 {
            OAMSize::Size1
        } else if bytes[1] == 2 {
            OAMSize::Size2
        } else if bytes[1] == 3 {
            OAMSize::Size3
        } else {
            OAMSize::Size0
        };
        let flip = if bytes[2] == 1 {
            OAMFlip::Horizontal
        } else if bytes[2] == 2 {
            OAMFlip::Vertical
        } else if bytes[2] == 3 {
            OAMFlip::Both
        } else {
            OAMFlip::NoFlip
        };
        let x = signed8(bytes[3]);
        let y = signed8(bytes[4]);
        let palette = bytes[5] as usize;
        let tile = bytes[6] as usize * 256 + bytes[7] as usize;

        OAM { shape, size, flip, x, y, palette, tile, selected: false }
    }

    /// Encodes this record into the flat 8-byte layout, the inverse of
    /// [`OAM::from_bin`] on canonical inputs.
    pub fn to_bin(&self) -> (r: Vec<u8>)
        ensures
            r@ == spec_encode_flat(*self),
    {
        let mut r: Vec<u8> = Vec::new();
        let shape_ord: u8 = match self.shape {
            OAMShape::Square => 0,
            OAMShape::Horizontal => 1,
            OAMShape::Vertical => 2,
        };
        let size_ord: u8 = match self.size {
            OAMSize::Size0 => 0,
            OAMSize::Size1 => 1,
            OAMSize::Size2 => 2,
            OAMSize::Size3 => 3,
        };
        let flip_ord: u8 = match self.flip {
            OAMFlip::NoFlip => 0,
            OAMFlip::Horizontal => 1,
            OAMFlip::Vertical => 2,
            OAMFlip::Both => 3,
        };
        r.push(shape_ord);
        r.push(size_ord);
        r.push(flip_ord);
        r.push(unsigned8(self.x));
        r.push(unsigned8(self.y));
        r.push((self.palette % 256) as u8);
        r.push(((self.tile / 256) % 256) as u8);
        r.push((self.tile % 256) as u8);
        proof {
            assert(r@ =~= spec_encode_flat(*self));
        }
        r
    }

    /// Row-major grid of the tile-sheet indices this record covers.  Flips
    /// reverse the row or column traversal order; the set of indices stays
    /// the same and is read mirrored for display.
    pub fn get_sprite_indexes(&self) -> (r: Vec<Vec<usize>>)
        requires
            spec_grid_fits(*self),
        ensures
            r@.len() == spec_grid_height(self.shape, self.size),
            forall|i: int| 0 <= i < r@.len() ==> (#[trigger] r@[i])@.len() == spec_grid_width(
                self.shape,
                self.size,
            ),
            forall|i: int, j: int|
                0 <= i < r@.len() && 0 <= j < r@[i]@.len() ==> (#[trigger] r@[i]@[j])
                    == spec_grid_index(*self, i, j),
    {
        let width: usize;
        let height: usize;
        match self.shape {
            OAMShape::Square => match self.size {
                OAMSize::Size0 => {
                    width = 1;
                    height = 1;
                },
                OAMSize::Size1 => {
                    width = 2;
                    height = 2;
                },
                OAMSize::Size2 => {
                    width = 4;
                    height = 4;
                },
                OAMSize::Size3 => {
                    width = 8;
                    height = 8;
                },
            },
            OAMShape::Horizontal => match self.size {
                OAMSize::Size0 => {
                    width = 2;
                    height = 1;
                },
                OAMSize::Size1 => {
                    width = 4;
                    height = 1;
                },
                OAMSize::Size2 => {
                    width = 4;
                    height = 2;
                },
                OAMSize::Size3 => {
                    width = 8;
                    height = 4;
                },
            },
            OAMShape::Vertical => match self.size {
                OAMSize::Size0 => {
                    width = 1;
                    height = 2;
                },
                OAMSize::Size1 => {
                    width = 1;
                    height = 4;
                },
                OAMSize::Size2 => {
                    width = 2;
                    height = 4;
                },
                OAMSize::Size3 => {
                    width = 4;
                    height = 8;
                },
            },
        }
        let hflip = matches!(self.flip, OAMFlip::Horizontal | OAMFlip::Both);
        let vflip = matches!(self.flip, OAMFlip::Vertical | OAMFlip::Both);

        let mut sprite_indexes: Vec<Vec<usize>> = Vec::new();
        for y in 0..height
            invariant
                width == spec_grid_width(self.shape, self.size),
                height == spec_grid_height(self.shape, self.size),
                hflip == (self.flip == OAMFlip::Horizontal || self.flip == OAMFlip::Both),
                vflip == (self.flip == OAMFlip::Vertical || self.flip == OAMFlip::Both),
                spec_grid_fits(*self),
                sprite_indexes@.len() == y,
                forall|i: int| 0 <= i < y ==> (#[trigger] sprite_indexes@[i])@.len() == width,
                forall|i: int, j: int|
                    0 <= i < y && 0 <= j < width ==> (#[trigger] sprite_indexes@[i]@[j])
                        == spec_grid_index(*self, i, j),
        {
            let mut row: Vec<usize> = Vec::new();
            let row_index = if vflip {
                height - 1 - y
            } else {
                y
            };
            for x in 0..width
                invariant
                    width == spec_grid_width(self.shape, self.size),
                    height == spec_grid_height(self.shape, self.size),
                    hflip == (self.flip == OAMFlip::Horizontal || self.flip == OAMFlip::Both),
                    vflip == (self.flip == OAMFlip::Vertical || self.flip == OAMFlip::Both),
                    spec_grid_fits(*self),
                    y < height,
                    row_index == spec_grid_row(*self, y as int),
                    row@.len() == x,
                    forall|j: int| 0 <= j < x ==> (#[trigger] row@[j]) == spec_grid_index(
                        *self,
                        y as int,
                        j,
                    ),
            {
                let col_index = if hflip {
                    width - 1 - x
                } else {
                    x
                };
                row.push(self.tile + col_index + row_index * 32);
            }
            sprite_indexes.push(row);
        }
        sprite_indexes
    }

    /// Row-major flattening of [`OAM::get_sprite_indexes`].
    pub fn get_sprite_indexes_one_dimensional(&self) -> (r: Vec<usize>)
        requires
            spec_grid_fits(*self),
        ensures
            r@.len() == spec_grid_width(self.shape, self.size) * spec_grid_height(
                self.shape,
                self.size,
            ),
            forall|k: int|
                0 <= k < r@.len() ==> (#[trigger] r@[k]) == spec_grid_index(
                    *self,
                    k / spec_grid_width(self.shape, self.size),
                    k % spec_grid_width(self.shape, self.size),
                ),
    {
        let two_dimensional_indexes = self.get_sprite_indexes();
        let mut indexes: Vec<usize> = Vec::new();
        let ghost w = spec_grid_width(self.shape, self.size);
        let mut y: usize = 0;
        while y < two_dimensional_indexes.len()
            invariant
                w == spec_grid_width(self.shape, self.size),
                w >= 1,
                two_dimensional_indexes@.len() == spec_grid_height(self.shape, self.size),
                forall|i: int|
                    0 <= i < two_dimensional_indexes@.len() ==> (
                    #[trigger] two_dimensional_indexes@[i])@.len() == w,
                forall|i: int, j: int|
                    0 <= i < two_dimensional_indexes@.len() && 0 <= j < w ==> (
                    #[trigger] two_dimensional_indexes@[i]@[j]) == spec_grid_index(*self, i, j),
                y <= two_dimensional_indexes@.len(),
                indexes@.len() == y * w,
                forall|k: int| 0 <= k < indexes@.len() ==> (#[trigger] indexes@[k])
                    == spec_grid_index(*self, k / w, k % w),
            decreases two_dimensional_indexes@.len() - y,
        {
            let row = &two_dimensional_indexes[y];
            let mut x: usize = 0;
            while x < row.len()
                invariant
                    w == spec_grid_width(self.shape, self.size),
                    w >= 1,
                    row@.len() == w,
                    forall|j: int| 0 <= j < w ==> (#[trigger] row@[j]) == spec_grid_index(
                        *self,
                        y as int,
                        j,
                    ),
                    x <= w,
                    indexes@.len() == y * w + x,
                    forall|k: int| 0 <= k < indexes@.len() ==> (#[trigger] indexes@[k])
                        == spec_grid_index(*self, k / w, k % w),
                decreases row@.len() - x,
            {
                indexes.push(row[x]);
                proof {
                    let k = indexes@.len() - 1;
                    assert(k == y * w + x);
                    lemma_div_mod_split(y as int, x as int, w);
                    assert(k / w == y as int && k % w == x as int);
                }
                x = x + 1;
            }
            proof {
                assert((y + 1) * w == y * w + w) by (nonlinear_arith);
            }
            y = y + 1;
        }
        proof {
            assert(indexes@.len() == spec_grid_height(self.shape, self.size) * w);
        }
        indexes
    }
}

/// Canonical packed records: a recognised shape nibble, the y field within
/// its 8 significant bits, and the x field a 9-bit two's-complement value
/// whose sign bit matches its low byte.  These are exactly the 6-byte inputs
/// the encoder itself can produce.
pub open spec fn spec_packed_canonical(b: Seq<u8>) -> bool {
    &&& b.len() == 6
    &&& (b[0] / 16 == 0x0 || b[0] / 16 == 0x4 || b[0] / 16 == 0x8)
    &&& b[0] % 16 == 0
    &&& ((b[2] % 16 == 0 && b[3] < 128) || (b[2] % 16 == 1 && b[3] >= 128))
}

/// Encoding a decoded packed record reproduces the bytes, for every canonical
/// 6-byte input.  Non-canonical inputs alias: an unknown shape nibble decodes
/// as `Square`, and y or x bits beyond the stored 8 are dropped, so those
/// bytes cannot round-trip.
pub proof fn lemma_packed_bytes_round_trip(b: Seq<u8>)
    requires
        spec_packed_canonical(b),
    ensures
        spec_encode_packed(spec_decode_packed(b)) == b,
{
    let o = spec_decode_packed(b);
    let e = spec_encode_packed(o);
    assert(spec_shape_code(o.shape) == b[0] / 16);
    assert(e[0] == (b[0] / 16) * 16);
    assert(b[0] == (b[0] / 16) * 16 + b[0] % 16);
    assert(e[1] == b[1]);
    let nib = b[2] / 16;
    assert(spec_size_ord(spec_size_of_bits(nib / 4)) == nib / 4);
    assert(spec_flip_ord(spec_flip_of_bits(nib % 4)) == nib % 4);
    assert((nib / 4) * 4 + nib % 4 == nib);
    assert(o.x < 0 <==> b[3] >= 128);
    assert(b[2] == (b[2] / 16) * 16 + b[2] % 16);
    assert(e[2] == b[2]);
    assert(e[3] == b[3]);
    assert(o.palette == b[4] / 16 && o.palette < 16);
    assert(o.tile == (b[4] % 16) * 256 + b[5] && o.tile < 4096);
    assert(o.tile / 256 == b[4] % 16 && o.tile % 256 == b[5]) by (nonlinear_arith)
        requires
            o.tile == (b[4] % 16) * 256 + b[5],
            b[5] < 256,
    ;
    assert(e[4] == b[4]);
    assert(e[5] == b[5]);
    assert(e =~= b);
}

/// Decoding an encoded flat record reproduces the record, for every record
/// whose palette and tile fit the 8 and 16 bits the flat layout stores and
/// whose transient selection flag is clear.
pub proof fn lemma_flat_record_round_trip(o: OAM)
    requires
        o.palette < 256,
        o.tile < 65536,
        !o.selected,
    ensures
        spec_decode_flat(spec_encode_flat(o)) == o,
{
    let e = spec_encode_flat(o);
    let d = spec_decode_flat(e);
    assert(spec_shape_of_ord(spec_shape_ord(o.shape)) == o.shape);
    assert(spec_size_of_bits(spec_size_ord(o.size)) == o.size);
    assert(spec_flip_of_bits(spec_flip_ord(o.flip)) == o.flip);
    assert(spec_signed8(spec_unsigned8(o.x)) == o.x);
    assert(spec_signed8(spec_unsigned8(o.y)) == o.y);
    assert(e[6] == o.tile / 256 && e[7] == o.tile % 256);
    assert(d.tile == (o.tile / 256) * 256 + o.tile % 256);
    assert(d == o);
}

/// For `0 <= x < w`, the index `y * w + x` splits back into row `y` and
/// column `x`.
proof fn lemma_div_mod_split(y: int, x: int, w: int)
    requires
        w >= 1,
        y >= 0,
        0 <= x < w,
    ensures
        (y * w + x) / w == y,
        (y * w + x) % w == x,
{
    let k = y * w + x;
    assert(k / w == y && k % w == x) by (nonlinear_arith)
        requires
            w >= 1,
            y >= 0,
            0 <= x < w,
            k == y * w + x,
    ;
}

} // verus!
