use yanimator::oam::{get_size_string_with_shape, OAM, OAMFlip, OAMShape, OAMSize};

fn oam(shape: OAMShape, size: OAMSize, flip: OAMFlip, x: i8, y: i8, palette: usize, tile: usize) -> OAM {
    OAM { shape, size, flip, x, y, palette, tile, selected: false }
}

#[test]
fn decode_packed_basic() {
    // 0x0005, 0x4010, 0x2034: square, y=5, size1/no flip, x=16, palette 2, tile 0x34
    let o = OAM::new(&[0x00, 0x05, 0x40, 0x10, 0x20, 0x34]);
    assert_eq!(o.shape, OAMShape::Square);
    assert_eq!(o.size, OAMSize::Size1);
    assert_eq!(o.flip, OAMFlip::NoFlip);
    assert_eq!(o.x, 16);
    assert_eq!(o.y, 5);
    assert_eq!(o.palette, 2);
    assert_eq!(o.tile, 0x34);
}

#[test]
fn decode_packed_shapes_and_flips() {
    let h = OAM::new(&[0x40, 0x00, 0x10, 0x00, 0x00, 0x00]);
    assert_eq!(h.shape, OAMShape::Horizontal);
    assert_eq!(h.flip, OAMFlip::Horizontal);
    let v = OAM::new(&[0x80, 0x00, 0x20, 0x00, 0x00, 0x00]);
    assert_eq!(v.shape, OAMShape::Vertical);
    assert_eq!(v.flip, OAMFlip::Vertical);
    let b = OAM::new(&[0xF0, 0x00, 0xF0, 0x00, 0x00, 0x00]);
    // unknown shape nibble falls back to Square; 0xF nibble = Size3 + Both
    assert_eq!(b.shape, OAMShape::Square);
    assert_eq!(b.size, OAMSize::Size3);
    assert_eq!(b.flip, OAMFlip::Both);
}

#[test]
fn decode_packed_sign_boundaries() {
    // y = 0x7F decodes to +127; y = 0x80 decodes to -128
    let plus = OAM::new(&[0x00, 0x7F, 0x00, 0x00, 0x00, 0x00]);
    assert_eq!(plus.y, 127);
    let minus = OAM::new(&[0x00, 0x80, 0x00, 0x00, 0x00, 0x00]);
    assert_eq!(minus.y, -128);
    // x sign bit lives in bit 8 of the second word
    let xneg = OAM::new(&[0x00, 0x00, 0x01, 0xFF, 0x00, 0x00]);
    assert_eq!(xneg.x, -1);
    let xpos = OAM::new(&[0x00, 0x00, 0x00, 0x7F, 0x00, 0x00]);
    assert_eq!(xpos.x, 127);
}

#[test]
fn packed_round_trip_canonical_bytes() {
    // horizontal shape, y=127, size2 + hflip, x=-123 (9-bit 0x185), palette 2, tile 0x123
    let b = [0x40u8, 0x7F, 0x91, 0x85, 0x21, 0x23];
    let o = OAM::new(&b);
    assert_eq!(o.shape, OAMShape::Horizontal);
    assert_eq!(o.y, 127);
    assert_eq!(o.size, OAMSize::Size2);
    assert_eq!(o.flip, OAMFlip::Horizontal);
    assert_eq!(o.x, -123);
    assert_eq!(o.palette, 2);
    assert_eq!(o.tile, 0x123);
    assert_eq!(o.to_packed(), b.to_vec());
}

#[test]
fn packed_round_trip_negative_x() {
    let o = oam(OAMShape::Square, OAMSize::Size0, OAMFlip::NoFlip, -1, -2, 5, 0xABC);
    let bytes = o.to_packed();
    assert_eq!(bytes, vec![0x00, 0xFE, 0x01, 0xFF, 0x5A, 0xBC]);
    let back = OAM::new(&bytes);
    assert_eq!(back, o);
}

#[test]
fn flat_round_trip() {
    let o = oam(OAMShape::Vertical, OAMSize::Size3, OAMFlip::Both, -40, 33, 200, 0xBEEF);
    let bytes = o.to_bin();
    assert_eq!(bytes.len(), 8);
    assert_eq!(bytes[0], 2);
    assert_eq!(bytes[1], 3);
    assert_eq!(bytes[2], 3);
    assert_eq!(bytes[6], 0xBE);
    assert_eq!(bytes[7], 0xEF);
    let back = OAM::from_bin(&bytes);
    assert_eq!(back, o);
}

#[test]
fn flat_decode_bad_ordinals_fall_back() {
    let o = OAM::from_bin(&[9, 9, 9, 0, 0, 0, 0, 1]);
    assert_eq!(o.shape, OAMShape::Square);
    assert_eq!(o.size, OAMSize::Size0);
    assert_eq!(o.flip, OAMFlip::NoFlip);
    assert_eq!(o.tile, 1);
}

#[test]
fn tile_grid_square_size1() {
    // 2x2 tiles at 0x10: [0x10, 0x11, 0x30, 0x31] with row stride 32
    let o = oam(OAMShape::Square, OAMSize::Size1, OAMFlip::NoFlip, 0, 0, 0, 0x10);
    assert_eq!(o.get_sprite_indexes_one_dimensional(), vec![0x10, 0x11, 0x30, 0x31]);
    let grid = o.get_sprite_indexes();
    assert_eq!(grid, vec![vec![0x10, 0x11], vec![0x30, 0x31]]);
}

#[test]
fn tile_grid_flips_reverse_traversal() {
    let hf = oam(OAMShape::Square, OAMSize::Size1, OAMFlip::Horizontal, 0, 0, 0, 0);
    assert_eq!(hf.get_sprite_indexes_one_dimensional(), vec![1, 0, 33, 32]);
    let vf = oam(OAMShape::Square, OAMSize::Size1, OAMFlip::Vertical, 0, 0, 0, 0);
    assert_eq!(vf.get_sprite_indexes_one_dimensional(), vec![32, 33, 0, 1]);
    let bf = oam(OAMShape::Square, OAMSize::Size1, OAMFlip::Both, 0, 0, 0, 0);
    assert_eq!(bf.get_sprite_indexes_one_dimensional(), vec![33, 32, 1, 0]);
}

#[test]
fn tile_grid_rectangular_shapes() {
    let h = oam(OAMShape::Horizontal, OAMSize::Size0, OAMFlip::NoFlip, 0, 0, 0, 7);
    assert_eq!(h.get_sprite_indexes_one_dimensional(), vec![7, 8]);
    let v = oam(OAMShape::Vertical, OAMSize::Size0, OAMFlip::NoFlip, 0, 0, 0, 7);
    assert_eq!(v.get_sprite_indexes_one_dimensional(), vec![7, 39]);
}

#[test]
fn size_strings_follow_shape() {
    assert_eq!(get_size_string_with_shape(&OAMSize::Size0, &OAMShape::Square), "8x8");
    assert_eq!(get_size_string_with_shape(&OAMSize::Size1, &OAMShape::Square), "16x16");
    assert_eq!(get_size_string_with_shape(&OAMSize::Size3, &OAMShape::Horizontal), "64x32");
    assert_eq!(get_size_string_with_shape(&OAMSize::Size2, &OAMShape::Vertical), "16x32");
}
