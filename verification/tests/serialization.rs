use yanimator::animation::{Animation, AnimationFrame};
use yanimator::cel::AnimationCel;
use yanimator::export::{create_project_bin, export_animation_cels};
use yanimator::import::{load_animation_cels_from_c, load_animations_from_c, load_project};
use yanimator::oam::{OAM, OAMFlip, OAMShape, OAMSize};
use yanimator::parse::parse_hex_string;

fn oam(shape: OAMShape, size: OAMSize, flip: OAMFlip, x: i8, y: i8, palette: usize, tile: usize) -> OAM {
    OAM { shape, size, flip, x, y, palette, tile, selected: false }
}

fn frame(cell: &str, duration: u8, id: usize) -> AnimationFrame {
    AnimationFrame { cell: String::from(cell), duration, id }
}

#[test]
fn empty_project_is_seven_bytes() {
    let bytes = create_project_bin(&vec![], &vec![]);
    assert_eq!(bytes, vec![0x59, 0x41, 0x4E, 0x00, 0x00, 0x00, 0x07]);
}

#[test]
fn project_binary_round_trip() {
    let cel = AnimationCel {
        name: String::from("cel1"),
        oams: vec![
            oam(OAMShape::Square, OAMSize::Size1, OAMFlip::NoFlip, 1, 2, 3, 0x45),
            oam(OAMShape::Horizontal, OAMSize::Size2, OAMFlip::Both, -4, -5, 6, 0x789),
        ],
    };
    let walk = Animation {
        frames: vec![frame("cel1", 5, 0), frame("cel1", 3, 1)],
        name: String::from("walk"),
        current_frame: 0,
        duration: 8,
    };
    let bytes = create_project_bin(&vec![cel], &vec![walk]);
    let loaded = load_project(&bytes).unwrap();
    assert_eq!(loaded.0.len(), 1);
    assert_eq!(loaded.0[0].name, "cel1");
    assert_eq!(loaded.0[0].oams.len(), 2);
    assert_eq!(loaded.0[0].oams[0].tile, 0x45);
    assert_eq!(loaded.0[0].oams[1].x, -4);
    assert_eq!(loaded.0[0].oams[1].flip, OAMFlip::Both);
    assert_eq!(loaded.1.len(), 1);
    assert_eq!(loaded.1[0].name, "walk");
    assert_eq!(loaded.1[0].duration, 8);
    assert_eq!(loaded.1[0].current_frame, 0);
    let fs: Vec<(String, u8, usize)> =
        loaded.1[0].frames.iter().map(|f| (f.cell.clone(), f.duration, f.id)).collect();
    assert_eq!(
        fs,
        vec![(String::from("cel1"), 5, 0), (String::from("cel1"), 3, 1)]
    );
}

#[test]
fn load_project_rejects_short_and_corrupt_images() {
    assert!(load_project(&[0x59, 0x41, 0x4E]).is_none());
    // animations offset far past the end of the image
    assert!(load_project(&[0x59, 0x41, 0x4E, 0x00, 0x00, 0x00, 0x64]).is_none());
}

#[test]
fn cel_c_export_exact_text() {
    let cel = AnimationCel {
        name: String::from("test"),
        oams: vec![oam(OAMShape::Square, OAMSize::Size0, OAMFlip::NoFlip, 1, 2, 3, 0x45)],
    };
    let text = export_animation_cels(&vec![cel]);
    assert_eq!(
        text,
        "// Exported by Yanimator\n\nAnimationCel test[] = {\n      /* Len */ 1,\n      /* 000 */ 0x0002, 0x0001, 0x3045\n};"
    );
}

#[test]
fn cel_c_export_multiple_rows() {
    let cel = AnimationCel {
        name: String::from("pair"),
        oams: vec![
            oam(OAMShape::Square, OAMSize::Size0, OAMFlip::NoFlip, 0, 0, 0, 0),
            oam(OAMShape::Vertical, OAMSize::Size1, OAMFlip::NoFlip, 0, 0, 1, 2),
        ],
    };
    let text = export_animation_cels(&vec![cel]);
    assert_eq!(
        text,
        "// Exported by Yanimator\n\nAnimationCel pair[] = {\n      /* Len */ 2,\n      /* 000 */ 0x0000, 0x0000, 0x0000,\n      /* 001 */ 0x8000, 0x4000, 0x1002\n};"
    );
}

#[test]
fn cel_c_round_trip_through_import() {
    let cel = AnimationCel {
        name: String::from("sprite0"),
        oams: vec![
            oam(OAMShape::Square, OAMSize::Size1, OAMFlip::Horizontal, -8, 7, 2, 0x30),
            oam(OAMShape::Horizontal, OAMSize::Size3, OAMFlip::NoFlip, 100, -100, 15, 0xFFF),
        ],
    };
    let text = export_animation_cels(&vec![cel]);
    let loaded = load_animation_cels_from_c(&text);
    assert_eq!(loaded.len(), 1);
    assert_eq!(loaded[0].name, "sprite0");
    assert_eq!(loaded[0].oams.len(), 2);
    assert_eq!(loaded[0].oams[0].x, -8);
    assert_eq!(loaded[0].oams[0].flip, OAMFlip::Horizontal);
    assert_eq!(loaded[0].oams[1].tile, 0xFFF);
    assert_eq!(loaded[0].oams[1].palette, 15);
    assert_eq!(loaded[0].oams[1].y, -100);
}

#[test]
fn cel_from_c_rejects_malformed_bodies() {
    assert!(AnimationCel::from_c("no marker here", "x").is_none());
    // a record marker with a truncated hex field drops the cel
    assert!(AnimationCel::from_c("/* Len */ 1,\n /* 000 */ 0x00", "x").is_none());
    // a well-formed single record parses
    let c = "/* Len */ 1,\n      /* 000 */ 0x0002, 0x0001, 0x3045";
    let cel = AnimationCel::from_c(c, "ok").unwrap();
    assert_eq!(cel.name, "ok");
    assert_eq!(cel.oams.len(), 1);
    assert_eq!(cel.oams[0].y, 2);
    assert_eq!(cel.oams[0].x, 1);
    assert_eq!(cel.oams[0].palette, 3);
    assert_eq!(cel.oams[0].tile, 0x45);
}

#[test]
fn animation_from_c_parses_groups() {
    let body = "] = {\n    { cel1, 5 },\n    { cel2, 3 },\n}";
    let a = Animation::from_c(body, "walk").unwrap();
    assert_eq!(a.name, "walk");
    assert_eq!(a.duration, 8);
    assert_eq!(a.current_frame, 0);
    let fs: Vec<(String, u8, usize)> =
        a.frames.iter().map(|f| (f.cell.clone(), f.duration, f.id)).collect();
    assert_eq!(
        fs,
        vec![(String::from("cel1"), 5, 0), (String::from("cel2"), 3, 1)]
    );
}

#[test]
fn animation_from_c_rejects_malformed_bodies() {
    // no brace at all
    assert!(Animation::from_c("nothing", "x").is_none());
    // a group whose duration is not a decimal byte
    assert!(Animation::from_c("{ \n { cel1, many } \n }", "x").is_none());
    // a group with no closing brace
    assert!(Animation::from_c("{ \n { cel1, 5 ", "x").is_none());
}

#[test]
fn animations_from_c_scans_blocks() {
    let text = "struct Animation walk[] = {\n    { cel1, 5 },\n    { cel2, 3 },\n};\n\nstruct Animation run[] = {\n    { cel3, 2 },\n};\n";
    let anims = load_animations_from_c(text);
    assert_eq!(anims.len(), 2);
    assert_eq!(anims[0].name, "walk");
    assert_eq!(anims[0].duration, 8);
    assert_eq!(anims[1].name, "run");
    assert_eq!(anims[1].frames.len(), 1);
    assert_eq!(anims[1].frames[0].cell, "cel3");
    assert_eq!(anims[1].frames[0].duration, 2);
}

#[test]
fn animations_from_c_drops_bad_blocks() {
    // the first block's duration token is not numeric and is dropped; the second parses
    let text = "struct Animation bad[] = {\n    { cel1, nope },\n};\nstruct Animation good[] = {\n    { cel1, 1 },\n};\n";
    let anims = load_animations_from_c(text);
    assert_eq!(anims.len(), 1);
    assert_eq!(anims[0].name, "good");
}

#[test]
fn hex_string_parsing() {
    assert_eq!(parse_hex_string("ff"), Some(255));
    assert_eq!(parse_hex_string("FF"), Some(255));
    assert_eq!(parse_hex_string("0"), Some(0));
    assert_eq!(parse_hex_string("7f"), Some(127));
    assert_eq!(parse_hex_string(""), None);
    assert_eq!(parse_hex_string("zz"), None);
    assert_eq!(parse_hex_string("100"), None);
}
