use yanimator::animation::{Animation, AnimationFrame};
use yanimator::cel::AnimationCel;
use yanimator::oam::{OAM, OAMFlip, OAMShape, OAMSize};
use yanimator::palette::Palette;
use yanimator::project::Project;
use yanimator::session::{is_anim_name_invalid, is_cell_name_invalid, AnimationCellsPanel, Topbar};
use yanimator::sprite::{Sprite, Spritesheet};

fn frame(cell: &str, duration: u8, id: usize) -> AnimationFrame {
    AnimationFrame { cell: String::from(cell), duration, id }
}

fn empty_cel(name: &str) -> AnimationCel {
    AnimationCel { name: String::from(name), oams: vec![] }
}

#[test]
fn panels_start_closed() {
    let p = AnimationCellsPanel::init();
    assert!(!p.creation_modal_open);
    assert!(!p.deletion_confirmation_modal_open);
    assert_eq!(p.cell_name, "");
    assert!(p.deleting_cell.is_none());
    let t = Topbar::init();
    assert!(!t.animation_creation_modal_open);
    assert!(!t.animation_deletion_modal_open);
    assert_eq!(t.animation_name, "");
    assert!(t.deleting_anim.is_none());
}

#[test]
fn cell_name_validation_branches() {
    let cels = vec![empty_cel("used")];
    assert!(is_cell_name_invalid("", &cels).is_none());
    assert_eq!(
        is_cell_name_invalid("a b", &cels).unwrap(),
        "Cell name must not contain spaces"
    );
    assert_eq!(
        is_cell_name_invalid("1abc", &cels).unwrap(),
        "First character in cell name must be a letter"
    );
    assert_eq!(
        is_cell_name_invalid("used", &cels).unwrap(),
        "Cell name has already been used"
    );
    assert!(is_cell_name_invalid("fresh", &cels).is_none());
}

#[test]
fn anim_name_validation_branches() {
    let anims = vec![Animation {
        frames: vec![],
        name: String::from("used"),
        current_frame: 0,
        duration: 0,
    }];
    assert!(is_anim_name_invalid("", &anims).is_none());
    assert_eq!(
        is_anim_name_invalid("a b", &anims).unwrap(),
        "Animation name must not contain spaces"
    );
    assert_eq!(
        is_anim_name_invalid("9lives", &anims).unwrap(),
        "First character in animation name must be a letter"
    );
    assert_eq!(
        is_anim_name_invalid("used", &anims).unwrap(),
        "Animation name has already been used"
    );
    assert!(is_anim_name_invalid("fresh", &anims).is_none());
}

#[test]
fn project_create_cel_replaces_by_name() {
    let mut p = Project::new();
    p.create_animation_cell(String::from("a"));
    p.create_animation_cell(String::from("b"));
    assert_eq!(p.cels.len(), 2);
    // a second create under an existing name replaces, keeping names unique
    p.cels[0].oams.push(OAM {
        shape: OAMShape::Square,
        size: OAMSize::Size0,
        flip: OAMFlip::NoFlip,
        x: 0,
        y: 0,
        palette: 0,
        tile: 0,
        selected: false,
    });
    p.create_animation_cell(String::from("a"));
    assert_eq!(p.cels.len(), 2);
    assert_eq!(p.cels[0].name, "a");
    assert_eq!(p.cels[0].oams.len(), 0);
}

#[test]
fn project_find_cel() {
    let mut p = Project::new();
    p.create_animation_cell(String::from("a"));
    p.create_animation_cell(String::from("b"));
    assert_eq!(p.find_cel("b"), Some(1));
    assert_eq!(p.find_cel("missing"), None);
}

#[test]
fn project_remove_cel_cascades_into_animations() {
    let mut p = Project::new();
    p.create_animation_cell(String::from("a"));
    p.create_animation_cell(String::from("b"));
    p.animations.push(Animation {
        frames: vec![frame("a", 2, 0), frame("b", 3, 1), frame("a", 4, 2)],
        name: String::from("walk"),
        current_frame: 0,
        duration: 9,
    });
    p.remove_animation_cell("b");
    assert_eq!(p.cels.len(), 1);
    assert_eq!(p.cels[0].name, "a");
    let fs: Vec<(String, u8, usize)> =
        p.animations[0].frames.iter().map(|f| (f.cell.clone(), f.duration, f.id)).collect();
    // the removed frame's duration merged into the one before it
    assert_eq!(fs, vec![(String::from("a"), 5, 0), (String::from("a"), 4, 2)]);
    assert_eq!(p.animations[0].get_total_frames(), 9);
}

#[test]
fn project_remove_cel_leaves_head_frame() {
    let mut p = Project::new();
    p.create_animation_cell(String::from("a"));
    p.animations.push(Animation {
        frames: vec![frame("a", 2, 0), frame("b", 3, 1)],
        name: String::from("walk"),
        current_frame: 0,
        duration: 5,
    });
    // the head frame (id 0) references the deleted cel but is anchored
    p.remove_animation_cell("a");
    assert_eq!(p.cels.len(), 0);
    assert_eq!(p.animations[0].frames.len(), 2);
    assert_eq!(p.animations[0].frames[0].cell, "a");
}

#[test]
fn project_animation_create_and_remove() {
    let mut p = Project::new();
    p.create_animation(String::from("walk"));
    p.create_animation(String::from("run"));
    assert_eq!(p.animations.len(), 2);
    assert_eq!(p.animations[1].name, "run");
    assert_eq!(p.animations[1].duration, 0);
    p.remove_animation("walk");
    assert_eq!(p.animations.len(), 1);
    assert_eq!(p.animations[0].name, "run");
    p.remove_animation("missing");
    assert_eq!(p.animations.len(), 1);
}

#[test]
fn cel_oam_edits() {
    let mut cel = empty_cel("c");
    cel.add_oam(OAM {
        shape: OAMShape::Square,
        size: OAMSize::Size0,
        flip: OAMFlip::NoFlip,
        x: 0,
        y: 0,
        palette: 0,
        tile: 7,
        selected: false,
    });
    assert_eq!(cel.oams.len(), 1);
    // an out-of-range removal is a no-op
    cel.remove_oam(5);
    assert_eq!(cel.oams.len(), 1);
    cel.remove_oam(0);
    assert_eq!(cel.oams.len(), 0);
}

#[test]
fn cel_draw_order_is_reversed() {
    let mut cel = empty_cel("c");
    for tile in 0..3usize {
        cel.add_oam(OAM {
            shape: OAMShape::Square,
            size: OAMSize::Size0,
            flip: OAMFlip::NoFlip,
            x: 0,
            y: 0,
            palette: 0,
            tile,
            selected: false,
        });
    }
    assert_eq!(cel.draw_order(), vec![2, 1, 0]);
}

#[test]
fn sprite_from_4bpp_splits_nibbles() {
    let bytes = [0x21u8; 0x20];
    let s = Sprite::from_4bpp(&bytes);
    assert_eq!(s.pixels.len(), 0x40);
    assert_eq!(s.pixels[0], 1);
    assert_eq!(s.pixels[1], 2);
}

#[test]
fn spritesheet_from_4bpp_counts_tiles() {
    let mut bytes = vec![0u8; 0x40];
    bytes[0x20] = 0x5A;
    let sheet = Spritesheet::from_4bpp(&bytes);
    assert_eq!(sheet.sprites.len(), 2);
    assert_eq!(sheet.sprites[1].pixels[0], 0xA);
    assert_eq!(sheet.sprites[1].pixels[1], 0x5);
    // trailing bytes short of a full tile are dropped
    bytes.push(0xFF);
    assert_eq!(Spritesheet::from_4bpp(&bytes).sprites.len(), 2);
}

#[test]
fn palette_from_pal_reads_rows() {
    let mut bytes = vec![0u8; 0x400];
    // colour 1 of row 0 sits at 0x18 + 4
    bytes[0x1C] = 10;
    bytes[0x1D] = 20;
    bytes[0x1E] = 30;
    // colour 0 of row 2 sits at 0x18 + 2 * 0x40
    bytes[0x98] = 7;
    let p = Palette::from_pal(&bytes);
    assert_eq!(p.palettes.len(), 15);
    assert_eq!(p.palettes[0].len(), 16);
    assert_eq!(p.palettes[0][1].r, 10);
    assert_eq!(p.palettes[0][1].g, 20);
    assert_eq!(p.palettes[0][1].b, 30);
    assert_eq!(p.palettes[2][0].r, 7);
}
