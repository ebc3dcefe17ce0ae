use yanimator::animation::{Animation, AnimationFrame};

fn frame(cell: &str, duration: u8, id: usize) -> AnimationFrame {
    AnimationFrame { cell: String::from(cell), duration, id }
}

fn anim(frames: Vec<AnimationFrame>, duration: usize) -> Animation {
    Animation { frames, name: String::from("anim"), current_frame: 0, duration }
}

fn durations(a: &Animation) -> Vec<(String, u8, usize)> {
    a.frames.iter().map(|f| (f.cell.clone(), f.duration, f.id)).collect()
}

#[test]
fn total_frames_sums_durations() {
    let a = anim(vec![frame("a", 5, 0), frame("b", 3, 1)], 8);
    assert_eq!(a.get_total_frames(), 8);
    assert_eq!(anim(vec![], 0).get_total_frames(), 0);
}

#[test]
fn positioned_round_trip() {
    // positioning then recomputing durations with the exact total is the identity
    let a = anim(vec![frame("a", 3, 0), frame("b", 4, 1), frame("a", 2, 2)], 9);
    let positioned = Animation::convert_duration_frames_to_positioned(&a.frames);
    assert_eq!(positioned.len(), 3);
    assert_eq!(positioned[0].position, 0);
    assert_eq!(positioned[1].position, 3);
    assert_eq!(positioned[2].position, 7);
    let back = Animation::convert_positioned_frames_to_duration(positioned, 9);
    assert_eq!(durations(&anim(back, 9)), durations(&a));
}

#[test]
fn positioned_round_trip_zero_durations() {
    let a = anim(vec![frame("a", 0, 0), frame("b", 0, 1), frame("c", 4, 2)], 4);
    let positioned = Animation::convert_duration_frames_to_positioned(&a.frames);
    let back = Animation::convert_positioned_frames_to_duration(positioned, 4);
    assert_eq!(durations(&anim(back, 4)), durations(&a));
}

#[test]
fn move_frame_scenario() {
    // [{id:0,dur:5},{id:1,dur:3}], total 8; move_frame(1, 2) recomputes to [7, 1]
    let mut a = anim(vec![frame("a", 5, 0), frame("b", 3, 1)], 8);
    let r = a.move_anim_frame(1, 2);
    assert!(r.is_some());
    assert_eq!(
        durations(&a),
        vec![(String::from("a"), 7, 0), (String::from("b"), 1, 1)]
    );
    assert_eq!(a.get_total_frames(), 8);
}

#[test]
fn move_frame_head_and_zero_offset_are_noops() {
    let mut a = anim(vec![frame("a", 5, 0), frame("b", 3, 1)], 8);
    assert!(a.move_anim_frame(0, 4).is_none());
    assert_eq!(durations(&a), vec![(String::from("a"), 5, 0), (String::from("b"), 3, 1)]);
    assert!(a.move_anim_frame(1, 0).is_none());
    assert_eq!(durations(&a), vec![(String::from("a"), 5, 0), (String::from("b"), 3, 1)]);
    assert!(a.move_anim_frame(9, 4).is_none());
    assert_eq!(durations(&a), vec![(String::from("a"), 5, 0), (String::from("b"), 3, 1)]);
}

#[test]
fn move_frame_reorders_by_position() {
    // moving id 2 left past id 1 swaps their order
    let mut a = anim(vec![frame("a", 4, 0), frame("b", 4, 1), frame("c", 2, 2)], 10);
    let r = a.move_anim_frame(2, -3);
    assert!(r.is_some());
    // positions: a=0, b=4, c=8-3=5 -> sorted a(0), b(4), c(5); durations 4,1,5
    assert_eq!(
        durations(&a),
        vec![
            (String::from("a"), 4, 0),
            (String::from("b"), 1, 1),
            (String::from("c"), 5, 2)
        ]
    );
    assert_eq!(a.get_total_frames(), 10);
}

#[test]
fn remove_frame_conserves_total() {
    let mut a = anim(vec![frame("a", 5, 0), frame("b", 3, 1)], 8);
    a.remove_anim_frame(1);
    assert_eq!(durations(&a), vec![(String::from("a"), 8, 0)]);
    assert_eq!(a.get_total_frames(), 8);
}

#[test]
fn remove_frame_middle_conserves_total() {
    let mut a = anim(vec![frame("a", 5, 0), frame("b", 3, 1), frame("c", 2, 2)], 10);
    a.remove_anim_frame(1);
    assert_eq!(
        durations(&a),
        vec![(String::from("a"), 8, 0), (String::from("c"), 2, 2)]
    );
    assert_eq!(a.get_total_frames(), 10);
}

#[test]
fn remove_frame_head_and_unknown_are_noops() {
    let mut a = anim(vec![frame("a", 5, 0), frame("b", 3, 1)], 8);
    a.remove_anim_frame(0);
    assert_eq!(durations(&a), vec![(String::from("a"), 5, 0), (String::from("b"), 3, 1)]);
    a.remove_anim_frame(7);
    assert_eq!(durations(&a), vec![(String::from("a"), 5, 0), (String::from("b"), 3, 1)]);
}

#[test]
fn insert_frame_takes_fresh_id_and_position() {
    let mut a = anim(vec![frame("a", 5, 0), frame("b", 3, 1)], 8);
    a.insert_anim_frame(String::from("c"), 4);
    assert_eq!(
        durations(&a),
        vec![
            (String::from("a"), 4, 0),
            (String::from("c"), 1, 3),
            (String::from("b"), 3, 1)
        ]
    );
    assert_eq!(a.get_total_frames(), 8);
}

#[test]
fn frame_at_walks_durations() {
    let a = anim(vec![frame("a", 5, 0), frame("b", 3, 1)], 8);
    assert_eq!(a.get_anim_frame_from_frames(0), 0);
    assert_eq!(a.get_anim_frame_from_frames(5), 0);
    assert_eq!(a.get_anim_frame_from_frames(6), 1);
    assert_eq!(a.get_anim_frame_from_frames(8), 1);
    // past the total play length the cursor resets to the head
    assert_eq!(a.get_anim_frame_from_frames(9), 0);
    assert_eq!(anim(vec![], 0).get_anim_frame_from_frames(0), 0);
}

#[test]
fn frame_at_is_idempotent_under_scrubbing() {
    let a = anim(vec![frame("a", 5, 0), frame("b", 3, 1), frame("c", 1, 2)], 9);
    for k in 0..12 {
        let first = a.get_anim_frame_from_frames(k);
        let second = a.get_anim_frame_from_frames(k);
        assert_eq!(first, second);
    }
}

#[test]
fn minimum_duration_is_last_start() {
    let a = anim(vec![frame("a", 5, 0), frame("b", 3, 1)], 8);
    assert_eq!(a.get_minimum_duration(), 5);
    assert_eq!(anim(vec![], 0).get_minimum_duration(), 0);
}

#[test]
fn update_duration_reconciles_last_frame() {
    let mut a = anim(vec![frame("a", 5, 0), frame("b", 3, 1)], 10);
    a.update_duration();
    assert_eq!(durations(&a), vec![(String::from("a"), 5, 0), (String::from("b"), 5, 1)]);
    assert_eq!(a.get_total_frames(), 10);
}

#[test]
fn used_cels_dedups_first_seen() {
    let a = anim(
        vec![frame("a", 1, 0), frame("b", 1, 1), frame("a", 1, 2), frame("c", 1, 3)],
        4,
    );
    let used = a.get_used_cels();
    assert_eq!(used, vec![String::from("a"), String::from("b"), String::from("c")]);
}
