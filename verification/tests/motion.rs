use minigames::motion::{update_position, Keys, Position};

const NO_KEYS: Keys = Keys { up: false, down: false, left: false, right: false };

// Window 800x600 with a sprite margin of 100 allows x in [-300, 300] and
// y in [-250, 250].

#[test]
fn no_keys_no_motion() {
    let p = Position { x: 10, y: -20 };
    assert_eq!(update_position(p, NO_KEYS, 5, 800, 600, 100), p);
}

#[test]
fn single_key_moves_by_speed() {
    let p = Position { x: 0, y: 0 };
    let right = Keys { right: true, ..NO_KEYS };
    assert_eq!(update_position(p, right, 5, 800, 600, 100), Position { x: 5, y: 0 });
    let up = Keys { up: true, ..NO_KEYS };
    assert_eq!(update_position(p, up, 5, 800, 600, 100), Position { x: 0, y: 5 });
    let down = Keys { down: true, ..NO_KEYS };
    assert_eq!(update_position(p, down, 5, 800, 600, 100), Position { x: 0, y: -5 });
    let left = Keys { left: true, ..NO_KEYS };
    assert_eq!(update_position(p, left, 5, 800, 600, 100), Position { x: -5, y: 0 });
}

#[test]
fn opposite_keys_cancel() {
    let p = Position { x: 42, y: -17 };
    let tug_of_war = Keys { up: true, down: true, left: true, right: true };
    assert_eq!(update_position(p, tug_of_war, 9, 800, 600, 100), p);
    let horizontal = Keys { left: true, right: true, ..NO_KEYS };
    assert_eq!(update_position(p, horizontal, 9, 800, 600, 100), p);
}

#[test]
fn motion_is_clamped_at_the_window_edge() {
    let near_edge = Position { x: 297, y: 248 };
    let to_corner = Keys { up: true, right: true, ..NO_KEYS };
    assert_eq!(
        update_position(near_edge, to_corner, 10, 800, 600, 100),
        Position { x: 300, y: 250 }
    );
    let at_corner = Position { x: -300, y: -250 };
    let out = Keys { down: true, left: true, ..NO_KEYS };
    assert_eq!(update_position(at_corner, out, 10, 800, 600, 100), at_corner);
}

#[test]
fn position_outside_window_is_pulled_back() {
    let far_out = Position { x: 5000, y: -5000 };
    assert_eq!(
        update_position(far_out, NO_KEYS, 5, 800, 600, 100),
        Position { x: 300, y: -250 }
    );
}

#[test]
fn bounds_follow_window_resize() {
    // A shrunken 300x150 window with margin 100 allows x in [-50, 50] and
    // y in [-25, 25].
    let p = Position { x: 300, y: 250 };
    assert_eq!(
        update_position(p, NO_KEYS, 5, 300, 150, 100),
        Position { x: 50, y: 25 }
    );
}
