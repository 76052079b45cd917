//! Clamped sprite motion.
//!
//! Once per frame the sprite moves by a fixed step for each held direction
//! key and is then clamped, axis by axis, to a rectangle derived from the
//! current window size: half the window extent minus a margin for the
//! sprite's visual size. Opposite keys contribute additively, so holding
//! both cancels.

use vstd::prelude::*;

verus! {

/// The held state of the four direction keys at one frame.
#[derive(Clone, Copy, Debug, PartialEq, Eq, Structural)]
pub struct Keys {
    pub up: bool,
    pub down: bool,
    pub left: bool,
    pub right: bool,
}

/// A sprite position in pixels, window-centered: the origin is the window's
/// middle, `x` grows rightward and `y` upward.
#[derive(Clone, Copy, Debug, PartialEq, Eq, Structural)]
pub struct Position {
    pub x: i64,
    pub y: i64,
}

/// A value forced into `[lo, hi]`.
pub open spec fn clamp_spec(v: int, lo: int, hi: int) -> int {
    if v < lo {
        lo
    } else if v > hi {
        hi
    } else {
        v
    }
}

/// The net step along one axis: each held key contributes one full step, in
/// opposite directions.
pub open spec fn axis_delta(toward_neg: bool, toward_pos: bool, speed: int) -> int {
    (if toward_pos {
        speed
    } else {
        0
    }) - (if toward_neg {
        speed
    } else {
        0
    })
}

/// The horizontal half-extent the sprite may reach: half the window width
/// minus the sprite's visual size.
pub open spec fn x_bound(win_w: u32, text_size: u32) -> int {
    win_w as int / 2 - text_size as int
}

/// The vertical half-extent the sprite may reach: half the window height
/// minus half the sprite's visual size.
pub open spec fn y_bound(win_h: u32, text_size: u32) -> int {
    win_h as int / 2 - text_size as int / 2
}

/// Where one frame moves the sprite: a fixed-magnitude step per held key,
/// then a clamp to the window-derived rectangle on each axis.
pub open spec fn step_pos(
    p: Position,
    keys: Keys,
    speed: u32,
    win_w: u32,
    win_h: u32,
    text_size: u32,
) -> Position {
    let bx = x_bound(win_w, text_size);
    let by = y_bound(win_h, text_size);
    Position {
        x: clamp_spec(p.x + axis_delta(keys.left, keys.right, speed as int), -bx, bx) as i64,
        y: clamp_spec(p.y + axis_delta(keys.down, keys.up, speed as int), -by, by) as i64,
    }
}

fn clamp_i64(v: i64, lo: i64, hi: i64) -> (r: i64)
    requires
        lo <= hi,
    ensures
        r == clamp_spec(v as int, lo as int, hi as int),
{
    if v < lo {
        lo
    } else if v > hi {
        hi
    } else {
        v
    }
}

/// One frame of sprite motion: applies the held keys' deltas to the position
/// and clamps each axis to the rectangle the current window size allows.
///
/// The window must leave the margin room on each axis, and the position must
/// be far enough from the numeric limits for the step to be computed.
pub fn update_position(
    p: Position,
    keys: Keys,
    speed: u32,
    win_w: u32,
    win_h: u32,
    text_size: u32,
) -> (r: Position)
    requires
        2 * text_size <= win_w,
        text_size <= win_h,
        p.x - speed >= i64::MIN,
        p.x + speed <= i64::MAX,
        p.y - speed >= i64::MIN,
        p.y + speed <= i64::MAX,
    ensures
        r == step_pos(p, keys, speed, win_w, win_h, text_size),
        -x_bound(win_w, text_size) <= r.x <= x_bound(win_w, text_size),
        -y_bound(win_h, text_size) <= r.y <= y_bound(win_h, text_size),
{
    let bx = (win_w / 2 - text_size) as i64;
    let by = (win_h / 2 - text_size / 2) as i64;
    let step = speed as i64;
    let mut dx: i64 = 0;
    let mut dy: i64 = 0;
    if keys.right {
        dx = dx + step;
    }
    if keys.left {
        dx = dx - step;
    }
    if keys.up {
        dy = dy + step;
    }
    if keys.down {
        dy = dy - step;
    }
    let x = clamp_i64(p.x + dx, -bx, bx);
    let y = clamp_i64(p.y + dy, -by, by);
    Position { x, y }
}

/// Law: holding both keys of an axis yields zero net displacement on that
/// axis, so a sprite already inside the allowed rectangle does not move.
pub proof fn lemma_opposite_keys_cancel(
    p: Position,
    keys: Keys,
    speed: u32,
    win_w: u32,
    win_h: u32,
    text_size: u32,
)
    requires
        keys.left == keys.right,
        keys.up == keys.down,
        -x_bound(win_w, text_size) <= p.x <= x_bound(win_w, text_size),
        -y_bound(win_h, text_size) <= p.y <= y_bound(win_h, text_size),
    ensures
        axis_delta(keys.left, keys.right, speed as int) == 0,
        axis_delta(keys.down, keys.up, speed as int) == 0,
        step_pos(p, keys, speed, win_w, win_h, text_size) == p,
{
}

} // verus!
