//! Turning raw input into one step of player movement: the keyboard of the
//! browser build and the accelerometer of the tilt-controlled boards.
//!
//! A step is a pixel offset `(dx, dy)`; no message is sent for `(0, 0)`.
use vstd::prelude::*;

verus! {

/// The raw accelerometer reading beyond which a tilt counts as a move.
pub const TILT_THRESHOLD: i16 = 1200;

/// The offset that the pressed keys ask for: up adds `step` to `dy`, down
/// takes it away, left takes `step` from `dx` and right adds it; keys that
/// pull both ways cancel out. `None` when nothing is left to move.
pub fn keyboard_delta(up: bool, down: bool, left: bool, right: bool, step: i32) -> (r: Option<(i32, i32)>)
    requires
        step > i32::MIN,
    ensures
        ({
            let dx = (if right { step as int } else { 0 }) - (if left { step as int } else { 0 });
            let dy = (if up { step as int } else { 0 }) - (if down { step as int } else { 0 });
            if dx == 0 && dy == 0 {
                r is None
            } else {
                r == Some((dx as i32, dy as i32))
            }
        }),
{
    let mut dx: i32 = 0;
    let mut dy: i32 = 0;
    if up {
        dy += step;
    }
    if down {
        dy -= step;
    }
    if left {
        dx -= step;
    }
    if right {
        dx += step;
    }
    if dx != 0 || dy != 0 {
        Some((dx, dy))
    } else {
        None
    }
}

/// The spec of one axis of a tilt: beyond the threshold the player moves one
/// `step` against the sign of the reading, otherwise not at all.
pub open spec fn tilt_axis(reading: int, step: int) -> int {
    if reading > TILT_THRESHOLD || reading < -TILT_THRESHOLD {
        if reading > 0 {
            -step
        } else {
            step
        }
    } else {
        0
    }
}

/// The offset that an accelerometer reading asks for: tilting along x moves
/// the player vertically and tilting along y moves it horizontally, each by
/// `step` against the sign of the reading, once the reading's magnitude is
/// beyond [`TILT_THRESHOLD`]. `None` when neither axis is.
pub fn accel_delta(ax: i16, ay: i16, step: i32) -> (r: Option<(i32, i32)>)
    requires
        ax != i16::MIN,
        ay != i16::MIN,
        step > i32::MIN,
    ensures
        ({
            let dx = tilt_axis(ay as int, step as int);
            let dy = tilt_axis(ax as int, step as int);
            if dx == 0 && dy == 0 {
                r is None
            } else {
                r == Some((dx as i32, dy as i32))
            }
        }),
{
    let mut dx: i32 = 0;
    let mut dy: i32 = 0;
    if ax > TILT_THRESHOLD || ax < -TILT_THRESHOLD {
        dy = if ax > 0 {
            -step
        } else {
            step
        };
    }
    if ay > TILT_THRESHOLD || ay < -TILT_THRESHOLD {
        dx = if ay > 0 {
            -step
        } else {
            step
        };
    }
    if dx != 0 || dy != 0 {
        Some((dx, dy))
    } else {
        None
    }
}

} // verus!
