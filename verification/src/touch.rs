//! Touchscreen controls of the ESP32-P4 board: the on-screen D-pad, the
//! conversion of GT911 touch reports into screen coordinates and
//! directions, and the press-and-hold repeat of movement.
//!
//! Time is given in milliseconds by the caller.
use vstd::prelude::*;

verus! {

pub const GT911_ADDRESS_PRIMARY: u8 = 0x5D;

pub const GT911_ADDRESS_SECONDARY: u8 = 0x14;

pub const GT911_PRODUCT_ID_REGISTER: u16 = 0x8140;

pub const GT911_STATUS_REGISTER: u16 = 0x814E;

pub const GT911_FIRST_POINT_REGISTER: u16 = 0x814F;

pub const GT911_DATA_READY: u8 = 0x80;

pub const GT911_TOUCH_COUNT_MASK: u8 = 0x0F;

/// Espressif's board support mirrors both axes for this display.
pub const TOUCH_MIRROR_X: bool = true;

pub const TOUCH_MIRROR_Y: bool = true;

pub const SCREEN_WIDTH: u16 = 1024;

pub const SCREEN_HEIGHT: u16 = 600;

/// Wait this long before movement begins repeating.
pub const INITIAL_REPEAT_DELAY_MS: u64 = 70;

/// Time between repeated movements while held.
pub const REPEAT_INTERVAL_MS: u64 = 60;

/// An on-screen button.
#[derive(Clone, Copy, Debug, PartialEq, Eq, Structural)]
pub struct ButtonRect {
    pub x: i32,
    pub y: i32,
    pub width: u32,
    pub height: u32,
}

impl ButtonRect {
    pub fn new(x: i32, y: i32, width: u32, height: u32) -> (r: Self)
        ensures
            r == (ButtonRect { x, y, width, height }),
    {
        Self { x, y, width, height }
    }

    /// Whether (x, y) lies on the button (right and bottom edges excluded).
    pub open spec fn holds(self, x: int, y: int) -> bool {
        x >= self.x && y >= self.y && x < self.x + self.width as i32 && y < self.y + self.height as i32
    }

    /// Whether screen position (x, y) lies on the button.
    pub fn contains(&self, x: i32, y: i32) -> (r: bool)
        requires
            i32::MIN <= self.x + self.width as i32 <= i32::MAX,
            i32::MIN <= self.y + self.height as i32 <= i32::MAX,
        ensures
            r == self.holds(x as int, y as int),
    {
        x >= self.x && y >= self.y && x < self.x + self.width as i32 && y < self.y + self.height as i32
    }
}

/// The up button of the D-pad.
pub open spec fn up_button() -> ButtonRect {
    ButtonRect { x: 120, y: 310, width: 80, height: 80 }
}

/// The left button of the D-pad.
pub open spec fn left_button() -> ButtonRect {
    ButtonRect { x: 30, y: 400, width: 80, height: 80 }
}

/// The right button of the D-pad.
pub open spec fn right_button() -> ButtonRect {
    ButtonRect { x: 210, y: 400, width: 80, height: 80 }
}

/// The down button of the D-pad.
pub open spec fn down_button() -> ButtonRect {
    ButtonRect { x: 120, y: 490, width: 80, height: 80 }
}

/// The four buttons of the D-pad do not overlap: a point lies on at most
/// one of them, so the order in which `direction_at` tries them does not
/// matter.
pub proof fn lemma_d_pad_disjoint(x: int, y: int)
    ensures
        up_button().holds(x, y) ==> !left_button().holds(x, y) && !right_button().holds(x, y)
            && !down_button().holds(x, y),
        left_button().holds(x, y) ==> !right_button().holds(x, y) && !down_button().holds(x, y),
        right_button().holds(x, y) ==> !down_button().holds(x, y),
{
}

/// The D-pad buttons, in the order up, left, right, down.
pub fn d_pad() -> (r: [ButtonRect; 4])
    ensures
        r@ == seq![up_button(), left_button(), right_button(), down_button()],
{
    let r = [
        ButtonRect::new(120, 310, 80, 80),
        ButtonRect::new(30, 400, 80, 80),
        ButtonRect::new(210, 400, 80, 80),
        ButtonRect::new(120, 490, 80, 80),
    ];
    assert(r@ =~= seq![up_button(), left_button(), right_button(), down_button()]);
    r
}

#[derive(Clone, Copy, Debug, PartialEq, Eq, Structural)]
pub struct TouchPoint {
    pub x: u16,
    pub y: u16,
    pub size: u16,
}

#[derive(Clone, Copy, Debug, PartialEq, Eq, Structural)]
pub enum TouchEvent {
    /// The GT911 has no new information.
    NoUpdate,
    /// All fingers were released.
    Released,
    /// A new or updated touch position is available.
    Point(TouchPoint),
}

#[derive(Clone, Copy, Debug, PartialEq, Eq, Structural)]
pub enum Direction {
    Up,
    Down,
    Left,
    Right,
}

/// What a status byte of the controller announces.
#[derive(Clone, Copy, Debug, PartialEq, Eq, Structural)]
pub enum PollStatus {
    /// Bit 7 clear: no new information (the status is left as it is).
    NoUpdate,
    /// No touches: the status is cleared and the release reported.
    Released,
    /// Touches: the first point record is read, then the status cleared.
    Touch,
}

/// The reading of a status byte.
pub open spec fn poll_status(status: u8) -> PollStatus {
    if status < 128 {
        PollStatus::NoUpdate
    } else if status % 16 == 0 {
        PollStatus::Released
    } else {
        PollStatus::Touch
    }
}

/// Decode the status byte of a poll.
pub fn decode_poll_status(status: u8) -> (r: PollStatus)
    ensures
        r == poll_status(status),
{
    let ready = status & GT911_DATA_READY;
    let touch_count = status & GT911_TOUCH_COUNT_MASK;
    assert((ready == 0) == (status < 128)) by (bit_vector)
        requires
            ready == status & 0x80,
    ;
    assert(touch_count == status % 16) by (bit_vector)
        requires
            touch_count == status & 0x0F,
    ;
    // If bit 7 is clear, the GT911 has no new information.
    if ready == 0 {
        return PollStatus::NoUpdate;
    }
    if touch_count == 0 {
        PollStatus::Released
    } else {
        PollStatus::Touch
    }
}

/// The touch in an eight-byte point record: tracking id, then x, y and
/// size as little-endian 16-bit values, then a reserved byte.
pub fn touch_point_from_record(point_data: [u8; 8]) -> (r: TouchPoint)
    ensures
        r.x == point_data@[1] + point_data@[2] * 256,
        r.y == point_data@[3] + point_data@[4] * 256,
        r.size == point_data@[5] + point_data@[6] * 256,
{
    proof {
        let b1 = point_data@[1];
        let b2 = point_data@[2];
        let b3 = point_data@[3];
        let b4 = point_data@[4];
        let b5 = point_data@[5];
        let b6 = point_data@[6];
        assert(b1 as u16 + b2 as u16 * 256 <= 65535) by (bit_vector);
        assert(b3 as u16 + b4 as u16 * 256 <= 65535) by (bit_vector);
        assert(b5 as u16 + b6 as u16 * 256 <= 65535) by (bit_vector);
    }
    let x = point_data[1] as u16 + point_data[2] as u16 * 256;
    let y = point_data[3] as u16 + point_data[4] as u16 * 256;
    let size = point_data[5] as u16 + point_data[6] as u16 * 256;
    TouchPoint { x, y, size }
}

/// The bytes that write `value` to `register`: the address, high byte first, then the value.
pub fn write_u8_command(register: u16, value: u8) -> (r: [u8; 3])
    ensures
        r@ == seq![(register / 256) as u8, (register % 256) as u8, value],
{
    assert(register >> 8 == register / 256) by (bit_vector);
    assert(register & 0xFF == register % 256) by (bit_vector);
    let r = [(register >> 8) as u8, (register & 0xFF) as u8, value];
    assert(r@ =~= seq![(register / 256) as u8, (register % 256) as u8, value]);
    r
}

/// The screen position of a touch: each axis limited to the screen, then mirrored.
pub open spec fn touch_screen_position(point: TouchPoint) -> (int, int) {
    let raw_x = if point.x <= SCREEN_WIDTH - 1 { point.x as int } else { SCREEN_WIDTH - 1 };
    let raw_y = if point.y <= SCREEN_HEIGHT - 1 { point.y as int } else { SCREEN_HEIGHT - 1 };
    (SCREEN_WIDTH - 1 - raw_x, SCREEN_HEIGHT - 1 - raw_y)
}

/// The screen position of a touch; see [`touch_screen_position`].
pub fn transform_touch_point(point: TouchPoint) -> (r: (i32, i32))
    ensures
        (r.0 as int, r.1 as int) == touch_screen_position(point),
{
    let raw_x = if point.x <= SCREEN_WIDTH - 1 { point.x } else { SCREEN_WIDTH - 1 };
    let raw_y = if point.y <= SCREEN_HEIGHT - 1 { point.y } else { SCREEN_HEIGHT - 1 };
    let x = if TOUCH_MIRROR_X {
        SCREEN_WIDTH - 1 - raw_x
    } else {
        raw_x
    };
    let y = if TOUCH_MIRROR_Y {
        SCREEN_HEIGHT - 1 - raw_y
    } else {
        raw_y
    };
    (x as i32, y as i32)
}

/// The D-pad direction under screen position (x, y), buttons tried in the
/// order up, down, left, right.
pub open spec fn direction_under(x: int, y: int) -> Option<Direction> {
    if up_button().holds(x, y) {
        Some(Direction::Up)
    } else if down_button().holds(x, y) {
        Some(Direction::Down)
    } else if left_button().holds(x, y) {
        Some(Direction::Left)
    } else if right_button().holds(x, y) {
        Some(Direction::Right)
    } else {
        None
    }
}

/// The D-pad direction under screen position (x, y); see [`direction_under`].
pub fn direction_at(x: i32, y: i32) -> (r: Option<Direction>)
    ensures
        r == direction_under(x as int, y as int),
{
    let pad = d_pad();
    if pad[0].contains(x, y) {
        Some(Direction::Up)
    } else if pad[3].contains(x, y) {
        Some(Direction::Down)
    } else if pad[1].contains(x, y) {
        Some(Direction::Left)
    } else if pad[2].contains(x, y) {
        Some(Direction::Right)
    } else {
        None
    }
}

/// The movement of one step in a direction, tiles `step_x` x `step_y`
/// pixels; a positive y step moves the player up.
pub fn direction_step(direction: Direction, step_x: i32, step_y: i32) -> (r: (i32, i32))
    requires
        step_x > i32::MIN,
        step_y > i32::MIN,
    ensures
        r == match direction {
            Direction::Up => (0i32, step_y),
            Direction::Down => (0i32, -step_y as i32),
            Direction::Left => (-step_x as i32, 0i32),
            Direction::Right => (step_x, 0i32),
        },
{
    match direction {
        Direction::Up => (0, step_y),
        Direction::Down => (0, -step_y),
        Direction::Left => (-step_x, 0),
        Direction::Right => (step_x, 0),
    }
}

/// The state of the D-pad between frames.
#[derive(Clone, Copy, Debug, PartialEq, Eq, Structural)]
pub struct TouchInputState {
    /// Direction currently held by the finger.
    pub pressed: Option<Direction>,
    /// An immediate movement waiting to be sent.
    pub pending: Option<Direction>,
    /// Time (ms) at which the next held movement should occur.
    pub next_repeat: Option<u64>,
}

impl TouchInputState {
    pub fn new() -> (r: Self)
        ensures
            r == (TouchInputState { pressed: None, pending: None, next_repeat: None }),
    {
        TouchInputState { pressed: None, pending: None, next_repeat: None }
    }

    /// A pending movement is the held button's, and a button is held
    /// exactly when a repeat time is set.
    pub open spec fn consistent(self) -> bool {
        &&& self.pending is Some ==> self.pending == self.pressed
        &&& (self.pressed is Some <==> self.next_repeat is Some)
    }

    /// The state after a reading of the button under the finger at time
    /// `now`: the same button again changes nothing (the repeat timer keeps
    /// running); a new button moves at once and repeats after the initial
    /// delay; no button stops all movement.
    pub open spec fn after_reading(self, new_direction: Option<Direction>, now: u64) -> TouchInputState {
        if new_direction == self.pressed {
            self
        } else {
            match new_direction {
                Some(d) => TouchInputState {
                    pressed: Some(d),
                    pending: Some(d),
                    next_repeat: Some((now + INITIAL_REPEAT_DELAY_MS) as u64),
                },
                None => TouchInputState { pressed: None, pending: None, next_repeat: None },
            }
        }
    }

    /// The movement of a frame at time `now`, and the state after it: a
    /// pending press first; otherwise the held direction once its repeat
    /// time has come, the next repeat then scheduled one interval after
    /// `now`.
    pub open spec fn frame_step(self, now: u64) -> (Option<Direction>, TouchInputState) {
        if self.pending is Some {
            (self.pending, TouchInputState { pending: None, ..self })
        } else {
            match (self.pressed, self.next_repeat) {
                (Some(d), Some(t)) => if now < t {
                    (None, self)
                } else {
                    (Some(d), TouchInputState { next_repeat: Some((now + REPEAT_INTERVAL_MS) as u64), ..self })
                },
                _ => (None, self),
            }
        }
    }

    /// A new reading of the button under the finger at time `now`; see
    /// [`TouchInputState::after_reading`].
    pub fn update_pressed(&mut self, new_direction: Option<Direction>, now: u64)
        requires
            new_direction != old(self).pressed ==> now <= u64::MAX - INITIAL_REPEAT_DELAY_MS,
        ensures
            *final(self) == old(self).after_reading(new_direction, now),
    {
        // Receiving another touch update for the same button must not
        // restart the repeat timer.
        if new_direction == self.pressed {
            return;
        }
        self.pressed = new_direction;
        match new_direction {
            Some(direction) => {
                // Move immediately on the initial press.
                self.pending = Some(direction);
                // Begin repeating after a short initial delay.
                self.next_repeat = Some(now + INITIAL_REPEAT_DELAY_MS);
            },
            None => {
                // Stop immediately when the finger is released or moved
                // outside all direction buttons.
                self.pending = None;
                self.next_repeat = None;
            },
        }
    }

    /// The movement of this frame at time `now`; see
    /// [`TouchInputState::frame_step`].
    pub fn next_direction(&mut self, now: u64) -> (r: Option<Direction>)
        requires
            now <= u64::MAX - REPEAT_INTERVAL_MS,
        ensures
            (r, *final(self)) == old(self).frame_step(now),
    {
        // A new press or direction change moves immediately.
        if let Some(direction) = self.pending {
            self.pending = None;
            return Some(direction);
        }
        // Nothing is currently held.
        let direction = match self.pressed {
            Some(d) => d,
            None => return None,
        };
        // A held button should always have a repeat deadline.
        let next_repeat = match self.next_repeat {
            Some(t) => t,
            None => return None,
        };
        if now < next_repeat {
            return None;
        }
        // Schedule the next repetition relative to the current time.
        self.next_repeat = Some(now + REPEAT_INTERVAL_MS);
        Some(direction)
    }
}

/// A new press moves at once; held down, the button moves again only once
/// the initial delay has passed, and then once per interval.
pub proof fn lemma_press_then_hold(s: TouchInputState, d: Direction, t: u64, u: u64)
    requires
        s.pressed != Some(d),
        t <= u64::MAX - INITIAL_REPEAT_DELAY_MS - REPEAT_INTERVAL_MS,
        t <= u <= u64::MAX - REPEAT_INTERVAL_MS,
    ensures
        ({
            let pressed = s.after_reading(Some(d), t);
            let (first, held) = pressed.frame_step(t);
            let (again, later) = held.frame_step(u);
            &&& first == Some(d)
            &&& held.after_reading(Some(d), u) == held
            &&& (u < t + INITIAL_REPEAT_DELAY_MS ==> again is None && later == held)
            &&& (u >= t + INITIAL_REPEAT_DELAY_MS ==> again == Some(d) && later.frame_step(
                (u + REPEAT_INTERVAL_MS - 1) as u64,
            ).0 is None && later.frame_step((u + REPEAT_INTERVAL_MS) as u64).0 == Some(d))
        }),
{
}

/// A new state is consistent, and readings and frames keep it so.
pub proof fn lemma_consistent_kept(s: TouchInputState, reading: Option<Direction>, t: u64, u: u64)
    requires
        s.consistent(),
        t <= u64::MAX - INITIAL_REPEAT_DELAY_MS,
        u <= u64::MAX - REPEAT_INTERVAL_MS,
    ensures
        (TouchInputState { pressed: None, pending: None, next_repeat: None }).consistent(),
        s.after_reading(reading, t).consistent(),
        s.frame_step(u).1.consistent(),
{
}

/// Another report of the same button does not restart the repeat timer: a
/// reading equal to the last one leaves the state as it is.
pub proof fn lemma_same_reading_kept(s: TouchInputState, reading: Option<Direction>, t: u64, u: u64)
    ensures
        s.after_reading(reading, t).after_reading(reading, u) == s.after_reading(reading, t),
{
}

/// Letting go stops all movement at once: after a reading with no button
/// under the finger, no frame moves until a button is pressed again.
pub proof fn lemma_release_stops(s: TouchInputState, t: u64, u: u64)
    requires
        s.consistent(),
        t <= u64::MAX - INITIAL_REPEAT_DELAY_MS,
        u <= u64::MAX - REPEAT_INTERVAL_MS,
    ensures
        ({
            let released = s.after_reading(None, t);
            &&& released.frame_step(u).0 is None
            &&& released.frame_step(u).1 == released
        }),
{
}

/// Which address answered the product-id read during probing: the primary
/// one when it answered, otherwise the secondary one.
pub fn probe_address(primary_answered: bool) -> (r: u8)
    ensures
        r == if primary_answered {
            GT911_ADDRESS_PRIMARY
        } else {
            GT911_ADDRESS_SECONDARY
        },
{
    if primary_answered {
        GT911_ADDRESS_PRIMARY
    } else {
        GT911_ADDRESS_SECONDARY
    }
}

/// Where the label of a button goes: centred for a 10 x 20 pixel glyph
/// (Rust integer division, rounding towards zero).
pub fn button_label_position(rect: ButtonRect) -> (r: (i32, i32))
    requires
        rect.width <= i32::MAX,
        rect.height <= i32::MAX - 20,
        i32::MIN <= rect.x + crate::maze::tdiv(rect.width - 10, 2) <= i32::MAX,
        i32::MIN <= rect.y + (rect.height + 20) / 2 <= i32::MAX,
    ensures
        r.0 == rect.x + crate::maze::tdiv(rect.width - 10, 2),
        r.1 == rect.y + (rect.height + 20) / 2,
{
    let label_x = rect.x + (rect.width as i32 - 10) / 2;
    let label_y = rect.y + (rect.height as i32 + 20) / 2;
    (label_x, label_y)
}

} // verus!
