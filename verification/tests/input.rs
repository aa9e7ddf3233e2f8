use spooky_maze::input::{accel_delta, keyboard_delta, TILT_THRESHOLD};

#[test]
fn keys_give_steps() {
    assert_eq!(keyboard_delta(true, false, false, false, 16), Some((0, 16)));
    assert_eq!(keyboard_delta(false, true, false, false, 16), Some((0, -16)));
    assert_eq!(keyboard_delta(false, false, true, false, 16), Some((-16, 0)));
    assert_eq!(keyboard_delta(false, false, false, true, 16), Some((16, 0)));
    assert_eq!(keyboard_delta(true, false, false, true, 16), Some((16, 16)));
}

#[test]
fn opposite_keys_cancel() {
    assert_eq!(keyboard_delta(true, true, false, false, 16), None);
    assert_eq!(keyboard_delta(false, false, true, true, 16), None);
    assert_eq!(keyboard_delta(true, true, true, false, 16), Some((-16, 0)));
    assert_eq!(keyboard_delta(false, false, false, false, 16), None);
}

#[test]
fn tilt_beyond_the_threshold_moves() {
    assert_eq!(TILT_THRESHOLD, 1200);
    assert_eq!(accel_delta(1200, -1200, 16), None);
    assert_eq!(accel_delta(1201, 0, 16), Some((0, -16)));
    assert_eq!(accel_delta(-1201, 0, 16), Some((0, 16)));
    assert_eq!(accel_delta(0, 5000, 16), Some((-16, 0)));
    assert_eq!(accel_delta(0, -5000, 16), Some((16, 0)));
    assert_eq!(accel_delta(3000, -3000, 16), Some((16, -16)));
}
