use spooky_maze::gt911;
use spooky_maze::gt911_p4;
use spooky_maze::touch::{
    button_label_position, d_pad, decode_poll_status, direction_at, direction_step, probe_address,
    touch_point_from_record, transform_touch_point, write_u8_command, ButtonRect, Direction, PollStatus, TouchInputState,
    TouchPoint, GT911_ADDRESS_PRIMARY, GT911_ADDRESS_SECONDARY,
};

#[test]
fn d_pad_layout_and_hits() {
    let pad = d_pad();
    assert_eq!(pad[0], ButtonRect::new(120, 310, 80, 80));
    assert!(pad[0].contains(120, 310));
    assert!(!pad[0].contains(200, 310));
    assert_eq!(direction_at(150, 350), Some(Direction::Up));
    assert_eq!(direction_at(150, 500), Some(Direction::Down));
    assert_eq!(direction_at(40, 410), Some(Direction::Left));
    assert_eq!(direction_at(289, 479), Some(Direction::Right));
    assert_eq!(direction_at(150, 440), None);
    assert_eq!(direction_at(0, 0), None);
}

#[test]
fn d_pad_buttons_never_overlap() {
    let pad = d_pad();
    for x in 0..320 {
        for y in 280..600 {
            let hits = pad.iter().filter(|b| b.contains(x, y)).count();
            assert!(hits <= 1, "({x}, {y})");
        }
    }
}

#[test]
fn steps_per_direction() {
    assert_eq!(direction_step(Direction::Up, 16, 8), (0, 8));
    assert_eq!(direction_step(Direction::Down, 16, 8), (0, -8));
    assert_eq!(direction_step(Direction::Left, 16, 8), (-16, 0));
    assert_eq!(direction_step(Direction::Right, 16, 8), (16, 0));
}

#[test]
fn poll_status_bits() {
    assert_eq!(decode_poll_status(0x00), PollStatus::NoUpdate);
    assert_eq!(decode_poll_status(0x7F), PollStatus::NoUpdate);
    assert_eq!(decode_poll_status(0x80), PollStatus::Released);
    assert_eq!(decode_poll_status(0x90), PollStatus::Released);
    assert_eq!(decode_poll_status(0x81), PollStatus::Touch);
    assert_eq!(decode_poll_status(0x8F), PollStatus::Touch);
}

#[test]
fn point_records_are_little_endian() {
    let p = touch_point_from_record([7, 0x34, 0x12, 0x58, 0x02, 0x20, 0x00, 0xFF]);
    assert_eq!(p, TouchPoint { x: 0x1234, y: 600, size: 32 });
    assert_eq!(write_u8_command(0x814E, 0), [0x81, 0x4E, 0]);
}

#[test]
fn touches_are_limited_and_mirrored() {
    assert_eq!(transform_touch_point(TouchPoint { x: 0, y: 0, size: 1 }), (1023, 599));
    assert_eq!(transform_touch_point(TouchPoint { x: 1023, y: 599, size: 1 }), (0, 0));
    assert_eq!(transform_touch_point(TouchPoint { x: 5000, y: 700, size: 1 }), (0, 0));
    assert_eq!(transform_touch_point(TouchPoint { x: 100, y: 50, size: 1 }), (923, 549));
}

#[test]
fn a_press_moves_at_once_then_repeats() {
    let mut state = TouchInputState::new();
    assert_eq!(state.next_direction(0), None);
    state.update_pressed(Some(Direction::Left), 1000);
    assert_eq!(state.next_direction(1000), Some(Direction::Left));
    assert_eq!(state.next_direction(1010), None);
    // the same reading again does not restart the timer
    state.update_pressed(Some(Direction::Left), 1050);
    assert_eq!(state.next_direction(1069), None);
    assert_eq!(state.next_direction(1070), Some(Direction::Left));
    assert_eq!(state.next_direction(1129), None);
    assert_eq!(state.next_direction(1130), Some(Direction::Left));
    // a new button moves at once
    state.update_pressed(Some(Direction::Up), 1135);
    assert_eq!(state.next_direction(1135), Some(Direction::Up));
    // releasing stops everything
    state.update_pressed(None, 1140);
    assert_eq!(state, TouchInputState { pressed: None, pending: None, next_repeat: None });
    assert_eq!(state.next_direction(5000), None);
}

#[test]
fn probing_prefers_the_primary_address() {
    assert_eq!(probe_address(true), GT911_ADDRESS_PRIMARY);
    assert_eq!(probe_address(false), GT911_ADDRESS_SECONDARY);
    assert_eq!((GT911_ADDRESS_PRIMARY, GT911_ADDRESS_SECONDARY), (0x5D, 0x14));
}

#[test]
fn button_labels_are_centred() {
    assert_eq!(button_label_position(ButtonRect::new(120, 310, 80, 80)), (155, 360));
}

#[test]
fn box_gt911_registers() {
    assert_eq!(gt911::reg_address(gt911::Reg::PointInfo), 0x814E);
    assert_eq!(gt911::reg_address(gt911::Reg::Key1), 0x8093);
    assert_eq!(gt911::register_bytes(0x8140), [0x81, 0x40]);
    assert_eq!(gt911::clear_status_command(), [0x81, 0x4E, 0]);
    assert_eq!(gt911::decode_point_info(0x00), gt911::PointInfo::NoData);
    assert_eq!(gt911::decode_point_info(0x81), gt911::PointInfo::Touch);
    assert_eq!(gt911::decode_point_info(0x90), gt911::PointInfo::Key);
    assert_eq!(gt911::decode_point_info(0x80), gt911::PointInfo::Released);
    assert_eq!(gt911::touch_key_from_registers([1, 0, 0, 0]), gt911::TouchKey { id: 0, pressed: false });
    assert_eq!(gt911::touch_key_from_registers([0, 9, 9, 9]), gt911::TouchKey { id: 0, pressed: true });
}

#[test]
fn box_gt911_orientation() {
    let mut touch = gt911::GT911::new((), ());
    assert_eq!(touch.address, 0x14);
    assert_eq!(touch.size, gt911::Dimension { height: 240, width: 320 });
    let raw = [3, 10, 0, 20, 0, 5, 0];
    assert_eq!(touch.touch_point_from_registers(raw), gt911::TouchPoint { id: 3, x: 10, y: 20, size: 5 });
    touch.set_orientation(gt911::Orientation::Portrait);
    assert_eq!(touch.touch_point_from_registers(raw), gt911::TouchPoint { id: 3, x: 20, y: 230, size: 5 });
    touch.set_orientation(gt911::Orientation::InvertedLandscape);
    assert_eq!(touch.touch_point_from_registers(raw), gt911::TouchPoint { id: 3, x: 310, y: 220, size: 5 });
    touch.set_orientation(gt911::Orientation::InvertedPortrait);
    assert_eq!(touch.touch_point_from_registers(raw), gt911::TouchPoint { id: 3, x: 300, y: 10, size: 5 });
    touch.set_size(480, 640);
    assert_eq!(touch.size, gt911::Dimension { height: 480, width: 640 });
}

#[test]
fn box_gt911_data_available() {
    let touch = gt911::GT911::new((), ());
    let low: Result<bool, ()> = Ok(true);
    assert!(matches!(touch.data_available::<(), ()>(low), Ok(true)));
    assert!(matches!(touch.data_available::<(), ()>(Ok(false)), Ok(false)));
    assert!(matches!(touch.data_available::<(), ()>(Err(())), Err(gt911::Error::IOError)));
}

#[test]
fn board_gt911_status_and_product_id() {
    assert_eq!(gt911_p4::decode_status(0x00), gt911_p4::StatusReport::NoData);
    assert_eq!(gt911_p4::decode_status(0x80), gt911_p4::StatusReport::Released);
    assert_eq!(gt911_p4::decode_status(0x82), gt911_p4::StatusReport::Touch);
    assert!(gt911_p4::check_product_id::<()>(*b"911\0").is_ok());
    assert!(matches!(
        gt911_p4::check_product_id::<()>(*b"912\0"),
        Err(gt911_p4::Error::InvalidProductId(id)) if id == *b"912\0"
    ));
    assert_eq!(gt911_p4::Gt911::<()>::register_bytes(gt911_p4::Register::ProductId), [0x81, 0x40]);
    assert_eq!(gt911_p4::Gt911::<()>::clear_status_command(), [0x81, 0x4E, 0]);
}

#[test]
fn board_gt911_events_and_orientation() {
    let mut touch = gt911_p4::Gt911::new((), gt911_p4::GT911_ADDRESS_1);
    assert_eq!(touch.orientation, gt911_p4::Orientation::InvertedLandscape);
    assert_eq!(touch.transform_coordinates(0, 0), (1023, 599));
    assert_eq!(touch.transform_coordinates(2000, 2000), (0, 0));
    let point = [1, 0x10, 0x00, 0x20, 0x00, 0x08, 0x00];
    assert!(matches!(touch.touch_event_from::<()>(0x00, point), Err(gt911_p4::Error::NoDataAvailable)));
    assert!(matches!(touch.touch_event_from::<()>(0x80, point), Ok(gt911_p4::TouchEvent::Released)));
    match touch.touch_event_from::<()>(0x81, point) {
        Ok(gt911_p4::TouchEvent::Pressed(p)) => {
            assert_eq!(p, gt911_p4::TouchPoint { id: 1, x: 1023 - 16, y: 599 - 32, size: 8 })
        },
        _ => panic!("a touch was announced"),
    }
    touch.set_orientation(gt911_p4::Orientation::Landscape);
    assert_eq!(touch.transform_coordinates(5, 7), (5, 7));
    touch.set_orientation(gt911_p4::Orientation::Portrait);
    assert_eq!(touch.transform_coordinates(5, 7), (7, 594));
    touch.set_orientation(gt911_p4::Orientation::InvertedPortrait);
    assert_eq!(touch.transform_coordinates(5, 7), (1016, 5));
    touch.set_size(100, 50);
    assert_eq!(touch.dimensions, gt911_p4::Dimensions { width: 100, height: 50 });
    assert_eq!(touch.release(), ());
}

#[test]
fn box_gt911_turnable_touches() {
    let mut touch = gt911::GT911::new((), ());
    let raw = [3, 0x50, 0x01, 20, 0, 5, 0]; // x = 336, y = 20
    assert!(touch.can_orient(raw));
    touch.set_orientation(gt911::Orientation::Portrait);
    assert!(!touch.can_orient(raw));
    touch.set_orientation(gt911::Orientation::InvertedLandscape);
    assert!(!touch.can_orient(raw));
    touch.set_orientation(gt911::Orientation::InvertedPortrait);
    assert!(touch.can_orient(raw));
}
