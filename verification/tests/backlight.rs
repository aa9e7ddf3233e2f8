use spooky_maze::backlight::{brightness_sequence, init_sequence, RegisterWrite, LP5562_I2C_ADDR};

#[test]
fn start_up_writes() {
    assert_eq!(LP5562_I2C_ADDR, 0x30);
    let steps = init_sequence();
    assert_eq!(
        steps,
        [
            RegisterWrite { register: 0x08, value: 0x01, pause_us: 1000 },
            RegisterWrite { register: 0x00, value: 0x40, pause_us: 500 },
            RegisterWrite { register: 0x70, value: 0x00, pause_us: 200 },
            RegisterWrite { register: 0x01, value: 0x00, pause_us: 200 },
        ]
    );
}

#[test]
fn brightness_writes() {
    assert_eq!(
        brightness_sequence(100),
        [
            RegisterWrite { register: 0x0E, value: 100, pause_us: 0 },
            RegisterWrite { register: 0x0F, value: 0xFF, pause_us: 0 },
        ]
    );
}
