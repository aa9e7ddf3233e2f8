//! The LP5562 LED driver that lights the M5Stack AtomS3R's display: the
//! register writes, with the pause after each, that bring it up and set its
//! brightness. Only the white channel is used. Sending the writes over I2C
//! and waiting are left to the caller.
use vstd::prelude::*;

verus! {

/// The I2C address of the LP5562.
pub const LP5562_I2C_ADDR: u8 = 0x30;

pub const LP5562_I2C_REG_ENABLE: u8 = 0x00;

pub const LP5562_I2C_REG_OP_MODE: u8 = 0x01;

pub const LP5562_I2C_REG_W_PWM: u8 = 0x0E;

pub const LP5562_I2C_REG_W_CURRENT: u8 = 0x0F;

pub const LP5562_I2C_REG_CONFIG: u8 = 0x08;

pub const LP5562_I2C_REG_LED_MAP: u8 = 0x70;

/// The chip-enable bit of the enable register.
pub const LP5562_I2C_MASTER_ENABLE: u8 = 0x40;

/// One step of a register sequence: a register, the value written to it,
/// and the pause that follows, in microseconds.
#[derive(Clone, Copy, Debug, PartialEq, Eq, Structural)]
pub struct RegisterWrite {
    pub register: u8,
    pub value: u8,
    pub pause_us: u32,
}

/// The start-up of the chip (timings as in the Linux driver): enable the
/// internal clock, enable the chip, map every LED to the I2C registers, and
/// select direct PWM control.
pub fn init_sequence() -> (r: [RegisterWrite; 4])
    ensures
        r@ == seq![
            (RegisterWrite { register: LP5562_I2C_REG_CONFIG, value: 0x01, pause_us: 1000 }),
            (RegisterWrite { register: LP5562_I2C_REG_ENABLE, value: LP5562_I2C_MASTER_ENABLE, pause_us: 500 }),
            (RegisterWrite { register: LP5562_I2C_REG_LED_MAP, value: 0x00, pause_us: 200 }),
            (RegisterWrite { register: LP5562_I2C_REG_OP_MODE, value: 0x00, pause_us: 200 }),
        ],
{
    let r = [
        (RegisterWrite { register: LP5562_I2C_REG_CONFIG, value: 0x01, pause_us: 1000 }),
        (RegisterWrite { register: LP5562_I2C_REG_ENABLE, value: LP5562_I2C_MASTER_ENABLE, pause_us: 500 }),
        (RegisterWrite { register: LP5562_I2C_REG_LED_MAP, value: 0x00, pause_us: 200 }),
        (RegisterWrite { register: LP5562_I2C_REG_OP_MODE, value: 0x00, pause_us: 200 }),
    ];
    assert(r@ =~= seq![
        (RegisterWrite { register: LP5562_I2C_REG_CONFIG, value: 0x01, pause_us: 1000 }),
        (RegisterWrite { register: LP5562_I2C_REG_ENABLE, value: LP5562_I2C_MASTER_ENABLE, pause_us: 500 }),
        (RegisterWrite { register: LP5562_I2C_REG_LED_MAP, value: 0x00, pause_us: 200 }),
        (RegisterWrite { register: LP5562_I2C_REG_OP_MODE, value: 0x00, pause_us: 200 }),
    ]);
    r
}

/// Set the brightness (0-255, higher is brighter): the white channel's PWM
/// value, then its current at the maximum. No pause follows either write.
pub fn brightness_sequence(brightness: u8) -> (r: [RegisterWrite; 2])
    ensures
        r@ == seq![
            (RegisterWrite { register: LP5562_I2C_REG_W_PWM, value: brightness, pause_us: 0 }),
            (RegisterWrite { register: LP5562_I2C_REG_W_CURRENT, value: 0xFF, pause_us: 0 }),
        ],
{
    let r = [
        (RegisterWrite { register: LP5562_I2C_REG_W_PWM, value: brightness, pause_us: 0 }),
        (RegisterWrite { register: LP5562_I2C_REG_W_CURRENT, value: 0xFF, pause_us: 0 }),
    ];
    assert(r@ =~= seq![
        (RegisterWrite { register: LP5562_I2C_REG_W_PWM, value: brightness, pause_us: 0 }),
        (RegisterWrite { register: LP5562_I2C_REG_W_CURRENT, value: 0xFF, pause_us: 0 }),
    ]);
    r
}

} // verus!
