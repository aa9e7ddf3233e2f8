//! The GT911 capacitive touch controller as wired on the ESP32-S3-BOX-3: the
//! driver's state and the decoding of the register contents that the bus
//! returns. The bus transfers themselves are made by the caller.
use vstd::prelude::*;

verus! {

/// The I2C address of the GT911 on the ESP32-S3-BOX-3.
pub const DEFAULT_GT911_ADDRESS: u8 = 0x14;

/// Any type of error which may occur while interacting with the device
#[derive(Debug)]
pub enum Error<E> {
    /// Some error originating from the communication bus
    BusError(E),
    /// The message length did not match the expected value
    InvalidMessageLen(usize),
    /// Reading a GPIO pin resulted in an error
    IOError,
    /// Tried to read a touch point, but no data was available
    NoDataAvailable,
    /// Error converting a slice to an array
    TryFromSliceError,
}

/// Documented registers of the device
#[derive(Debug, Clone, Copy, PartialEq, Eq, Structural)]
pub enum Reg {
    ProductId,
    /// Number of touch points, key flag and buffer status.
    PointInfo,
    /// The first touch point record.
    Point1,
    /// Touch key state (0: pressed).
    Key1,
}

/// The 16-bit address of a register.
pub open spec fn reg_addr(reg: Reg) -> u16 {
    match reg {
        Reg::ProductId => 0x8140,
        Reg::PointInfo => 0x814E,
        Reg::Point1 => 0x814F,
        Reg::Key1 => 0x8093,
    }
}

/// The address of a register.
pub fn reg_address(reg: Reg) -> (r: u16)
    ensures
        r == reg_addr(reg),
{
    match reg {
        Reg::ProductId => 0x8140,
        Reg::PointInfo => 0x814E,
        Reg::Point1 => 0x814F,
        Reg::Key1 => 0x8093,
    }
}

/// The two bytes that select a register on the bus, high byte first.
pub fn register_bytes(register: u16) -> (r: [u8; 2])
    ensures
        r@ == seq![(register / 256) as u8, (register % 256) as u8],
{
    let hi_byte: u8 = (register >> 8) as u8;
    let lo_byte: u8 = (register & 0xFF) as u8;
    assert(register >> 8 == register / 256) by (bit_vector);
    assert(register & 0xFF == register % 256) by (bit_vector);
    let r = [hi_byte, lo_byte];
    assert(r@ =~= seq![(register / 256) as u8, (register % 256) as u8]);
    r
}

/// The write that clears the point-info register: its address, then 0.
pub fn clear_status_command() -> (r: [u8; 3])
    ensures
        r@ == seq![0x81u8, 0x4Eu8, 0u8],
{
    let bytes = register_bytes(reg_address(Reg::PointInfo));
    let r = [bytes[0], bytes[1], 0u8];
    assert(r@ =~= seq![0x81u8, 0x4Eu8, 0u8]);
    r
}

/// Represents the orientation of the device
#[derive(Copy, Clone, Debug, PartialEq, Eq, Structural)]
pub enum Orientation {
    Portrait,
    Landscape,
    InvertedPortrait,
    InvertedLandscape,
}

/// Represents the dimensions of the device
#[derive(Copy, Clone, Debug, PartialEq, Eq, Structural)]
pub struct Dimension {
    pub height: u16,
    pub width: u16,
}

/// A report of the controller.
#[derive(Copy, Clone, Debug, PartialEq, Eq, Structural)]
pub enum TouchEvent {
    Point(TouchPoint),
    Key(TouchKey),
    /// A touch or key was released.
    NoEvent,
}

#[derive(Copy, Clone, Debug, PartialEq, Eq, Structural)]
pub struct TouchPoint {
    pub id: u8,
    pub x: u16,
    pub y: u16,
    pub size: u16,
}

#[derive(Copy, Clone, Debug, PartialEq, Eq, Structural)]
pub struct TouchKey {
    pub id: u8,
    pub pressed: bool,
}

/// What the point-info register announces.
#[derive(Copy, Clone, Debug, PartialEq, Eq, Structural)]
pub enum PointInfo {
    /// The buffer holds nothing valid: clear the register and report
    /// `NoDataAvailable`.
    NoData,
    /// A touch point is waiting in the `Point1` registers.
    Touch,
    /// A key report is waiting in the `Key1` registers.
    Key,
    /// Touches and keys were released: clear the register and report `NoEvent`.
    Released,
}

/// How the point-info byte is read: bit 7 says whether the buffer is valid,
/// bit 4 whether a key report is present, bits 0-3 how many touches there are.
pub open spec fn point_info_kind(info: u8) -> PointInfo {
    if info < 128 {
        PointInfo::NoData
    } else if info % 16 > 0 {
        PointInfo::Touch
    } else if (info / 16) % 2 == 1 {
        PointInfo::Key
    } else {
        PointInfo::Released
    }
}

/// Decode the point-info register.
pub fn decode_point_info(point_info: u8) -> (r: PointInfo)
    ensures
        r == point_info_kind(point_info),
{
    let buffer_status = point_info & 0x80 == 0x80;
    let have_key = point_info & 0x10 == 0x10;
    let touches = point_info & 0xF;
    assert(buffer_status == (point_info >= 128)) by (bit_vector)
        requires
            buffer_status == (point_info & 0x80 == 0x80),
    ;
    assert(have_key == ((point_info / 16) % 2 == 1)) by (bit_vector)
        requires
            have_key == (point_info & 0x10 == 0x10),
    ;
    assert(touches == point_info % 16) by (bit_vector)
        requires
            touches == point_info & 0xF,
    ;
    if !buffer_status {
        PointInfo::NoData
    } else if touches > 0 {
        PointInfo::Touch
    } else if have_key {
        PointInfo::Key
    } else {
        PointInfo::Released
    }
}

/// A little-endian 16-bit value from two bytes.
pub open spec fn le16(lo: u8, hi: u8) -> int {
    lo + hi * 256
}

/// The key report: key 0 is pressed when its byte is 0 (see `Reg::Key1`).
pub fn touch_key_from_registers(rx_buf: [u8; 4]) -> (r: TouchKey)
    ensures
        r == (TouchKey { id: 0, pressed: rx_buf@[0] == 0 }),
{
    // Only the first touch key is wired.
    let key0: u8 = rx_buf[0];
    TouchKey { id: 0, pressed: key0 == 0 }
}

/// Driver representation holding:
///
/// - The I2C Slave address of the GT911
/// - The I2C Bus used to communicate with the GT911
/// - The interrupt pin, low while data is available
/// - The screen/panel orientation
/// - The screen/panel dimensions
#[derive(Clone, Debug)]
pub struct GT911<I2C, IRQ> {
    pub address: u8,
    pub i2c: I2C,
    pub irq_pin: IRQ,
    pub orientation: Orientation,
    pub size: Dimension,
}

impl<I2C, IRQ> GT911<I2C, IRQ> {
    /// The coordinates of a raw touch after the panel's orientation is
    /// applied. A turn that would take a coordinate below zero is not done:
    /// `orientation_ok` leaves such touches out.
    pub open spec fn oriented(self, x: int, y: int) -> (int, int) {
        match self.orientation {
            Orientation::Landscape => (x, y),
            Orientation::Portrait => (y, self.size.height - x),
            Orientation::InvertedLandscape => (self.size.width - x, self.size.height - y),
            Orientation::InvertedPortrait => (self.size.width - y, x),
        }
    }

    /// Whether a raw touch at (x, y) can be turned by the panel's orientation.
    pub open spec fn orientation_ok(self, x: int, y: int) -> bool {
        match self.orientation {
            Orientation::Landscape => true,
            Orientation::Portrait => x <= self.size.height,
            Orientation::InvertedLandscape => x <= self.size.width && y <= self.size.height,
            Orientation::InvertedPortrait => y <= self.size.width,
        }
    }

    pub fn new(i2c: I2C, irq_pin: IRQ) -> (r: Self)
        ensures
            r.address == DEFAULT_GT911_ADDRESS,
            r.i2c == i2c,
            r.irq_pin == irq_pin,
            r.orientation == Orientation::Landscape,
            r.size == (Dimension { height: 240, width: 320 }),
    {
        Self {
            address: DEFAULT_GT911_ADDRESS,
            i2c,
            irq_pin,
            orientation: Orientation::Landscape,
            size: Dimension { height: 240, width: 320 },  // 320*240
        }
    }

    /// Whether touch data is available, given the reading of the interrupt
    /// pin (`Ok(true)` when it is low); a failed pin read becomes `IOError`.
    pub fn data_available<E, PE>(&self, irq_is_low: Result<bool, PE>) -> (r: Result<bool, Error<E>>)
        ensures
            irq_is_low matches Ok(low) ==> r == Ok::<bool, Error<E>>(low),
            irq_is_low is Err ==> r matches Err(Error::IOError),
    {
        match irq_is_low {
            Ok(low) => Ok(low),
            Err(_) => Err(Error::IOError),
        }
    }

    pub fn set_orientation(&mut self, orientation: Orientation)
        ensures
            final(self).orientation == orientation,
            final(self).address == old(self).address,
            final(self).i2c == old(self).i2c,
            final(self).irq_pin == old(self).irq_pin,
            final(self).size == old(self).size,
    {
        self.orientation = orientation;
    }

    pub fn set_size(&mut self, height: u16, width: u16)
        ensures
            final(self).size == (Dimension { height, width }),
            final(self).address == old(self).address,
            final(self).i2c == old(self).i2c,
            final(self).irq_pin == old(self).irq_pin,
            final(self).orientation == old(self).orientation,
    {
        self.size = Dimension { height, width };
    }

    /// Whether the touch in the seven bytes read from `Point1` can be turned
    /// by the panel's orientation (see `orientation_ok`).
    pub fn can_orient(&self, rx_buf: [u8; 7]) -> (r: bool)
        ensures
            r == self.orientation_ok(le16(rx_buf@[1], rx_buf@[2]), le16(rx_buf@[3], rx_buf@[4])),
    {
        proof {
            let (b1, b2, b3, b4) = (rx_buf@[1], rx_buf@[2], rx_buf@[3], rx_buf@[4]);
            assert(b1 as u16 + b2 as u16 * 256 <= 65535) by (bit_vector);
            assert(b3 as u16 + b4 as u16 * 256 <= 65535) by (bit_vector);
        }
        let x: u16 = rx_buf[1] as u16 + rx_buf[2] as u16 * 256;
        let y: u16 = rx_buf[3] as u16 + rx_buf[4] as u16 * 256;
        match self.orientation {
            Orientation::Landscape => true,
            Orientation::Portrait => x <= self.size.height,
            Orientation::InvertedLandscape => x <= self.size.width && y <= self.size.height,
            Orientation::InvertedPortrait => y <= self.size.width,
        }
    }

    /// The touch point in the seven bytes read from `Point1`: the id, then
    /// x, y and size as little-endian 16-bit values, x and y turned by the
    /// panel's orientation.
    pub fn touch_point_from_registers(&self, rx_buf: [u8; 7]) -> (r: TouchPoint)
        requires
            self.orientation_ok(le16(rx_buf@[1], rx_buf@[2]), le16(rx_buf@[3], rx_buf@[4])),
        ensures
            r.id == rx_buf@[0],
            r.size == le16(rx_buf@[5], rx_buf@[6]),
            (r.x as int, r.y as int) == self.oriented(
                le16(rx_buf@[1], rx_buf@[2]),
                le16(rx_buf@[3], rx_buf@[4]),
            ),
    {
        proof {
            let b1 = rx_buf@[1];
            let b2 = rx_buf@[2];
            let b3 = rx_buf@[3];
            let b4 = rx_buf@[4];
            let b5 = rx_buf@[5];
            let b6 = rx_buf@[6];
            assert((b2 as u16) << 8 == b2 as u16 * 256 && b1 as u16 + b2 as u16 * 256 <= 65535) by (bit_vector);
            assert((b4 as u16) << 8 == b4 as u16 * 256 && b3 as u16 + b4 as u16 * 256 <= 65535) by (bit_vector);
            assert((b6 as u16) << 8 == b6 as u16 * 256 && b5 as u16 + b6 as u16 * 256 <= 65535) by (bit_vector);
        }
        let id: u8 = rx_buf[0];
        let mut x: u16 = rx_buf[1] as u16 + ((rx_buf[2] as u16) << 8);
        let mut y: u16 = rx_buf[3] as u16 + ((rx_buf[4] as u16) << 8);
        let size: u16 = rx_buf[5] as u16 + ((rx_buf[6] as u16) << 8);
        match self.orientation {
            Orientation::Landscape => {
                // Don't need to do anything because x = x and y = y
            },
            Orientation::Portrait => {
                let temp: u16 = x;
                x = y;
                y = self.size.height - temp;
            },
            Orientation::InvertedLandscape => {
                x = self.size.width - x;
                y = self.size.height - y;
            },
            Orientation::InvertedPortrait => {
                let temp: u16 = x;
                x = self.size.width - y;
                y = temp;
            },
        }
        TouchPoint { id, x, y, size }
    }
}

} // verus!
