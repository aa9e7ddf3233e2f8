//! The GT911 touch controller as used on the ESP32-P4 Function EV board: the
//! driver's state, the product-id check, the decoding of status and point
//! registers, and the turning of raw coordinates to the panel's orientation.
//! The bus transfers themselves are made by the caller.
use vstd::prelude::*;

verus! {

pub const GT911_ADDRESS_1: u8 = 0x5D;

pub const GT911_ADDRESS_2: u8 = 0x14;

#[derive(Debug)]
pub enum Error<E> {
    Bus(E),
    InvalidProductId([u8; 4]),
    NoDataAvailable,
}

#[derive(Debug, Clone, Copy, PartialEq, Eq, Structural)]
pub enum Register {
    ProductId,
    PointInfo,
    Point1,
}

#[derive(Copy, Clone, Debug, PartialEq, Eq, Structural)]
pub enum Orientation {
    Landscape,
    Portrait,
    InvertedLandscape,
    InvertedPortrait,
}

#[derive(Copy, Clone, Debug, PartialEq, Eq, Structural)]
pub struct Dimensions {
    pub width: u16,
    pub height: u16,
}

#[derive(Copy, Clone, Debug, PartialEq, Eq, Structural)]
pub enum TouchEvent {
    Pressed(TouchPoint),
    Released,
}

#[derive(Copy, Clone, Debug, PartialEq, Eq, Structural)]
pub struct TouchPoint {
    pub id: u8,
    pub x: u16,
    pub y: u16,
    pub size: u16,
}

/// The address of a register.
pub open spec fn register_addr(register: Register) -> u16 {
    match register {
        Register::ProductId => 0x8140,
        Register::PointInfo => 0x814E,
        Register::Point1 => 0x814F,
    }
}

/// What the status register announces.
#[derive(Copy, Clone, Debug, PartialEq, Eq, Structural)]
pub enum StatusReport {
    /// No new report (bit 7 clear): `NoDataAvailable`.
    NoData,
    /// A report without touches: clear the status and report `Released`.
    Released,
    /// A report with touches: read `Point1`, then clear the status.
    Touch,
}

/// How the status byte is read: bit 7 says whether a report is ready, bits
/// 0-3 how many touches it holds.
pub open spec fn status_report(status: u8) -> StatusReport {
    if status < 128 {
        StatusReport::NoData
    } else if status % 16 == 0 {
        StatusReport::Released
    } else {
        StatusReport::Touch
    }
}

/// Decode the status register.
pub fn decode_status(status: u8) -> (r: StatusReport)
    ensures
        r == status_report(status),
{
    let data_ready = status & 0x80 != 0;
    let touch_count = status & 0x0F;
    assert(data_ready == (status >= 128)) by (bit_vector)
        requires
            data_ready == (status & 0x80 != 0),
    ;
    assert(touch_count == status % 16) by (bit_vector)
        requires
            touch_count == status & 0x0F,
    ;
    if !data_ready {
        return StatusReport::NoData;
    }
    if touch_count > 0 {
        StatusReport::Touch
    } else {
        StatusReport::Released
    }
}

/// Whether the first three bytes of a product id read "911".
pub open spec fn is_gt911_id(product_id: [u8; 4]) -> bool {
    product_id@[0] == 0x39 && product_id@[1] == 0x31 && product_id@[2] == 0x31
}

/// The check of the product id at start-up: most GT911 devices return
/// b"911\0"; anything else is `InvalidProductId`.
pub fn check_product_id<E>(product_id: [u8; 4]) -> (r: Result<(), Error<E>>)
    ensures
        is_gt911_id(product_id) ==> r is Ok,
        !is_gt911_id(product_id) ==> (r matches Err(Error::InvalidProductId(id)) && id == product_id),
{
    if product_id[0] != 0x39 || product_id[1] != 0x31 || product_id[2] != 0x31 {
        return Err(Error::InvalidProductId(product_id));
    }
    Ok(())
}

/// `a - b`, but at least 0.
pub open spec fn sat_sub16(a: int, b: int) -> int {
    if a >= b {
        a - b
    } else {
        0
    }
}

/// The smaller of two values.
pub open spec fn min16(a: int, b: int) -> int {
    if a <= b {
        a
    } else {
        b
    }
}

/// Whatever the raw reading and the orientation, a transformed touch lies
/// on the panel: both coordinates between 0 and the panel's size less one
/// (0 on a panel of size 0).
pub proof fn lemma_transformed_on_panel<I2C>(touch: Gt911<I2C>, raw_x: int, raw_y: int)
    requires
        0 <= raw_x,
        0 <= raw_y,
    ensures
        0 <= touch.transformed(raw_x, raw_y).0 <= sat_sub16(touch.dimensions.width as int, 1),
        0 <= touch.transformed(raw_x, raw_y).1 <= sat_sub16(touch.dimensions.height as int, 1),
{
}

pub struct Gt911<I2C> {
    pub address: u8,
    pub i2c: I2C,
    pub orientation: Orientation,
    pub dimensions: Dimensions,
}

impl<I2C> Gt911<I2C> {
    /// Raw coordinates turned to the panel: both are first limited to the
    /// panel (`width - 1`, `height - 1`, at least 0), then mirrored or swapped.
    pub open spec fn transformed(self, raw_x: int, raw_y: int) -> (int, int) {
        let max_x = sat_sub16(self.dimensions.width as int, 1);
        let max_y = sat_sub16(self.dimensions.height as int, 1);
        let x = min16(raw_x, max_x);
        let y = min16(raw_y, max_y);
        match self.orientation {
            Orientation::Landscape => (x, y),
            Orientation::InvertedLandscape => (sat_sub16(max_x, x), sat_sub16(max_y, y)),
            Orientation::Portrait => (min16(y, max_x), sat_sub16(max_y, min16(x, max_y))),
            Orientation::InvertedPortrait => (sat_sub16(max_x, min16(y, max_x)), min16(x, max_y)),
        }
    }

    pub fn new(i2c: I2C, address: u8) -> (r: Self)
        ensures
            r.address == address,
            r.i2c == i2c,
            r.orientation == Orientation::InvertedLandscape,
            r.dimensions == (Dimensions { width: 1024, height: 600 }),
    {
        Self {
            address,
            i2c,
            orientation: Orientation::InvertedLandscape,
            dimensions: Dimensions { width: 1024, height: 600 },
        }
    }

    pub fn set_orientation(&mut self, orientation: Orientation)
        ensures
            final(self).orientation == orientation,
            final(self).address == old(self).address,
            final(self).i2c == old(self).i2c,
            final(self).dimensions == old(self).dimensions,
    {
        self.orientation = orientation;
    }

    pub fn set_size(&mut self, width: u16, height: u16)
        ensures
            final(self).dimensions == (Dimensions { width, height }),
            final(self).address == old(self).address,
            final(self).i2c == old(self).i2c,
            final(self).orientation == old(self).orientation,
    {
        self.dimensions = Dimensions { width, height };
    }

    /// Return ownership of the I²C peripheral.
    pub fn release(self) -> (r: I2C)
        ensures
            r == self.i2c,
    {
        self.i2c
    }

    /// The two bytes that select a register on the bus, high byte first.
    pub fn register_bytes(register: Register) -> (r: [u8; 2])
        ensures
            r@ == seq![(register_addr(register) / 256) as u8, (register_addr(register) % 256) as u8],
    {
        let register: u16 = match register {
            Register::ProductId => 0x8140,
            Register::PointInfo => 0x814E,
            Register::Point1 => 0x814F,
        };
        assert(register >> 8 == register / 256) by (bit_vector);
        assert(register & 0xFF == register % 256) by (bit_vector);
        let r = [(register >> 8) as u8, (register & 0xFF) as u8];
        assert(r@ =~= seq![(register / 256) as u8, (register % 256) as u8]);
        r
    }

    /// The write that clears the status register: its address, then 0.
    pub fn clear_status_command() -> (r: [u8; 3])
        ensures
            r@ == seq![0x81u8, 0x4Eu8, 0u8],
    {
        let bytes = Self::register_bytes(Register::PointInfo);
        let r = [bytes[0], bytes[1], 0u8];
        assert(r@ =~= seq![0x81u8, 0x4Eu8, 0u8]);
        r
    }

    /// The touch point in the seven bytes read from `Point1`: the id, then
    /// x, y and size as little-endian 16-bit values; x and y are transformed.
    pub fn touch_point_from_registers(&self, data: [u8; 7]) -> (r: TouchPoint)
        ensures
            r.id == data@[0],
            r.size == data@[5] + data@[6] * 256,
            (r.x as int, r.y as int) == self.transformed(
                data@[1] + data@[2] * 256,
                data@[3] + data@[4] * 256,
            ),
    {
        let id = data[0];
        proof {
            let b1 = data@[1];
            let b2 = data@[2];
            let b3 = data@[3];
            let b4 = data@[4];
            let b5 = data@[5];
            let b6 = data@[6];
            assert((b1 as u16 | ((b2 as u16) << 8)) == b1 + b2 * 256) by (bit_vector);
            assert((b3 as u16 | ((b4 as u16) << 8)) == b3 + b4 * 256) by (bit_vector);
            assert((b5 as u16 | ((b6 as u16) << 8)) == b5 + b6 * 256) by (bit_vector);
        }
        let raw_x = (data[1] as u16) | ((data[2] as u16) << 8);
        let raw_y = (data[3] as u16) | ((data[4] as u16) << 8);
        let size = (data[5] as u16) | ((data[6] as u16) << 8);
        let (x, y) = self.transform_coordinates(raw_x, raw_y);
        TouchPoint { id, x, y, size }
    }

    /// A touch report from the status byte and, when the status announces a
    /// touch, the point record.
    pub fn touch_event_from<E>(&self, status: u8, point: [u8; 7]) -> (r: Result<TouchEvent, Error<E>>)
        ensures
            status_report(status) == StatusReport::NoData ==> r matches Err(Error::NoDataAvailable),
            status_report(status) == StatusReport::Released ==> r matches Ok(TouchEvent::Released),
            status_report(status) == StatusReport::Touch ==> (r matches Ok(TouchEvent::Pressed(p)) && (
            p.x as int, p.y as int) == self.transformed(
                point@[1] + point@[2] * 256,
                point@[3] + point@[4] * 256,
            ) && p.id == point@[0] && p.size == point@[5] + point@[6] * 256),
    {
        match decode_status(status) {
            StatusReport::NoData => Err(Error::NoDataAvailable),
            StatusReport::Released => Ok(TouchEvent::Released),
            StatusReport::Touch => Ok(TouchEvent::Pressed(self.touch_point_from_registers(point))),
        }
    }

    /// Raw coordinates turned to the panel; see [`Gt911::transformed`].
    pub fn transform_coordinates(&self, raw_x: u16, raw_y: u16) -> (r: (u16, u16))
        ensures
            (r.0 as int, r.1 as int) == self.transformed(raw_x as int, raw_y as int),
    {
        let max_x = self.dimensions.width.saturating_sub(1);
        let max_y = self.dimensions.height.saturating_sub(1);
        let raw_x = if raw_x <= max_x { raw_x } else { max_x };
        let raw_y = if raw_y <= max_y { raw_y } else { max_y };
        match self.orientation {
            Orientation::Landscape => (raw_x, raw_y),
            Orientation::InvertedLandscape => (max_x.saturating_sub(raw_x), max_y.saturating_sub(raw_y)),
            Orientation::Portrait => {
                let a = if raw_y <= max_x { raw_y } else { max_x };
                let b = if raw_x <= max_y { raw_x } else { max_y };
                (a, max_y.saturating_sub(b))
            },
            Orientation::InvertedPortrait => {
                let a = if raw_y <= max_x { raw_y } else { max_x };
                let b = if raw_x <= max_y { raw_x } else { max_y };
                (max_x.saturating_sub(a), b)
            },
        }
    }
}

} // verus!
