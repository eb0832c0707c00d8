//! The pointer peripheral's data record: a screen point and the touch
//! state, with a fixed byte layout for device transport.

use vstd::prelude::*;

verus! {

/// A point on the screen.
#[derive(Clone, Copy, Debug, PartialEq, Eq, Structural)]
pub struct Point_type {
    pub X: i16,
    pub Y: i16,
}

impl Point_type {
    pub fn New(X: i16, Y: i16) -> (Result: Self)
        ensures
            Result.X == X,
            Result.Y == Y,
    {
        Point_type { X, Y }
    }

    pub fn Get_x(&self) -> (Result: i16)
        ensures
            Result == self.X,
    {
        self.X
    }

    pub fn Get_y(&self) -> (Result: i16)
        ensures
            Result == self.Y,
    {
        self.Y
    }
}

/// Whether the pointer presses the screen.
#[derive(Clone, Copy, Debug, PartialEq, Eq, Structural)]
pub enum Touch_type {
    Pressed,
    Released,
}

impl Touch_type {
    /// The byte the state travels as.
    pub fn As_u8(&self) -> (Result: u8)
        ensures
            Result == (match *self {
                Touch_type::Pressed => 0u8,
                Touch_type::Released => 1u8,
            }),
    {
        match self {
            Touch_type::Pressed => 0,
            Touch_type::Released => 1,
        }
    }

    /// The state a byte denotes; anything above one denotes nothing.
    pub fn From_u8(Value: u8) -> (Result: Option<Touch_type>)
        ensures
            Result == (if Value == 0 {
                Some(Touch_type::Pressed)
            } else if Value == 1 {
                Some(Touch_type::Released)
            } else {
                None::<Touch_type>
            }),
    {
        match Value {
            0 => Some(Touch_type::Pressed),
            1 => Some(Touch_type::Released),
            _ => None,
        }
    }
}

/// What a pointer device reports: where, and whether pressed.
#[derive(Clone, Copy, Debug, PartialEq, Eq, Structural)]
pub struct Pointer_data_type {
    pub Point: Point_type,
    pub Touch: Touch_type,
}

impl Default for Pointer_data_type {
    /// The rest state: the origin, released.
    fn default() -> (Result: Self)
        ensures
            Result.Point.X == 0,
            Result.Point.Y == 0,
            Result.Touch == Touch_type::Released,
    {
        Pointer_data_type {
            Point: Point_type { X: 0, Y: 0 },
            Touch: Touch_type::Released,
        }
    }
}

impl Pointer_data_type {
    pub fn New(Point: Point_type, Touch: Touch_type) -> (Result: Self)
        ensures
            Result.Point == Point,
            Result.Touch == Touch,
    {
        Pointer_data_type { Point, Touch }
    }

    pub fn Get_point(&self) -> (Result: &Point_type)
        ensures
            *Result == self.Point,
    {
        &self.Point
    }

    pub fn Get_touch(&self) -> (Result: &Touch_type)
        ensures
            *Result == self.Touch,
    {
        &self.Touch
    }

    pub fn Set_point(&mut self, Point: Point_type)
        ensures
            final(self).Point == Point,
            final(self).Touch == old(self).Touch,
    {
        self.Point = Point;
    }

    pub fn Set_touch(&mut self, Touch: Touch_type)
        ensures
            final(self).Point == old(self).Point,
            final(self).Touch == Touch,
    {
        self.Touch = Touch;
    }

    pub fn Set_state(&mut self, Point: Point_type, Touch: Touch_type)
        ensures
            final(self).Point == Point,
            final(self).Touch == Touch,
    {
        self.Point = Point;
        self.Touch = Touch;
    }
}

/// The byte layout of a pointer record: both coordinates little-endian,
/// then the touch state.
pub open spec fn Record_bytes(Data: Pointer_data_type) -> Seq<u8> {
    seq![
        (Data.Point.X as u16 % 256) as u8,
        (Data.Point.X as u16 / 256) as u8,
        (Data.Point.Y as u16 % 256) as u8,
        (Data.Point.Y as u16 / 256) as u8,
        (match Data.Touch {
            Touch_type::Pressed => 0u8,
            Touch_type::Released => 1u8,
        }),
    ]
}

impl Pointer_data_type {
    /// The record as the five bytes it travels as through a device file.
    pub fn To_bytes(&self) -> (Result: Vec<u8>)
        ensures
            Result@ == Record_bytes(*self),
    {
        let mut Output: Vec<u8> = Vec::new();
        let X = self.Point.X as u16;
        let Y = self.Point.Y as u16;
        Output.push((X % 256) as u8);
        Output.push((X / 256) as u8);
        Output.push((Y % 256) as u8);
        Output.push((Y / 256) as u8);
        Output.push(self.Touch.As_u8());
        proof {
            assert(Output@ =~= Record_bytes(*self));
        }
        Output
    }

    /// The record five bytes denote, if their touch byte denotes a
    /// state and there are exactly five of them.
    pub fn From_bytes(Bytes: &Vec<u8>) -> (Result: Option<Pointer_data_type>)
        ensures
            match Result {
                Some(Data) => Bytes@ == Record_bytes(Data),
                None => Bytes@.len() != 5 || (Bytes@[4] != 0u8 && Bytes@[4] != 1u8),
            },
    {
        if Bytes.len() != 5 {
            return None;
        }
        let X_unsigned = Bytes[0] as u16 + 256 * (Bytes[1] as u16);
        let Y_unsigned = Bytes[2] as u16 + 256 * (Bytes[3] as u16);
        let X = #[verifier::truncate] (X_unsigned as i16);
        let Y = #[verifier::truncate] (Y_unsigned as i16);
        let Touch = match Touch_type::From_u8(Bytes[4]) {
            Some(Touch) => Touch,
            None => {
                return None;
            },
        };
        let Data = Pointer_data_type { Point: Point_type { X, Y }, Touch };
        proof {
            assert((X_unsigned as i16) as u16 == X_unsigned) by (bit_vector);
            assert((Y_unsigned as i16) as u16 == Y_unsigned) by (bit_vector);
            assert(Bytes@ =~= Record_bytes(Data));
        }
        Some(Data)
    }
}

/// The byte form is lossless: decoding what a record encodes yields the
/// record again.
pub proof fn Lemma_record_bytes_lossless(Data: Pointer_data_type, Decoded: Pointer_data_type)
    requires
        Record_bytes(Data) == Record_bytes(Decoded),
    ensures
        Data == Decoded,
{
    let Left = Record_bytes(Data);
    let Right = Record_bytes(Decoded);
    assert(Left[0] == Right[0] && Left[1] == Right[1] && Left[2] == Right[2] && Left[3]
        == Right[3] && Left[4] == Right[4]);
    let X_data = Data.Point.X;
    let X_decoded = Decoded.Point.X;
    assert((X_data as u16 % 256) as u8 == (X_decoded as u16 % 256) as u8 && (X_data as u16
        / 256) as u8 == (X_decoded as u16 / 256) as u8 ==> X_data == X_decoded)
        by (bit_vector);
    let Y_data = Data.Point.Y;
    let Y_decoded = Decoded.Point.Y;
    assert((Y_data as u16 % 256) as u8 == (Y_decoded as u16 % 256) as u8 && (Y_data as u16
        / 256) as u8 == (Y_decoded as u16 / 256) as u8 ==> Y_data == Y_decoded)
        by (bit_vector);
}

} // verus!
