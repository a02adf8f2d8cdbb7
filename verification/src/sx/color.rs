//! 8-bit-per-channel colors.
use vstd::prelude::*;

verus! {

/// A color with red, green, blue and alpha channels of one byte each.
#[derive(Debug, Default, Clone, Copy, PartialEq, Eq, Structural)]
pub struct Rgba8 {
    pub r: u8,
    pub g: u8,
    pub b: u8,
    pub a: u8,
}

/// The byte of `value` that starts `shift` bits from its least significant end.
pub open spec fn byte_at(value: u32, shift: u32) -> u8 {
    ((value / pow2_u32(shift)) % 256) as u8
}

/// `2^shift` for the byte shifts of a `u32`.
pub open spec fn pow2_u32(shift: u32) -> u32 {
    if shift == 24 {
        0x100_0000
    } else if shift == 16 {
        0x1_0000
    } else if shift == 8 {
        0x100
    } else {
        1
    }
}

impl Rgba8 {
    pub fn new(r: u8, g: u8, b: u8, a: u8) -> (c: Self)
        ensures
            c == (Rgba8 { r, g, b, a }),
    {
        Self { r, g, b, a }
    }

    /// The color whose channels are the bytes of `arr` in order: red, green, blue, alpha.
    pub fn from_u8_array(arr: [u8; 4]) -> (c: Self)
        ensures
            c == (Rgba8 { r: arr@[0], g: arr@[1], b: arr@[2], a: arr@[3] }),
    {
        Self { r: arr[0], g: arr[1], b: arr[2], a: arr[3] }
    }

    /// Reads a color written as hex `0xRRGGBBAA`: the most significant byte is red, the least
    /// significant one alpha.
    pub fn from_u32(value: u32) -> (c: Self)
        ensures
            c.r == byte_at(value, 24),
            c.g == byte_at(value, 16),
            c.b == byte_at(value, 8),
            c.a == byte_at(value, 0),
    {
        let r: u8 = (value >> 24u32) as u8;
        let g: u8 = ((value >> 16u32) & 0xff) as u8;
        let b: u8 = ((value >> 8u32) & 0xff) as u8;
        let a: u8 = (value & 0xff) as u8;
        assert(r == ((value / 0x100_0000) % 256) as u8) by (bit_vector)
            requires
                r == (value >> 24u32) as u8,
        ;
        assert(g == ((value / 0x1_0000) % 256) as u8) by (bit_vector)
            requires
                g == ((value >> 16u32) & 0xff) as u8,
        ;
        assert(b == ((value / 0x100) % 256) as u8) by (bit_vector)
            requires
                b == ((value >> 8u32) & 0xff) as u8,
        ;
        assert(a == ((value / 1) % 256) as u8) by (bit_vector)
            requires
                a == (value & 0xff) as u8,
        ;
        Self { r, g, b, a }
    }

    /// The same color with alpha `a`.
    pub fn with_a(self, a: u8) -> (c: Self)
        ensures
            c == (Rgba8 { a, ..self }),
    {
        let mut c = self;
        c.a = a;
        c
    }
}

} // verus!
