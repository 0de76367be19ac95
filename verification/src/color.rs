//! An RGBA color value and its reversible packed-integer codec.

use vstd::prelude::*;

verus! {

/// A color of four independent 8-bit channels: red, green, blue and alpha.
/// Alpha 0 is fully transparent, alpha 255 fully opaque. Colors are plain
/// values: they are compared and ordered by their channels, lexicographically
/// in the order (r, g, b, a).
#[derive(Copy, Clone, Eq, PartialEq, Ord, PartialOrd, Hash, Debug, Structural)]
pub struct Color {
    /// Red channel.
    pub r: u8,
    /// Green channel.
    pub g: u8,
    /// Blue channel.
    pub b: u8,
    /// Alpha channel.
    pub a: u8,
}

/// An error while converting a packed integer back into a color.
#[derive(Debug, Clone, Copy, Eq, PartialEq, Structural)]
pub enum ColorConversionError {
    /// The packed value is at or above the largest 32-bit value, which the
    /// decoder rejects.
    Overflow,
}

/// The packed form of a color: the four channels concatenated most
/// significant first, red in bits 31..24, green in 23..16, blue in 15..8,
/// alpha in 7..0.
pub open spec fn packed_value(c: Color) -> int {
    c.r * 0x100_0000 + c.g * 0x1_0000 + c.b * 0x100 + c.a
}

/// The color whose channels are the four bytes of `v`, most significant
/// first; the inverse of `packed_value` on `[0, 0xFFFF_FFFF]`.
pub open spec fn unpacked_color(v: int) -> Color {
    Color {
        r: (v / 0x100_0000 % 0x100) as u8,
        g: (v / 0x1_0000 % 0x100) as u8,
        b: (v / 0x100 % 0x100) as u8,
        a: (v % 0x100) as u8,
    }
}

impl Color {
    /// Builds the color with the given channels; every byte is valid.
    pub fn new(r: u8, g: u8, b: u8, a: u8) -> (c: Color)
        ensures
            c == (Color { r, g, b, a }),
    {
        Color { r, g, b, a }
    }

    /// Builds the fully opaque color with the given red, green and blue
    /// channels; alpha is 255.
    pub fn new_opaque(r: u8, g: u8, b: u8) -> (c: Color)
        ensures
            c == (Color { r, g, b, a: 255u8 }),
    {
        Color { r, g, b, a: 255 }
    }

    /// Encodes the color into one unsigned integer, red in the most
    /// significant of the four bytes, alpha in the least.
    pub fn to_packed(&self) -> (v: usize)
        ensures
            v == packed_value(*self),
    {
        (self.r as usize) * 0x100_0000 + (self.g as usize) * 0x1_0000 + (self.b as usize) * 0x100
            + (self.a as usize)
    }

    /// Decodes a packed integer back into a color. Every value below
    /// 0xFFFF_FFFF decodes to the color of its four bytes; 0xFFFF_FFFF (the
    /// packed form of fully opaque white) and everything above it is
    /// rejected with `Overflow`.
    pub fn try_from_packed(value: usize) -> (res: Result<Color, ColorConversionError>)
        ensures
            value < 0xFFFF_FFFF ==> res == Ok::<Color, ColorConversionError>(
                unpacked_color(value as int),
            ),
            value >= 0xFFFF_FFFF ==> res == Err::<Color, ColorConversionError>(
                ColorConversionError::Overflow,
            ),
    {
        if value >= 0xFFFF_FFFF {
            return Err(ColorConversionError::Overflow);
        }
        let r = (value / 0x100_0000 % 0x100) as u8;
        let g = (value / 0x1_0000 % 0x100) as u8;
        let b = (value / 0x100 % 0x100) as u8;
        let a = (value % 0x100) as u8;
        Ok(Color { r, g, b, a })
    }
}

impl Default for Color {
    /// The default color is opaque white.
    fn default() -> (c: Color)
        ensures
            c == (Color { r: 255u8, g: 255u8, b: 255u8, a: 255u8 }),
    {
        Color { r: 255, g: 255, b: 255, a: 255 }
    }
}

/// Law: encoding and then decoding is the identity on colors. The decoder
/// itself refuses the one packed value at 0xFFFF_FFFF, so through
/// `try_from_packed` this round trip is observable for every color but fully
/// opaque white.
pub proof fn lemma_pack_unpack(c: Color)
    ensures
        unpacked_color(packed_value(c)) == c,
{
    let r = c.r;
    let g = c.g;
    let b = c.b;
    let a = c.a;
    assert((r * 0x100_0000 + g * 0x1_0000 + b * 0x100 + a) / 0x100_0000 % 0x100 == r)
        by (bit_vector);
    assert((r * 0x100_0000 + g * 0x1_0000 + b * 0x100 + a) / 0x1_0000 % 0x100 == g)
        by (bit_vector);
    assert((r * 0x100_0000 + g * 0x1_0000 + b * 0x100 + a) / 0x100 % 0x100 == b) by (bit_vector);
    assert((r * 0x100_0000 + g * 0x1_0000 + b * 0x100 + a) % 0x100 == a) by (bit_vector);
}

/// Law: decoding any value a color can be packed into and re-encoding it
/// returns the value unchanged; with the decoder's bound this holds of every
/// value in `[0, 0xFFFF_FFFE]`.
pub proof fn lemma_unpack_pack(v: int)
    requires
        0 <= v < 0x1_0000_0000,
    ensures
        packed_value(unpacked_color(v)) == v,
{
    let u = v as u32;
    assert((u / 0x100_0000 % 0x100) * 0x100_0000 + (u / 0x1_0000 % 0x100) * 0x1_0000 + (u / 0x100
        % 0x100) * 0x100 + (u % 0x100) == u) by (bit_vector);
}

/// Law: the packed values reach 0xFFFF_FFFF exactly at fully opaque white,
/// so the decoder's overflow bound rejects that one color's encoding and no
/// other.
pub proof fn lemma_packed_max(c: Color)
    ensures
        packed_value(c) >= 0xFFFF_FFFF <==> c == (Color { r: 255u8, g: 255u8, b: 255u8, a: 255u8 }),
        packed_value(c) <= 0xFFFF_FFFF,
{
}

} // verus!
