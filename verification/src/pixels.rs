//! Packed RGBA pixel values.

use vstd::prelude::*;

verus! {

use vstd::arithmetic::div_mod::lemma_fundamental_div_mod_converse;

/// A color packed into a single 32-bit value: red in the highest byte, then
/// green, blue, and alpha in the lowest byte. The all-zero value doubles as
/// the default ("never written") pixel of a layer.
#[derive(Clone, Copy, PartialEq, Eq, Structural, Debug)]
pub struct Pixel(pub u32);

/// The packed encoding of four channel bytes.
pub open spec fn packed_rgba(r: u8, g: u8, b: u8, a: u8) -> u32 {
    (r * 0x100_0000 + g * 0x1_0000 + b * 0x100 + a) as u32
}

/// The red channel of a packed value.
pub open spec fn red_of(v: u32) -> u8 {
    (v / 0x100_0000) as u8
}

/// The green channel of a packed value.
pub open spec fn green_of(v: u32) -> u8 {
    ((v / 0x1_0000) % 0x100) as u8
}

/// The blue channel of a packed value.
pub open spec fn blue_of(v: u32) -> u8 {
    ((v / 0x100) % 0x100) as u8
}

/// The alpha channel of a packed value.
pub open spec fn alpha_of(v: u32) -> u8 {
    (v % 0x100) as u8
}

/// Packing four bytes and unpacking them again loses nothing.
pub proof fn lemma_pixel_byte_round_trip(r: u8, g: u8, b: u8, a: u8)
    ensures
        red_of(packed_rgba(r, g, b, a)) == r,
        green_of(packed_rgba(r, g, b, a)) == g,
        blue_of(packed_rgba(r, g, b, a)) == b,
        alpha_of(packed_rgba(r, g, b, a)) == a,
{
    let v = r * 0x100_0000 + g * 0x1_0000 + b * 0x100 + a;
    assert(v == packed_rgba(r, g, b, a));
    lemma_fundamental_div_mod_converse(v, 0x100_0000, r as int, (g * 0x1_0000 + b * 0x100 + a) as int);
    lemma_fundamental_div_mod_converse(v, 0x1_0000, (r * 0x100 + g) as int, (b * 0x100 + a) as int);
    lemma_fundamental_div_mod_converse((r * 0x100 + g) as int, 0x100, r as int, g as int);
    lemma_fundamental_div_mod_converse(v, 0x100, (r * 0x1_0000 + g * 0x100 + b) as int, a as int);
    lemma_fundamental_div_mod_converse(v / 0x100, 0x100, (r * 0x100 + g) as int, b as int);
}

impl Pixel {
    /// The four channel bytes of this pixel, as a specification value.
    pub open spec fn spec_rgba(self) -> (u8, u8, u8, u8) {
        (red_of(self.0), green_of(self.0), blue_of(self.0), alpha_of(self.0))
    }

    /// Builds a fully opaque pixel from red, green and blue bytes.
    pub fn new_rgb(r: u8, g: u8, b: u8) -> (p: Pixel)
        ensures
            p.0 == packed_rgba(r, g, b, 255),
            p.spec_rgba() == (r, g, b, 255u8),
    {
        Pixel::new_rgba(r, g, b, 255)
    }

    /// Builds a pixel from four channel bytes.
    pub fn new_rgba(r: u8, g: u8, b: u8, a: u8) -> (p: Pixel)
        ensures
            p.0 == packed_rgba(r, g, b, a),
            p.spec_rgba() == (r, g, b, a),
    {
        proof {
            lemma_pixel_byte_round_trip(r, g, b, a);
        }
        Pixel((r as u32) * 0x100_0000 + (g as u32) * 0x1_0000 + (b as u32) * 0x100 + (a as u32))
    }

    /// Decomposes this pixel into its four channel bytes.
    pub fn as_rgba(&self) -> (t: (u8, u8, u8, u8))
        ensures
            t == self.spec_rgba(),
    {
        let v = self.0;
        (
            (v / 0x100_0000) as u8,
            ((v / 0x1_0000) % 0x100) as u8,
            ((v / 0x100) % 0x100) as u8,
            (v % 0x100) as u8,
        )
    }
}

} // verus!
