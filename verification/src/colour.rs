//! Colours of the pixel buffer: four bytes per pixel, red first.
use vstd::prelude::*;

verus! {

/// A pixel colour with red, green, blue and alpha channels.
#[derive(Debug, Clone, Copy, PartialEq, Eq, PartialOrd, Ord, Structural)]
pub struct Rgba {
    pub r: u8,
    pub g: u8,
    pub b: u8,
    pub a: u8,
}

/// The colour of the brush outline, as a value of specifications.
pub open spec fn spec_green() -> Rgba {
    Rgba { r: 40, g: 255, b: 40, a: 255 }
}

/// The colour of particle markers, as a value of specifications.
pub open spec fn spec_white() -> Rgba {
    Rgba { r: 255, g: 255, b: 255, a: 255 }
}

/// The colour that erased pixels are set to, as a value of specifications.
pub open spec fn spec_background() -> Rgba {
    Rgba { r: 44, g: 44, b: 44, a: 255 }
}

/// The colour of the brush outline.
#[verifier::when_used_as_spec(spec_green)]
pub fn green() -> (c: Rgba)
    ensures
        c == spec_green(),
{
    Rgba { r: 40, g: 255, b: 40, a: 255 }
}

/// The colour of particle markers.
#[verifier::when_used_as_spec(spec_white)]
pub fn white() -> (c: Rgba)
    ensures
        c == spec_white(),
{
    Rgba { r: 255, g: 255, b: 255, a: 255 }
}

/// The colour that erased pixels are set to.
#[verifier::when_used_as_spec(spec_background)]
pub fn background() -> (c: Rgba)
    ensures
        c == spec_background(),
{
    Rgba { r: 44, g: 44, b: 44, a: 255 }
}

/// The byte that fills a cleared pixel buffer, in every channel.
pub const BACKGROUND_BYTE: u8 = 44;

impl Rgba {
    /// The colour as one number: red in the highest byte, alpha in the lowest.
    pub open spec fn packed(self) -> int {
        self.r * 0x100_0000 + self.g * 0x1_0000 + self.b * 0x100 + self.a
    }

    /// The colour whose four bytes make up `colour`, red in the highest byte.
    pub open spec fn unpacked(colour: int) -> Rgba {
        Rgba {
            r: (colour / 0x100_0000 % 0x100) as u8,
            g: (colour / 0x1_0000 % 0x100) as u8,
            b: (colour / 0x100 % 0x100) as u8,
            a: (colour % 0x100) as u8,
        }
    }

    pub fn as_u32(self) -> (colour: u32)
        ensures
            colour == self.packed(),
    {
        let r = self.r;
        let g = self.g;
        let b = self.b;
        let a = self.a;
        assert((r as u32) << 24 | (g as u32) << 16 | (b as u32) << 8 | (a as u32) == r * 0x100_0000
            + g * 0x1_0000 + b * 0x100 + a) by (bit_vector);
        (r as u32) << 24 | (g as u32) << 16 | (b as u32) << 8 | (a as u32)
    }

    /// An opaque colour.
    pub fn from_rgb(r: u8, g: u8, b: u8) -> (colour: Rgba)
        ensures
            colour == (Rgba { r, g, b, a: 255 }),
    {
        Rgba { r, g, b, a: 255 }
    }

    pub fn from_rgba(r: u8, g: u8, b: u8, a: u8) -> (colour: Rgba)
        ensures
            colour == (Rgba { r, g, b, a }),
    {
        Rgba { r, g, b, a }
    }

    pub fn from_u32(colour: u32) -> (c: Rgba)
        ensures
            c == Rgba::unpacked(colour as int),
    {
        assert(((colour >> 24) & 0xFF) == colour / 0x100_0000 % 0x100) by (bit_vector);
        assert(((colour >> 16) & 0xFF) == colour / 0x1_0000 % 0x100) by (bit_vector);
        assert(((colour >> 8) & 0xFF) == colour / 0x100 % 0x100) by (bit_vector);
        assert((colour & 0xFF) == colour % 0x100) by (bit_vector);
        Rgba {
            r: ((colour >> 24) & 0xFF) as u8,
            g: ((colour >> 16) & 0xFF) as u8,
            b: ((colour >> 8) & 0xFF) as u8,
            a: (colour & 0xFF) as u8,
        }
    }
}

/// Packing a colour into a number and unpacking that number gives the colour back.
pub proof fn unpacking_undoes_packing(c: Rgba)
    ensures
        Rgba::unpacked(c.packed()) == c,
        0 <= c.packed() <= u32::MAX,
{
    let r = c.r;
    let g = c.g;
    let b = c.b;
    let a = c.a;
    let v: u32 = (r * 0x100_0000 + g * 0x1_0000 + b * 0x100 + a) as u32;
    assert(v == r * 0x100_0000 + g * 0x1_0000 + b * 0x100 + a);
    assert(v / 0x100_0000 % 0x100 == r && v / 0x1_0000 % 0x100 == g && v / 0x100 % 0x100 == b && v
        % 0x100 == a) by (bit_vector)
        requires
            v == r * 0x100_0000 + g * 0x1_0000 + b * 0x100 + a,
    ;
}

/// Unpacking a 32-bit number and packing the colour gives the number back.
pub proof fn packing_undoes_unpacking(colour: int)
    requires
        0 <= colour <= u32::MAX,
    ensures
        Rgba::unpacked(colour).packed() == colour,
{
    let v: u32 = colour as u32;
    assert((v / 0x100_0000 % 0x100) * 0x100_0000 + (v / 0x1_0000 % 0x100) * 0x1_0000 + (v / 0x100
        % 0x100) * 0x100 + v % 0x100 == v) by (bit_vector);
}

} // verus!
