//! Eight-bit RGBA colours for painting modules into textures.
use vstd::prelude::*;

verus! {

/// An opaque-or-translucent colour with eight bits per channel.
#[derive(Debug, Clone, Copy, PartialEq, Eq, Hash, Structural)]
pub struct Color {
    pub r: u8,
    pub g: u8,
    pub b: u8,
    pub a: u8,
}

/// The four bytes of a colour in red, green, blue, alpha order.
pub open spec fn rgba_bytes(c: Color) -> Seq<u8> {
    seq![c.r, c.g, c.b, c.a]
}

impl Color {
    /// A fully opaque colour.
    pub fn rgb(r: u8, g: u8, b: u8) -> (c: Color)
        ensures
            c == (Color { r, g, b, a: 255 }),
    {
        Color { r, g, b, a: 255 }
    }

    /// A fully opaque colour from a `0xRRGGBB` literal; bits above the low
    /// 24 are ignored.
    pub fn rgb_hex(hex: u32) -> (c: Color)
        ensures
            c.r == (hex / 65536) % 256,
            c.g == (hex / 256) % 256,
            c.b == hex % 256,
            c.a == 255,
    {
        Color {
            r: ((hex / 65536) % 256) as u8,
            g: ((hex / 256) % 256) as u8,
            b: (hex % 256) as u8,
            a: 255,
        }
    }

    /// The colour as `[r, g, b, a]`.
    pub fn to_rgba(self) -> (bytes: [u8; 4])
        ensures
            bytes@ == rgba_bytes(self),
    {
        let bytes = [self.r, self.g, self.b, self.a];
        assert(bytes@ =~= rgba_bytes(self));
        bytes
    }
}

/// A `0xRRGGBB` literal built from three channel bytes gives those bytes back.
pub proof fn lemma_rgb_hex_components(r: u8, g: u8, b: u8)
    ensures
        ((r * 65536 + g * 256 + b) / 65536) % 256 == r,
        ((r * 65536 + g * 256 + b) / 256) % 256 == g,
        (r * 65536 + g * 256 + b) % 256 == b,
{
    let hex = r * 65536 + g * 256 + b;
    vstd::arithmetic::div_mod::lemma_fundamental_div_mod_converse(hex, 65536, r as int, g * 256 + b);
    assert(hex == (r * 256 + g) * 256 + b) by (nonlinear_arith)
        requires
            hex == r * 65536 + g * 256 + b,
    ;
    vstd::arithmetic::div_mod::lemma_fundamental_div_mod_converse(hex, 256, r * 256 + g, b as int);
    vstd::arithmetic::div_mod::lemma_fundamental_div_mod_converse(r * 256 + g, 256, r as int, g as int);
    vstd::arithmetic::div_mod::lemma_small_mod(r as nat, 256);
}

} // verus!
