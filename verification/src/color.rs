//! Colours with four 8-bit channels.

use vstd::prelude::*;

verus! {

/// An RGBA colour, one byte per channel; `alpha == 255` is opaque.
#[derive(Debug, Copy, Clone, PartialEq, Eq, Hash, Structural)]
pub struct Color {
    pub red: u8,
    pub green: u8,
    pub blue: u8,
    pub alpha: u8,
}

/// The 32-bit word `0xRRGGBBAA` that stands for a colour.
pub open spec fn hex_of(color: Color) -> u32 {
    ((color.red as u32) << 24) | ((color.green as u32) << 16) | ((color.blue as u32) << 8) | (
    color.alpha as u32)
}

/// The colour that a word `0xRRGGBBAA` stands for.
pub open spec fn color_of(hex: u32) -> Color {
    Color {
        red: ((hex >> 24) & 255) as u8,
        green: ((hex >> 16) & 255) as u8,
        blue: ((hex >> 8) & 255) as u8,
        alpha: (hex & 255) as u8,
    }
}

pub const RED: u32 = 0xFF00_00FF;

pub const GREEN: u32 = 0x00FF_00FF;

pub const BLUE: u32 = 0x0000_FFFF;

pub const CYAN: u32 = 0x00FF_FFFF;

pub const MAGENTA: u32 = 0xFF00_FFFF;

pub const YELLOW: u32 = 0xFFFF_00FF;

pub const BLACK: u32 = 0x0000_00FF;

pub const WHITE: u32 = 0xFFFF_FFFF;

pub const CLEAR: u32 = 0x0000_0000;

/// The channels of the two palette words that the library itself uses.
pub proof fn lemma_palette()
    ensures
        color_of(CLEAR) == (Color { red: 0, green: 0, blue: 0, alpha: 0 }),
        color_of(BLACK) == (Color { red: 0, green: 0, blue: 0, alpha: 255 }),
{
    assert((0x0000_0000u32 >> 24) & 255 == 0 && (0x0000_0000u32 >> 16) & 255 == 0 && (0x0000_0000u32
        >> 8) & 255 == 0 && 0x0000_0000u32 & 255 == 0) by (bit_vector);
    assert((0x0000_00FFu32 >> 24) & 255 == 0 && (0x0000_00FFu32 >> 16) & 255 == 0 && (0x0000_00FFu32
        >> 8) & 255 == 0 && 0x0000_00FFu32 & 255 == 255) by (bit_vector);
}

impl Color {
    /// Fully transparent black: what a drawable carries when it has nothing
    /// to paint.
    pub fn clear() -> (color: Self)
        ensures
            color == color_of(CLEAR),
    {
        proof {
            lemma_palette();
        }
        Color { red: 0, green: 0, blue: 0, alpha: 0 }
    }

    /// Opaque black, the default colour of text.
    pub fn black() -> (color: Self)
        ensures
            color == color_of(BLACK),
    {
        proof {
            lemma_palette();
        }
        Color { red: 0, green: 0, blue: 0, alpha: 255 }
    }

    pub fn new(red: u8, green: u8, blue: u8, alpha: u8) -> (color: Self)
        ensures
            color == (Color { red, green, blue, alpha }),
    {
        Color { red, green, blue, alpha }
    }

    pub fn from_rgba(red: u8, green: u8, blue: u8, alpha: u8) -> (color: Self)
        ensures
            color == (Color { red, green, blue, alpha }),
    {
        Color { red, green, blue, alpha }
    }

    /// An opaque colour.
    pub fn from_rgb(red: u8, green: u8, blue: u8) -> (color: Self)
        ensures
            color == (Color { red, green, blue, alpha: 255 }),
    {
        Self::from_rgba(red, green, blue, 255)
    }

    pub fn from_hex(hex: u32) -> (color: Self)
        ensures
            color == color_of(hex),
    {
        Color {
            red: ((hex >> 24) & 255) as u8,
            green: ((hex >> 16) & 255) as u8,
            blue: ((hex >> 8) & 255) as u8,
            alpha: (hex & 255) as u8,
        }
    }

    pub fn to_hex(&self) -> (hex: u32)
        ensures
            hex == hex_of(*self),
    {
        ((self.red as u32) << 24) | ((self.green as u32) << 16) | ((self.blue as u32) << 8) | (
        self.alpha as u32)
    }

    pub fn to_array(&self) -> (channels: [u8; 4])
        ensures
            channels@ == seq![self.red, self.green, self.blue, self.alpha],
    {
        [self.red, self.green, self.blue, self.alpha]
    }
}

/// Packing a colour into a word and unpacking it gives the colour back.
pub proof fn lemma_hex_of_color_round_trip(color: Color)
    ensures
        color_of(hex_of(color)) == color,
{
    let r = color.red;
    let g = color.green;
    let b = color.blue;
    let a = color.alpha;
    let h = hex_of(color);
    assert(((h >> 24) & 255) as u8 == r && ((h >> 16) & 255) as u8 == g && ((h >> 8) & 255) as u8
        == b && (h & 255) as u8 == a) by (bit_vector)
        requires
            h == ((r as u32) << 24) | ((g as u32) << 16) | ((b as u32) << 8) | (a as u32),
    ;
}

/// Unpacking a word into a colour and packing it gives the word back.
pub proof fn lemma_color_of_hex_round_trip(hex: u32)
    ensures
        hex_of(color_of(hex)) == hex,
{
    let c = color_of(hex);
    let r = c.red;
    let g = c.green;
    let b = c.blue;
    let a = c.alpha;
    assert(((r as u32) << 24) | ((g as u32) << 16) | ((b as u32) << 8) | (a as u32) == hex)
        by (bit_vector)
        requires
            r == ((hex >> 24) & 255) as u8,
            g == ((hex >> 16) & 255) as u8,
            b == ((hex >> 8) & 255) as u8,
            a == (hex & 255) as u8,
    ;
}

} // verus!
