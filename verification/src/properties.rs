//! Small value types shared by drawables and the engine.

use vstd::prelude::*;

verus! {

/// How the lines of a text sit within the width of its box.
#[derive(Debug, Copy, Clone, PartialEq, Eq, Structural)]
pub enum Align {
    Left,
    Center,
    Right,
}

/// Where a line that is too long may be broken.
#[derive(Debug, Copy, Clone, PartialEq, Eq, Structural)]
pub enum OverflowBreak {
    Character,
    Word,
}

/// Which of the two transformations of a batch a change applies to.
#[derive(Debug, Copy, Clone, PartialEq, Eq, Structural)]
pub enum TransformationEffect {
    Absolute,
    Relative,
}

/// A width and a height in pixels.
#[derive(Debug, Copy, Clone, PartialEq, Eq, Structural)]
pub struct Size {
    pub width: u32,
    pub height: u32,
}

impl Size {
    pub fn new(width: u32, height: u32) -> (size: Self)
        ensures
            size == (Size { width, height }),
    {
        Size { width, height }
    }
}

/// What drawables are told about the surface they are drawn on.
#[derive(Debug, Copy, Clone, PartialEq, Eq, Structural)]
pub struct Properties {
    /// The size of the surface.
    pub size: Size,
    /// How many device pixels make a hundred units of length.
    pub scale_factor: u32,
}

/// A length scaled by a factor given in hundredths, as far as a length goes.
pub open spec fn scale(length: u32, factor: u32) -> u32 {
    if length * factor / 100 > u32::MAX {
        u32::MAX
    } else {
        (length * factor / 100) as u32
    }
}

/// A length scaled by a factor given in hundredths.
pub fn scaled(length: u32, factor: u32) -> (result: u32)
    ensures
        result == scale(length, factor),
{
    assert(length * factor <= 0xFFFF_FFFF * 0xFFFF_FFFF) by (nonlinear_arith)
        requires
            length <= 0xFFFF_FFFF,
            factor <= 0xFFFF_FFFF,
    ;
    let product: u64 = length as u64 * factor as u64 / 100;
    if product > 0xFFFF_FFFF {
        0xFFFF_FFFF
    } else {
        product as u32
    }
}

} // verus!
