//! The styles of a font family.

use vstd::prelude::*;

verus! {

/// The weight of a font, lightest first.
#[derive(Debug, Copy, Clone, PartialEq, Eq, PartialOrd, Ord, Hash, Structural)]
pub enum FontThickness {
    Thin,
    ExtraLight,
    Light,
    Regular,
    Medium,
    SemiBold,
    Bold,
    ExtraBold,
    Black,
}

/// Upright or slanted.
#[derive(Debug, Copy, Clone, PartialEq, Eq, Hash, Structural)]
pub enum FontEmphasis {
    Regular,
    Italic,
}

} // verus!
