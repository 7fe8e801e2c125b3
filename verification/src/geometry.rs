//! Coordinates: whole units in a signed 32-bit range. A sum that leaves the
//! range stays at its end.

use vstd::prelude::*;

verus! {

/// The coordinate nearest to `value`.
pub open spec fn clamp(value: int) -> i32 {
    if value < i32::MIN {
        i32::MIN
    } else if value > i32::MAX {
        i32::MAX
    } else {
        value as i32
    }
}

/// The coordinate nearest to `value`.
pub fn clamped(value: i128) -> (coordinate: i32)
    ensures
        coordinate == clamp(value as int),
{
    if value < -0x8000_0000 {
        -0x8000_0000
    } else if value > 0x7FFF_FFFF {
        0x7FFF_FFFF
    } else {
        value as i32
    }
}

/// The coordinate `length` units after `start`.
pub fn offset(start: i32, length: u32) -> (end: i32)
    ensures
        end == clamp(start + length),
{
    clamped(start as i128 + length as i128)
}

} // verus!
