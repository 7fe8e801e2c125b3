//! Handles by which an application refers to what it has loaded.

use vstd::prelude::*;
use std::fmt::Debug;
use std::marker::PhantomData;

verus! {

/// The identifier of a handle that refers to nothing.
pub const INVALID: u32 = 0xFFFF_FFFF;

/// The kinds of things a handle can refer to.
pub trait AssetType {

}

/// Marks a handle of an image.
#[derive(Debug, Copy, Clone, PartialEq, Eq)]
pub struct Image;

impl AssetType for Image {

}

/// Marks a handle of a font.
#[derive(Debug, Copy, Clone, PartialEq, Eq)]
pub struct Font;

impl AssetType for Font {

}

/// A handle of a loaded image or font: its identifier, and in its type what
/// it is a handle of.
#[derive(Debug, Copy, PartialEq, Eq)]
pub struct Asset<T: AssetType + Debug + Copy + Clone + PartialEq + Eq> {
    id: u32,
    phantom: PhantomData<T>,
}

impl<T: AssetType + Debug + Copy + Clone + PartialEq + Eq> Asset<T> {
    /// The identifier that the handle carries.
    pub closed spec fn key(&self) -> u32 {
        self.id
    }

    pub fn new(id: u32) -> (asset: Self)
        ensures
            asset.key() == id,
    {
        Self { id, phantom: PhantomData }
    }

    pub fn id(&self) -> (id: u32)
        ensures
            id == self.key(),
    {
        self.id
    }

    /// Whether the handle refers to something.
    pub fn valid(&self) -> (valid: bool)
        ensures
            valid == (self.key() != INVALID),
    {
        self.id != INVALID
    }
}

impl<T: AssetType + Debug + Copy + Clone + PartialEq + Eq> Clone for Asset<T> {
    fn clone(&self) -> (copy: Self)
        ensures
            copy == *self,
    {
        *self
    }
}

impl<T: AssetType + Debug + Copy + Clone + PartialEq + Eq> Default for Asset<T> {
    /// The handle that refers to nothing.
    fn default() -> (asset: Self)
        ensures
            asset.key() == INVALID,
    {
        Self { id: INVALID, phantom: PhantomData }
    }
}

} // verus!
