//! Owned RGBA pixel buffers.

use vstd::prelude::*;

verus! {

/// What a bitmap is: its size in pixels and its bytes, four per pixel, row
/// after row.
pub struct Content {
    pub width: u32,
    pub height: u32,
    pub pixels: Seq<u8>,
}

impl Content {
    /// There are exactly four bytes for each pixel.
    pub open spec fn wf(self) -> bool {
        self.pixels.len() == self.width * self.height * 4
    }

    /// The position of channel `c` of pixel (`x`, `y`) among the bytes.
    pub open spec fn offset(self, x: int, y: int, c: int) -> int {
        (x + y * self.width) * 4 + c
    }
}

/// An RGBA image held in memory.
#[derive(Debug, Clone)]
pub struct Bitmap {
    width: u32,
    height: u32,
    pixels: Vec<u8>,
}

impl View for Bitmap {
    type V = Content;

    closed spec fn view(&self) -> Content {
        Content { width: self.width, height: self.height, pixels: self.pixels@ }
    }
}

impl Bitmap {
    /// A bitmap of the given size over `pixels`, if there are four bytes for
    /// each pixel, and nothing otherwise.
    pub fn new(width: u32, height: u32, pixels: Vec<u8>) -> (bitmap: Option<Self>)
        ensures
            match bitmap {
                Some(b) => b@ == (Content { width, height, pixels: pixels@ }) && b@.wf(),
                None => pixels@.len() != width * height * 4,
            },
    {
        assert(width * height <= 0xFFFF_FFFF * 0xFFFF_FFFF) by (nonlinear_arith)
            requires
                width <= 0xFFFF_FFFF,
                height <= 0xFFFF_FFFF,
        ;
        let area: u64 = (width as u64) * (height as u64);
        let expected: u128 = (area as u128) * 4;
        if pixels.len() as u128 == expected {
            Some(Bitmap { width, height, pixels })
        } else {
            None
        }
    }

    /// A bitmap over bytes that are known to be four for each pixel.
    pub(crate) fn assemble(width: u32, height: u32, pixels: Vec<u8>) -> (bitmap: Self)
        requires
            pixels@.len() == width * height * 4,
        ensures
            bitmap@ == (Content { width, height, pixels: pixels@ }),
            bitmap@.wf(),
    {
        Bitmap { width, height, pixels }
    }

    pub fn width(&self) -> (width: u32)
        ensures
            width == self@.width,
    {
        self.width
    }

    pub fn height(&self) -> (height: u32)
        ensures
            height == self@.height,
    {
        self.height
    }

    /// The bytes, four per pixel, row after row.
    pub fn bytes(&self) -> (bytes: &Vec<u8>)
        ensures
            bytes@ == self@.pixels,
    {
        &self.pixels
    }

    /// Whether two bitmaps have the same size and the same bytes.
    pub fn same_content(&self, other: &Bitmap) -> (same: bool)
        ensures
            same == (self@ == other@),
    {
        if self.width != other.width || self.height != other.height {
            return false;
        }
        let n = self.pixels.len();
        if n != other.pixels.len() {
            return false;
        }
        let mut i: usize = 0;
        while i < n
            invariant
                n == self.pixels@.len(),
                n == other.pixels@.len(),
                i <= n,
                forall|j: int| 0 <= j < i ==> self.pixels@[j] == other.pixels@[j],
            decreases n - i,
        {
            if self.pixels[i] != other.pixels[i] {
                return false;
            }
            i = i + 1;
        }
        assert(self.pixels@ =~= other.pixels@);
        true
    }
}

} // verus!
