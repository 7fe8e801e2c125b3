//! Resolving glyphs: giving every glyph of a text its metrics and its bitmap
//! in the glyph atlas. Rasterizing is done by the host; this module decides
//! which glyphs need it and takes the rasters in.

use vstd::prelude::*;
use crate::atlas::Atlas;
use crate::bitmap::{Bitmap, Content};
use crate::color::Color;
use crate::glyph::{is_break, Glyph, GlyphMetrics, TextRenderingData};

verus! {

/// What the rasterizer returns for a glyph: its metrics, and how much of
/// each pixel of its bitmap the glyph covers, row after row.
#[derive(Debug, Clone)]
pub struct Raster {
    pub metrics: GlyphMetrics,
    pub width: u32,
    pub height: u32,
    pub coverage: Vec<u8>,
}

impl Raster {
    /// There is one coverage value for each pixel.
    pub open spec fn wf(&self) -> bool {
        self.coverage@.len() == self.width * self.height
    }

    /// Whether there is one coverage value for each pixel.
    pub fn is_wf(&self) -> (wf: bool)
        ensures
            wf == self.wf(),
    {
        assert(self.width * self.height <= 0xFFFF_FFFF * 0xFFFF_FFFF) by (nonlinear_arith)
            requires
                self.width <= 0xFFFF_FFFF,
                self.height <= 0xFFFF_FFFF,
        ;
        self.coverage.len() as u128 == (self.width as u64 * self.height as u64) as u128
    }
}

/// Channel `c` of a pixel covered to the given degree by a glyph of the
/// given colour: nothing where the glyph does not reach, else the colour,
/// its opacity scaled by the coverage.
pub open spec fn tinted_byte(color: Color, cover: u8, c: int) -> u8 {
    if cover == 0 {
        0
    } else if c == 0 {
        color.red
    } else if c == 1 {
        color.green
    } else if c == 2 {
        color.blue
    } else {
        (color.alpha * cover / 255) as u8
    }
}

/// The bitmap of a raster drawn in a colour.
pub open spec fn tinted(coverage: Seq<u8>, width: u32, height: u32, color: Color) -> Content {
    Content {
        width,
        height,
        pixels: Seq::new(coverage.len() * 4, |k: int| tinted_byte(color, coverage[k / 4], k % 4)),
    }
}

/// Draws a raster in a colour.
pub fn tint(raster: &Raster, color: Color) -> (bitmap: Bitmap)
    requires
        raster.wf(),
    ensures
        bitmap@ == tinted(raster.coverage@, raster.width, raster.height, color),
        bitmap@.wf(),
{
    let n = raster.coverage.len();
    let mut pixels: Vec<u8> = Vec::new();
    let mut i: usize = 0;
    while i < n
        invariant
            n == raster.coverage@.len(),
            i <= n,
            pixels@.len() == i * 4,
            forall|k: int|
                0 <= k < i * 4 ==> pixels@[k] == tinted_byte(color, raster.coverage@[k / 4], k % 4),
        decreases n - i,
    {
        let cover = raster.coverage[i];
        if cover == 0 {
            pixels.push(0);
            pixels.push(0);
            pixels.push(0);
            pixels.push(0);
        } else {
            assert(color.alpha * cover / 255 <= 255) by (nonlinear_arith)
                requires
                    color.alpha <= 255,
                    cover <= 255,
            ;
            pixels.push(color.red);
            pixels.push(color.green);
            pixels.push(color.blue);
            pixels.push(((color.alpha as u32 * cover as u32) / 255) as u8);
        }
        i = i + 1;
    }
    let ghost expected = tinted(raster.coverage@, raster.width, raster.height, color);
    assert(pixels@ =~= expected.pixels);
    Bitmap::assemble(raster.width, raster.height, pixels)
}

/// The earliest glyph from position `from` on that looks like the glyph at
/// position `i` and stands before it.
pub open spec fn twin(glyphs: Seq<Glyph>, i: int, from: int) -> Option<int>
    decreases i - from,
{
    if from >= i {
        None
    } else if glyphs[from].identity() == glyphs[i].identity() {
        Some(from)
    } else {
        twin(glyphs, i, from + 1)
    }
}

/// The glyph at position `i` has to be rasterized: it is drawn, and no
/// glyph before it looks the same.
pub open spec fn needs_raster(glyphs: Seq<Glyph>, i: int) -> bool {
    !is_break(glyphs[i].character) && twin(glyphs, i, 0) is None
}

/// Glyphs that look the same are rasterized once: of two glyphs that both
/// need a raster, each looks different from the other.
pub proof fn lemma_one_raster_for_each_look(glyphs: Seq<Glyph>, i: int, j: int)
    requires
        0 <= i < j < glyphs.len(),
        needs_raster(glyphs, i),
        needs_raster(glyphs, j),
    ensures
        glyphs[i].identity() != glyphs[j].identity(),
{
    lemma_twin_is_earliest(glyphs, j, 0);
}

/// Where a glyph has no twin from a position on, no glyph between that
/// position and it looks like it; where it has one, the twin is the first
/// such glyph.
pub proof fn lemma_twin_is_earliest(glyphs: Seq<Glyph>, i: int, from: int)
    requires
        0 <= from <= i < glyphs.len(),
    ensures
        match twin(glyphs, i, from) {
            Some(at) => from <= at < i && glyphs[at].identity() == glyphs[i].identity()
                && forall|k: int| from <= k < at ==> glyphs[k].identity() != glyphs[i].identity(),
            None => forall|k: int| from <= k < i ==> glyphs[k].identity() != glyphs[i].identity(),
        },
    decreases i - from,
{
    if from < i && glyphs[from].identity() != glyphs[i].identity() {
        lemma_twin_is_earliest(glyphs, i, from + 1);
    }
}

/// The glyphs of a text and the metrics of those resolved so far.
pub struct Resolution {
    pub glyphs: Seq<Glyph>,
    pub metrics: Seq<GlyphMetrics>,
}

impl Resolution {
    /// The metrics found so far belong to the first glyphs.
    pub open spec fn wf(self) -> bool {
        self.metrics.len() <= self.glyphs.len()
    }

    /// The position of the next glyph to resolve.
    pub open spec fn cursor(self) -> int {
        self.metrics.len() as int
    }

    /// All glyphs are resolved.
    pub open spec fn done(self) -> bool {
        self.metrics.len() == self.glyphs.len()
    }

    /// The next glyph copied from its twin, bitmap and metrics.
    pub open spec fn copy_twin(self, from: int) -> Resolution {
        Resolution {
            glyphs: self.glyphs.update(self.cursor(), self.glyphs[from]),
            metrics: self.metrics.push(self.metrics[from]),
        }
    }

    /// The next glyph resolved as a line break: it has no bitmap and empty
    /// metrics.
    pub open spec fn pass_break(self) -> Resolution {
        Resolution {
            glyphs: self.glyphs,
            metrics: self.metrics.push(
                GlyphMetrics { advance_width: 0, width: 0, height: 0, xmin: 0, ymin: 0 },
            ),
        }
    }

    /// The next glyph resolved with the metrics of its raster and the
    /// identifier of its bitmap.
    pub open spec fn take_raster(self, metrics: GlyphMetrics, image_id: u32) -> Resolution {
        Resolution {
            glyphs: self.glyphs.update(
                self.cursor(),
                Glyph { image_id, ..self.glyphs[self.cursor()] },
            ),
            metrics: self.metrics.push(metrics),
        }
    }

    /// Resolves glyphs for as long as the next one needs no raster.
    pub open spec fn skip_known(self) -> Resolution
        decreases self.glyphs.len() - self.metrics.len(),
    {
        if self.metrics.len() >= self.glyphs.len() {
            self
        } else {
            match twin(self.glyphs, self.cursor(), 0) {
                Some(from) => self.copy_twin(from).skip_known(),
                None => if is_break(self.glyphs[self.cursor()].character) {
                    self.pass_break().skip_known()
                } else {
                    self
                },
            }
        }
    }
}

impl View for TextRenderingData {
    type V = Resolution;

    open spec fn view(&self) -> Resolution {
        Resolution { glyphs: self.glyphs@, metrics: self.metrics@ }
    }
}

impl TextRenderingData {
    /// The glyphs of a text, none resolved yet.
    pub fn new(glyphs: Vec<Glyph>) -> (data: Self)
        ensures
            data@ == (Resolution { glyphs: glyphs@, metrics: Seq::empty() }),
            data@.wf(),
    {
        TextRenderingData { glyphs, metrics: Vec::new() }
    }

    /// Whether every glyph has its metrics.
    pub fn resolved(&self) -> (resolved: bool)
        ensures
            resolved == self@.done(),
    {
        self.metrics.len() == self.glyphs.len()
    }

    /// The earliest glyph before position `i` that looks like the one there.
    fn find_twin(&self, i: usize) -> (found: Option<usize>)
        requires
            i < self.glyphs@.len(),
        ensures
            match found {
                Some(from) => from < i && twin(self.glyphs@, i as int, 0) == Some(from as int),
                None => twin(self.glyphs@, i as int, 0) is None,
            },
    {
        let mut from: usize = 0;
        while from < i
            invariant
                from <= i,
                i < self.glyphs@.len(),
                twin(self.glyphs@, i as int, 0) == twin(self.glyphs@, i as int, from as int),
            decreases i - from,
        {
            if self.glyphs[from] == self.glyphs[i] {
                return Some(from);
            }
            from = from + 1;
        }
        None
    }

    /// Resolves every glyph that needs no raster, up to the first that does,
    /// and returns that glyph: the one to rasterize next. Returns nothing
    /// when all glyphs are resolved.
    pub fn advance(&mut self) -> (next: Option<Glyph>)
        requires
            old(self)@.wf(),
        ensures
            final(self)@ == old(self)@.skip_known(),
            final(self)@.wf(),
            match next {
                Some(glyph) => {
                    let pending = final(self)@.cursor();
                    &&& !final(self)@.done()
                    &&& glyph == final(self)@.glyphs[pending]
                    &&& needs_raster(final(self)@.glyphs, pending)
                },
                None => final(self)@.done(),
            },
    {
        loop
            invariant
                self@.wf(),
                self@.skip_known() == old(self)@.skip_known(),
            decreases self.glyphs@.len() - self.metrics@.len(),
        {
            let i = self.metrics.len();
            if i >= self.glyphs.len() {
                return None;
            }
            match self.find_twin(i) {
                Some(from) => {
                    let like = self.glyphs[from];
                    let metrics = self.metrics[from];
                    self.glyphs[i] = like;
                    self.metrics.push(metrics);
                },
                None => {
                    if self.glyphs[i].is_line_break() {
                        self.metrics.push(GlyphMetrics::empty());
                    } else {
                        return Some(self.glyphs[i]);
                    }
                },
            }
        }
    }

    /// Takes in the raster of the next glyph: the glyph gets the metrics of
    /// the raster, and for bitmap the raster drawn in its colour, stored in
    /// the atlas unless the atlas holds that bitmap already.
    pub fn supply(&mut self, atlas: &mut Atlas, raster: &Raster)
        requires
            old(self)@.wf(),
            !old(self)@.done(),
            old(atlas).wf(),
            raster.wf(),
            !old(atlas)@.holds(
                tinted(
                    raster.coverage@,
                    raster.width,
                    raster.height,
                    old(self)@.glyphs[old(self)@.cursor()].color,
                ),
            ) ==> old(atlas)@.next_id < u32::MAX,
        ensures
            final(atlas).wf(),
            final(atlas).texture() == old(atlas).texture(),
            ({
                let content = tinted(
                    raster.coverage@,
                    raster.width,
                    raster.height,
                    old(self)@.glyphs[old(self)@.cursor()].color,
                );
                let (state, image_id) = old(atlas)@.add(content);
                &&& final(atlas)@ == state
                &&& final(self)@ == old(self)@.take_raster(raster.metrics, image_id)
            }),
            final(self)@.wf(),
    {
        let i = self.metrics.len();
        let bitmap = tint(raster, self.glyphs[i].color);
        let image_id = atlas.add(bitmap);
        self.glyphs[i].image_id = image_id;
        self.metrics.push(raster.metrics);
        proof {
            assert(self.glyphs@ =~= old(self)@.take_raster(raster.metrics, image_id).glyphs);
        }
    }
}

} // verus!
