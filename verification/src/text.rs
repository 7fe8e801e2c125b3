//! Text as a drawable: its glyphs are registered in the request phase, and
//! in the render phase each glyph that is drawn becomes a rectangle showing
//! its bitmap in the glyph atlas.

use vstd::prelude::*;
use vstd::std_specs::iter::IteratorSpec;
use crate::asset::{Asset, Font};
use crate::assets::{run_position, with_run, Assets, AssetsView, RunView};
use crate::color::{color_of, Color, BLACK, CLEAR};
use crate::font::{FontEmphasis, FontThickness};
use crate::fonts::Resolution;
use crate::geometry::{clamp, clamped};
use crate::glyph::{advances, characters, Glyph, GlyphMetrics, TextRenderingData, UNASSIGNED};
use crate::id::IDFactory;
use crate::layout::{chunk_views, laid_out, lines, widest, Chunk, LineEnd, Run};
use crate::properties::{scale, scaled, Align, OverflowBreak, Properties};
use crate::renderable::{outcome_of, Drawn, FrameError, Renderable};
use crate::renderer::{quad, RenderBatch, Vertex, GLYPH_ATLAS};

verus! {

/// A run of text in one font, size, colour and style.
#[derive(Debug, Clone)]
pub struct Text {
    pub id: u32,
    /// The left end of the lines.
    pub x: i32,
    /// The top of the first line.
    pub y: i32,
    pub text: String,
    pub font: Asset<Font>,
    pub thickness: FontThickness,
    pub emphasis: FontEmphasis,
    /// The size of the font, in units of length.
    pub size: u32,
    /// The distance from one line to the next, in hundredths of the size.
    pub line_height: u32,
    /// The width of the box that the lines are broken and aligned in; none
    /// for a box as wide as the widest line.
    pub width: Option<u32>,
    pub align: Align,
    pub color: Color,
    /// The preference of the application for breaking lines that are too
    /// long. It is carried along; the layout breaks between words and cuts
    /// a word only where the word alone is wider than a line.
    pub overflow_break: OverflowBreak,
    /// Whether a blank that follows a blank or a line break is left out.
    pub trim_whitespace: bool,
}

/// How far a line is moved to the right within a box: not at all, by half
/// of what the box leaves free, or by all of it.
pub open spec fn alignment(align: Align, box_width: int, line_width: int) -> int {
    match align {
        Align::Left => 0,
        Align::Center => if box_width >= line_width {
            (box_width - line_width) / 2
        } else {
            -((line_width - box_width) / 2)
        },
        Align::Right => box_width - line_width,
    }
}

/// How far a line is moved to the right within a box.
pub fn aligned(align: Align, box_width: u64, line_width: u64) -> (shift: i128)
    ensures
        shift == alignment(align, box_width as int, line_width as int),
        -0x1_0000_0000_0000_0000 <= shift <= 0x1_0000_0000_0000_0000,
{
    match align {
        Align::Left => 0,
        Align::Center => if box_width >= line_width {
            ((box_width - line_width) / 2) as i128
        } else {
            -(((line_width - box_width) / 2) as i128)
        },
        Align::Right => box_width as i128 - line_width as i128,
    }
}

/// What drawing the glyphs of a text has come to.
pub struct Drawing {
    /// The vertices staged.
    pub vertices: Seq<Vertex>,
    /// Why drawing stopped, if it did.
    pub failure: Option<FrameError>,
    /// How far the pen has moved, along the line or down the lines.
    pub pen: int,
}

impl Text {
    /// A text with the default style: regular, sixteen units high, lines
    /// spaced by 1.2 sizes, black, aligned left, unbounded, trimmed.
    pub fn new(ids: &mut IDFactory, x: i32, y: i32, text: String, font: Asset<Font>) -> (made: Self)
        requires
            old(ids).upcoming() < u32::MAX,
        ensures
            final(ids).upcoming() == old(ids).upcoming() + 1,
            made == (Text {
                id: old(ids).upcoming(),
                x,
                y,
                text,
                font,
                thickness: FontThickness::Regular,
                emphasis: FontEmphasis::Regular,
                size: 16,
                line_height: 120,
                width: None,
                align: Align::Left,
                color: color_of(BLACK),
                overflow_break: OverflowBreak::Word,
                trim_whitespace: true,
            }),
    {
        Text {
            id: ids.next(),
            x,
            y,
            text,
            font,
            thickness: FontThickness::Regular,
            emphasis: FontEmphasis::Regular,
            size: 16,
            line_height: 120,
            width: None,
            align: Align::Left,
            color: Color::black(),
            overflow_break: OverflowBreak::Word,
            trim_whitespace: true,
        }
    }

    pub fn with_x(self, x: i32) -> (made: Self)
        ensures
            made == (Text { x, ..self }),
    {
        Text { x, ..self }
    }

    pub fn with_y(self, y: i32) -> (made: Self)
        ensures
            made == (Text { y, ..self }),
    {
        Text { y, ..self }
    }

    pub fn with_text(self, text: String) -> (made: Self)
        ensures
            made == (Text { text, ..self }),
    {
        Text { text, ..self }
    }

    pub fn with_font(self, font: Asset<Font>) -> (made: Self)
        ensures
            made == (Text { font, ..self }),
    {
        Text { font, ..self }
    }

    pub fn with_thickness(self, thickness: FontThickness) -> (made: Self)
        ensures
            made == (Text { thickness, ..self }),
    {
        Text { thickness, ..self }
    }

    pub fn with_emphasis(self, emphasis: FontEmphasis) -> (made: Self)
        ensures
            made == (Text { emphasis, ..self }),
    {
        Text { emphasis, ..self }
    }

    pub fn with_size(self, size: u32) -> (made: Self)
        ensures
            made == (Text { size, ..self }),
    {
        Text { size, ..self }
    }

    pub fn with_line_height(self, line_height: u32) -> (made: Self)
        ensures
            made == (Text { line_height, ..self }),
    {
        Text { line_height, ..self }
    }

    pub fn with_width(self, width: u32) -> (made: Self)
        ensures
            made == (Text { width: Some(width), ..self }),
    {
        Text { width: Some(width), ..self }
    }

    pub fn with_align(self, align: Align) -> (made: Self)
        ensures
            made == (Text { align, ..self }),
    {
        Text { align, ..self }
    }

    pub fn with_color(self, color: Color) -> (made: Self)
        ensures
            made == (Text { color, ..self }),
    {
        Text { color, ..self }
    }

    pub fn with_overflow_break(self, overflow_break: OverflowBreak) -> (made: Self)
        ensures
            made == (Text { overflow_break, ..self }),
    {
        Text { overflow_break, ..self }
    }

    pub fn with_trim_whitespace(self, trim_whitespace: bool) -> (made: Self)
        ensures
            made == (Text { trim_whitespace, ..self }),
    {
        Text { trim_whitespace, ..self }
    }

    /// The glyph of one character of the text, not yet rasterized.
    pub open spec fn glyph_of(self, character: char, properties: Properties) -> Glyph {
        Glyph {
            character,
            font_id: self.font.key(),
            image_id: UNASSIGNED,
            size: scale(self.size, properties.scale_factor),
            color: self.color,
            thickness: self.thickness,
            emphasis: self.emphasis,
        }
    }

    /// The glyph of one character of the text, not yet rasterized.
    pub fn glyph(&self, character: char, properties: &Properties) -> (glyph: Glyph)
        ensures
            glyph == self.glyph_of(character, *properties),
    {
        Glyph {
            character,
            font_id: self.font.id(),
            image_id: UNASSIGNED,
            size: scaled(self.size, properties.scale_factor),
            color: self.color,
            thickness: self.thickness,
            emphasis: self.emphasis,
        }
    }

    /// The glyphs of the text, one for each character.
    pub open spec fn glyphs(self, properties: Properties) -> Seq<Glyph> {
        Seq::new(self.text@.len(), |i: int| self.glyph_of(self.text@[i], properties))
    }

    /// The lines of the text, once its glyphs have their metrics.
    pub open spec fn layout(self, data: Resolution) -> Seq<Run> {
        laid_out(characters(data.glyphs), advances(data.metrics), self.width, self.trim_whitespace)
    }

    /// The width of the box of the text: the one given, or else that of the
    /// widest line.
    pub open spec fn box_width(self, data: Resolution) -> int {
        match self.width {
            Some(width) => width as int,
            None => widest(self.layout(data)),
        }
    }

    /// The rectangle of one glyph: its bitmap in the glyph atlas, with the
    /// lower left corner `xmin` to the right of the pen and `ymin` above the
    /// base line, which lies one size below the top of the line.
    pub open spec fn glyph_quad(
        self,
        glyph: Glyph,
        metrics: GlyphMetrics,
        assets: AssetsView,
        properties: Properties,
        pen_x: int,
        pen_y: int,
    ) -> Seq<Vertex> {
        let at = assets.glyphs.placements()[glyph.image_id];
        let left = clamp(self.x + pen_x + metrics.xmin);
        let base = clamp(self.y + scale(self.size, properties.scale_factor) + pen_y - metrics.ymin);
        quad(
            left,
            base,
            clamp(left + metrics.width),
            clamp(base - metrics.height),
            at.x,
            (at.y + at.height) as u32,
            (at.x + at.width) as u32,
            at.y,
            color_of(CLEAR),
            GLYPH_ATLAS,
        )
    }

    /// Drawing the first `n` glyphs of a line whose pen starts at `start`:
    /// glyph after glyph, each where the pen is, until a glyph has no
    /// placement in the glyph atlas.
    pub open spec fn draw_line(
        self,
        data: Resolution,
        assets: AssetsView,
        properties: Properties,
        line: Run,
        start: int,
        pen_y: int,
        n: int,
    ) -> Drawing
        decreases n,
    {
        if n <= 0 {
            Drawing { vertices: Seq::empty(), failure: None, pen: start }
        } else {
            let before = self.draw_line(data, assets, properties, line, start, pen_y, n - 1);
            let index = line.indices[n - 1] as int;
            let glyph = data.glyphs[index];
            if before.failure is Some {
                before
            } else if !assets.glyphs.placements().contains_key(glyph.image_id) {
                Drawing {
                    failure: Some(
                        FrameError::StaleIdentity { atlas: GLYPH_ATLAS, id: glyph.image_id },
                    ),
                    ..before
                }
            } else {
                Drawing {
                    vertices: before.vertices + self.glyph_quad(
                        glyph,
                        data.metrics[index],
                        assets,
                        properties,
                        before.pen,
                        pen_y,
                    ),
                    failure: None,
                    pen: before.pen + data.metrics[index].advance_width,
                }
            }
        }
    }

    /// The distance from one line to the next.
    pub open spec fn line_advance(self, properties: Properties) -> u32 {
        scale(scale(self.size, properties.scale_factor), self.line_height)
    }

    /// Drawing the first `n` lines of the text, line after line from the top.
    /// After a line the pen moves down by the line advance, except after a
    /// carriage return, which leaves it on the same row.
    pub open spec fn draw_lines(
        self,
        data: Resolution,
        assets: AssetsView,
        properties: Properties,
        lines: Seq<Run>,
        box_width: int,
        n: int,
    ) -> Drawing
        decreases n,
    {
        if n <= 0 {
            Drawing { vertices: Seq::empty(), failure: None, pen: 0 }
        } else {
            let before = self.draw_lines(data, assets, properties, lines, box_width, n - 1);
            if before.failure is Some {
                before
            } else {
                let line = lines[n - 1];
                let drawn = self.draw_line(
                    data,
                    assets,
                    properties,
                    line,
                    alignment(self.align, box_width, line.width),
                    before.pen,
                    line.indices.len() as int,
                );
                Drawing {
                    vertices: before.vertices + drawn.vertices,
                    failure: drawn.failure,
                    pen: if line.ending == LineEnd::Return {
                        before.pen
                    } else {
                        before.pen + self.line_advance(properties)
                    },
                }
            }
        }
    }

    /// The glyphs under the identifier of the text are all resolved, and few
    /// enough to be laid out.
    pub open spec fn ready(self, assets: AssetsView) -> bool {
        run_position(assets.runs, self.id) matches Some(at) && {
            let data = assets.runs[at].data;
            data.glyphs.len() == data.metrics.len() && data.glyphs.len() <= u32::MAX
        }
    }

    /// Drawing the text: nothing if it is transparent; a failure if its
    /// glyphs are not ready; else its lines.
    pub open spec fn draw(self, assets: AssetsView, properties: Properties) -> Drawing {
        if self.color == color_of(CLEAR) {
            Drawing { vertices: Seq::empty(), failure: None, pen: 0 }
        } else if !self.ready(assets) {
            Drawing {
                vertices: Seq::empty(),
                failure: Some(FrameError::LayoutDataMismatch { text: self.id }),
                pen: 0,
            }
        } else {
            let data = assets.runs[run_position(assets.runs, self.id)->Some_0].data;
            let lines = self.layout(data);
            self.draw_lines(
                data,
                assets,
                properties,
                lines,
                self.box_width(data),
                lines.len() as int,
            )
        }
    }

    /// Breaks the glyphs of the text into lines within its width.
    pub fn lines(&self, data: &TextRenderingData) -> (result: (Vec<Chunk>, u64))
        requires
            data.glyphs@.len() == data.metrics@.len(),
            data.glyphs@.len() <= u32::MAX,
        ensures
            chunk_views(result.0@) == self.layout(data@),
            result.1 == widest(self.layout(data@)),
            forall|k: int, j: int|
                0 <= k < result.0@.len() && 0 <= j < result.0@[k]@.indices.len() ==> (
                #[trigger] result.0@[k]@.indices[j]) < data.glyphs@.len(),
    {
        lines(data, self.width, self.trim_whitespace)
    }

    /// Stages the rectangles of the glyphs of one line, from the left, until
    /// a glyph has no placement.
    fn stage_line(
        &self,
        data: &TextRenderingData,
        line: &Chunk,
        shift: i128,
        pen_y: i128,
        batch: &mut RenderBatch,
        assets: &Assets,
        properties: &Properties,
    ) -> (outcome: Result<(), FrameError>)
        requires
            old(batch).wf(),
            assets.wf(),
            data.glyphs@.len() == data.metrics@.len(),
            forall|j: int|
                0 <= j < line@.indices.len() ==> (#[trigger] line@.indices[j]) < data.glyphs@.len(),
            -0x1_0000_0000_0000_0000 <= shift <= 0x1_0000_0000_0000_0000,
            0 <= pen_y <= 0x1_0000_0000_0000_0000_0000_0000,
        ensures
            final(batch).wf(),
            final(batch).deduplicating() == old(batch).deduplicating(),
            final(batch).staged() == old(batch).staged() + self.draw_line(
                data@,
                assets@,
                *properties,
                line@,
                shift as int,
                pen_y as int,
                line@.indices.len() as int,
            ).vertices,
            outcome == outcome_of(
                self.draw_line(
                    data@,
                    assets@,
                    *properties,
                    line@,
                    shift as int,
                    pen_y as int,
                    line@.indices.len() as int,
                ).failure,
            ),
    {
        let ghost start = batch.staged();
        let mut pen_x: i128 = shift;
        let m = line.indices.len();
        let mut g: usize = 0;
        proof {
            assert(start + Seq::<Vertex>::empty() =~= start);
        }
        while g < m
            invariant
                m == line@.indices.len(),
                g <= m,
                batch.wf(),
                assets.wf(),
                batch.deduplicating() == old(batch).deduplicating(),
                start == old(batch).staged(),
                data.glyphs@.len() == data.metrics@.len(),
                forall|j: int|
                    0 <= j < line@.indices.len() ==> (#[trigger] line@.indices[j])
                        < data.glyphs@.len(),
                0 <= pen_y <= 0x1_0000_0000_0000_0000_0000_0000,
                -0x1_0000_0000_0000_0000 <= shift <= 0x1_0000_0000_0000_0000,
                shift <= pen_x <= shift + g * 0xFFFF_FFFF,
                self.draw_line(
                    data@,
                    assets@,
                    *properties,
                    line@,
                    shift as int,
                    pen_y as int,
                    g as int,
                ).failure is None,
                self.draw_line(
                    data@,
                    assets@,
                    *properties,
                    line@,
                    shift as int,
                    pen_y as int,
                    g as int,
                ).pen == pen_x,
                batch.staged() == start + self.draw_line(
                    data@,
                    assets@,
                    *properties,
                    line@,
                    shift as int,
                    pen_y as int,
                    g as int,
                ).vertices,
            decreases m - g,
        {
            let index = line.indices[g];
            proof {
                assert(line@.indices[g as int] < data.glyphs@.len());
                assert(g * 0xFFFF_FFFF <= 0xFFFF_FFFF_FFFF_FFFF * 0xFFFF_FFFF) by (nonlinear_arith)
                    requires
                        g <= 0xFFFF_FFFF_FFFF_FFFF,
                ;
                assert((g + 1) * 0xFFFF_FFFF == g * 0xFFFF_FFFF + 0xFFFF_FFFF) by (nonlinear_arith);
            }
            let glyph = data.glyphs[index];
            let metrics = data.metrics[index];
            let ghost so_far = self.draw_line(
                data@,
                assets@,
                *properties,
                line@,
                shift as int,
                pen_y as int,
                g as int,
            );
            let drawn = self.draw_char(glyph, metrics, pen_x, pen_y, batch, assets, properties);
            match drawn {
                Ok(_) => {
                    proof {
                        let quad = self.glyph_quad(
                            glyph,
                            metrics,
                            assets@,
                            *properties,
                            pen_x as int,
                            pen_y as int,
                        );
                        assert(start + so_far.vertices + quad =~= start + (so_far.vertices + quad));
                    }
                },
                Err(error) => {
                    proof {
                        lemma_draw_line_stops(
                            *self,
                            data@,
                            assets@,
                            *properties,
                            line@,
                            shift as int,
                            pen_y as int,
                            g + 1,
                            m as int,
                        );
                    }
                    return Err(error);
                },
            }
            pen_x = pen_x + metrics.advance_width as i128;
            g = g + 1;
        }
        Ok(())
    }

    /// Stages the rectangle of one glyph, or reports that its bitmap has no
    /// placement.
    fn draw_char(
        &self,
        glyph: Glyph,
        metrics: GlyphMetrics,
        pen_x: i128,
        pen_y: i128,
        batch: &mut RenderBatch,
        assets: &Assets,
        properties: &Properties,
    ) -> (outcome: Result<(), FrameError>)
        requires
            old(batch).wf(),
            assets.wf(),
            -0x1_0000_0000_0000_0000_0000_0000 <= pen_x <= 0x1_0000_0000_0000_0000_0000_0000,
            0 <= pen_y <= 0x1_0000_0000_0000_0000_0000_0000,
        ensures
            final(batch).wf(),
            final(batch).deduplicating() == old(batch).deduplicating(),
            match outcome {
                Ok(_) => {
                    &&& assets.fonts.atlas@.placements().contains_key(glyph.image_id)
                    &&& final(batch).staged() == old(batch).staged() + self.glyph_quad(
                        glyph,
                        metrics,
                        assets@,
                        *properties,
                        pen_x as int,
                        pen_y as int,
                    )
                },
                Err(error) => {
                    &&& !assets.fonts.atlas@.placements().contains_key(glyph.image_id)
                    &&& final(batch).staged() == old(batch).staged()
                    &&& error == (FrameError::StaleIdentity { atlas: GLYPH_ATLAS, id: glyph.image_id })
                },
            },
    {
        match assets.fonts.atlas.get(glyph.image_id) {
            Ok(at) => {
                let size = scaled(self.size, properties.scale_factor);
                let left = clamped(self.x as i128 + pen_x + metrics.xmin as i128);
                let base = clamped(self.y as i128 + size as i128 + pen_y - metrics.ymin as i128);
                let right = clamped(left as i128 + metrics.width as i128);
                let top = clamped(base as i128 - metrics.height as i128);
                batch.quad(
                    left,
                    base,
                    right,
                    top,
                    at.x,
                    at.y + at.height,
                    at.x + at.width,
                    at.y,
                    Color::clear(),
                    GLYPH_ATLAS,
                );
                Ok(())
            },
            Err(_) => Err(FrameError::StaleIdentity { atlas: GLYPH_ATLAS, id: glyph.image_id }),
        }
    }
}

impl Renderable for Text {
    /// The glyphs of the text, one for each character, are registered under
    /// the identifier of the text. A transparent text registers nothing.
    open spec fn requested(&self, assets: AssetsView, properties: Properties) -> AssetsView {
        if self.color == color_of(CLEAR) {
            assets
        } else {
            AssetsView {
                runs: with_run(
                    assets.runs,
                    RunView {
                        id: self.id,
                        data: Resolution { glyphs: self.glyphs(properties), metrics: Seq::empty() },
                    },
                ),
                ..assets
            }
        }
    }

    /// A rectangle for every glyph of the text that is drawn, line after
    /// line, up to the first glyph without a placement in the glyph atlas;
    /// nothing but a failure where the glyphs of the text are not ready.
    open spec fn drawn(&self, assets: AssetsView, properties: Properties) -> Drawn {
        Drawn {
            vertices: self.draw(assets, properties).vertices,
            failure: self.draw(assets, properties).failure,
        }
    }

    fn request(&self, assets: &mut Assets, properties: &Properties) {
        if self.color == Color::clear() {
            return ;
        }
        let mut glyphs: Vec<Glyph> = Vec::new();
        let mut chars = self.text.as_str().chars();
        let ghost all = self.text@;
        loop
            invariant
                all == self.text@,
                glyphs@.len() <= all.len(),
                chars.remaining() == all.skip(glyphs@.len() as int),
                forall|i: int|
                    0 <= i < glyphs@.len() ==> glyphs@[i] == self.glyph_of(all[i], *properties),
            ensures
                glyphs@.len() == all.len(),
                forall|i: int|
                    0 <= i < glyphs@.len() ==> glyphs@[i] == self.glyph_of(all[i], *properties),
            decreases all.len() - glyphs@.len(),
        {
            let ghost rest = chars.remaining();
            let next = chars.next();
            match next {
                Some(character) => {
                    proof {
                        assert(rest.len() > 0);
                        assert(character == all[glyphs@.len() as int]);
                        assert(rest.drop_first() =~= all.skip(glyphs@.len() as int + 1));
                    }
                    glyphs.push(self.glyph(character, properties));
                },
                None => {
                    proof {
                        assert(rest.len() == 0);
                    }
                    break ;
                },
            }
        }
        proof {
            assert(glyphs@ =~= self.glyphs(*properties));
        }
        let data = TextRenderingData::new(glyphs);
        assets.fonts.insert(self.id, data);
    }

    fn render(&self, batch: &mut RenderBatch, assets: &Assets, properties: &Properties) -> (outcome:
        Result<(), FrameError>)
    {
        proof {
            assert(batch.staged() + Seq::<Vertex>::empty() =~= batch.staged());
        }
        if self.color == Color::clear() {
            return Ok(());
        }
        let data = match assets.fonts.get(self.id) {
            Some(data) => data,
            None => {
                return Err(FrameError::LayoutDataMismatch { text: self.id });
            },
        };
        if data.glyphs.len() != data.metrics.len() || data.glyphs.len() > 0xFFFF_FFFF {
            return Err(FrameError::LayoutDataMismatch { text: self.id });
        }
        let (lines, used_width) = self.lines(data);
        let box_width: u64 = match self.width {
            Some(width) => width as u64,
            None => used_width,
        };
        let size = scaled(self.size, properties.scale_factor);
        let vertical_shift = scaled(size, self.line_height);
        let ghost views = chunk_views(lines@);
        let ghost start = batch.staged();
        let mut pen_y: i128 = 0;
        let n = lines.len();
        let mut l: usize = 0;
        proof {
            assert(self.ready(assets@));
            assert(self.draw(assets@, *properties) == self.draw_lines(
                data@,
                assets@,
                *properties,
                views,
                box_width as int,
                n as int,
            ));
        }
        while l < n
            invariant
                n == lines@.len(),
                l <= n,
                self.draw(assets@, *properties) == self.draw_lines(
                    data@,
                    assets@,
                    *properties,
                    views,
                    box_width as int,
                    n as int,
                ),
                batch.wf(),
                assets.wf(),
                batch.deduplicating() == old(batch).deduplicating(),
                start == old(batch).staged(),
                views == chunk_views(lines@),
                data.glyphs@.len() == data.metrics@.len(),
                vertical_shift == self.line_advance(*properties),
                forall|k: int, j: int|
                    0 <= k < lines@.len() && 0 <= j < lines@[k]@.indices.len() ==> (
                    #[trigger] lines@[k]@.indices[j]) < data.glyphs@.len(),
                0 <= pen_y <= l * 0xFFFF_FFFF,
                self.draw_lines(data@, assets@, *properties, views, box_width as int, l as int).failure
                    is None,
                self.draw_lines(data@, assets@, *properties, views, box_width as int, l as int).pen
                    == pen_y,
                batch.staged() == start + self.draw_lines(
                    data@,
                    assets@,
                    *properties,
                    views,
                    box_width as int,
                    l as int,
                ).vertices,
            decreases n - l,
        {
            let line = &lines[l];
            let ghost before = self.draw_lines(
                data@,
                assets@,
                *properties,
                views,
                box_width as int,
                l as int,
            );
            proof {
                assert(views[l as int] == line@);
                assert(l * 0xFFFF_FFFF <= 0xFFFF_FFFF_FFFF_FFFF * 0xFFFF_FFFF) by (nonlinear_arith)
                    requires
                        l <= 0xFFFF_FFFF_FFFF_FFFF,
                ;
                assert((l + 1) * 0xFFFF_FFFF == l * 0xFFFF_FFFF + 0xFFFF_FFFF) by (nonlinear_arith);
                assert forall|j: int| 0 <= j < line@.indices.len() implies (
                #[trigger] line@.indices[j]) < data.glyphs@.len() by {
                    assert(lines@[l as int]@.indices[j] < data.glyphs@.len());
                }
            }
            let shift = aligned(self.align, box_width, line.width);
            let staged = self.stage_line(data, line, shift, pen_y, batch, assets, properties);
            proof {
                let drawn = self.draw_line(
                    data@,
                    assets@,
                    *properties,
                    line@,
                    shift as int,
                    pen_y as int,
                    line@.indices.len() as int,
                );
                assert(start + before.vertices + drawn.vertices =~= start + (before.vertices
                    + drawn.vertices));
            }
            match staged {
                Ok(_) => {},
                Err(error) => {
                    proof {
                        lemma_draw_lines_stops(
                            *self,
                            data@,
                            assets@,
                            *properties,
                            views,
                            box_width as int,
                            l + 1,
                            n as int,
                        );
                    }
                    return Err(error);
                },
            }
            match line.ending {
                LineEnd::Return => {},
                _ => {
                    pen_y = pen_y + vertical_shift as i128;
                },
            }
            l = l + 1;
        }
        Ok(())
    }
}

/// Once drawing a line has failed, it stays as it is.
proof fn lemma_draw_line_stops(
    text: Text,
    data: Resolution,
    assets: AssetsView,
    properties: Properties,
    line: Run,
    start: int,
    pen_y: int,
    failed: int,
    n: int,
)
    requires
        0 <= failed <= n,
        text.draw_line(data, assets, properties, line, start, pen_y, failed).failure is Some,
    ensures
        text.draw_line(data, assets, properties, line, start, pen_y, n) == text.draw_line(
            data,
            assets,
            properties,
            line,
            start,
            pen_y,
            failed,
        ),
    decreases n - failed,
{
    if failed < n {
        lemma_draw_line_stops(text, data, assets, properties, line, start, pen_y, failed, n - 1);
    }
}

/// Once drawing the lines has failed, it stays as it is.
proof fn lemma_draw_lines_stops(
    text: Text,
    data: Resolution,
    assets: AssetsView,
    properties: Properties,
    lines: Seq<Run>,
    box_width: int,
    failed: int,
    n: int,
)
    requires
        0 <= failed <= n,
        text.draw_lines(data, assets, properties, lines, box_width, failed).failure is Some,
    ensures
        text.draw_lines(data, assets, properties, lines, box_width, n) == text.draw_lines(
            data,
            assets,
            properties,
            lines,
            box_width,
            failed,
        ),
    decreases n - failed,
{
    if failed < n {
        lemma_draw_lines_stops(text, data, assets, properties, lines, box_width, failed, n - 1);
    }
}

} // verus!
