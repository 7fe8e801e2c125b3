//! Text layout: breaking a run of glyphs into lines.
//!
//! The glyphs are read once, first to last. Letters gather into the piece of
//! the word being read; a piece is put on the line when its word ends or
//! when it can take no further glyph. A blank is a piece of its own. A line
//! break ends the line at once. With trimming on, a blank that directly
//! follows a blank or a line break is left out.

use vstd::prelude::*;
use crate::glyph::{advances, characters, is_blank, is_break, TextRenderingData};

pub mod laws;

verus! {

/// How a line ends, which tells the pen where the next one starts.
#[derive(Debug, Copy, Clone, PartialEq, Eq, Structural)]
pub enum LineEnd {
    /// The ordinary end: the next line starts one row further, at the left.
    Advance,
    /// An explicit new line.
    Newline,
    /// A carriage return: the next line starts at the left of the same row.
    Return,
    /// The line was cut inside a word that is wider than a line.
    HardBreak,
}

/// A chunk as the contracts see it: glyph positions, their width together,
/// and how the line ends if the chunk is one.
pub struct Run {
    pub indices: Seq<usize>,
    pub width: int,
    pub ending: LineEnd,
}

impl Run {
    /// The run without glyphs.
    pub open spec fn nothing() -> Run {
        Run { indices: Seq::empty(), width: 0, ending: LineEnd::Advance }
    }

    /// The run of a single glyph.
    pub open spec fn single(index: usize, advance: u32) -> Run {
        Run { indices: seq![index], width: advance as int, ending: LineEnd::Advance }
    }

    /// The run followed by one more glyph.
    pub open spec fn with(self, index: usize, advance: u32) -> Run {
        Run { indices: self.indices.push(index), width: self.width + advance, ending: self.ending }
    }

    /// The run followed by another.
    pub open spec fn then_run(self, other: Run) -> Run {
        Run {
            indices: self.indices + other.indices,
            width: self.width + other.width,
            ending: self.ending,
        }
    }

    /// The run as a line with the given ending.
    pub open spec fn ended(self, ending: LineEnd) -> Run {
        Run { ending, ..self }
    }
}

/// A contiguous run of glyph positions treated as a unit, with the advance
/// widths of its glyphs added up.
#[derive(Debug)]
pub struct Chunk {
    pub indices: Vec<usize>,
    pub width: u64,
    pub ending: LineEnd,
}

impl View for Chunk {
    type V = Run;

    open spec fn view(&self) -> Run {
        Run { indices: self.indices@, width: self.width as int, ending: self.ending }
    }
}

impl Chunk {
    pub fn new(indices: Vec<usize>, width: u64) -> (chunk: Self)
        ensures
            chunk@ == (Run { indices: indices@, width: width as int, ending: LineEnd::Advance }),
    {
        Self { indices, width, ending: LineEnd::Advance }
    }

    pub fn empty() -> (chunk: Self)
        ensures
            chunk@ == Run::nothing(),
    {
        Self { indices: Vec::new(), width: 0, ending: LineEnd::Advance }
    }

    /// Forgets the glyphs and the width.
    pub fn reset(&mut self)
        ensures
            final(self)@ == Run::nothing().ended(old(self)@.ending),
    {
        self.indices.clear();
        self.width = 0;
    }

    /// Appends one glyph.
    pub fn add(&mut self, index: usize, width: u32)
        requires
            old(self)@.width + width <= u64::MAX,
        ensures
            final(self)@ == old(self)@.with(index, width),
    {
        self.indices.push(index);
        self.width = self.width + width as u64;
    }

    /// Appends the glyphs of another chunk.
    pub fn extend(&mut self, chunk: &Chunk)
        requires
            old(self)@.width + chunk@.width <= u64::MAX,
        ensures
            final(self)@ == old(self)@.then_run(chunk@),
    {
        let n = chunk.indices.len();
        let mut k: usize = 0;
        while k < n
            invariant
                n == chunk.indices@.len(),
                k <= n,
                self.width == old(self).width,
                self.ending == old(self).ending,
                self.indices@ == old(self).indices@ + chunk.indices@.take(k as int),
            decreases n - k,
        {
            self.indices.push(chunk.indices[k]);
            proof {
                assert(chunk.indices@.take(k + 1) =~= chunk.indices@.take(k as int).push(
                    chunk.indices@[k as int],
                ));
                assert(self.indices@ =~= old(self).indices@ + chunk.indices@.take(k + 1));
            }
            k = k + 1;
        }
        proof {
            assert(chunk.indices@.take(n as int) =~= chunk.indices@);
        }
        self.width = self.width + chunk.width;
    }

    /// Whether the chunk has neither glyphs nor width.
    pub fn is_empty(&self) -> (empty: bool)
        ensures
            empty == (self@.indices.len() == 0 && self@.width == 0),
    {
        self.indices.len() == 0 && self.width == 0
    }

    /// All chunks one after the other, as one.
    pub fn flatten(chunks: &Vec<Chunk>) -> (whole: Chunk)
        requires
            total_width(chunk_views(chunks@)) <= u64::MAX,
        ensures
            whole@ == flattened(chunk_views(chunks@)),
    {
        let ghost views = chunk_views(chunks@);
        let mut accumulator = Chunk::empty();
        let n = chunks.len();
        let mut k: usize = 0;
        while k < n
            invariant
                n == chunks@.len(),
                k <= n,
                views == chunk_views(chunks@),
                total_width(views) <= u64::MAX,
                accumulator@ == flattened(views.take(k as int)),
                forall|j: int| 0 <= j < views.len() ==> (#[trigger] views[j]).width >= 0,
            decreases n - k,
        {
            proof {
                assert(views.take(k + 1).drop_last() =~= views.take(k as int));
                assert(views.take(k + 1).last() == chunks@[k as int]@);
                lemma_total_width_take(views, k + 1);
                lemma_flattened_width(views.take(k + 1));
            }
            accumulator.extend(&chunks[k]);
            k = k + 1;
        }
        proof {
            assert(views.take(n as int) =~= views);
        }
        accumulator
    }
}

/// The views of a list of chunks.
pub open spec fn chunk_views(chunks: Seq<Chunk>) -> Seq<Run> {
    Seq::new(chunks.len(), |i: int| chunks[i]@)
}

/// The widths of the runs added up.
pub open spec fn total_width(runs: Seq<Run>) -> int
    decreases runs.len(),
{
    if runs.len() == 0 {
        0
    } else {
        total_width(runs.drop_last()) + runs.last().width
    }
}

/// The runs one after the other, as one.
pub open spec fn flattened(runs: Seq<Run>) -> Run
    decreases runs.len(),
{
    if runs.len() == 0 {
        Run::nothing()
    } else {
        flattened(runs.drop_last()).then_run(runs.last())
    }
}

/// The width of flattened runs is the sum of their widths.
pub proof fn lemma_flattened_width(runs: Seq<Run>)
    ensures
        flattened(runs).width == total_width(runs),
    decreases runs.len(),
{
    if runs.len() > 0 {
        lemma_flattened_width(runs.drop_last());
    }
}

/// The first runs of a list are no wider together than all of them, when no
/// width is negative.
pub proof fn lemma_total_width_take(runs: Seq<Run>, n: int)
    requires
        0 <= n <= runs.len(),
        forall|j: int| 0 <= j < runs.len() ==> (#[trigger] runs[j]).width >= 0,
    ensures
        0 <= total_width(runs.take(n)) <= total_width(runs),
    decreases runs.len() - n,
{
    if n < runs.len() {
        lemma_total_width_take(runs, n + 1);
        assert(runs.take(n + 1).drop_last() =~= runs.take(n));
        assert(runs.take(n + 1).last() == runs[n]);
        assert forall|j: int| 0 <= j < runs.take(n).len() implies (#[trigger] runs.take(n)[j]).width
            >= 0 by {
            assert(runs.take(n)[j] == runs[j]);
        }
        lemma_total_width_nonnegative(runs.take(n));
    } else {
        assert(runs.take(n) =~= runs);
        lemma_total_width_nonnegative(runs);
    }
}

/// Widths that are not negative add up to a width that is not negative.
pub proof fn lemma_total_width_nonnegative(runs: Seq<Run>)
    requires
        forall|j: int| 0 <= j < runs.len() ==> (#[trigger] runs[j]).width >= 0,
    ensures
        0 <= total_width(runs),
    decreases runs.len(),
{
    if runs.len() > 0 {
        assert forall|j: int| 0 <= j < runs.drop_last().len() implies (
        #[trigger] runs.drop_last()[j]).width >= 0 by {
            assert(runs.drop_last()[j] == runs[j]);
        }
        lemma_total_width_nonnegative(runs.drop_last());
        assert(runs.last() == runs[runs.len() - 1]);
    }
}

/// Whether a width is within the width of a line; without a limit every
/// width is.
pub open spec fn fits(width: int, max_width: Option<u32>) -> bool {
    match max_width {
        Some(limit) => width <= limit,
        None => true,
    }
}

/// The state of the layout between two glyphs.
pub struct Flow {
    /// The lines that are complete.
    pub lines: Seq<Run>,
    /// The line being filled.
    pub line: Run,
    /// The piece of the word being read; empty between words.
    pub piece: Run,
    /// The piece is the first of its word.
    pub first: bool,
    /// The glyph before was a blank or a line break.
    pub spaced: bool,
}

impl Flow {
    /// The state before the first glyph.
    pub open spec fn start() -> Flow {
        Flow {
            lines: Seq::empty(),
            line: Run::nothing(),
            piece: Run::nothing(),
            first: true,
            spaced: false,
        }
    }

    /// Puts the piece on the line. Where the line has glyphs and would
    /// become too wide, the line is completed first, with the given ending,
    /// and the piece starts the next one.
    pub open spec fn place(self, ending: LineEnd, max_width: Option<u32>) -> Flow {
        if self.piece.indices.len() == 0 {
            self
        } else if self.line.indices.len() > 0 && !fits(
            self.line.width + self.piece.width,
            max_width,
        ) {
            Flow {
                lines: self.lines.push(self.line.ended(ending)),
                line: self.piece,
                piece: Run::nothing(),
                ..self
            }
        } else {
            Flow { line: self.line.then_run(self.piece), piece: Run::nothing(), ..self }
        }
    }

    /// How a line ends that is completed to make room for the piece: cut
    /// inside a word unless the piece is the first of its word.
    pub open spec fn wrap(self) -> LineEnd {
        if self.first {
            LineEnd::Advance
        } else {
            LineEnd::HardBreak
        }
    }

    /// Ends the word being read, if any.
    pub open spec fn end_word(self, max_width: Option<u32>) -> Flow {
        Flow { first: true, ..self.place(self.wrap(), max_width) }
    }

    /// Reads one glyph.
    pub open spec fn step(
        self,
        index: usize,
        character: char,
        advance: u32,
        max_width: Option<u32>,
        trim: bool,
    ) -> Flow {
        if is_break(character) {
            let ended = self.end_word(max_width);
            let ending = if character == '\n' {
                LineEnd::Newline
            } else {
                LineEnd::Return
            };
            Flow {
                lines: ended.lines.push(ended.line.ended(ending)),
                line: Run::nothing(),
                spaced: true,
                ..ended
            }
        } else if is_blank(character) {
            let ended = self.end_word(max_width);
            if trim && self.spaced {
                ended
            } else {
                Flow { piece: Run::single(index, advance), spaced: true, ..ended }.place(
                    LineEnd::Advance,
                    max_width,
                )
            }
        } else if self.piece.indices.len() > 0 && !fits(self.piece.width + advance, max_width) {
            Flow {
                piece: Run::single(index, advance),
                first: false,
                spaced: false,
                ..self.place(self.wrap(), max_width)
            }
        } else {
            Flow {
                piece: self.piece.with(index, advance),
                first: self.piece.indices.len() == 0 || self.first,
                spaced: false,
                ..self
            }
        }
    }

    /// The lines once the last glyph is read: the word being read ends, and
    /// the line being filled is completed if it has glyphs.
    pub open spec fn finish(self, max_width: Option<u32>) -> Seq<Run> {
        let ended = self.end_word(max_width);
        if ended.line.indices.len() > 0 {
            ended.lines.push(ended.line)
        } else {
            ended.lines
        }
    }
}

/// The state of the layout after the first `n` glyphs.
pub open spec fn flow(
    chars: Seq<char>,
    widths: Seq<u32>,
    max_width: Option<u32>,
    trim: bool,
    n: int,
) -> Flow
    decreases n,
{
    if n <= 0 {
        Flow::start()
    } else {
        flow(chars, widths, max_width, trim, n - 1).step(
            (n - 1) as usize,
            chars[n - 1],
            widths[n - 1],
            max_width,
            trim,
        )
    }
}

/// The lines of a text: its characters with their advance widths, broken at
/// the given width.
pub open spec fn laid_out(chars: Seq<char>, widths: Seq<u32>, max_width: Option<u32>, trim: bool) -> Seq<
    Run,
> {
    flow(chars, widths, max_width, trim, chars.len() as int).finish(max_width)
}

/// The width of the widest run; zero if there is none.
pub open spec fn widest(runs: Seq<Run>) -> int
    decreases runs.len(),
{
    if runs.len() == 0 {
        0
    } else if runs.last().width > widest(runs.drop_last()) {
        runs.last().width
    } else {
        widest(runs.drop_last())
    }
}

/// The layout in progress.
struct Layout {
    lines: Vec<Chunk>,
    line: Chunk,
    piece: Chunk,
    first: bool,
    spaced: bool,
}

impl View for Layout {
    type V = Flow;

    closed spec fn view(&self) -> Flow {
        Flow {
            lines: chunk_views(self.lines@),
            line: self.line@.ended(LineEnd::Advance),
            piece: self.piece@.ended(LineEnd::Advance),
            first: self.first,
            spaced: self.spaced,
        }
    }
}

impl Layout {
    /// No glyph read so far needed more than `budget` in width.
    spec fn within(&self, budget: int) -> bool {
        &&& 0 <= self.line.width
        &&& 0 <= self.piece.width
        &&& self.line.width + self.piece.width <= budget
        &&& self.line.ending == LineEnd::Advance
        &&& self.piece.ending == LineEnd::Advance
        &&& self.piece.indices@.len() == 0 ==> self.piece.width == 0
    }

    fn start() -> (layout: Self)
        ensures
            layout@ == Flow::start(),
            layout.within(0),
    {
        let layout = Layout {
            lines: Vec::new(),
            line: Chunk::empty(),
            piece: Chunk::empty(),
            first: true,
            spaced: false,
        };
        assert(chunk_views(layout.lines@) =~= Seq::empty());
        layout
    }

    /// Completes the line being filled and starts an empty one.
    fn complete_line(&mut self, ending: LineEnd)
        requires
            old(self).line.ending == LineEnd::Advance,
        ensures
            final(self)@ == (Flow {
                lines: old(self)@.lines.push(old(self)@.line.ended(ending)),
                line: Run::nothing(),
                ..old(self)@
            }),
            final(self).line@ == Run::nothing(),
            final(self).piece == old(self).piece,
    {
        let mut done = Chunk::empty();
        std::mem::swap(&mut done, &mut self.line);
        done.ending = ending;
        self.lines.push(done);
        proof {
            assert(chunk_views(self.lines@) =~= old(self)@.lines.push(
                old(self)@.line.ended(ending),
            ));
        }
    }

    fn place(&mut self, ending: LineEnd, max_width: Option<u32>)
        requires
            old(self).within(u64::MAX as int),
        ensures
            final(self)@ == old(self)@.place(ending, max_width),
            final(self).within(old(self).line.width + old(self).piece.width),
            final(self).piece@ == Run::nothing(),
    {
        if self.piece.indices.len() == 0 {
            assert(self.piece@.indices =~= Seq::empty());
            return ;
        }
        let too_wide = match max_width {
            Some(limit) => self.line.width + self.piece.width > limit as u64,
            None => false,
        };
        if self.line.indices.len() > 0 && too_wide {
            self.complete_line(ending);
            std::mem::swap(&mut self.line, &mut self.piece);
        } else {
            self.line.extend(&self.piece);
            self.piece.reset();
        }
    }

    fn end_word(&mut self, max_width: Option<u32>)
        requires
            old(self).within(u64::MAX as int),
        ensures
            final(self)@ == old(self)@.end_word(max_width),
            final(self).within(old(self).line.width + old(self).piece.width),
            final(self).piece@ == Run::nothing(),
    {
        let ending = if self.first {
            LineEnd::Advance
        } else {
            LineEnd::HardBreak
        };
        self.place(ending, max_width);
        self.first = true;
    }

    fn step(
        &mut self,
        index: usize,
        character: char,
        advance: u32,
        max_width: Option<u32>,
        trim: bool,
    )
        requires
            old(self).within(u64::MAX - u32::MAX),
        ensures
            final(self)@ == old(self)@.step(index, character, advance, max_width, trim),
            final(self).within(old(self).line.width + old(self).piece.width + advance),
    {
        if character == '\n' || character == '\r' {
            self.end_word(max_width);
            let ending = if character == '\n' {
                LineEnd::Newline
            } else {
                LineEnd::Return
            };
            self.complete_line(ending);
            self.spaced = true;
        } else if character == ' ' || character == '\t' {
            let dropped = trim && self.spaced;
            self.end_word(max_width);
            if !dropped {
                self.piece.add(index, advance);
                self.spaced = true;
                proof {
                    assert(self.piece@.indices =~= seq![index]);
                }
                self.place(LineEnd::Advance, max_width);
            }
        } else {
            let full = match max_width {
                Some(limit) => self.piece.width + advance as u64 > limit as u64,
                None => false,
            };
            if self.piece.indices.len() > 0 && full {
                let ending = if self.first {
                    LineEnd::Advance
                } else {
                    LineEnd::HardBreak
                };
                self.place(ending, max_width);
                self.piece.add(index, advance);
                self.first = false;
                self.spaced = false;
                proof {
                    assert(self.piece@.indices =~= seq![index]);
                }
            } else {
                let starts = self.piece.indices.len() == 0;
                self.piece.add(index, advance);
                self.first = starts || self.first;
                self.spaced = false;
            }
        }
    }

    fn finish(self, max_width: Option<u32>) -> (lines: Vec<Chunk>)
        requires
            self.within(u64::MAX as int),
        ensures
            chunk_views(lines@) == self@.finish(max_width),
    {
        let mut layout = self;
        layout.end_word(max_width);
        if layout.line.indices.len() > 0 {
            layout.complete_line(LineEnd::Advance);
        }
        layout.lines
    }
}

/// Breaks the glyphs of a text into lines no wider than `max_width`, where
/// glyphs allow it, and reports the width of the widest line. Without a
/// `max_width` only line breaks end a line.
pub fn lines(data: &TextRenderingData, max_width: Option<u32>, trim_whitespace: bool) -> (result: (
    Vec<Chunk>,
    u64,
))
    requires
        data.glyphs@.len() == data.metrics@.len(),
        data.glyphs@.len() <= u32::MAX,
    ensures
        chunk_views(result.0@) == laid_out(
            characters(data.glyphs@),
            advances(data.metrics@),
            max_width,
            trim_whitespace,
        ),
        result.1 == widest(chunk_views(result.0@)),
        forall|k: int, j: int|
            0 <= k < result.0@.len() && 0 <= j < result.0@[k]@.indices.len() ==> (
            #[trigger] result.0@[k]@.indices[j]) < data.glyphs@.len(),
        forall|k: int|
            0 <= k < result.0@.len() ==> fits((#[trigger] result.0@[k])@.width, max_width)
                || result.0@[k]@.indices.len() == 1,
{
    let ghost chars = characters(data.glyphs@);
    let ghost widths = advances(data.metrics@);
    let mut layout = Layout::start();
    let n = data.glyphs.len();
    let mut i: usize = 0;
    while i < n
        invariant
            n == data.glyphs@.len(),
            n == data.metrics@.len(),
            n <= u32::MAX,
            i <= n,
            chars == characters(data.glyphs@),
            widths == advances(data.metrics@),
            layout@ == flow(chars, widths, max_width, trim_whitespace, i as int),
            layout.within(i * u32::MAX),
        decreases n - i,
    {
        proof {
            assert(i * u32::MAX + u32::MAX <= u32::MAX * u32::MAX) by (nonlinear_arith)
                requires
                    i < n,
                    n <= u32::MAX,
            ;
        }
        layout.step(
            i,
            data.glyphs[i].character,
            data.metrics[i].advance_width,
            max_width,
            trim_whitespace,
        );
        proof {
            assert((i + 1) * u32::MAX == i * u32::MAX + u32::MAX) by (nonlinear_arith);
        }
        i = i + 1;
    }
    proof {
        assert(i * u32::MAX <= u32::MAX * u32::MAX) by (nonlinear_arith)
            requires
                i <= u32::MAX,
        ;
    }
    let lines = layout.finish(max_width);
    let used = widest_of(&lines);
    proof {
        assert forall|k: int, j: int|
            0 <= k < lines@.len() && 0 <= j < lines@[k]@.indices.len() implies (
        #[trigger] lines@[k]@.indices[j]) < data.glyphs@.len() by {
            crate::layout::laws::lemma_lines_within_width(
                chars,
                widths,
                max_width,
                trim_whitespace,
                k,
            );
            assert(chunk_views(lines@)[k] == lines@[k]@);
        }
        assert forall|k: int| 0 <= k < lines@.len() implies fits(
            (#[trigger] lines@[k])@.width,
            max_width,
        ) || lines@[k]@.indices.len() == 1 by {
            crate::layout::laws::lemma_lines_within_width(
                chars,
                widths,
                max_width,
                trim_whitespace,
                k,
            );
            assert(chunk_views(lines@)[k] == lines@[k]@);
        }
    }
    (lines, used)
}

/// The width of the widest chunk.
pub fn widest_of(chunks: &Vec<Chunk>) -> (width: u64)
    ensures
        width == widest(chunk_views(chunks@)),
{
    let ghost views = chunk_views(chunks@);
    let mut width: u64 = 0;
    let n = chunks.len();
    let mut k: usize = 0;
    while k < n
        invariant
            n == chunks@.len(),
            k <= n,
            views == chunk_views(chunks@),
            width == widest(views.take(k as int)),
        decreases n - k,
    {
        proof {
            assert(views.take(k + 1).drop_last() =~= views.take(k as int));
            assert(views.take(k + 1).last() == chunks@[k as int]@);
        }
        if chunks[k].width > width {
            width = chunks[k].width;
        }
        k = k + 1;
    }
    proof {
        assert(views.take(n as int) =~= views);
    }
    width
}

} // verus!
