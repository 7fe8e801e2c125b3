//! What holds of every layout: lines are no wider than allowed, their widths
//! are those of their glyphs, no glyph is lost, and every line break ends
//! exactly one line.

use vstd::prelude::*;
use crate::glyph::{is_blank, is_break};
use crate::layout::{fits, flattened, flow, laid_out, widest, Flow, LineEnd, Run};

verus! {

/// The advance widths of the glyphs at the given positions, added up.
pub open spec fn run_width(indices: Seq<usize>, widths: Seq<u32>) -> int
    decreases indices.len(),
{
    if indices.len() == 0 {
        0
    } else {
        run_width(indices.drop_last(), widths) + widths[indices.last() as int]
    }
}

/// A run is as wide as its glyphs, and either within the width of a line or
/// a single glyph that is wider than a line.
pub open spec fn tidy(run: Run, widths: Seq<u32>, max_width: Option<u32>) -> bool {
    &&& run.width == run_width(run.indices, widths)
    &&& fits(run.width, max_width) || run.indices.len() == 1
    &&& forall|j: int| 0 <= j < run.indices.len() ==> (#[trigger] run.indices[j]) < widths.len()
}

/// Whether the glyph at position `i` belongs to a line: line breaks do not,
/// and with trimming on neither does a blank that directly follows a blank
/// or a line break.
pub open spec fn drawn(chars: Seq<char>, trim: bool, i: int) -> bool {
    &&& !is_break(chars[i])
    &&& !(is_blank(chars[i]) && trim && i > 0 && (is_blank(chars[i - 1]) || is_break(chars[i - 1])))
}

/// The positions among the first `n` of the glyphs that belong to a line, in
/// order.
pub open spec fn kept(chars: Seq<char>, trim: bool, n: int) -> Seq<usize>
    decreases n,
{
    if n <= 0 {
        Seq::empty()
    } else if drawn(chars, trim, n - 1) {
        kept(chars, trim, n - 1).push((n - 1) as usize)
    } else {
        kept(chars, trim, n - 1)
    }
}

/// The number of line breaks among the first `n` characters.
pub open spec fn breaks(chars: Seq<char>, n: int) -> int
    decreases n,
{
    if n <= 0 {
        0
    } else if is_break(chars[n - 1]) {
        breaks(chars, n - 1) + 1
    } else {
        breaks(chars, n - 1)
    }
}

/// The number of lines that end with a new line or a carriage return.
pub open spec fn explicit_endings(lines: Seq<Run>) -> int
    decreases lines.len(),
{
    if lines.len() == 0 {
        0
    } else if lines.last().ending == LineEnd::Newline || lines.last().ending == LineEnd::Return {
        explicit_endings(lines.drop_last()) + 1
    } else {
        explicit_endings(lines.drop_last())
    }
}

/// What holds of the layout after the first `n` glyphs.
spec fn sound(state: Flow, chars: Seq<char>, widths: Seq<u32>, max_width: Option<u32>, trim: bool, n: int) -> bool {
    &&& forall|k: int| 0 <= k < state.lines.len() ==> tidy(#[trigger] state.lines[k], widths, max_width)
    &&& tidy(state.line, widths, max_width)
    &&& tidy(state.piece, widths, max_width)
    &&& flattened(state.lines).indices + state.line.indices + state.piece.indices == kept(
        chars,
        trim,
        n,
    )
    &&& state.spaced == (n > 0 && (is_blank(chars[n - 1]) || is_break(chars[n - 1])))
    &&& explicit_endings(state.lines) == breaks(chars, n)
    &&& state.line.ending == LineEnd::Advance
    &&& state.piece.ending == LineEnd::Advance
}

/// The width of two lists of glyphs, one after the other.
proof fn lemma_run_width_add(first: Seq<usize>, second: Seq<usize>, widths: Seq<u32>)
    ensures
        run_width(first + second, widths) == run_width(first, widths) + run_width(second, widths),
    decreases second.len(),
{
    if second.len() == 0 {
        assert(first + second =~= first);
    } else {
        lemma_run_width_add(first, second.drop_last(), widths);
        assert((first + second).drop_last() =~= first + second.drop_last());
        assert((first + second).last() == second.last());
    }
}

/// The width of a single glyph.
proof fn lemma_run_width_single(index: usize, widths: Seq<u32>)
    ensures
        run_width(seq![index], widths) == widths[index as int],
{
    assert(seq![index].drop_last() =~= Seq::<usize>::empty());
    assert(seq![index].last() == index);
    assert(run_width(Seq::<usize>::empty(), widths) == 0);
    assert(run_width(seq![index].drop_last(), widths) == 0);
}

/// Completing a line adds it to the flattened lines.
proof fn lemma_flattened_push(lines: Seq<Run>, line: Run)
    ensures
        flattened(lines.push(line)).indices == flattened(lines).indices + line.indices,
        explicit_endings(lines.push(line)) == explicit_endings(lines) + (if line.ending
            == LineEnd::Newline || line.ending == LineEnd::Return {
            1int
        } else {
            0int
        }),
{
    assert(lines.push(line).drop_last() =~= lines);
    assert(lines.push(line).last() == line);
}

/// Putting the piece on the line keeps what holds of the layout.
proof fn lemma_place_sound(
    state: Flow,
    ending: LineEnd,
    chars: Seq<char>,
    widths: Seq<u32>,
    max_width: Option<u32>,
    trim: bool,
    n: int,
)
    requires
        sound(state, chars, widths, max_width, trim, n),
        ending == LineEnd::Advance || ending == LineEnd::HardBreak,
    ensures
        sound(state.place(ending, max_width), chars, widths, max_width, trim, n),
        state.place(ending, max_width).piece == Run::nothing(),
{
    let after = state.place(ending, max_width);
    if state.piece.indices.len() == 0 {
        assert(state.piece.indices =~= Seq::empty());
    } else if state.line.indices.len() > 0 && !fits(state.line.width + state.piece.width, max_width) {
        lemma_flattened_push(state.lines, state.line.ended(ending));
        assert(flattened(after.lines).indices + after.line.indices + after.piece.indices
            =~= flattened(state.lines).indices + state.line.indices + state.piece.indices);
        assert forall|k: int| 0 <= k < after.lines.len() implies tidy(
            #[trigger] after.lines[k],
            widths,
            max_width,
        ) by {
            if k < state.lines.len() {
                assert(after.lines[k] == state.lines[k]);
            }
        }
    } else {
        lemma_run_width_add(state.line.indices, state.piece.indices, widths);
        if state.line.indices.len() == 0 {
            assert(state.line.indices + state.piece.indices =~= state.piece.indices);
        }
        assert(flattened(after.lines).indices + after.line.indices + after.piece.indices
            =~= flattened(state.lines).indices + state.line.indices + state.piece.indices);
    }
}

/// Reading a glyph keeps what holds of the layout.
proof fn lemma_step_sound(
    state: Flow,
    chars: Seq<char>,
    widths: Seq<u32>,
    max_width: Option<u32>,
    trim: bool,
    n: int,
)
    requires
        0 <= n < chars.len(),
        chars.len() == widths.len(),
        n <= usize::MAX,
        sound(state, chars, widths, max_width, trim, n),
    ensures
        sound(
            state.step(n as usize, chars[n], widths[n], max_width, trim),
            chars,
            widths,
            max_width,
            trim,
            n + 1,
        ),
{
    let index = n as usize;
    let c = chars[n];
    let a = widths[n];
    let after = state.step(index, c, a, max_width, trim);
    lemma_run_width_single(index, widths);
    lemma_place_sound(state, state.wrap(), chars, widths, max_width, trim, n);
    let placed = state.place(state.wrap(), max_width);
    if is_break(c) {
        let ended = state.end_word(max_width);
        lemma_flattened_push(ended.lines, ended.line.ended(after.lines.last().ending));
        assert(after.lines.last() == ended.line.ended(after.lines.last().ending));
        assert(flattened(after.lines).indices + after.line.indices + after.piece.indices
            =~= flattened(placed.lines).indices + placed.line.indices + placed.piece.indices);
        assert forall|k: int| 0 <= k < after.lines.len() implies tidy(
            #[trigger] after.lines[k],
            widths,
            max_width,
        ) by {
            if k < ended.lines.len() {
                assert(after.lines[k] == ended.lines[k]);
            }
        }
    } else if is_blank(c) {
        let ended = state.end_word(max_width);
        if trim && state.spaced {
        } else {
            let ready = Flow { piece: Run::single(index, a), spaced: true, ..ended };
            assert(flattened(ready.lines).indices + ready.line.indices + ready.piece.indices
                =~= kept(chars, trim, n).push(index)) by {
                assert(ended.piece.indices =~= Seq::empty());
                assert(flattened(ended.lines).indices + ended.line.indices + ended.piece.indices
                    =~= flattened(ended.lines).indices + ended.line.indices);
            }
            lemma_blank_place(ready, chars, widths, max_width, trim, n);
        }
    } else if state.piece.indices.len() > 0 && !fits(state.piece.width + a, max_width) {
        assert(placed.piece.indices =~= Seq::empty());
        assert(flattened(after.lines).indices + after.line.indices + after.piece.indices =~= (
        flattened(placed.lines).indices + placed.line.indices + placed.piece.indices).push(index));
    } else {
        assert(state.piece.with(index, a).indices.drop_last() =~= state.piece.indices);
        assert(flattened(after.lines).indices + after.line.indices + after.piece.indices =~= (
        flattened(state.lines).indices + state.line.indices + state.piece.indices).push(index));
    }
}

/// Putting a blank on the line, for a layout that already counts the blank
/// among its glyphs.
proof fn lemma_blank_place(
    ready: Flow,
    chars: Seq<char>,
    widths: Seq<u32>,
    max_width: Option<u32>,
    trim: bool,
    n: int,
)
    requires
        0 <= n < chars.len(),
        forall|k: int| 0 <= k < ready.lines.len() ==> tidy(#[trigger] ready.lines[k], widths, max_width),
        tidy(ready.line, widths, max_width),
        tidy(ready.piece, widths, max_width),
        ready.piece.indices.len() == 1,
        flattened(ready.lines).indices + ready.line.indices + ready.piece.indices == kept(
            chars,
            trim,
            n + 1,
        ),
        ready.spaced,
        is_blank(chars[n]),
        explicit_endings(ready.lines) == breaks(chars, n + 1),
        ready.line.ending == LineEnd::Advance,
        ready.piece.ending == LineEnd::Advance,
    ensures
        sound(ready.place(LineEnd::Advance, max_width), chars, widths, max_width, trim, n + 1),
{
    let after = ready.place(LineEnd::Advance, max_width);
    if ready.line.indices.len() > 0 && !fits(ready.line.width + ready.piece.width, max_width) {
        lemma_flattened_push(ready.lines, ready.line.ended(LineEnd::Advance));
        assert(flattened(after.lines).indices + after.line.indices + after.piece.indices
            =~= flattened(ready.lines).indices + ready.line.indices + ready.piece.indices);
        assert forall|k: int| 0 <= k < after.lines.len() implies tidy(
            #[trigger] after.lines[k],
            widths,
            max_width,
        ) by {
            if k < ready.lines.len() {
                assert(after.lines[k] == ready.lines[k]);
            }
        }
    } else {
        lemma_run_width_add(ready.line.indices, ready.piece.indices, widths);
        if ready.line.indices.len() == 0 {
            assert(ready.line.indices + ready.piece.indices =~= ready.piece.indices);
        }
        assert(flattened(after.lines).indices + after.line.indices + after.piece.indices
            =~= flattened(ready.lines).indices + ready.line.indices + ready.piece.indices);
    }
}

/// What holds of the layout holds after any number of glyphs.
proof fn lemma_flow_sound(chars: Seq<char>, widths: Seq<u32>, max_width: Option<u32>, trim: bool, n: int)
    requires
        0 <= n <= chars.len(),
        chars.len() == widths.len(),
        chars.len() <= usize::MAX,
    ensures
        sound(flow(chars, widths, max_width, trim, n), chars, widths, max_width, trim, n),
    decreases n,
{
    if n > 0 {
        lemma_flow_sound(chars, widths, max_width, trim, n - 1);
        lemma_step_sound(
            flow(chars, widths, max_width, trim, n - 1),
            chars,
            widths,
            max_width,
            trim,
            n - 1,
        );
    } else {
        assert(flattened(Flow::start().lines).indices + Flow::start().line.indices
            + Flow::start().piece.indices =~= Seq::empty());
    }
}

/// Every line of a layout is as wide as the advance widths of its glyphs
/// together. No line is wider than the width allowed, except a line that
/// consists of a single glyph which alone is wider.
pub proof fn lemma_lines_within_width(
    chars: Seq<char>,
    widths: Seq<u32>,
    max_width: Option<u32>,
    trim: bool,
    k: int,
)
    requires
        chars.len() == widths.len(),
        chars.len() <= usize::MAX,
        0 <= k < laid_out(chars, widths, max_width, trim).len(),
    ensures
        ({
            let line = laid_out(chars, widths, max_width, trim)[k];
            &&& line.width == run_width(line.indices, widths)
            &&& fits(line.width, max_width) || line.indices.len() == 1
            &&& forall|j: int| 0 <= j < line.indices.len() ==> (#[trigger] line.indices[j]) < chars.len()
        }),
{
    lemma_layout_sound(chars, widths, max_width, trim);
}

/// The lines of a layout, one after the other, hold every glyph that is
/// drawn exactly once and in the order of the text; and as many lines end
/// with a new line or a carriage return as the text has line breaks.
pub proof fn lemma_lines_keep_glyphs(chars: Seq<char>, widths: Seq<u32>, max_width: Option<u32>, trim: bool)
    requires
        chars.len() == widths.len(),
        chars.len() <= usize::MAX,
    ensures
        flattened(laid_out(chars, widths, max_width, trim)).indices == kept(
            chars,
            trim,
            chars.len() as int,
        ),
        explicit_endings(laid_out(chars, widths, max_width, trim)) == breaks(
            chars,
            chars.len() as int,
        ),
{
    lemma_layout_sound(chars, widths, max_width, trim);
}

/// What holds of the finished layout.
proof fn lemma_layout_sound(chars: Seq<char>, widths: Seq<u32>, max_width: Option<u32>, trim: bool)
    requires
        chars.len() == widths.len(),
        chars.len() <= usize::MAX,
    ensures
        forall|k: int|
            0 <= k < laid_out(chars, widths, max_width, trim).len() ==> tidy(
                #[trigger] laid_out(chars, widths, max_width, trim)[k],
                widths,
                max_width,
            ),
        flattened(laid_out(chars, widths, max_width, trim)).indices == kept(
            chars,
            trim,
            chars.len() as int,
        ),
        explicit_endings(laid_out(chars, widths, max_width, trim)) == breaks(
            chars,
            chars.len() as int,
        ),
{
    let n = chars.len() as int;
    let state = flow(chars, widths, max_width, trim, n);
    lemma_flow_sound(chars, widths, max_width, trim, n);
    lemma_place_sound(state, state.wrap(), chars, widths, max_width, trim, n);
    let ended = state.end_word(max_width);
    let lines = laid_out(chars, widths, max_width, trim);
    assert(ended.piece.indices =~= Seq::empty());
    if ended.line.indices.len() > 0 {
        lemma_flattened_push(ended.lines, ended.line);
        assert(flattened(lines).indices =~= flattened(ended.lines).indices + ended.line.indices
            + ended.piece.indices);
        assert forall|k: int| 0 <= k < lines.len() implies tidy(#[trigger] lines[k], widths, max_width) by {
            if k < ended.lines.len() {
                assert(lines[k] == ended.lines[k]);
            }
        }
    } else {
        assert(ended.line.indices =~= Seq::empty());
        assert(flattened(lines).indices =~= flattened(ended.lines).indices + ended.line.indices
            + ended.piece.indices);
    }
}

/// The widest width is that of one of the runs, and no run is wider.
pub proof fn lemma_widest(runs: Seq<Run>)
    requires
        forall|k: int| 0 <= k < runs.len() ==> (#[trigger] runs[k]).width >= 0,
    ensures
        forall|k: int| 0 <= k < runs.len() ==> (#[trigger] runs[k]).width <= widest(runs),
        runs.len() > 0 ==> exists|k: int| 0 <= k < runs.len() && (#[trigger] runs[k]).width == widest(runs),
        runs.len() == 0 ==> widest(runs) == 0,
    decreases runs.len(),
{
    if runs.len() > 0 {
        let rest = runs.drop_last();
        assert forall|k: int| 0 <= k < rest.len() implies (#[trigger] rest[k]).width >= 0 by {
            assert(rest[k] == runs[k]);
        }
        lemma_widest(rest);
        assert forall|k: int| 0 <= k < runs.len() implies (#[trigger] runs[k]).width <= widest(runs) by {
            if k < rest.len() {
                assert(rest[k] == runs[k]);
            }
        }
        if runs.last().width > widest(rest) || rest.len() == 0 {
            assert(runs[runs.len() - 1].width == widest(runs));
        } else {
            let k = choose|k: int| 0 <= k < rest.len() && (#[trigger] rest[k]).width == widest(rest);
            assert(runs[k] == rest[k]);
        }
    }
}

} // verus!
