//! What holds of every atlas. Placements never share a pixel. Rectangles
//! that share no pixel cannot cover more pixels than the texture has, so
//! bitmaps with too many pixels are never placed; and growing ends exactly at
//! the ceiling where nothing smaller will do.

use vstd::prelude::*;
use vstd::set_lib::{lemma_int_range, lemma_len_subset, lemma_set_disjoint_lens, set_int_range};
use crate::atlas::{AtlasState, Entry, PackError, PackedRect};
use crate::atlas::place::{lays_out, settle};
use crate::atlas::repack::lemma_settle;

verus! {

/// The number of pixels of all bitmaps together.
pub open spec fn total_area(entries: Seq<Entry>) -> int
    decreases entries.len(),
{
    if entries.len() == 0 {
        0
    } else {
        total_area(entries.drop_last()) + entries.last().content.width
            * entries.last().content.height
    }
}

/// Some layout places the entries in a texture of this side.
pub open spec fn fits(entries: Seq<Entry>, side: u32) -> bool {
    exists|rects: Seq<PackedRect>| lays_out(rects, entries, side)
}

/// The number of the pixel (`px`, `row`) of the texture, counting row after
/// row.
spec fn cell(side: int, px: int, row: int) -> int {
    row * side + px
}

/// The pixel numbered `k` lies in the given row of the rectangle.
spec fn in_row(rect: PackedRect, row: int, k: int) -> bool {
    cell(rect.side as int, rect.x as int, row) <= k < cell(
        rect.side as int,
        rect.x + rect.width,
        row,
    )
}

/// The numbers of the pixels in the first `rows` rows of the rectangle.
spec fn cells(rect: PackedRect, rows: int) -> Set<int>
    decreases rows,
{
    if rows <= 0 {
        Set::empty()
    } else {
        cells(rect, rows - 1).union(
            set_int_range(
                cell(rect.side as int, rect.x as int, rect.y + rows - 1),
                cell(rect.side as int, rect.x + rect.width, rect.y + rows - 1),
            ),
        )
    }
}

/// The pixels of the first `rows` rows are finitely many, `rows` times the
/// width, and each lies in one of those rows.
proof fn lemma_cells(rect: PackedRect, rows: int)
    requires
        rect.inside(),
        0 <= rows <= rect.height,
    ensures
        cells(rect, rows).finite(),
        cells(rect, rows).len() == rows * rect.width,
        forall|k: int| #[trigger]
            cells(rect, rows).contains(k) ==> exists|row: int|
                rect.y <= row < rect.y + rows && in_row(rect, row, k),
        forall|k: int| #[trigger]
            cells(rect, rows).contains(k) ==> 0 <= k < cell(rect.side as int, 0, rect.y + rows),
    decreases rows,
{
    if rows > 0 {
        lemma_cells(rect, rows - 1);
        let side = rect.side as int;
        let last = rect.y + rows - 1;
        let low = cell(side, rect.x as int, last);
        let high = cell(side, rect.x + rect.width, last);
        let before = cells(rect, rows - 1);
        let row_set = set_int_range(low, high);
        lemma_int_range(low, high);
        assert(cell(side, 0, last) <= low && high <= cell(side, 0, last + 1) && 0 <= cell(
            side,
            0,
            last,
        )) by (nonlinear_arith)
            requires
                rect.x + rect.width <= side,
                0 <= rect.x,
                0 <= rect.width,
                0 <= last,
                low == last * side + rect.x,
                high == last * side + (rect.x + rect.width),
                cell(side, 0, last) == last * side + 0,
                cell(side, 0, last + 1) == (last + 1) * side + 0,
        ;
        assert(before.disjoint(row_set));
        lemma_set_disjoint_lens(before, row_set);
        assert(rows * rect.width == (rows - 1) * rect.width + rect.width) by (nonlinear_arith);
        assert forall|k: int| #[trigger] cells(rect, rows).contains(k) implies exists|row: int|
            rect.y <= row < rect.y + rows && in_row(rect, row, k) by {
            if before.contains(k) {
                let row = choose|row: int| rect.y <= row < rect.y + rows - 1 && in_row(rect, row, k);
                assert(rect.y <= row < rect.y + rows && in_row(rect, row, k));
            } else {
                assert(in_row(rect, last, k));
            }
        }
    }
}

/// A pixel lies in one row only.
proof fn lemma_row_unique(first: PackedRect, row: int, second: PackedRect, other: int, k: int)
    requires
        first.inside(),
        second.inside(),
        first.side == second.side,
        in_row(first, row, k),
        in_row(second, other, k),
    ensures
        row == other,
{
    let side = first.side as int;
    assert(row == other) by (nonlinear_arith)
        requires
            row * side + first.x <= k < row * side + (first.x + first.width),
            other * side + second.x <= k < other * side + (second.x + second.width),
            first.x + first.width <= side,
            second.x + second.width <= side,
            0 <= first.x,
            0 <= second.x,
    ;
}

/// Rectangles that are apart have no pixel number in common.
proof fn lemma_apart_cells_disjoint(first: PackedRect, second: PackedRect)
    requires
        first.inside(),
        second.inside(),
        first.side == second.side,
        first.apart(second),
    ensures
        cells(first, first.height as int).disjoint(cells(second, second.height as int)),
{
    lemma_cells(first, first.height as int);
    lemma_cells(second, second.height as int);
    assert forall|k: int| cells(first, first.height as int).contains(k) implies !cells(
        second,
        second.height as int,
    ).contains(k) by {
        if cells(second, second.height as int).contains(k) {
            let row = choose|row: int|
                first.y <= row < first.y + first.height && in_row(first, row, k);
            let other = choose|other: int|
                second.y <= other < second.y + second.height && in_row(second, other, k);
            lemma_row_unique(first, row, second, other, k);
        }
    }
}

/// The numbers of the pixels of the first `n` rectangles.
spec fn covered(rects: Seq<PackedRect>, n: int) -> Set<int>
    decreases n,
{
    if n <= 0 {
        Set::empty()
    } else {
        covered(rects, n - 1).union(cells(rects[n - 1], rects[n - 1].height as int))
    }
}

/// The number of pixels of the first `n` rectangles together.
spec fn rects_area(rects: Seq<PackedRect>, n: int) -> int
    decreases n,
{
    if n <= 0 {
        0
    } else {
        rects_area(rects, n - 1) + rects[n - 1].width * rects[n - 1].height
    }
}

/// Rectangles of a layout cover as many pixels as their areas add up to, all
/// of them pixels of the texture.
proof fn lemma_covered(rects: Seq<PackedRect>, entries: Seq<Entry>, side: u32, n: int)
    requires
        lays_out(rects, entries, side),
        0 <= n <= rects.len(),
    ensures
        covered(rects, n).finite(),
        covered(rects, n).len() == rects_area(rects, n),
        covered(rects, n).subset_of(set_int_range(0, side * side)),
        forall|k: int| #[trigger]
            covered(rects, n).contains(k) ==> exists|i: int|
                0 <= i < n && cells(rects[i], rects[i].height as int).contains(k),
    decreases n,
{
    if n > 0 {
        lemma_covered(rects, entries, side, n - 1);
        let rect = rects[n - 1];
        let before = covered(rects, n - 1);
        let added = cells(rect, rect.height as int);
        lemma_cells(rect, rect.height as int);
        assert(rect.height * rect.width == rect.width * rect.height) by (nonlinear_arith);
        assert(before.disjoint(added)) by {
            assert forall|k: int| before.contains(k) implies !added.contains(k) by {
                let i = choose|i: int|
                    0 <= i < n - 1 && cells(rects[i], rects[i].height as int).contains(k);
                assert(rects[i].apart(rects[n - 1]));
                lemma_apart_cells_disjoint(rects[i], rect);
            }
        }
        lemma_set_disjoint_lens(before, added);
        assert(cell(side as int, 0, rect.y + rect.height) <= side * side) by (nonlinear_arith)
            requires
                rect.y + rect.height <= side,
                cell(side as int, 0, rect.y + rect.height) == (rect.y + rect.height) * side + 0,
        ;
        assert forall|k: int| #[trigger] covered(rects, n).contains(k) implies exists|i: int|
            0 <= i < n && cells(rects[i], rects[i].height as int).contains(k) by {
            if before.contains(k) {
                let i = choose|i: int|
                    0 <= i < n - 1 && cells(rects[i], rects[i].height as int).contains(k);
                assert(0 <= i < n && cells(rects[i], rects[i].height as int).contains(k));
            } else {
                assert(cells(rects[n - 1], rects[n - 1].height as int).contains(k));
            }
        }
    }
}

/// The rectangles of a layout have the areas of the bitmaps.
proof fn lemma_rects_area(rects: Seq<PackedRect>, entries: Seq<Entry>, side: u32, n: int)
    requires
        lays_out(rects, entries, side),
        0 <= n <= rects.len(),
    ensures
        rects_area(rects, n) == total_area(entries.take(n)),
    decreases n,
{
    if n > 0 {
        lemma_rects_area(rects, entries, side, n - 1);
        assert(entries.take(n).drop_last() =~= entries.take(n - 1));
        assert(entries.take(n).last() == entries[n - 1]);
        assert(rects[n - 1].width == entries[n - 1].content.width);
    }
}

/// Bitmaps that some layout places in a texture have, together, no more
/// pixels than the texture.
pub proof fn lemma_layout_bounds_area(rects: Seq<PackedRect>, entries: Seq<Entry>, side: u32)
    requires
        lays_out(rects, entries, side),
    ensures
        total_area(entries) <= side * side,
{
    let n = rects.len() as int;
    lemma_covered(rects, entries, side, n);
    lemma_rects_area(rects, entries, side, n);
    assert(entries.take(n) =~= entries);
    assert(0 <= side * side) by (nonlinear_arith);
    lemma_int_range(0, side * side);
    lemma_len_subset(covered(rects, n), set_int_range(0, side * side));
}

/// Bitmaps with more pixels than the largest texture has are never placed:
/// growing ends at the ceiling without a layout.
pub proof fn lemma_overfull_never_settles(entries: Seq<Entry>, side: u32, max_side: u32)
    requires
        0 < side <= max_side,
        total_area(entries) > max_side * max_side,
    ensures
        settle(entries, side, max_side) == (max_side, None::<Seq<PackedRect>>),
{
    lemma_settle(entries, side, max_side);
    let (end, layout) = settle(entries, side, max_side);
    if layout is Some {
        lemma_layout_bounds_area(layout->Some_0, entries, end);
        assert(end * end <= max_side * max_side) by (nonlinear_arith)
            requires
                0 <= end <= max_side,
        ;
    }
}

/// Repacking an atlas whose bitmaps have more pixels than its largest texture
/// fails with `OutOfSpace`, and leaves the side at the ceiling.
pub proof fn lemma_overfull_repack_fails(state: AtlasState)
    requires
        state.wf(),
        state.dirty,
        total_area(state.entries) > state.max_side * state.max_side,
    ensures
        state.repack().1 == Err::<(), PackError>(PackError::OutOfSpace),
        state.repack().0 == (AtlasState { side: state.max_side, ..state }),
{
    lemma_overfull_never_settles(state.entries, state.side, state.max_side);
}

/// Where the bitmaps fit in no texture smaller than the ceiling, growing
/// that ends with a layout ends exactly at the ceiling.
pub proof fn lemma_settle_grows_to_ceiling(entries: Seq<Entry>, side: u32, max_side: u32)
    requires
        0 < side <= max_side,
        forall|smaller: u32| side <= smaller < max_side ==> !fits(entries, smaller),
        settle(entries, side, max_side).1 is Some,
    ensures
        settle(entries, side, max_side).0 == max_side,
{
    lemma_settle(entries, side, max_side);
    let (end, layout) = settle(entries, side, max_side);
    assert(lays_out(layout->Some_0, entries, end));
    assert(fits(entries, end));
}

/// A repack that succeeds where the bitmaps fit in no texture smaller than
/// the ceiling has grown the texture exactly to the ceiling.
pub proof fn lemma_repack_grows_to_ceiling(state: AtlasState)
    requires
        state.wf(),
        state.dirty,
        forall|smaller: u32| state.side <= smaller < state.max_side ==> !fits(state.entries, smaller),
        state.repack().1 is Ok,
    ensures
        state.repack().0.side == state.max_side,
        !state.repack().0.dirty,
{
    lemma_settle_grows_to_ceiling(state.entries, state.side, state.max_side);
}

/// In a clean atlas every entry has a placement inside the texture, and no
/// pixel belongs to the placements of two entries.
pub proof fn lemma_clean_atlas_has_no_overlap(state: AtlasState, i: int, j: int)
    requires
        state.wf(),
        !state.dirty,
        0 <= i < state.entries.len(),
        0 <= j < state.entries.len(),
        i != j,
    ensures
        state.entries[i].placement is Some,
        state.entries[j].placement is Some,
        state.entries[i].placement->Some_0.inside(),
        state.entries[i].placement->Some_0.side == state.side,
        forall|px: int, py: int|
            state.entries[i].placement->Some_0.covers(px, py) ==> 0 <= px < state.side && 0 <= py
                < state.side && !state.entries[j].placement->Some_0.covers(px, py),
{
    assert(state.entries[i].placement_fits());
    assert(state.entries[j].placement_fits());
    let first = state.entries[i].placement->Some_0;
    let second = state.entries[j].placement->Some_0;
    if i < j {
        assert(first.apart(second));
    } else {
        assert(second.apart(first));
    }
}

/// After a repack that succeeds the atlas is clean: the placements lie inside
/// the texture and no two of them share a pixel.
pub proof fn lemma_repack_leaves_no_overlap(state: AtlasState, i: int, j: int)
    requires
        state.wf(),
        state.repack().1 is Ok,
        0 <= i < state.repack().0.entries.len(),
        0 <= j < state.repack().0.entries.len(),
        i != j,
    ensures
        ({
            let after = state.repack().0;
            &&& after.entries[i].placement is Some
            &&& after.entries[j].placement is Some
            &&& after.entries[i].placement->Some_0.inside()
            &&& after.entries[i].placement->Some_0.side == after.side
            &&& forall|px: int, py: int|
                after.entries[i].placement->Some_0.covers(px, py) ==> 0 <= px < after.side && 0
                    <= py < after.side && !after.entries[j].placement->Some_0.covers(px, py)
        }),
{
    crate::atlas::repack::lemma_repack_keeps_wf(state);
    lemma_clean_atlas_has_no_overlap(state.repack().0, i, j);
}

} // verus!
