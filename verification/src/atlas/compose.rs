//! Composing the texture: copying every placed bitmap to its rectangle.

use vstd::prelude::*;
use crate::atlas::{entry_views, AtlasEntry, Entry, PackedRect};
use crate::atlas::place::lays_out;
use crate::bitmap::Bitmap;

verus! {

/// The position of channel `c` of the texel (`px`, `py`) among the bytes of a
/// square texture.
pub open spec fn texel_index(side: u32, px: int, py: int, c: int) -> int {
    (py * side + px) * 4 + c
}

/// The entry `i` is placed and its rectangle holds the texel.
pub open spec fn owns(entries: Seq<Entry>, i: int, px: int, py: int) -> bool {
    0 <= i < entries.len() && entries[i].placement is Some && entries[i].placement->Some_0.covers(
        px,
        py,
    )
}

/// The byte that the bitmap of entry `i` has for the texel.
pub open spec fn source_byte(entries: Seq<Entry>, i: int, px: int, py: int, c: int) -> u8 {
    let at = entries[i].placement->Some_0;
    entries[i].content.pixels[entries[i].content.offset(px - at.x, py - at.y, c)]
}

/// The texture shows the entries: inside each rectangle lie the bytes of its
/// bitmap, row after row, and every texel outside all rectangles is zero.
pub open spec fn shows(texture: Seq<u8>, entries: Seq<Entry>, side: u32) -> bool {
    &&& texture.len() == side * side * 4
    &&& forall|i: int, px: int, py: int, c: int|
        #![trigger owns(entries, i, px, py), texel_index(side, px, py, c)]
        owns(entries, i, px, py) && 0 <= c < 4 ==> texture[texel_index(side, px, py, c)]
            == source_byte(entries, i, px, py, c)
    &&& forall|px: int, py: int, c: int|
        0 <= px < side && 0 <= py < side && 0 <= c < 4 && (forall|i: int|
            !owns(entries, i, px, py)) ==> texture[#[trigger] texel_index(side, px, py, c)] == 0
}

/// The byte of a texel after the entries were painted one after the other
/// onto a blank texture.
pub open spec fn painted(entries: Seq<Entry>, px: int, py: int, c: int) -> u8
    decreases entries.len(),
{
    if entries.len() == 0 {
        0
    } else if owns(entries, entries.len() - 1, px, py) {
        source_byte(entries, entries.len() - 1, px, py, c)
    } else {
        painted(entries.drop_last(), px, py, c)
    }
}

/// Two positions in a row-major layout are equal only if row and remainder
/// are.
proof fn lemma_row_major_unique(stride: int, row: int, rest: int, other_row: int, other_rest: int)
    requires
        0 <= rest < stride,
        0 <= other_rest < stride,
        row * stride + rest == other_row * stride + other_rest,
    ensures
        row == other_row,
        rest == other_rest,
{
    assert(row == other_row) by (nonlinear_arith)
        requires
            0 <= rest < stride,
            0 <= other_rest < stride,
            row * stride + rest == other_row * stride + other_rest,
    ;
}

/// Different texels and channels lie at different positions.
pub proof fn lemma_texel_index_unique(side: u32, px: int, py: int, c: int, qx: int, qy: int, d: int)
    requires
        0 <= px < side,
        0 <= qx < side,
        0 <= c < 4,
        0 <= d < 4,
        texel_index(side, px, py, c) == texel_index(side, qx, qy, d),
    ensures
        px == qx,
        py == qy,
        c == d,
{
    assert(py * (side * 4) == (py * side) * 4 && qy * (side * 4) == (qy * side) * 4)
        by (nonlinear_arith);
    lemma_row_major_unique(side * 4, py, px * 4 + c, qy, qx * 4 + d);
}

/// Every texel of the texture has a position among its bytes.
pub proof fn lemma_texel_index_in_range(side: u32, px: int, py: int, c: int)
    requires
        0 <= px < side,
        0 <= py < side,
        0 <= c < 4,
    ensures
        0 <= texel_index(side, px, py, c) < side * side * 4,
{
    assert(0 <= py * side && py * side + side <= side * side) by (nonlinear_arith)
        requires
            0 <= py < side,
    ;
}

/// Every position among the bytes of the texture is that of a texel.
pub proof fn lemma_texel_index_onto(side: u32, k: int)
    requires
        0 <= k < side * side * 4,
    ensures
        exists|px: int, py: int, c: int|
            0 <= px < side && 0 <= py < side && 0 <= c < 4 && k == #[trigger] texel_index(
                side,
                px,
                py,
                c,
            ),
{
    let cell = k / 4;
    let c = k % 4;
    let py = cell / (side as int);
    let px = cell % (side as int);
    assert(side > 0) by (nonlinear_arith)
        requires
            0 <= k < side * side * 4,
    ;
    assert(cell < side * side);
    assert(cell == py * side + px) by {
        vstd::arithmetic::div_mod::lemma_fundamental_div_mod(cell, side as int);
        assert(side * py == py * side) by (nonlinear_arith);
    }
    assert(0 <= py < side) by (nonlinear_arith)
        requires
            cell == py * side + px,
            0 <= px < side,
            0 <= cell < side * side,
    ;
    assert(k == texel_index(side, px, py, c));
}

/// At most one texture shows given entries: the entries decide every byte.
pub proof fn lemma_shows_one_texture(first: Seq<u8>, second: Seq<u8>, entries: Seq<Entry>, side: u32)
    requires
        shows(first, entries, side),
        shows(second, entries, side),
        forall|i: int|
            0 <= i < entries.len() && (#[trigger] entries[i]).placement is Some ==> entries[i].placement->Some_0.inside()
                && entries[i].placement->Some_0.side == side,
    ensures
        first == second,
{
    assert forall|k: int| 0 <= k < first.len() implies first[k] == second[k] by {
        lemma_texel_index_onto(side, k);
        let (px, py, c) = choose|px: int, py: int, c: int|
            0 <= px < side && 0 <= py < side && 0 <= c < 4 && k == #[trigger] texel_index(
                side,
                px,
                py,
                c,
            );
        if exists|i: int| owns(entries, i, px, py) {
            let i = choose|i: int| owns(entries, i, px, py);
            assert(owns(entries, i, px, py) && texel_index(side, px, py, c) == k);
        } else {
            assert(forall|i: int| !owns(entries, i, px, py));
        }
    }
    assert(first =~= second);
}

/// Copies a bitmap to its rectangle and leaves every other texel as it was.
fn blit(buffer: &mut Vec<u8>, side: u32, at: PackedRect, bitmap: &Bitmap)
    requires
        old(buffer)@.len() == side * side * 4,
        side * side * 4 <= usize::MAX,
        at.side == side,
        at.inside(),
        at.width == bitmap@.width,
        at.height == bitmap@.height,
        bitmap@.wf(),
    ensures
        final(buffer)@.len() == old(buffer)@.len(),
        forall|px: int, py: int, c: int|
            0 <= px < side && 0 <= py < side && 0 <= c < 4 ==> final(buffer)@[#[trigger] texel_index(
                side,
                px,
                py,
                c,
            )] == (if at.covers(px, py) {
                bitmap@.pixels[bitmap@.offset(px - at.x, py - at.y, c)]
            } else {
                old(buffer)@[texel_index(side, px, py, c)]
            }),
{
    let bytes = bitmap.bytes();
    let width = at.width as usize;
    let height = at.height as usize;
    let stride = side as usize;
    let left = at.x as usize;
    let top = at.y as usize;
    if width == 0 || height == 0 {
        return ;
    }
    proof {
        assert(side > 0);
        assert(side * 4 <= side * side * 4) by (nonlinear_arith)
            requires
                side > 0,
        ;
    }
    let row_bytes = width * 4;
    let total = bytes.len();
    let mut y: usize = 0;
    while y < height
        invariant
            total == bytes@.len(),
            buffer@.len() == side * side * 4,
            old(buffer)@.len() == side * side * 4,
            side * side * 4 <= usize::MAX,
            at.side == side,
            at.inside(),
            at.width == bitmap@.width,
            at.height == bitmap@.height,
            bitmap@.wf(),
            bytes@ == bitmap@.pixels,
            width == at.width,
            height == at.height,
            stride == side,
            left == at.x,
            top == at.y,
            row_bytes == width * 4,
            width > 0,
            side > 0,
            y <= height,
            forall|px: int, py: int, c: int|
                0 <= px < side && 0 <= py < side && 0 <= c < 4 ==> buffer@[#[trigger] texel_index(
                    side,
                    px,
                    py,
                    c,
                )] == (if at.covers(px, py) && py - at.y < y {
                    bitmap@.pixels[bitmap@.offset(px - at.x, py - at.y, c)]
                } else {
                    old(buffer)@[texel_index(side, px, py, c)]
                }),
        decreases height - y,
    {
        proof {
            lemma_texel_index_in_range(side, left as int, top + y, 0);
            assert((top + y) * side + side <= side * side) by (nonlinear_arith)
                requires
                    0 <= top + y < side,
            ;
            assert(y * width + width <= height * width) by (nonlinear_arith)
                requires
                    0 <= y < height,
                    0 <= width,
            ;
            assert(bitmap@.pixels.len() == width * height * 4);
            assert(height * width == width * height) by (nonlinear_arith);
            assert(y * width * 4 + width * 4 <= total) by (nonlinear_arith)
                requires
                    y * width + width <= height * width,
                    total == width * height * 4,
                    height * width == width * height,
            ;
            assert(0 <= y * width) by (nonlinear_arith)
                requires
                    0 <= y,
                    0 <= width,
            ;
        }
        let target = ((top + y) * stride + left) * 4;
        let source = y * width * 4;
        let mut t: usize = 0;
        while t < row_bytes
            invariant
                total == bytes@.len(),
                buffer@.len() == side * side * 4,
                old(buffer)@.len() == side * side * 4,
                side * side * 4 <= usize::MAX,
                at.side == side,
                at.inside(),
                at.width == bitmap@.width,
                at.height == bitmap@.height,
                bitmap@.wf(),
                bytes@ == bitmap@.pixels,
                width == at.width,
                height == at.height,
                stride == side,
                left == at.x,
                top == at.y,
                row_bytes == width * 4,
                width > 0,
                side > 0,
                y < height,
                t <= row_bytes,
                target == ((top + y) * side + left) * 4,
                source == y * width * 4,
                target + row_bytes <= side * side * 4,
                source + row_bytes <= bytes@.len(),
                forall|px: int, py: int, c: int|
                    0 <= px < side && 0 <= py < side && 0 <= c < 4 ==> buffer@[#[trigger] texel_index(
                        side,
                        px,
                        py,
                        c,
                    )] == (if at.covers(px, py) && (py - at.y < y || (py - at.y == y && (px
                        - at.x) * 4 + c < t)) {
                        bitmap@.pixels[bitmap@.offset(px - at.x, py - at.y, c)]
                    } else {
                        old(buffer)@[texel_index(side, px, py, c)]
                    }),
            decreases row_bytes - t,
        {
            let ghost before = buffer@;
            let value = bytes[source + t];
            buffer.set(target + t, value);
            proof {
                let x = t as int / 4;
                let d = t as int % 4;
                let qx = left + x;
                let qy = top + y;
                assert(texel_index(side, qx, qy, d) == target + t);
                assert(bitmap@.offset(x, y as int, d) == source + t) by (nonlinear_arith)
                    requires
                        bitmap@.offset(x, y as int, d) == (x + y * width) * 4 + d,
                        source == y * width * 4,
                        t == x * 4 + d,
                ;
                assert forall|px: int, py: int, c: int|
                    0 <= px < side && 0 <= py < side && 0 <= c < 4 implies buffer@[#[trigger] texel_index(
                    side,
                    px,
                    py,
                    c,
                )] == (if at.covers(px, py) && (py - at.y < y || (py - at.y == y && (px - at.x) * 4
                    + c < t + 1)) {
                    bitmap@.pixels[bitmap@.offset(px - at.x, py - at.y, c)]
                } else {
                    old(buffer)@[texel_index(side, px, py, c)]
                }) by {
                    lemma_texel_index_in_range(side, px, py, c);
                    if texel_index(side, px, py, c) == target + t {
                        lemma_texel_index_unique(side, px, py, c, qx, qy, d);
                    } else {
                        assert(buffer@[texel_index(side, px, py, c)] == before[texel_index(
                            side,
                            px,
                            py,
                            c,
                        )]);
                    }
                }
            }
            t = t + 1;
        }
        y = y + 1;
    }
}

/// A texture of the given side that shows the entries.
pub(crate) fn compose(entries: &Vec<AtlasEntry>, rects: &Vec<PackedRect>, side: u32) -> (texture: Vec<u8>)
    requires
        side * side * 4 <= usize::MAX,
        lays_out(rects@, entry_views(entries@), side),
        forall|i: int| 0 <= i < entries@.len() ==> (#[trigger] entries@[i])@.content.wf(),
    ensures
        texture@.len() == side * side * 4,
        forall|px: int, py: int, c: int|
            0 <= px < side && 0 <= py < side && 0 <= c < 4 ==> texture@[#[trigger] texel_index(
                side,
                px,
                py,
                c,
            )] == painted(with_placements(entry_views(entries@), rects@), px, py, c),
{
    assert(side * side <= side * side * 4) by (nonlinear_arith);
    let cells = (side as usize) * (side as usize);
    let mut texture: Vec<u8> = vec![0u8; cells * 4];
    let ghost views = with_placements(entry_views(entries@), rects@);
    let n = entries.len();
    let mut i: usize = 0;
    proof {
        assert(views.take(0) =~= Seq::empty());
        assert forall|px: int, py: int, c: int|
            0 <= px < side && 0 <= py < side && 0 <= c < 4 implies texture@[#[trigger] texel_index(
            side,
            px,
            py,
            c,
        )] == 0 by {
            lemma_texel_index_in_range(side, px, py, c);
        }
    }
    while i < n
        invariant
            n == entries@.len(),
            i <= n,
            side * side * 4 <= usize::MAX,
            texture@.len() == side * side * 4,
            lays_out(rects@, entry_views(entries@), side),
            forall|i: int| 0 <= i < entries@.len() ==> (#[trigger] entries@[i])@.content.wf(),
            views == with_placements(entry_views(entries@), rects@),
            forall|px: int, py: int, c: int|
                0 <= px < side && 0 <= py < side && 0 <= c < 4 ==> texture@[#[trigger] texel_index(
                    side,
                    px,
                    py,
                    c,
                )] == painted(views.take(i as int), px, py, c),
        decreases n - i,
    {
        let ghost before = texture@;
        proof {
            assert(entry_views(entries@)[i as int] == entries@[i as int]@);
        }
        blit(&mut texture, side, rects[i], entries[i].content());
        proof {
            let upto = views.take(i + 1);
            assert(upto.drop_last() =~= views.take(i as int));
            assert(upto[i as int] == views[i as int]);
            assert(views[i as int].placement == Some(rects@[i as int]));
            assert(views[i as int].content == entries@[i as int]@.content);
        }
        i = i + 1;
    }
    proof {
        assert(views.take(n as int) =~= views);
    }
    texture
}

/// The entries, each with the rectangle of the same position as placement.
pub open spec fn with_placements(entries: Seq<Entry>, rects: Seq<PackedRect>) -> Seq<Entry> {
    Seq::new(entries.len(), |i: int| Entry { placement: Some(rects[i]), ..entries[i] })
}

/// Painting shows the bitmap of the last entry that holds a texel, and zero
/// where none does.
pub proof fn lemma_painted(entries: Seq<Entry>, px: int, py: int, c: int)
    ensures
        (forall|i: int| !owns(entries, i, px, py)) ==> painted(entries, px, py, c) == 0,
        forall|i: int|
            owns(entries, i, px, py) && (forall|j: int| i < j ==> !owns(entries, j, px, py))
                ==> painted(entries, px, py, c) == source_byte(entries, i, px, py, c),
    decreases entries.len(),
{
    if entries.len() > 0 {
        let rest = entries.drop_last();
        let last = entries.len() - 1;
        lemma_painted(rest, px, py, c);
        assert forall|i: int| owns(rest, i, px, py) implies owns(entries, i, px, py) by {}
        assert forall|i: int| owns(entries, i, px, py) && i != last implies owns(rest, i, px, py)
            && source_byte(entries, i, px, py, c) == source_byte(rest, i, px, py, c) by {}
        if !owns(entries, last, px, py) {
            assert forall|i: int|
                owns(entries, i, px, py) && (forall|j: int| i < j ==> !owns(entries, j, px, py))
                implies painted(entries, px, py, c) == source_byte(entries, i, px, py, c) by {
                assert(owns(rest, i, px, py));
                assert forall|j: int| i < j implies !owns(rest, j, px, py) by {
                    if owns(rest, j, px, py) {
                        assert(owns(entries, j, px, py));
                    }
                }
            }
            if forall|i: int| !owns(entries, i, px, py) {
                assert forall|i: int| !owns(rest, i, px, py) by {
                    if owns(rest, i, px, py) {
                        assert(owns(entries, i, px, py));
                    }
                }
            }
        } else {
            assert forall|i: int|
                owns(entries, i, px, py) && (forall|j: int| i < j ==> !owns(entries, j, px, py))
                implies painted(entries, px, py, c) == source_byte(entries, i, px, py, c) by {
                if i != last {
                    assert(!owns(entries, last, px, py));
                }
            }
        }
    }
}

/// When no two placements share a pixel, a texture painted entry by entry
/// shows the entries.
pub proof fn lemma_painted_shows(texture: Seq<u8>, entries: Seq<Entry>, side: u32)
    requires
        texture.len() == side * side * 4,
        forall|px: int, py: int, c: int|
            0 <= px < side && 0 <= py < side && 0 <= c < 4 ==> texture[#[trigger] texel_index(
                side,
                px,
                py,
                c,
            )] == painted(entries, px, py, c),
        forall|i: int|
            0 <= i < entries.len() && (#[trigger] entries[i]).placement is Some ==> entries[i].placement->Some_0.inside()
                && entries[i].placement->Some_0.side == side,
        forall|i: int, j: int|
            0 <= i < j < entries.len() && (#[trigger] entries[i]).placement is Some && (
            #[trigger] entries[j]).placement is Some ==> entries[i].placement->Some_0.apart(
                entries[j].placement->Some_0,
            ),
    ensures
        shows(texture, entries, side),
{
    assert forall|i: int, px: int, py: int, c: int|
        #![trigger owns(entries, i, px, py), texel_index(side, px, py, c)]
        owns(entries, i, px, py) && 0 <= c < 4 implies texture[texel_index(side, px, py, c)]
        == source_byte(entries, i, px, py, c) by {
        let at = entries[i].placement->Some_0;
        assert(0 <= px < side && 0 <= py < side);
        lemma_painted(entries, px, py, c);
        assert forall|j: int| i < j implies !owns(entries, j, px, py) by {
            if owns(entries, j, px, py) {
                assert(entries[i].placement->Some_0.apart(entries[j].placement->Some_0));
            }
        }
    }
    assert forall|px: int, py: int, c: int|
        0 <= px < side && 0 <= py < side && 0 <= c < 4 && (forall|i: int|
            !owns(entries, i, px, py)) implies texture[#[trigger] texel_index(side, px, py, c)]
        == 0 by {
        lemma_painted(entries, px, py, c);
    }
}

} // verus!
