//! Finding room: asking the bin packer for locations, checking what it
//! answers, and growing the texture until everything fits.

use vstd::prelude::*;
use rectangle_pack::{GroupedRectsToPlace, RectanglePackOk};
use crate::atlas::{entry_views, Atlas, AtlasEntry, Entry, PackError, PackedRect};
use crate::packing::{
    location, new_rects, no_rects, pack_outcome, pack_square, push_rect, rects_to_place, ungrouped,
};

verus! {

/// `rects` places the entries in a texture of the given side: one rectangle
/// for each entry, in order, of the size of its bitmap, inside the texture,
/// and no two sharing a pixel.
pub open spec fn lays_out(rects: Seq<PackedRect>, entries: Seq<Entry>, side: u32) -> bool {
    &&& rects.len() == entries.len()
    &&& forall|i: int|
        0 <= i < rects.len() ==> {
            &&& (#[trigger] rects[i]).id == entries[i].id
            &&& rects[i].width == entries[i].content.width
            &&& rects[i].height == entries[i].content.height
            &&& rects[i].side == side
            &&& rects[i].inside()
        }
    &&& forall|i: int, j: int|
        0 <= i < j < rects.len() ==> (#[trigger] rects[i]).apart(#[trigger] rects[j])
}

/// The sizes of the bitmaps by identifier: what is handed to the packer.
pub open spec fn sizes(entries: Seq<Entry>) -> Map<u32, (u32, u32)>
    decreases entries.len(),
{
    if entries.len() == 0 {
        no_rects()
    } else {
        sizes(entries.drop_last()).insert(
            entries.last().id,
            (entries.last().content.width, entries.last().content.height),
        )
    }
}

/// A location read from the packer, as a rectangle of a texture.
pub open spec fn rect_at(id: u32, at: (u32, u32, u32, u32), side: u32) -> PackedRect {
    PackedRect { id, x: at.0, y: at.1, width: at.2, height: at.3, side }
}

/// The packer has a location for each of the entries.
pub open spec fn locates_all(locations: Map<u32, (u32, u32, u32, u32)>, entries: Seq<Entry>) -> bool {
    forall|i: int| 0 <= i < entries.len() ==> locations.contains_key((#[trigger] entries[i]).id)
}

/// The rectangles that the packer proposes for the entries at this side, one
/// for each entry, or nothing where it finds no room or leaves an entry out.
pub open spec fn proposal(entries: Seq<Entry>, side: u32) -> Option<Seq<PackedRect>> {
    match pack_outcome(sizes(entries), side) {
        Some(locations) => if locates_all(locations, entries) {
            Some(
                Seq::new(
                    entries.len(),
                    |i: int| rect_at(entries[i].id, locations[entries[i].id], side),
                ),
            )
        } else {
            None
        },
        None => None,
    }
}

/// The outcome of one packing attempt: the packer's proposal, if it really
/// places the entries.
pub open spec fn attempt(entries: Seq<Entry>, side: u32) -> Option<Seq<PackedRect>> {
    match proposal(entries, side) {
        Some(rects) => if lays_out(rects, entries, side) {
            Some(rects)
        } else {
            None
        },
        None => None,
    }
}

/// The side tried after `side` has failed: twice as large, but never more
/// than the ceiling.
pub open spec fn grow(side: u32, max_side: u32) -> u32 {
    if 2 * side > max_side {
        max_side
    } else {
        (2 * side) as u32
    }
}

/// Where growing ends: the first side, starting at `side` and growing step
/// by step, at which an attempt succeeds, with its rectangles; or the
/// ceiling and nothing, if the attempt there fails too.
pub open spec fn settle(entries: Seq<Entry>, side: u32, max_side: u32) -> (u32, Option<Seq<PackedRect>>)
    decreases max_side - side,
{
    if attempt(entries, side) is Some {
        (side, attempt(entries, side))
    } else if side == 0 || side >= max_side {
        (side, None)
    } else {
        settle(entries, grow(side, max_side), max_side)
    }
}

/// Whether `rects` places the entries in a texture of the given side.
pub fn accepts(rects: &Vec<PackedRect>, entries: &Vec<AtlasEntry>, side: u32) -> (ok: bool)
    ensures
        ok == lays_out(rects@, entry_views(entries@), side),
{
    let n = rects.len();
    if n != entries.len() {
        return false;
    }
    let ghost views = entry_views(entries@);
    let mut i: usize = 0;
    while i < n
        invariant
            n == rects@.len(),
            n == entries@.len(),
            views == entry_views(entries@),
            i <= n,
            lays_out(rects@.take(i as int), views.take(i as int), side),
        decreases n - i,
    {
        let rect = &rects[i];
        let entry = &entries[i];
        if rect.id != entry.id() || rect.width != entry.content().width() || rect.height
            != entry.content().height() || rect.side != side || !rect.is_inside() {
            proof {
                assert(views[i as int] == entries@[i as int]@);
            }
            return false;
        }
        let mut j: usize = 0;
        while j < i
            invariant
                n == rects@.len(),
                i < n,
                j <= i,
                rect == rects@[i as int],
                forall|k: int| 0 <= k < j ==> (#[trigger] rects@[k]).apart(*rect),
            decreases i - j,
        {
            if !rects[j].is_apart(rect) {
                return false;
            }
            j = j + 1;
        }
        proof {
            let before = rects@.take(i as int);
            let after = rects@.take(i + 1);
            assert(views[i as int] == entries@[i as int]@);
            assert forall|k: int| 0 <= k < after.len() implies {
                &&& (#[trigger] after[k]).id == views.take(i + 1)[k].id
                &&& after[k].width == views.take(i + 1)[k].content.width
                &&& after[k].height == views.take(i + 1)[k].content.height
                &&& after[k].side == side
                &&& after[k].inside()
            } by {
                if k < i {
                    assert(before[k] == after[k]);
                    assert(views.take(i as int)[k] == views.take(i + 1)[k]);
                }
            }
            assert forall|k: int, l: int| 0 <= k < l < after.len() implies (
            #[trigger] after[k]).apart(#[trigger] after[l]) by {
                if l < i {
                    assert(before[k] == after[k] && before[l] == after[l]);
                } else {
                    assert(rects@[k].apart(*rect));
                }
            }
        }
        i = i + 1;
    }
    proof {
        assert(rects@.take(n as int) =~= rects@);
        assert(views.take(n as int) =~= views);
    }
    true
}

/// Hands the sizes of the entries to the packer.
fn gather(entries: &Vec<AtlasEntry>) -> (group: GroupedRectsToPlace<u32>)
    ensures
        rects_to_place(group) == sizes(entry_views(entries@)),
        ungrouped(group),
{
    let ghost views = entry_views(entries@);
    let mut group = new_rects();
    let n = entries.len();
    let mut i: usize = 0;
    while i < n
        invariant
            n == entries@.len(),
            views == entry_views(entries@),
            i <= n,
            rects_to_place(group) == sizes(views.take(i as int)),
            ungrouped(group),
        decreases n - i,
    {
        let entry = &entries[i];
        push_rect(&mut group, entry.id(), entry.content().width(), entry.content().height());
        proof {
            assert(views.take(i + 1).drop_last() =~= views.take(i as int));
            assert(views.take(i + 1).last() == entries@[i as int]@);
        }
        i = i + 1;
    }
    proof {
        assert(views.take(n as int) =~= views);
    }
    group
}

/// Reads the packer's locations for the entries, in order.
fn read_locations(packed: &RectanglePackOk<u32, i32>, entries: &Vec<AtlasEntry>, side: u32) -> (rects:
    Option<Vec<PackedRect>>)
    ensures
        match rects {
            Some(found) => locates_all(crate::packing::packed_locations(*packed), entry_views(entries@))
                && found@ == Seq::new(
                entries@.len(),
                |i: int|
                    rect_at(
                        entry_views(entries@)[i].id,
                        crate::packing::packed_locations(*packed)[entry_views(entries@)[i].id],
                        side,
                    ),
            ),
            None => !locates_all(crate::packing::packed_locations(*packed), entry_views(entries@)),
        },
{
    let ghost views = entry_views(entries@);
    let ghost locations = crate::packing::packed_locations(*packed);
    let mut rects: Vec<PackedRect> = Vec::new();
    let n = entries.len();
    let mut i: usize = 0;
    while i < n
        invariant
            n == entries@.len(),
            views == entry_views(entries@),
            locations == crate::packing::packed_locations(*packed),
            i <= n,
            rects@.len() == i,
            forall|k: int| 0 <= k < i ==> locations.contains_key((#[trigger] views[k]).id),
            forall|k: int|
                0 <= k < i ==> (#[trigger] rects@[k]) == rect_at(
                    views[k].id,
                    locations[views[k].id],
                    side,
                ),
        decreases n - i,
    {
        let id = entries[i].id();
        proof {
            assert(views[i as int] == entries@[i as int]@);
        }
        match location(packed, id) {
            Some((x, y, width, height)) => {
                rects.push(PackedRect { id, x, y, width, height, side });
            },
            None => {
                return None;
            },
        }
        i = i + 1;
    }
    proof {
        assert(rects@ =~= Seq::new(
            entries@.len(),
            |i: int| rect_at(views[i].id, locations[views[i].id], side),
        ));
    }
    Some(rects)
}

/// One packing attempt at the given side.
pub(crate) fn try_side(entries: &Vec<AtlasEntry>, side: u32) -> (rects: Option<Vec<PackedRect>>)
    ensures
        match rects {
            Some(found) => attempt(entry_views(entries@), side) == Some(found@),
            None => attempt(entry_views(entries@), side) is None,
        },
{
    let group = gather(entries);
    match pack_square(&group, side) {
        Ok(packed) => {
            match read_locations(&packed, entries, side) {
                Some(found) => {
                    if accepts(&found, entries, side) {
                        Some(found)
                    } else {
                        None
                    }
                },
                None => None,
            }
        },
        Err(_) => None,
    }
}

impl Atlas {
    /// Looks for room for all entries, starting at the current side and
    /// growing the texture after each failure, up to the ceiling.
    pub(crate) fn place(&mut self) -> (placed: Result<Vec<PackedRect>, PackError>)
        requires
            old(self).wf(),
            old(self)@.dirty,
        ensures
            final(self).wf(),
            final(self).texture() == old(self).texture(),
            final(self)@ == (crate::atlas::AtlasState {
                side: settle(old(self)@.entries, old(self)@.side, old(self)@.max_side).0,
                ..old(self)@
            }),
            match placed {
                Ok(rects) => settle(old(self)@.entries, old(self)@.side, old(self)@.max_side).1
                    == Some(rects@),
                Err(e) => settle(old(self)@.entries, old(self)@.side, old(self)@.max_side).1
                    is None && e == PackError::OutOfSpace,
            },
    {
        loop
            invariant
                self.wf(),
                self@.dirty,
                self.texture() == old(self).texture(),
                self@ == (crate::atlas::AtlasState { side: self@.side, ..old(self)@ }),
                settle(self@.entries, self@.side, self@.max_side) == settle(
                    old(self)@.entries,
                    old(self)@.side,
                    old(self)@.max_side,
                ),
            decreases self@.max_side - self@.side,
        {
            match try_side(&self.sources, self.size) {
                Some(rects) => {
                    return Ok(rects);
                },
                None => {
                    if self.size >= self.max_size {
                        return Err(PackError::OutOfSpace);
                    }
                    if self.size > self.max_size / 2 {
                        self.size = self.max_size;
                    } else {
                        self.size = self.size * 2;
                    }
                },
            }
        }
    }
}

} // verus!
