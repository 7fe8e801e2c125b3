//! The texture atlas: one square texture into which many bitmaps are packed.
//! Identical bitmaps are stored once, and bitmaps that nobody asked for
//! during a cycle are swept away.

use vstd::prelude::*;
use crate::bitmap::{Bitmap, Content};
use crate::id::IDFactory;
use crate::memory::Memory;

pub mod area;
pub mod compose;
pub mod place;
pub mod repack;

verus! {

/// Where a bitmap sits inside the atlas texture, in pixels, and the side of
/// the texture it was packed into. Dividing a coordinate by `side` gives the
/// normalized texture coordinate in `[0, 1]`.
#[derive(Debug, Copy, Clone, PartialEq, Eq, Structural)]
pub struct PackedRect {
    pub id: u32,
    pub x: u32,
    pub y: u32,
    pub width: u32,
    pub height: u32,
    pub side: u32,
}

impl PackedRect {
    /// The rectangle lies within the texture.
    pub open spec fn inside(self) -> bool {
        self.x + self.width <= self.side && self.y + self.height <= self.side
    }

    /// The pixel (`px`, `py`) belongs to the rectangle.
    pub open spec fn covers(self, px: int, py: int) -> bool {
        self.x <= px < self.x + self.width && self.y <= py < self.y + self.height
    }

    /// The two rectangles share no pixel: one of them is empty, or one ends
    /// before the other begins, along a row or along a column.
    pub open spec fn apart(self, other: PackedRect) -> bool {
        ||| self.width == 0
        ||| self.height == 0
        ||| other.width == 0
        ||| other.height == 0
        ||| self.x + self.width <= other.x
        ||| other.x + other.width <= self.x
        ||| self.y + self.height <= other.y
        ||| other.y + other.height <= self.y
    }

    /// Whether the two rectangles share no pixel.
    pub fn is_apart(&self, other: &PackedRect) -> (apart: bool)
        ensures
            apart == self.apart(*other),
    {
        self.width == 0 || self.height == 0 || other.width == 0 || other.height == 0
            || self.x as u64 + self.width as u64 <= other.x as u64 || other.x as u64
            + other.width as u64 <= self.x as u64 || self.y as u64 + self.height as u64
            <= other.y as u64 || other.y as u64 + other.height as u64 <= self.y as u64
    }

    /// Whether the rectangle lies within its texture.
    pub fn is_inside(&self) -> (inside: bool)
        ensures
            inside == self.inside(),
    {
        self.x as u64 + self.width as u64 <= self.side as u64 && self.y as u64
            + self.height as u64 <= self.side as u64
    }
}

/// Rectangles are apart exactly when no pixel belongs to both.
pub proof fn lemma_apart_shares_no_pixel(first: PackedRect, second: PackedRect)
    ensures
        first.apart(second) <==> forall|px: int, py: int|
            !(first.covers(px, py) && second.covers(px, py)),
{
    if !first.apart(second) {
        let px = if first.x >= second.x {
            first.x as int
        } else {
            second.x as int
        };
        let py = if first.y >= second.y {
            first.y as int
        } else {
            second.y as int
        };
        assert(first.covers(px, py) && second.covers(px, py));
    }
}

/// One bitmap of the atlas as the contracts see it.
pub struct Entry {
    pub id: u32,
    pub content: Content,
    /// Asked for during the current cycle.
    pub referenced: bool,
    /// Where the last successful packing put it; none if it came later.
    pub placement: Option<PackedRect>,
}

impl Entry {
    /// The same entry at the start of a new cycle.
    pub open spec fn rested(self) -> Entry {
        Entry { referenced: false, ..self }
    }

    /// A placement belongs to its entry, has the size of the bitmap and lies
    /// within its texture.
    pub open spec fn placement_fits(self) -> bool {
        match self.placement {
            Some(at) => at.id == self.id && at.width == self.content.width && at.height
                == self.content.height && at.inside(),
            None => true,
        }
    }
}

/// One bitmap held by the atlas.
#[derive(Debug)]
pub struct AtlasEntry {
    id: u32,
    source: Memory<Bitmap>,
    image: Option<PackedRect>,
}

impl View for AtlasEntry {
    type V = Entry;

    closed spec fn view(&self) -> Entry {
        Entry {
            id: self.id,
            content: self.source.value@,
            referenced: self.source.remembered,
            placement: self.image,
        }
    }
}

impl AtlasEntry {
    pub fn id(&self) -> (id: u32)
        ensures
            id == self@.id,
    {
        self.id
    }

    pub fn content(&self) -> (content: &Bitmap)
        ensures
            content@ == self@.content,
    {
        &self.source.value
    }

    pub fn referenced(&self) -> (referenced: bool)
        ensures
            referenced == self@.referenced,
    {
        self.source.remembered
    }

    pub fn placement(&self) -> (placement: Option<PackedRect>)
        ensures
            placement == self@.placement,
    {
        self.image
    }
}

/// The atlas cannot hold its bitmaps even at its largest side.
#[derive(Debug, Copy, Clone, PartialEq, Eq, Structural)]
pub enum PackError {
    OutOfSpace,
}

/// Nothing is known under the identifier: its entry was swept away, or has
/// not been packed yet.
#[derive(Debug, Copy, Clone, PartialEq, Eq, Structural)]
pub struct NotFound {
    pub id: u32,
}

/// The atlas as the contracts see it.
pub struct AtlasState {
    /// The side of the square texture, in pixels.
    pub side: u32,
    /// The side that the texture never exceeds.
    pub max_side: u32,
    /// The bitmaps, oldest first.
    pub entries: Seq<Entry>,
    /// Bitmaps were added since the last successful packing.
    pub dirty: bool,
    /// The identifier that the next new bitmap gets.
    pub next_id: u32,
}

/// The entries that outlive a sweep: those asked for during the cycle, in
/// order, each rested for the next cycle.
pub open spec fn survivors(entries: Seq<Entry>) -> Seq<Entry>
    decreases entries.len(),
{
    if entries.len() == 0 {
        Seq::empty()
    } else if entries.first().referenced {
        seq![entries.first().rested()] + survivors(entries.drop_first())
    } else {
        survivors(entries.drop_first())
    }
}

impl AtlasState {
    /// The identifiers increase along the entries and lie below the next one
    /// to be given out.
    pub open spec fn ids_ordered(self) -> bool {
        &&& forall|i: int, j: int|
            0 <= i < j < self.entries.len() ==> (#[trigger] self.entries[i]).id < (
            #[trigger] self.entries[j]).id
        &&& forall|i: int|
            0 <= i < self.entries.len() ==> (#[trigger] self.entries[i]).id < self.next_id
    }

    /// No two entries hold the same bitmap.
    pub open spec fn contents_distinct(self) -> bool {
        forall|i: int, j: int|
            0 <= i < j < self.entries.len() ==> (#[trigger] self.entries[i]).content != (
            #[trigger] self.entries[j]).content
    }

    /// The placements match their entries, lie inside one texture no larger
    /// than the current one, and no two of them share a pixel.
    pub open spec fn placements_sound(self) -> bool {
        &&& forall|i: int|
            0 <= i < self.entries.len() ==> (#[trigger] self.entries[i]).placement_fits()
        &&& forall|i: int|
            0 <= i < self.entries.len() && (#[trigger] self.entries[i]).placement is Some
                ==> self.entries[i].placement->Some_0.side <= self.side
        &&& forall|i: int, j: int|
            0 <= i < j < self.entries.len() && (#[trigger] self.entries[i]).placement is Some && (
            #[trigger] self.entries[j]).placement is Some ==> {
                let first = self.entries[i].placement->Some_0;
                let second = self.entries[j].placement->Some_0;
                first.apart(second) && first.side == second.side
            }
    }

    /// Unless bitmaps were added since, every entry is placed in the current
    /// texture.
    pub open spec fn packed_when_clean(self) -> bool {
        !self.dirty ==> forall|i: int|
            0 <= i < self.entries.len() ==> (#[trigger] self.entries[i]).placement is Some
                && self.entries[i].placement->Some_0.side == self.side
    }

    /// The invariant of the atlas.
    pub open spec fn wf(self) -> bool {
        &&& 0 < self.side <= self.max_side
        &&& self.max_side * self.max_side * 4 <= usize::MAX
        &&& forall|i: int| 0 <= i < self.entries.len() ==> (#[trigger] self.entries[i]).content.wf()
        &&& self.ids_ordered()
        &&& self.contents_distinct()
        &&& self.placements_sound()
        &&& self.packed_when_clean()
    }

    /// An entry holds this bitmap.
    pub open spec fn holds(self, content: Content) -> bool {
        exists|i: int| 0 <= i < self.entries.len() && (#[trigger] self.entries[i]).content == content
    }

    /// The position of the entry that holds this bitmap.
    pub open spec fn position(self, content: Content) -> int {
        choose|i: int| 0 <= i < self.entries.len() && (#[trigger] self.entries[i]).content == content
    }

    /// What `add` does: a bitmap already held is marked as asked for and its
    /// identifier is returned; a new one is appended under the next
    /// identifier, marked, and the atlas becomes dirty.
    pub open spec fn add(self, content: Content) -> (AtlasState, u32) {
        if self.holds(content) {
            let at = self.position(content);
            let marked = Entry { referenced: true, ..self.entries[at] };
            (AtlasState { entries: self.entries.update(at, marked), ..self }, self.entries[at].id)
        } else {
            let entry = Entry {
                id: self.next_id,
                content,
                referenced: true,
                placement: None,
            };
            (
                AtlasState {
                    entries: self.entries.push(entry),
                    dirty: true,
                    next_id: (self.next_id + 1) as u32,
                    ..self
                },
                self.next_id,
            )
        }
    }

    /// An entry has this identifier.
    pub open spec fn knows(self, id: u32) -> bool {
        exists|i: int| 0 <= i < self.entries.len() && (#[trigger] self.entries[i]).id == id
    }

    /// The position of the entry with this identifier.
    pub open spec fn index_of(self, id: u32) -> int {
        choose|i: int| 0 <= i < self.entries.len() && (#[trigger] self.entries[i]).id == id
    }

    /// What `keep` does: the entry with this identifier, if there is one, is
    /// marked as asked for.
    pub open spec fn keep(self, id: u32) -> AtlasState {
        if self.knows(id) {
            let at = self.index_of(id);
            AtlasState {
                entries: self.entries.update(at, Entry { referenced: true, ..self.entries[at] }),
                ..self
            }
        } else {
            self
        }
    }

    /// What `sweep` does: only the entries asked for stay, rested.
    pub open spec fn sweep(self) -> AtlasState {
        AtlasState { entries: survivors(self.entries), ..self }
    }

    /// An entry with this identifier has a placement.
    pub open spec fn placed(self, id: u32) -> bool {
        exists|i: int|
            0 <= i < self.entries.len() && (#[trigger] self.entries[i]).id == id
                && self.entries[i].placement is Some
    }

    /// The placements by identifier.
    pub open spec fn placements(self) -> Map<u32, PackedRect> {
        Map::new(
            |id: u32| self.placed(id),
            |id: u32|
                {
                    let i = choose|i: int|
                        0 <= i < self.entries.len() && (#[trigger] self.entries[i]).id == id
                            && self.entries[i].placement is Some;
                    self.entries[i].placement->Some_0
                },
        )
    }
}

/// The views of the entries of a list.
pub open spec fn entry_views(sources: Seq<AtlasEntry>) -> Seq<Entry> {
    Seq::new(sources.len(), |i: int| sources[i]@)
}

/// A growable square texture that deduplicates the bitmaps it is given.
#[derive(Debug)]
pub struct Atlas {
    id_factory: IDFactory,
    sources: Vec<AtlasEntry>,
    size: u32,
    max_size: u32,
    pixels: Vec<u8>,
    edited: bool,
}

impl View for Atlas {
    type V = AtlasState;

    closed spec fn view(&self) -> AtlasState {
        AtlasState {
            side: self.size,
            max_side: self.max_size,
            entries: entry_views(self.sources@),
            dirty: self.edited,
            next_id: self.id_factory.upcoming(),
        }
    }
}

impl Atlas {
    /// The bytes of the texture as last composed: `side * side` pixels of
    /// four bytes, row after row.
    pub closed spec fn texture(&self) -> Seq<u8> {
        self.pixels@
    }

    /// The invariant of the atlas.
    pub open spec fn wf(&self) -> bool {
        self@.wf()
    }

    /// An empty atlas whose texture has the given side and never grows past
    /// `max_size`.
    pub fn new(size: u32, max_size: u32) -> (atlas: Self)
        requires
            0 < size <= max_size,
            max_size * max_size * 4 <= usize::MAX,
        ensures
            atlas.wf(),
            atlas@ == (AtlasState {
                side: size,
                max_side: max_size,
                entries: Seq::empty(),
                dirty: false,
                next_id: 0,
            }),
            atlas.texture() == Seq::<u8>::empty(),
    {
        let atlas = Atlas {
            id_factory: IDFactory::new(),
            sources: Vec::new(),
            size,
            max_size,
            pixels: Vec::new(),
            edited: false,
        };
        assert(atlas@.entries =~= Seq::empty());
        atlas
    }

    /// The side of the texture, in pixels.
    pub fn size(&self) -> (size: u32)
        ensures
            size == self@.side,
    {
        self.size
    }

    /// The side that the texture never exceeds.
    pub fn max_size(&self) -> (max_size: u32)
        ensures
            max_size == self@.max_side,
    {
        self.max_size
    }

    /// Whether bitmaps were added since the last successful packing.
    pub fn dirty(&self) -> (dirty: bool)
        ensures
            dirty == self@.dirty,
    {
        self.edited
    }

    /// The number of bitmaps held.
    pub fn len(&self) -> (n: usize)
        ensures
            n == self@.entries.len(),
    {
        self.sources.len()
    }

    /// The entries, oldest first.
    pub fn entries(&self) -> (entries: &Vec<AtlasEntry>)
        ensures
            entry_views(entries@) == self@.entries,
    {
        &self.sources
    }

    /// The bytes of the texture as last composed.
    pub fn pixels(&self) -> (pixels: &Vec<u8>)
        ensures
            pixels@ == self.texture(),
    {
        &self.pixels
    }

    /// Whether a bitmap that is not held yet can still get an identifier.
    pub fn has_spare_id(&self) -> (spare: bool)
        ensures
            spare == (self@.next_id < u32::MAX),
    {
        !self.id_factory.exhausted()
    }

    /// The placement of the entry `id`, or `NotFound` if no entry with that
    /// identifier has one.
    pub fn get(&self, id: u32) -> (found: Result<PackedRect, NotFound>)
        requires
            self.wf(),
        ensures
            match found {
                Ok(at) => self@.placements().contains_key(id) && self@.placements()[id] == at
                    && at.id == id && at.inside() && at.side <= self@.side,
                Err(missing) => !self@.placements().contains_key(id) && missing.id == id,
            },
    {
        let n = self.sources.len();
        let mut i: usize = 0;
        while i < n
            invariant
                n == self.sources@.len(),
                i <= n,
                self.wf(),
                forall|j: int| 0 <= j < i ==> (#[trigger] self@.entries[j]).id != id,
            decreases n - i,
        {
            if self.sources[i].id == id {
                proof {
                    let entries = self@.entries;
                    assert(entries[i as int].id == id);
                    assert forall|j: int| 0 <= j < entries.len() && j != i implies (
                    #[trigger] entries[j]).id != id by {
                        if j < i {
                            assert(entries[j].id < entries[i as int].id);
                        } else {
                            assert(entries[i as int].id < entries[j].id);
                        }
                    }
                }
                proof {
                    assert(self@.entries[i as int].placement_fits());
                }
                return match self.sources[i].image {
                    Some(at) => Ok(at),
                    None => Err(NotFound { id }),
                };
            }
            i = i + 1;
        }
        Err(NotFound { id })
    }

    /// Registers a bitmap and returns its identifier. A bitmap whose bytes
    /// and size equal those of an entry is not stored again: that entry is
    /// marked as asked for and its identifier returned.
    pub fn add(&mut self, source: Bitmap) -> (id: u32)
        requires
            old(self).wf(),
            source@.wf(),
            !old(self)@.holds(source@) ==> old(self)@.next_id < u32::MAX,
        ensures
            final(self).wf(),
            (final(self)@, id) == old(self)@.add(source@),
            final(self).texture() == old(self).texture(),
    {
        let n = self.sources.len();
        let mut i: usize = 0;
        while i < n
            invariant
                n == self.sources@.len(),
                i <= n,
                *self == *old(self),
                self.wf(),
                source@.wf(),
                !self@.holds(source@) ==> self@.next_id < u32::MAX,
                forall|j: int| 0 <= j < i ==> (#[trigger] self@.entries[j]).content != source@,
            decreases n - i,
        {
            if self.sources[i].source.value.same_content(&source) {
                let ghost before = self@;
                proof {
                    assert(before.entries[i as int].content == source@);
                    assert(before.holds(source@));
                    let at = before.position(source@);
                    if at != i {
                        if at < i {
                            assert(before.entries[at].content != before.entries[i as int].content);
                        } else {
                            assert(before.entries[i as int].content != before.entries[at].content);
                        }
                    }
                }
                self.sources[i].source.remembered = true;
                let id = self.sources[i].id;
                proof {
                    let marked = Entry { referenced: true, ..before.entries[i as int] };
                    assert(self@.entries =~= before.entries.update(i as int, marked));
                    assert(self@ == before.add(source@).0);
                    lemma_add_keeps_wf(before, source@);
                }
                return id;
            }
            i = i + 1;
        }
        let ghost before = self@;
        proof {
            assert(!before.holds(source@));
            lemma_add_keeps_wf(before, source@);
        }
        let id = self.id_factory.next();
        self.sources.push(
            AtlasEntry { id, source: Memory { value: source, remembered: true }, image: None },
        );
        self.edited = true;
        proof {
            assert(self@.entries =~= before.add(source@).0.entries);
        }
        id
    }

    /// Asks for a bitmap that the atlas holds already, by its identifier, so
    /// that the next sweep leaves it. Reports `NotFound` where no entry has
    /// the identifier.
    pub fn keep(&mut self, id: u32) -> (outcome: Result<(), NotFound>)
        requires
            old(self).wf(),
        ensures
            final(self).wf(),
            final(self)@ == old(self)@.keep(id),
            final(self).texture() == old(self).texture(),
            match outcome {
                Ok(_) => old(self)@.knows(id),
                Err(missing) => !old(self)@.knows(id) && missing.id == id,
            },
    {
        let n = self.sources.len();
        let mut i: usize = 0;
        while i < n
            invariant
                n == self.sources@.len(),
                i <= n,
                *self == *old(self),
                self.wf(),
                forall|j: int| 0 <= j < i ==> (#[trigger] self@.entries[j]).id != id,
            decreases n - i,
        {
            if self.sources[i].id == id {
                let ghost before = self@;
                proof {
                    assert(before.entries[i as int].id == id);
                    let at = before.index_of(id);
                    if at < i {
                        assert(before.entries[at].id < before.entries[i as int].id);
                    } else if i < at {
                        assert(before.entries[i as int].id < before.entries[at].id);
                    }
                }
                self.sources[i].source.remembered = true;
                proof {
                    let marked = Entry { referenced: true, ..before.entries[i as int] };
                    assert(self@.entries =~= before.entries.update(i as int, marked));
                    lemma_keep_keeps_wf(before, id);
                }
                return Ok(());
            }
            i = i + 1;
        }
        Err(NotFound { id })
    }

    /// Ends a cycle: drops every entry that was not asked for, and rests the
    /// others for the next cycle.
    pub fn sweep(&mut self)
        requires
            old(self).wf(),
        ensures
            final(self).wf(),
            final(self)@ == old(self)@.sweep(),
            final(self).texture() == old(self).texture(),
    {
        let ghost before = self@;
        let mut i: usize = self.sources.len();
        proof {
            assert(before.entries.take(i as int) =~= before.entries);
            assert(before.entries.skip(i as int) =~= Seq::empty());
            assert(before.entries.take(i as int) + survivors(before.entries.skip(i as int))
                =~= before.entries);
        }
        while i > 0
            invariant
                i <= before.entries.len(),
                i <= self.sources@.len(),
                before == old(self)@,
                self@.entries == before.entries.take(i as int) + survivors(
                    before.entries.skip(i as int),
                ),
                self@.side == before.side,
                self@.max_side == before.max_side,
                self@.dirty == before.dirty,
                self@.next_id == before.next_id,
                self.texture() == old(self).texture(),
            decreases i,
        {
            i = i - 1;
            let ghost current = self@.entries;
            let ghost tail = before.entries.skip(i as int);
            let ghost later = survivors(before.entries.skip(i + 1));
            proof {
                assert(tail.len() > 0);
                assert(tail.first() == before.entries[i as int]);
                assert(tail.drop_first() =~= before.entries.skip(i + 1));
                assert(current == before.entries.take(i + 1) + later);
                assert(current[i as int] == before.entries[i as int]);
                assert(current.len() == i + 1 + later.len());
            }
            if self.sources[i].source.remembered {
                self.sources[i].source.remembered = false;
                proof {
                    assert(survivors(tail) == seq![before.entries[i as int].rested()] + later);
                    assert(self@.entries.len() == current.len());
                    assert forall|j: int| 0 <= j < current.len() implies self@.entries[j] == (
                    before.entries.take(i as int) + survivors(tail))[j] by {
                        if j < i {
                            assert(self@.entries[j] == current[j]);
                        } else if j == i {
                            assert(self@.entries[j] == current[j].rested());
                        } else {
                            assert(self@.entries[j] == current[j]);
                            assert(current[j] == later[j - i - 1]);
                        }
                    }
                    assert(self@.entries =~= before.entries.take(i as int) + survivors(tail));
                }
            } else {
                self.sources.remove(i);
                proof {
                    assert(survivors(tail) == later);
                    assert(self@.entries.len() == current.len() - 1);
                    assert forall|j: int| 0 <= j < current.len() - 1 implies self@.entries[j] == (
                    before.entries.take(i as int) + survivors(tail))[j] by {
                        if j < i {
                            assert(self@.entries[j] == current[j]);
                        } else {
                            assert(self@.entries[j] == current[j + 1]);
                            assert(current[j + 1] == later[j - i]);
                        }
                    }
                    assert(self@.entries =~= before.entries.take(i as int) + survivors(tail));
                }
            }
        }
        proof {
            assert(before.entries.skip(0) =~= before.entries);
            assert(self@.entries =~= survivors(before.entries));
            lemma_sweep_keeps_wf(before);
        }
    }
}

/// Asking for an entry again keeps the invariant of the atlas.
pub proof fn lemma_keep_keeps_wf(state: AtlasState, id: u32)
    requires
        state.wf(),
    ensures
        state.keep(id).wf(),
{
    let after = state.keep(id);
    if state.knows(id) {
        assert forall|i: int| 0 <= i < after.entries.len() implies (
        #[trigger] after.entries[i]).content == state.entries[i].content && after.entries[i].id
            == state.entries[i].id && after.entries[i].placement == state.entries[i].placement by {}
        assert(after.placements_sound()) by {
            assert forall|i: int| 0 <= i < after.entries.len() implies (
            #[trigger] after.entries[i]).placement_fits() by {
                assert(state.entries[i].placement_fits());
            }
        }
    }
}

/// Adding a bitmap keeps the invariant of the atlas.
pub proof fn lemma_add_keeps_wf(state: AtlasState, content: Content)
    requires
        state.wf(),
        content.wf(),
        !state.holds(content) ==> state.next_id < u32::MAX,
    ensures
        state.add(content).0.wf(),
{
    let after = state.add(content).0;
    if state.holds(content) {
        let at = state.position(content);
        assert forall|i: int| 0 <= i < after.entries.len() implies (
        #[trigger] after.entries[i]).content == state.entries[i].content && after.entries[i].id
            == state.entries[i].id && after.entries[i].placement == state.entries[i].placement by {}
        assert(after.placements_sound()) by {
            assert forall|i: int| 0 <= i < after.entries.len() implies (
            #[trigger] after.entries[i]).placement_fits() by {
                assert(state.entries[i].placement_fits());
            }
        }
    } else {
        let n = state.entries.len() as int;
        assert forall|i: int| 0 <= i < n implies (#[trigger] after.entries[i]) == state.entries[i] by {}
        assert(after.contents_distinct()) by {
            assert forall|i: int, j: int| 0 <= i < j < after.entries.len() implies (
            #[trigger] after.entries[i]).content != (#[trigger] after.entries[j]).content by {
                if j == n {
                    assert(state.entries[i].content != content);
                }
            }
        }
        assert(after.placements_sound()) by {
            assert forall|i: int| 0 <= i < after.entries.len() implies (
            #[trigger] after.entries[i]).placement_fits() by {
                if i < n {
                    assert(state.entries[i].placement_fits());
                }
            }
        }
    }
}

/// Every survivor of a sweep is an entry that was asked for, rested, and the
/// survivors keep their order.
pub proof fn lemma_survivors(entries: Seq<Entry>)
    ensures
        survivors(entries).len() <= entries.len(),
        forall|k: int|
            #![trigger survivors(entries)[k]]
            0 <= k < survivors(entries).len() ==> exists|i: int|
                k <= i < entries.len() && (#[trigger] entries[i]).referenced && survivors(
                    entries,
                )[k] == entries[i].rested(),
        forall|k: int, l: int|
            #![trigger survivors(entries)[k], survivors(entries)[l]]
            0 <= k < l < survivors(entries).len() ==> exists|i: int, j: int|
                0 <= i < j < entries.len() && (#[trigger] entries[i]).rested() == survivors(
                    entries,
                )[k] && (#[trigger] entries[j]).rested() == survivors(entries)[l]
                    && entries[i].referenced && entries[j].referenced,
    decreases entries.len(),
{
    if entries.len() > 0 {
        let rest = entries.drop_first();
        lemma_survivors(rest);
        let kept = survivors(entries);
        let shift: int = if entries.first().referenced {
            1
        } else {
            0
        };
        assert forall|k: int| 0 <= k < kept.len() implies exists|i: int|
            k <= i < entries.len() && (#[trigger] entries[i]).referenced && (#[trigger] kept[k])
                == entries[i].rested() by {
            if shift == 1 && k == 0 {
                assert(entries[0].referenced && kept[0] == entries[0].rested());
            } else {
                let i = choose|i: int|
                    k - shift <= i < rest.len() && (#[trigger] rest[i]).referenced && survivors(
                        rest,
                    )[k - shift] == rest[i].rested();
                assert(entries[i + 1] == rest[i]);
            }
        }
        assert forall|k: int, l: int|
            #![trigger kept[k], kept[l]]
            0 <= k < l < kept.len() implies exists|i: int, j: int|
            0 <= i < j < entries.len() && (#[trigger] entries[i]).rested() == kept[k] && (
            #[trigger] entries[j]).rested() == kept[l] && entries[i].referenced
                && entries[j].referenced by {
            if shift == 1 && k == 0 {
                let j = choose|j: int|
                    l - 1 <= j < rest.len() && (#[trigger] rest[j]).referenced && survivors(
                        rest,
                    )[l - 1] == rest[j].rested();
                assert(entries[j + 1] == rest[j]);
                assert(entries[0].rested() == kept[0] && entries[j + 1].rested() == kept[l]);
            } else {
                let (i, j) = choose|i: int, j: int|
                    0 <= i < j < rest.len() && (#[trigger] rest[i]).rested() == survivors(rest)[k
                        - shift] && (#[trigger] rest[j]).rested() == survivors(rest)[l - shift]
                        && rest[i].referenced && rest[j].referenced;
                assert(entries[i + 1] == rest[i] && entries[j + 1] == rest[j]);
                assert(entries[i + 1].rested() == kept[k] && entries[j + 1].rested() == kept[l]);
            }
        }
    }
}

/// Sweeping keeps the invariant of the atlas.
pub proof fn lemma_sweep_keeps_wf(state: AtlasState)
    requires
        state.wf(),
    ensures
        state.sweep().wf(),
{
    let after = state.sweep();
    lemma_survivors(state.entries);
    assert forall|k: int| 0 <= k < after.entries.len() implies (
    #[trigger] after.entries[k]).content.wf() && after.entries[k].id < after.next_id
        && after.entries[k].placement_fits() && (after.entries[k].placement is Some
        ==> after.entries[k].placement->Some_0.side <= after.side) && (!after.dirty ==> (
    after.entries[k].placement is Some && after.entries[k].placement->Some_0.side
        == after.side)) by {
        let i = choose|i: int|
            k <= i < state.entries.len() && (#[trigger] state.entries[i]).referenced
                && after.entries[k] == state.entries[i].rested();
        assert(state.entries[i].placement_fits());
    }
    assert forall|k: int, l: int| 0 <= k < l < after.entries.len() implies (
    #[trigger] after.entries[k]).id < (#[trigger] after.entries[l]).id && after.entries[k].content
        != after.entries[l].content && ((after.entries[k].placement is Some
        && after.entries[l].placement is Some) ==> (after.entries[k].placement->Some_0.apart(
        after.entries[l].placement->Some_0,
    ) && after.entries[k].placement->Some_0.side == after.entries[l].placement->Some_0.side)) by {
        let (i, j) = choose|i: int, j: int|
            0 <= i < j < state.entries.len() && (#[trigger] state.entries[i]).rested()
                == after.entries[k] && (#[trigger] state.entries[j]).rested() == after.entries[l]
                && state.entries[i].referenced && state.entries[j].referenced;
        assert(state.entries[i].id < state.entries[j].id);
    }
}

/// Adding the same bitmap twice gives the same identifier both times, and
/// the second call changes nothing: no entry is added.
pub proof fn lemma_add_twice_same_id(state: AtlasState, content: Content)
    requires
        state.wf(),
        content.wf(),
        !state.holds(content) ==> state.next_id < u32::MAX,
    ensures
        ({
            let (once, first_id) = state.add(content);
            let (twice, second_id) = once.add(content);
            &&& first_id == second_id
            &&& twice.entries.len() == once.entries.len()
            &&& twice == once
            &&& state.holds(content) ==> once.entries.len() == state.entries.len()
        }),
{
    let (once, first_id) = state.add(content);
    lemma_add_keeps_wf(state, content);
    if state.holds(content) {
        let at = state.position(content);
        assert(once.entries[at].content == content);
    } else {
        assert(once.entries[state.entries.len() as int].content == content);
    }
    assert(once.holds(content));
    let again = once.position(content);
    assert(once.entries[again].id == first_id) by {
        if state.holds(content) {
            let at = state.position(content);
            if again != at {
                if again < at {
                    assert(once.entries[again].content != once.entries[at].content);
                } else {
                    assert(once.entries[at].content != once.entries[again].content);
                }
            }
        } else {
            let last = state.entries.len() as int;
            if again != last {
                assert(once.entries[again].content != once.entries[last].content);
            }
        }
    }
    let (twice, second_id) = once.add(content);
    assert(twice.entries =~= once.entries);
}

/// An entry that was asked for during the cycle outlives the sweep, rested.
pub proof fn lemma_sweep_keeps_requested(entries: Seq<Entry>, i: int)
    requires
        0 <= i < entries.len(),
        entries[i].referenced,
    ensures
        survivors(entries).contains(entries[i].rested()),
    decreases entries.len(),
{
    let rest = entries.drop_first();
    let kept = survivors(entries);
    if i == 0 {
        assert(kept[0] == entries[0].rested());
    } else {
        lemma_sweep_keeps_requested(rest, i - 1);
        let k = choose|k: int| 0 <= k < survivors(rest).len() && survivors(rest)[k] == rest[i
            - 1].rested();
        if entries.first().referenced {
            assert(kept[k + 1] == entries[i].rested());
        } else {
            assert(kept[k] == entries[i].rested());
        }
    }
}

/// An entry that was not asked for during the cycle is gone after the sweep:
/// no survivor carries its identifier. Every survivor is rested.
pub proof fn lemma_sweep_drops_unrequested(state: AtlasState, i: int)
    requires
        state.wf(),
        0 <= i < state.entries.len(),
        !state.entries[i].referenced,
    ensures
        forall|k: int|
            0 <= k < state.sweep().entries.len() ==> (#[trigger] state.sweep().entries[k]).id
                != state.entries[i].id,
        forall|k: int|
            0 <= k < state.sweep().entries.len() ==> !(#[trigger] state.sweep().entries[k]).referenced,
        !state.sweep().placements().contains_key(state.entries[i].id),
{
    lemma_survivors(state.entries);
    let after = state.sweep();
    assert forall|k: int| 0 <= k < after.entries.len() implies (#[trigger] after.entries[k]).id
        != state.entries[i].id && !after.entries[k].referenced by {
        let j = choose|j: int|
            k <= j < state.entries.len() && (#[trigger] state.entries[j]).referenced
                && after.entries[k] == state.entries[j].rested();
        if j < i {
            assert(state.entries[j].id < state.entries[i].id);
        } else if i < j {
            assert(state.entries[i].id < state.entries[j].id);
        }
    }
}

} // verus!
