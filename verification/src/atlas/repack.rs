//! Repacking: laying the entries out anew and composing the texture.

use vstd::prelude::*;
use crate::atlas::{entry_views, Atlas, AtlasState, Entry, PackError, PackedRect};
use crate::atlas::compose::{compose, lemma_painted_shows, shows, with_placements};
use crate::atlas::place::{accepts, attempt, grow, lays_out, settle};

verus! {

impl AtlasState {
    /// What `repack` does. A clean atlas stays as it is. A dirty one grows
    /// until an attempt succeeds: then every entry has its new placement and
    /// the atlas is clean. Where even the attempt at the ceiling fails, the
    /// side stays at the ceiling, nothing else changes, and the error is
    /// reported.
    pub open spec fn repack(self) -> (AtlasState, Result<(), PackError>) {
        if !self.dirty {
            (self, Ok(()))
        } else {
            let (side, layout) = settle(self.entries, self.side, self.max_side);
            match layout {
                Some(rects) => (
                    AtlasState {
                        side,
                        entries: with_placements(self.entries, rects),
                        dirty: false,
                        ..self
                    },
                    Ok(()),
                ),
                None => (AtlasState { side, ..self }, Err(PackError::OutOfSpace)),
            }
        }
    }
}

/// Growing ends at a side between the first one and the ceiling; where it
/// ends with rectangles, they place the entries at that side; where it ends
/// without, it ends at the ceiling.
pub proof fn lemma_settle(entries: Seq<Entry>, side: u32, max_side: u32)
    requires
        0 < side <= max_side,
    ensures
        side <= settle(entries, side, max_side).0 <= max_side,
        settle(entries, side, max_side).1 matches Some(rects) ==> lays_out(
            rects,
            entries,
            settle(entries, side, max_side).0,
        ),
        settle(entries, side, max_side).1 is None ==> settle(entries, side, max_side).0
            == max_side,
    decreases max_side - side,
{
    if attempt(entries, side) is Some {
    } else if side >= max_side {
    } else {
        lemma_settle(entries, grow(side, max_side), max_side);
    }
}

/// Taking over a layout keeps the invariant of the atlas.
pub proof fn lemma_layout_keeps_wf(state: AtlasState, rects: Seq<PackedRect>)
    requires
        state.wf(),
        lays_out(rects, state.entries, state.side),
    ensures
        (AtlasState { entries: with_placements(state.entries, rects), dirty: false, ..state }).wf(),
{
    let after = AtlasState { entries: with_placements(state.entries, rects), dirty: false, ..state };
    assert forall|i: int| 0 <= i < after.entries.len() implies (
    #[trigger] after.entries[i]).placement_fits() && after.entries[i].content.wf()
        && after.entries[i].id == state.entries[i].id && after.entries[i].content
        == state.entries[i].content && after.entries[i].placement == Some(rects[i]) by {}
}

/// Repacking keeps the invariant of the atlas.
pub proof fn lemma_repack_keeps_wf(state: AtlasState)
    requires
        state.wf(),
    ensures
        state.repack().0.wf(),
{
    if state.dirty {
        lemma_settle(state.entries, state.side, state.max_side);
        let (side, layout) = settle(state.entries, state.side, state.max_side);
        let after = state.repack().0;
        match layout {
            Some(rects) => {
                assert forall|i: int| 0 <= i < after.entries.len() implies (
                #[trigger] after.entries[i]).placement_fits() && after.entries[i].content.wf()
                    && after.entries[i].id == state.entries[i].id && after.entries[i].content
                    == state.entries[i].content && after.entries[i].placement == Some(rects[i]) by {}
            },
            None => {
                assert forall|i: int| 0 <= i < after.entries.len() implies (
                #[trigger] after.entries[i]).placement_fits() by {
                    assert(state.entries[i].placement_fits());
                }
            },
        }
    }
}

impl Atlas {
    /// Gives every entry its rectangle and composes the texture.
    fn install(&mut self, rects: &Vec<PackedRect>)
        requires
            old(self).wf(),
            lays_out(rects@, old(self)@.entries, old(self)@.side),
        ensures
            final(self).wf(),
            final(self)@ == (AtlasState {
                entries: with_placements(old(self)@.entries, rects@),
                dirty: false,
                ..old(self)@
            }),
            shows(final(self).texture(), final(self)@.entries, final(self)@.side),
    {
        let ghost before = self@;
        proof {
            assert(self.size * self.size * 4 <= usize::MAX) by (nonlinear_arith)
                requires
                    0 < self.size <= self.max_size,
                    self.max_size * self.max_size * 4 <= usize::MAX,
            ;
            assert forall|i: int| 0 <= i < self.sources@.len() implies (
            #[trigger] self.sources@[i])@.content.wf() by {
                assert(self@.entries[i] == self.sources@[i]@);
            }
        }
        let texture = compose(&self.sources, rects, self.size);
        let ghost target = with_placements(before.entries, rects@);
        let n = self.sources.len();
        let mut i: usize = 0;
        while i < n
            invariant
                n == self.sources@.len(),
                n == rects@.len(),
                n == before.entries.len(),
                i <= n,
                target == with_placements(before.entries, rects@),
                self@.side == before.side,
                self@.max_side == before.max_side,
                self@.dirty == before.dirty,
                self@.next_id == before.next_id,
                forall|k: int| 0 <= k < i ==> (#[trigger] self@.entries[k]) == target[k],
                forall|k: int| i <= k < n ==> (#[trigger] self@.entries[k]) == before.entries[k],
            decreases n - i,
        {
            let ghost earlier = self.sources@;
            proof {
                assert(self@.entries[i as int] == earlier[i as int]@);
            }
            self.sources[i].image = Some(rects[i]);
            proof {
                assert forall|k: int| 0 <= k < n implies (#[trigger] self@.entries[k]) == (
                if k == i {
                    target[k]
                } else {
                    entry_views(earlier)[k]
                }) by {
                    assert(self@.entries[k] == self.sources@[k]@);
                    assert(entry_views(earlier)[k] == earlier[k]@);
                }
            }
            i = i + 1;
        }
        proof {
            assert(self@.entries.len() == n);
            assert(self@.entries =~= target);
        }
        self.pixels = texture;
        self.edited = false;
        proof {
            assert(self@.entries == target);
            lemma_painted_shows(self.pixels@, target, self.size);
            lemma_layout_keeps_wf(before, rects@);
        }
    }

    /// Takes over a layout found elsewhere: if `rects` places the entries in
    /// the texture as it is, every entry gets its rectangle, the texture is
    /// composed and the atlas is clean. Otherwise nothing changes.
    pub fn lay_out(&mut self, rects: &Vec<PackedRect>) -> (taken: bool)
        requires
            old(self).wf(),
        ensures
            final(self).wf(),
            taken == lays_out(rects@, old(self)@.entries, old(self)@.side),
            taken ==> final(self)@ == (AtlasState {
                entries: with_placements(old(self)@.entries, rects@),
                dirty: false,
                ..old(self)@
            }) && shows(final(self).texture(), final(self)@.entries, final(self)@.side),
            !taken ==> final(self)@ == old(self)@ && final(self).texture() == old(self).texture(),
    {
        if accepts(rects, &self.sources, self.size) {
            self.install(rects);
            true
        } else {
            false
        }
    }

    /// Lays out the entries anew if bitmaps were added since the last
    /// packing, growing the texture as far as needed and allowed, and
    /// composes the texture. A clean atlas is left untouched.
    pub fn repack(&mut self) -> (outcome: Result<(), PackError>)
        requires
            old(self).wf(),
        ensures
            final(self).wf(),
            (final(self)@, outcome) == old(self)@.repack(),
            old(self)@.dirty && outcome is Ok ==> shows(
                final(self).texture(),
                final(self)@.entries,
                final(self)@.side,
            ),
            !(old(self)@.dirty && outcome is Ok) ==> final(self).texture() == old(self).texture(),
    {
        if !self.edited {
            return Ok(());
        }
        proof {
            lemma_settle(self@.entries, self@.side, self@.max_side);
        }
        match self.place() {
            Ok(rects) => {
                self.install(&rects);
                Ok(())
            },
            Err(error) => Err(error),
        }
    }
}

} // verus!
