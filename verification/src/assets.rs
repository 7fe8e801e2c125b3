//! Everything drawables refer to by identifier: the image atlas, and the
//! glyphs of the texts with the atlas of their bitmaps.

use vstd::prelude::*;
use crate::atlas::compose::shows;
use crate::atlas::{Atlas, AtlasState, PackError};
use crate::fonts::{needs_raster, tinted, Raster, Resolution};
use crate::glyph::{Glyph, TextRenderingData};

verus! {

/// The glyphs of one text, under the identifier of the text.
#[derive(Debug)]
pub struct TextRun {
    pub id: u32,
    pub data: TextRenderingData,
}

/// A text run as the contracts see it.
pub struct RunView {
    pub id: u32,
    pub data: Resolution,
}

impl View for TextRun {
    type V = RunView;

    open spec fn view(&self) -> RunView {
        RunView { id: self.id, data: self.data@ }
    }
}

/// The views of a list of text runs.
pub open spec fn run_views(runs: Seq<TextRun>) -> Seq<RunView> {
    Seq::new(runs.len(), |i: int| runs[i]@)
}

/// The position of the first run with the given identifier.
pub open spec fn run_position(runs: Seq<RunView>, id: u32) -> Option<int> {
    if exists|i: int| 0 <= i < runs.len() && (#[trigger] runs[i]).id == id {
        Some(
            choose|i: int|
                0 <= i < runs.len() && (#[trigger] runs[i]).id == id && forall|j: int|
                    0 <= j < i ==> (#[trigger] runs[j]).id != id,
        )
    } else {
        None
    }
}

/// The runs with the glyphs of a text registered: in place of the first run
/// of the same identifier, or at the end.
pub open spec fn with_run(runs: Seq<RunView>, run: RunView) -> Seq<RunView> {
    match run_position(runs, run.id) {
        Some(at) => runs.update(at, run),
        None => runs.push(run),
    }
}

/// The runs from position `from` on resolved as far as no raster is needed,
/// and the position of the first run that waits for one.
pub open spec fn resolve_known(runs: Seq<RunView>, from: int) -> (Seq<RunView>, Option<int>)
    decreases runs.len() - from,
{
    if from < 0 || from >= runs.len() {
        (runs, None)
    } else {
        let resolved = RunView { id: runs[from].id, data: runs[from].data.skip_known() };
        if resolved.data.done() {
            resolve_known(runs.update(from, resolved), from + 1)
        } else {
            (runs.update(from, resolved), Some(from))
        }
    }
}

/// The glyphs of all texts of a frame, and the atlas of their bitmaps.
#[derive(Debug)]
pub struct FontAsset {
    pub data: Vec<TextRun>,
    pub atlas: Atlas,
}

impl FontAsset {
    /// The text runs.
    pub open spec fn runs(&self) -> Seq<RunView> {
        run_views(self.data@)
    }

    /// The atlas is sound and no run has more metrics than glyphs.
    pub open spec fn wf(&self) -> bool {
        &&& self.atlas.wf()
        &&& forall|i: int| 0 <= i < self.runs().len() ==> (#[trigger] self.runs()[i]).data.wf()
    }

    /// No text registered, and the given atlas for the glyphs.
    pub fn new(atlas: Atlas) -> (fonts: Self)
        requires
            atlas.wf(),
        ensures
            fonts.wf(),
            fonts.atlas == atlas,
            fonts.runs() == Seq::<RunView>::empty(),
    {
        let fonts = FontAsset { data: Vec::new(), atlas };
        assert(fonts.runs() =~= Seq::empty());
        fonts
    }

    /// Forgets the texts of the last frame.
    pub fn clear(&mut self)
        requires
            old(self).wf(),
        ensures
            final(self).wf(),
            final(self).atlas == old(self).atlas,
            final(self).runs() == Seq::<RunView>::empty(),
    {
        self.data.clear();
        assert(self.runs() =~= Seq::empty());
    }

    /// The position of the first run with the given identifier.
    pub fn position(&self, id: u32) -> (found: Option<usize>)
        ensures
            match found {
                Some(at) => at < self.runs().len() && run_position(self.runs(), id) == Some(
                    at as int,
                ),
                None => run_position(self.runs(), id) is None,
            },
    {
        let n = self.data.len();
        let mut i: usize = 0;
        while i < n
            invariant
                n == self.data@.len(),
                i <= n,
                forall|j: int| 0 <= j < i ==> (#[trigger] self.runs()[j]).id != id,
            decreases n - i,
        {
            if self.data[i].id == id {
                proof {
                    let runs = self.runs();
                    assert(runs[i as int].id == id);
                    let at = choose|at: int|
                        0 <= at < runs.len() && (#[trigger] runs[at]).id == id && forall|j: int|
                            0 <= j < at ==> (#[trigger] runs[j]).id != id;
                    if at < i {
                        assert(runs[at].id != id);
                    }
                    if i < at {
                        assert(runs[i as int].id != id);
                    }
                }
                return Some(i);
            }
            i = i + 1;
        }
        None
    }

    /// The glyphs registered under the identifier of a text.
    pub fn get(&self, id: u32) -> (found: Option<&TextRenderingData>)
        ensures
            match found {
                Some(data) => run_position(self.runs(), id) matches Some(at) && data@
                    == self.runs()[at].data,
                None => run_position(self.runs(), id) is None,
            },
    {
        match self.position(id) {
            Some(at) => Some(&self.data[at].data),
            None => None,
        }
    }

    /// Registers the glyphs of a text under its identifier, in place of what
    /// was registered under it before.
    pub fn insert(&mut self, id: u32, data: TextRenderingData)
        requires
            old(self).wf(),
            data@.wf(),
        ensures
            final(self).wf(),
            final(self).atlas == old(self).atlas,
            final(self).runs() == with_run(old(self).runs(), RunView { id, data: data@ }),
    {
        let ghost before = self.runs();
        let ghost run = RunView { id, data: data@ };
        match self.position(id) {
            Some(at) => {
                self.data[at] = TextRun { id, data };
                proof {
                    assert(self.runs() =~= before.update(at as int, run));
                    assert forall|i: int| 0 <= i < self.runs().len() implies (
                    #[trigger] self.runs()[i]).data.wf() by {
                        if i != at {
                            assert(self.runs()[i] == before[i]);
                        }
                    }
                }
            },
            None => {
                self.data.push(TextRun { id, data });
                proof {
                    assert(self.runs() =~= before.push(run));
                    assert forall|i: int| 0 <= i < self.runs().len() implies (
                    #[trigger] self.runs()[i]).data.wf() by {
                        if i < before.len() {
                            assert(self.runs()[i] == before[i]);
                        }
                    }
                }
            },
        }
    }

    /// Resolves every glyph that needs no raster, text after text, up to the
    /// first glyph that needs one, and returns the position of its text and
    /// the glyph: what the host is to rasterize next. Returns nothing once
    /// every glyph of every text is resolved.
    pub fn next(&mut self) -> (pending: Option<(usize, Glyph)>)
        requires
            old(self).wf(),
        ensures
            final(self).wf(),
            final(self).atlas == old(self).atlas,
            final(self).runs() == resolve_known(old(self).runs(), 0).0,
            match pending {
                Some((at, glyph)) => {
                    &&& resolve_known(old(self).runs(), 0).1 == Some(at as int)
                    &&& at < final(self).runs().len()
                    &&& !final(self).runs()[at as int].data.done()
                    &&& glyph == final(self).runs()[at as int].data.glyphs[final(self).runs()[at as int].data.cursor()]
                    &&& needs_raster(
                        final(self).runs()[at as int].data.glyphs,
                        final(self).runs()[at as int].data.cursor(),
                    )
                },
                None => {
                    &&& resolve_known(old(self).runs(), 0).1 is None
                    &&& forall|i: int|
                        0 <= i < final(self).runs().len() ==> (#[trigger] final(self).runs()[i]).data.done()
                },
            },
    {
        let n = self.data.len();
        let mut at: usize = 0;
        while at < n
            invariant
                n == self.data@.len(),
                at <= n,
                self.wf(),
                self.atlas == old(self).atlas,
                resolve_known(self.runs(), at as int) == resolve_known(old(self).runs(), 0),
                forall|i: int| 0 <= i < at ==> (#[trigger] self.runs()[i]).data.done(),
            decreases n - at,
        {
            let ghost before = self.runs();
            let next = self.data[at].data.advance();
            proof {
                let resolved = RunView { id: before[at as int].id, data: before[at as int].data.skip_known() };
                assert(self.runs() =~= before.update(at as int, resolved));
                assert forall|i: int| 0 <= i < self.runs().len() implies (
                #[trigger] self.runs()[i]).data.wf() by {
                    if i != at {
                        assert(self.runs()[i] == before[i]);
                    }
                }
                assert forall|i: int| 0 <= i < at implies (#[trigger] self.runs()[i]).data.done() by {
                    assert(self.runs()[i] == before[i]);
                }
                lemma_skip_known_settles(before[at as int].data);
                lemma_resolve_known_again(self.runs(), at as int);
            }
            match next {
                Some(glyph) => {
                    return Some((at, glyph));
                },
                None => {},
            }
            at = at + 1;
        }
        None
    }

    /// Takes in the raster of the glyph that the text at position `at` waits
    /// for.
    pub fn supply(&mut self, at: usize, raster: &Raster)
        requires
            old(self).wf(),
            at < old(self).runs().len(),
            !old(self).runs()[at as int].data.done(),
            raster.wf(),
            !old(self).atlas@.holds(
                tinted(
                    raster.coverage@,
                    raster.width,
                    raster.height,
                    old(self).runs()[at as int].data.glyphs[old(self).runs()[at as int].data.cursor()].color,
                ),
            ) ==> old(self).atlas@.next_id < u32::MAX,
        ensures
            final(self).wf(),
            final(self).atlas.texture() == old(self).atlas.texture(),
            ({
                let run = old(self).runs()[at as int];
                let content = tinted(
                    raster.coverage@,
                    raster.width,
                    raster.height,
                    run.data.glyphs[run.data.cursor()].color,
                );
                let (state, image_id) = old(self).atlas@.add(content);
                &&& final(self).atlas@ == state
                &&& final(self).runs() == old(self).runs().update(
                    at as int,
                    RunView { id: run.id, data: run.data.take_raster(raster.metrics, image_id) },
                )
            }),
    {
        let ghost before = self.runs();
        proof {
            assert(before[at as int] == self.data@[at as int]@);
            assert(before[at as int].data.wf());
        }
        self.data[at].data.supply(&mut self.atlas, raster);
        proof {
            let run = before[at as int];
            assert(self.runs() =~= before.update(at as int, self.data@[at as int]@));
            assert forall|i: int| 0 <= i < self.runs().len() implies (#[trigger] self.runs()[i]).data.wf() by {
                if i != at {
                    assert(self.runs()[i] == before[i]);
                }
            }
        }
    }
}

/// Resolving what needs no raster a second time changes nothing.
pub proof fn lemma_skip_known_settles(data: Resolution)
    requires
        data.wf(),
    ensures
        data.skip_known().wf(),
        data.skip_known().skip_known() == data.skip_known(),
    decreases data.glyphs.len() - data.metrics.len(),
{
    if data.metrics.len() < data.glyphs.len() {
        match crate::fonts::twin(data.glyphs, data.cursor(), 0) {
            Some(from) => {
                lemma_skip_known_settles(data.copy_twin(from));
            },
            None => {
                if crate::glyph::is_break(data.glyphs[data.cursor()].character) {
                    lemma_skip_known_settles(data.pass_break());
                }
            },
        }
    }
}

/// Resolving from a run that is resolved as far as possible goes on as if
/// nothing had been resolved there.
proof fn lemma_resolve_known_again(runs: Seq<RunView>, at: int)
    requires
        0 <= at < runs.len(),
        runs[at].data.skip_known() == runs[at].data,
    ensures
        resolve_known(runs, at) == (if runs[at].data.done() {
            resolve_known(runs, at + 1)
        } else {
            (runs, Some(at))
        }),
{
    let resolved = RunView { id: runs[at].id, data: runs[at].data.skip_known() };
    assert(runs.update(at, resolved) =~= runs);
}

/// The two atlases of the engine and the glyphs of the texts.
#[derive(Debug)]
pub struct Assets {
    pub images: Atlas,
    pub fonts: FontAsset,
}

/// The assets as the contracts see them.
pub struct AssetsView {
    /// The image atlas.
    pub images: AtlasState,
    /// The texture of the image atlas as last composed.
    pub image_texture: Seq<u8>,
    /// The glyph atlas.
    pub glyphs: AtlasState,
    /// The texture of the glyph atlas as last composed.
    pub glyph_texture: Seq<u8>,
    /// The glyphs of the texts.
    pub runs: Seq<RunView>,
}

impl View for Assets {
    type V = AssetsView;

    open spec fn view(&self) -> AssetsView {
        AssetsView {
            images: self.images@,
            image_texture: self.images.texture(),
            glyphs: self.fonts.atlas@,
            glyph_texture: self.fonts.atlas.texture(),
            runs: self.fonts.runs(),
        }
    }
}

impl Assets {
    /// Both atlases and the text runs are sound.
    pub open spec fn wf(&self) -> bool {
        self.images.wf() && self.fonts.wf()
    }

    pub fn new(images: Atlas, glyphs: Atlas) -> (assets: Self)
        requires
            images.wf(),
            glyphs.wf(),
        ensures
            assets.wf(),
            assets.images == images,
            assets.fonts.atlas == glyphs,
            assets.fonts.runs() == Seq::<RunView>::empty(),
    {
        Assets { images, fonts: FontAsset::new(glyphs) }
    }

    /// Ends the request phase for both atlases: what nobody asked for is
    /// swept away and each atlas is repacked if it has new bitmaps. The
    /// image atlas comes first; its error, if any, is the one reported.
    pub fn resolve(&mut self) -> (outcome: Result<(), PackError>)
        requires
            old(self).wf(),
        ensures
            final(self).wf(),
            final(self).fonts.data == old(self).fonts.data,
            final(self).images@ == old(self).images@.sweep().repack().0,
            final(self).fonts.atlas@ == old(self).fonts.atlas@.sweep().repack().0,
            outcome == (if old(self).images@.sweep().repack().1 is Err {
                old(self).images@.sweep().repack().1
            } else {
                old(self).fonts.atlas@.sweep().repack().1
            }),
            if old(self).images@.dirty && old(self).images@.sweep().repack().1 is Ok {
                shows(final(self).images.texture(), final(self).images@.entries, final(self).images@.side)
            } else {
                final(self).images.texture() == old(self).images.texture()
            },
            if old(self).fonts.atlas@.dirty && old(self).fonts.atlas@.sweep().repack().1 is Ok {
                shows(
                    final(self).fonts.atlas.texture(),
                    final(self).fonts.atlas@.entries,
                    final(self).fonts.atlas@.side,
                )
            } else {
                final(self).fonts.atlas.texture() == old(self).fonts.atlas.texture()
            },
    {
        self.images.sweep();
        let images = self.images.repack();
        self.fonts.atlas.sweep();
        let glyphs = self.fonts.atlas.repack();
        proof {
            assert(self.fonts.runs() == old(self).fonts.runs());
            assert forall|i: int| 0 <= i < self.fonts.runs().len() implies (
            #[trigger] self.fonts.runs()[i]).data.wf() by {
                assert(old(self).fonts.runs()[i].data.wf());
            }
        }
        match images {
            Err(error) => Err(error),
            Ok(_) => glyphs,
        }
    }
}

} // verus!
