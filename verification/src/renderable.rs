//! What a drawable is: something that asks for its assets in the request
//! phase of a frame and stages its triangles in the render phase.

use vstd::prelude::*;
use crate::assets::{Assets, AssetsView};
use crate::properties::Properties;
use crate::renderer::{RenderBatch, Vertex};

verus! {

/// Why a frame was given up.
#[derive(Debug, Copy, Clone, PartialEq, Eq, Structural)]
pub enum FrameError {
    /// A drawable refers to a bitmap that the atlas of the given texture
    /// slot has no placement for.
    StaleIdentity { atlas: u32, id: u32 },
    /// The glyphs of the text with this identifier are not all resolved, or
    /// were never registered.
    LayoutDataMismatch { text: u32 },
    /// The frame has more vertices than a 16-bit index can tell apart.
    TooManyVertices,
}

/// What a drawable stages: its vertices, and why it stopped if it did.
pub struct Drawn {
    pub vertices: Seq<Vertex>,
    pub failure: Option<FrameError>,
}

/// The outcome that stands for a failure, or for none.
pub open spec fn outcome_of(failure: Option<FrameError>) -> Result<(), FrameError> {
    match failure {
        Some(error) => Err(error),
        None => Ok(()),
    }
}

/// A drawable. `request` runs for every drawable of a frame before any
/// `render` does; in between the atlases are packed.
pub trait Renderable {
    /// The assets once the drawable has asked for what it needs.
    spec fn requested(&self, assets: AssetsView, properties: Properties) -> AssetsView;

    /// What the drawable stages, given the assets.
    spec fn drawn(&self, assets: AssetsView, properties: Properties) -> Drawn;

    /// Registers what the drawable needs: glyphs to rasterize, bitmaps to
    /// keep.
    fn request(&self, assets: &mut Assets, properties: &Properties)
        requires
            old(assets).wf(),
        ensures
            final(assets).wf(),
            final(assets)@ == self.requested(old(assets)@, *properties),
    ;

    /// Stages the triangles of the drawable after those already staged.
    fn render(&self, batch: &mut RenderBatch, assets: &Assets, properties: &Properties) -> (outcome:
        Result<(), FrameError>)
        requires
            old(batch).wf(),
            assets.wf(),
        ensures
            final(batch).wf(),
            final(batch).deduplicating() == old(batch).deduplicating(),
            final(batch).staged() == old(batch).staged() + self.drawn(assets@, *properties).vertices,
            outcome == outcome_of(self.drawn(assets@, *properties).failure),
    ;
}

} // verus!
