//! The phases of a frame. First every drawable asks for its assets; then the
//! host rasterizes the glyphs that need it and the atlases are packed; then
//! every drawable stages its triangles, and they are committed together.

use vstd::prelude::*;
use crate::assets::{Assets, AssetsView};
use crate::properties::Properties;
use crate::renderable::{Drawn, FrameError, Renderable};
use crate::renderer::{commit, Renderer, Vertex, MAX_VERTICES};

verus! {

/// What a system may do with the context it is handed.
#[derive(Debug, Copy, Clone, PartialEq, Eq, Structural)]
pub enum ContextStep {
    /// The state of the application is being updated; nothing can be drawn.
    Update,
    /// Drawables are being collected for the frame.
    Render,
}

/// The drawables that a system hands over for a frame.
#[derive(Debug)]
pub struct Context<R: Renderable> {
    step: ContextStep,
    renderables: Vec<R>,
}

impl<R: Renderable> Context<R> {
    /// The step the context was made for.
    pub closed spec fn phase(&self) -> ContextStep {
        self.step
    }

    /// The drawables handed over, in order.
    pub closed spec fn drawables(&self) -> Seq<R> {
        self.renderables@
    }

    /// A context for the given step, with no drawable yet.
    pub fn new(step: ContextStep) -> (context: Self)
        ensures
            context.phase() == step,
            context.drawables() == Seq::<R>::empty(),
    {
        Context { step, renderables: Vec::new() }
    }

    /// The step the context was made for.
    pub fn step(&self) -> (step: ContextStep)
        ensures
            step == self.phase(),
    {
        self.step
    }

    /// Hands over a drawable for this frame. Only a context of the render
    /// step takes drawables.
    pub fn draw(&mut self, renderable: R)
        requires
            old(self).phase() == ContextStep::Render,
        ensures
            final(self).phase() == old(self).phase(),
            final(self).drawables() == old(self).drawables().push(renderable),
    {
        self.renderables.push(renderable);
    }

    /// Hands over drawables for this frame, in order.
    pub fn draw_all(&mut self, renderables: Vec<R>)
        requires
            old(self).phase() == ContextStep::Render,
        ensures
            final(self).phase() == old(self).phase(),
            final(self).drawables() == old(self).drawables() + renderables@,
    {
        let mut rest = renderables;
        self.renderables.append(&mut rest);
    }

    /// The drawables handed over, in order.
    pub fn renderables(&self) -> (renderables: &Vec<R>)
        ensures
            renderables@ == self.drawables(),
    {
        &self.renderables
    }
}

/// The assets after the first `n` drawables have asked for what they need,
/// one after the other.
pub open spec fn requested_all<R: Renderable>(
    renderables: Seq<R>,
    assets: AssetsView,
    properties: Properties,
    n: int,
) -> AssetsView
    decreases n,
{
    if n <= 0 {
        assets
    } else {
        renderables[n - 1].requested(
            requested_all(renderables, assets, properties, n - 1),
            properties,
        )
    }
}

/// What the first `n` drawables stage, one after the other, up to the first
/// that fails.
pub open spec fn drawn_all<R: Renderable>(
    renderables: Seq<R>,
    assets: AssetsView,
    properties: Properties,
    n: int,
) -> Drawn
    decreases n,
{
    if n <= 0 {
        Drawn { vertices: Seq::empty(), failure: None }
    } else {
        let before = drawn_all(renderables, assets, properties, n - 1);
        if before.failure is Some {
            before
        } else {
            let next = renderables[n - 1].drawn(assets, properties);
            Drawn { vertices: before.vertices + next.vertices, failure: next.failure }
        }
    }
}

/// Once a drawable has failed, nothing more is staged.
pub proof fn lemma_drawn_all_stops<R: Renderable>(
    renderables: Seq<R>,
    assets: AssetsView,
    properties: Properties,
    failed: int,
    n: int,
)
    requires
        0 <= failed <= n,
        drawn_all(renderables, assets, properties, failed).failure is Some,
    ensures
        drawn_all(renderables, assets, properties, n) == drawn_all(
            renderables,
            assets,
            properties,
            failed,
        ),
    decreases n - failed,
{
    if failed < n {
        lemma_drawn_all_stops(renderables, assets, properties, failed, n - 1);
    }
}

/// The request phase: the texts of the last frame are forgotten, and every
/// drawable asks for what it needs, in order.
pub fn request_all<R: Renderable>(renderables: &Vec<R>, assets: &mut Assets, properties: &Properties)
    requires
        old(assets).wf(),
    ensures
        final(assets).wf(),
        final(assets)@ == requested_all(
            renderables@,
            AssetsView { runs: Seq::empty(), ..old(assets)@ },
            *properties,
            renderables@.len() as int,
        ),
{
    assets.fonts.clear();
    let ghost start = assets@;
    let n = renderables.len();
    let mut i: usize = 0;
    while i < n
        invariant
            n == renderables@.len(),
            i <= n,
            assets.wf(),
            assets@ == requested_all(renderables@, start, *properties, i as int),
        decreases n - i,
    {
        renderables[i].request(assets, properties);
        i = i + 1;
    }
}

/// The render phase: every drawable stages its triangles, in order, and all
/// of them are committed to the renderer together. Where a drawable fails,
/// or the frame has too many vertices, nothing is committed and the failure
/// is reported.
pub fn render_all<R: Renderable>(
    renderables: &Vec<R>,
    assets: &Assets,
    renderer: &mut Renderer,
    properties: &Properties,
    deduplicate: bool,
) -> (outcome: Result<(), FrameError>)
    requires
        assets.wf(),
        old(renderer).wf(),
    ensures
        final(renderer).wf(),
        ({
            let drawn = drawn_all(renderables@, assets@, *properties, renderables@.len() as int);
            let room = old(renderer).vertices().len() + drawn.vertices.len() <= MAX_VERTICES;
            match outcome {
                Ok(_) => {
                    &&& drawn.failure is None
                    &&& room
                    &&& (final(renderer).vertices(), final(renderer).indices()) == commit(
                        old(renderer).vertices(),
                        old(renderer).indices(),
                        drawn.vertices,
                        deduplicate,
                    )
                },
                Err(error) => {
                    &&& final(renderer).vertices() == old(renderer).vertices()
                    &&& final(renderer).indices() == old(renderer).indices()
                    &&& match drawn.failure {
                        Some(failure) => error == failure,
                        None => !room && error == FrameError::TooManyVertices,
                    }
                },
            }
        }),
{
    let mut batch = renderer.batch(deduplicate);
    let n = renderables.len();
    let mut i: usize = 0;
    proof {
        assert(batch.staged() =~= Seq::<Vertex>::empty());
    }
    while i < n
        invariant
            n == renderables@.len(),
            i <= n,
            assets.wf(),
            batch.wf(),
            batch.deduplicating() == deduplicate,
            *renderer == *old(renderer),
            renderer.wf(),
            drawn_all(renderables@, assets@, *properties, i as int).failure is None,
            batch.staged() == drawn_all(renderables@, assets@, *properties, i as int).vertices,
        decreases n - i,
    {
        let staged = renderables[i].render(&mut batch, assets, properties);
        match staged {
            Ok(_) => {},
            Err(error) => {
                proof {
                    lemma_drawn_all_stops(renderables@, assets@, *properties, i + 1, n as int);
                }
                return Err(error);
            },
        }
        i = i + 1;
    }
    if batch.len() > MAX_VERTICES || renderer.vertex_count() > MAX_VERTICES - batch.len() {
        return Err(FrameError::TooManyVertices);
    }
    batch.finish(renderer);
    Ok(())
}

} // verus!
