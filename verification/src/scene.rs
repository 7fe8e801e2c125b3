//! One type for all drawables of the library, so that a frame can hold them
//! in one list.

use vstd::prelude::*;
use crate::assets::{Assets, AssetsView};
use crate::properties::Properties;
use crate::renderable::{Drawn, FrameError, Renderable};
use crate::renderer::RenderBatch;
use crate::shapes::{Rectangle, Triangle};
use crate::text::Text;

verus! {

/// Any of the drawables.
#[derive(Debug, Clone)]
pub enum Shape {
    Rectangle(Rectangle),
    Triangle(Triangle),
    Text(Text),
}

impl Shape {
    /// The identifier of the drawable.
    pub fn id(&self) -> (id: u32)
        ensures
            id == (match *self {
                Shape::Rectangle(rectangle) => rectangle.id,
                Shape::Triangle(triangle) => triangle.id,
                Shape::Text(text) => text.id,
            }),
    {
        match self {
            Shape::Rectangle(rectangle) => rectangle.id,
            Shape::Triangle(triangle) => triangle.id,
            Shape::Text(text) => text.id,
        }
    }
}

impl Renderable for Shape {
    /// What the drawable inside asks for.
    open spec fn requested(&self, assets: AssetsView, properties: Properties) -> AssetsView {
        match *self {
            Shape::Rectangle(rectangle) => rectangle.requested(assets, properties),
            Shape::Triangle(triangle) => triangle.requested(assets, properties),
            Shape::Text(text) => text.requested(assets, properties),
        }
    }

    /// What the drawable inside stages.
    open spec fn drawn(&self, assets: AssetsView, properties: Properties) -> Drawn {
        match *self {
            Shape::Rectangle(rectangle) => rectangle.drawn(assets, properties),
            Shape::Triangle(triangle) => triangle.drawn(assets, properties),
            Shape::Text(text) => text.drawn(assets, properties),
        }
    }

    fn request(&self, assets: &mut Assets, properties: &Properties) {
        match self {
            Shape::Rectangle(rectangle) => rectangle.request(assets, properties),
            Shape::Triangle(triangle) => triangle.request(assets, properties),
            Shape::Text(text) => text.request(assets, properties),
        }
    }

    fn render(&self, batch: &mut RenderBatch, assets: &Assets, properties: &Properties) -> (outcome:
        Result<(), FrameError>)
    {
        match self {
            Shape::Rectangle(rectangle) => rectangle.render(batch, assets, properties),
            Shape::Triangle(triangle) => triangle.render(batch, assets, properties),
            Shape::Text(text) => text.render(batch, assets, properties),
        }
    }
}

} // verus!
