//! The drawables that need no text: rectangles and triangles.

use vstd::prelude::*;
use crate::asset::{Asset, Image};
use crate::assets::{Assets, AssetsView};
use crate::color::{color_of, Color, CLEAR};
use crate::geometry::{clamp, offset};
use crate::id::IDFactory;
use crate::properties::Properties;
use crate::renderable::{Drawn, FrameError, Renderable};
use crate::renderer::{quad, RenderBatch, Vertex, IMAGE_ATLAS, NO_TEXTURE};

verus! {

/// What fills a shape: a colour, or an image of the image atlas.
#[derive(Debug, Copy, Clone)]
pub enum Background {
    Color(Color),
    Image(Asset<Image>),
}

/// An axis-aligned rectangle.
#[derive(Debug, Clone)]
pub struct Rectangle {
    pub id: u32,
    pub x: i32,
    pub y: i32,
    pub width: u32,
    pub height: u32,
    pub background: Background,
}

impl Rectangle {
    /// A rectangle with nothing to paint yet.
    pub fn new(ids: &mut IDFactory, x: i32, y: i32, width: u32, height: u32) -> (rectangle: Self)
        requires
            old(ids).upcoming() < u32::MAX,
        ensures
            rectangle.id == old(ids).upcoming(),
            final(ids).upcoming() == old(ids).upcoming() + 1,
            rectangle.x == x,
            rectangle.y == y,
            rectangle.width == width,
            rectangle.height == height,
            rectangle.background == Background::Color(color_of(CLEAR)),
    {
        Rectangle { id: ids.next(), x, y, width, height, background: Background::Color(Color::clear()) }
    }

    pub fn with_x(self, x: i32) -> (rectangle: Self)
        ensures
            rectangle == (Rectangle { x, ..self }),
    {
        Rectangle { x, ..self }
    }

    pub fn with_y(self, y: i32) -> (rectangle: Self)
        ensures
            rectangle == (Rectangle { y, ..self }),
    {
        Rectangle { y, ..self }
    }

    pub fn with_width(self, width: u32) -> (rectangle: Self)
        ensures
            rectangle == (Rectangle { width, ..self }),
    {
        Rectangle { width, ..self }
    }

    pub fn with_height(self, height: u32) -> (rectangle: Self)
        ensures
            rectangle == (Rectangle { height, ..self }),
    {
        Rectangle { height, ..self }
    }

    pub fn with_background(self, background: Background) -> (rectangle: Self)
        ensures
            rectangle == (Rectangle { background, ..self }),
    {
        Rectangle { background, ..self }
    }

    /// The vertices of the rectangle: its two triangles, in its colour, or
    /// showing its image where it is placed in the atlas; none where the
    /// image has no placement.
    pub open spec fn vertices(self, assets: AssetsView) -> Seq<Vertex> {
        let right = clamp(self.x + self.width);
        let bottom = clamp(self.y + self.height);
        match self.background {
            Background::Color(color) => quad(
                self.x,
                self.y,
                right,
                bottom,
                0,
                0,
                0,
                0,
                color,
                NO_TEXTURE,
            ),
            Background::Image(asset) => if assets.images.placements().contains_key(asset.key()) {
                let at = assets.images.placements()[asset.key()];
                quad(
                    self.x,
                    self.y,
                    right,
                    bottom,
                    at.x,
                    at.y,
                    (at.x + at.width) as u32,
                    (at.y + at.height) as u32,
                    color_of(CLEAR),
                    IMAGE_ATLAS,
                )
            } else {
                Seq::empty()
            },
        }
    }
}

impl Renderable for Rectangle {
    /// The image atlas is asked to keep the image of the rectangle.
    open spec fn requested(&self, assets: AssetsView, properties: Properties) -> AssetsView {
        match self.background {
            Background::Color(_) => assets,
            Background::Image(asset) => AssetsView {
                images: assets.images.keep(asset.key()),
                ..assets
            },
        }
    }

    /// The two triangles of the rectangle; an image without a placement is
    /// a failure.
    open spec fn drawn(&self, assets: AssetsView, properties: Properties) -> Drawn {
        Drawn {
            vertices: self.vertices(assets),
            failure: match self.background {
                Background::Color(_) => None,
                Background::Image(asset) => if assets.images.placements().contains_key(asset.key()) {
                    None
                } else {
                    Some(FrameError::StaleIdentity { atlas: IMAGE_ATLAS, id: asset.key() })
                },
            },
        }
    }

    fn request(&self, assets: &mut Assets, properties: &Properties) {
        match self.background {
            Background::Color(_) => {},
            Background::Image(asset) => {
                let _ = assets.images.keep(asset.id());
            },
        }
    }

    fn render(&self, batch: &mut RenderBatch, assets: &Assets, properties: &Properties) -> (outcome:
        Result<(), FrameError>)
    {
        let right = offset(self.x, self.width);
        let bottom = offset(self.y, self.height);
        match self.background {
            Background::Color(color) => {
                batch.quad(self.x, self.y, right, bottom, 0, 0, 0, 0, color, NO_TEXTURE);
                Ok(())
            },
            Background::Image(asset) => {
                match assets.images.get(asset.id()) {
                    Ok(at) => {
                        batch.quad(
                            self.x,
                            self.y,
                            right,
                            bottom,
                            at.x,
                            at.y,
                            at.x + at.width,
                            at.y + at.height,
                            Color::clear(),
                            IMAGE_ATLAS,
                        );
                        Ok(())
                    },
                    Err(_) => {
                        assert(batch.staged() + Seq::<Vertex>::empty() =~= batch.staged());
                        Err(FrameError::StaleIdentity { atlas: IMAGE_ATLAS, id: asset.id() })
                    },
                }
            },
        }
    }
}

/// A triangle of one colour.
#[derive(Debug, Clone)]
pub struct Triangle {
    pub id: u32,
    pub x1: i32,
    pub y1: i32,
    pub x2: i32,
    pub y2: i32,
    pub x3: i32,
    pub y3: i32,
    pub color: Color,
}

impl Triangle {
    /// A triangle with nothing to paint yet.
    pub fn new(ids: &mut IDFactory, x1: i32, y1: i32, x2: i32, y2: i32, x3: i32, y3: i32) -> (triangle:
        Self)
        requires
            old(ids).upcoming() < u32::MAX,
        ensures
            final(ids).upcoming() == old(ids).upcoming() + 1,
            triangle == (Triangle {
                id: old(ids).upcoming(),
                x1,
                y1,
                x2,
                y2,
                x3,
                y3,
                color: color_of(CLEAR),
            }),
    {
        Triangle { id: ids.next(), x1, y1, x2, y2, x3, y3, color: Color::clear() }
    }

    pub fn with_color(self, color: Color) -> (triangle: Self)
        ensures
            triangle == (Triangle { color, ..self }),
    {
        Triangle { color, ..self }
    }

    /// The vertices of the triangle: its corners in the order given; none
    /// if it has nothing to paint.
    pub open spec fn vertices(self) -> Seq<Vertex> {
        if self.color == color_of(CLEAR) {
            Seq::empty()
        } else {
            seq![
                Vertex { x: self.x1, y: self.y1, u: 0, v: 0, color: self.color, tex_idx: NO_TEXTURE },
                Vertex { x: self.x2, y: self.y2, u: 0, v: 0, color: self.color, tex_idx: NO_TEXTURE },
                Vertex { x: self.x3, y: self.y3, u: 0, v: 0, color: self.color, tex_idx: NO_TEXTURE },
            ]
        }
    }
}

impl Renderable for Triangle {
    /// A triangle needs no assets.
    open spec fn requested(&self, assets: AssetsView, properties: Properties) -> AssetsView {
        assets
    }

    /// The triangle, unless it has nothing to paint.
    open spec fn drawn(&self, assets: AssetsView, properties: Properties) -> Drawn {
        Drawn { vertices: self.vertices(), failure: None }
    }

    fn request(&self, assets: &mut Assets, properties: &Properties) {
    }

    fn render(&self, batch: &mut RenderBatch, assets: &Assets, properties: &Properties) -> (outcome:
        Result<(), FrameError>)
    {
        if self.color == Color::clear() {
            assert(batch.staged() + Seq::<Vertex>::empty() =~= batch.staged());
            return Ok(());
        }
        batch.triangle(
            Vertex::new(self.x1, self.y1, 0, 0, self.color, NO_TEXTURE),
            Vertex::new(self.x2, self.y2, 0, 0, self.color, NO_TEXTURE),
            Vertex::new(self.x3, self.y3, 0, 0, self.color, NO_TEXTURE),
        );
        proof {
            assert(batch.staged() =~= old(batch).staged() + self.vertices());
        }
        Ok(())
    }
}

} // verus!
