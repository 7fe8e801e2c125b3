//! A minimal 2D rendering core: a growable texture atlas with content
//! deduplication, a line-breaking text layout engine, and a per-frame
//! vertex batcher. All geometry is carried in integer units so that every
//! rule of the core can be stated and proved exactly; converting to the
//! floating-point formats of a GPU is left to the host application.

pub mod asset;
pub mod assets;
pub mod atlas;
pub mod bitmap;
pub mod color;
pub mod font;
pub mod fonts;
pub mod frame;
pub mod geometry;
pub mod glyph;
pub mod id;
pub mod layout;
pub mod memory;
pub mod packing;
pub mod properties;
pub mod renderable;
pub mod renderer;
pub mod scene;
pub mod shapes;
pub mod text;
pub mod tracker;
