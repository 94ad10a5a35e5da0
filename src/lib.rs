//! Pixel-accurate hit testing and colour sampling for a 2D sprite stage, on the CPU.
//!
//! The library holds the silhouettes (premultiplied RGBA8 alpha masks) and drawables of a
//! stage, decides which shader effects apply and in which order, samples texels, matches
//! colours, walks query rectangles, picks the drawable that covers the most pixels, and
//! builds convex outlines. Floating-point work (projection, effect math, compositing) is
//! done by the caller, which hands texel indices and touch tests to these functions.
use vstd::prelude::*;

pub mod color;
pub mod convex_hull;
pub mod drawable;
pub mod effects;
pub mod matrix;
pub mod pick;
pub mod query;
pub mod rectangle;
pub mod renderer;
pub mod silhouette;

verus! {

/// An `f32` held by its IEEE-754 bit pattern. The library stores such values for the
/// host (matrices, effect parameters, sizes) and never computes with them.
pub type F32Bits = u32;

/// Identity of a drawable (one sprite instance on the stage).
pub type DrawableID = i32;

/// The reserved "none" id: no drawable, and the always-empty silhouette.
pub const ID_NONE: DrawableID = -1;

} // verus!
