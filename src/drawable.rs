use vstd::prelude::*;

use crate::effects::EffectBits;
use crate::silhouette::{Silhouette, SilhouetteID};
use crate::{DrawableID, F32Bits};

verus! {

/// A 4 by 4 `f32` matrix, row-major, entry by entry as bit patterns.
pub type Mat4Bits = [F32Bits; 16];

/// The seven effect parameters as `f32` bit patterns, indexed by
/// [`crate::effects::EffectBitfield`]: colour, fisheye, whirl, pixelate, mosaic,
/// brightness, transparency.
pub type EffectParams = [F32Bits; 7];

/// The CPU-side record of one sprite instance.
pub struct Drawable {
    pub id: DrawableID,
    /// Maps stage space to homogeneous texture space.
    pub inverse_matrix: Mat4Bits,
    /// The silhouette that this drawable shows, looked up by id at query time.
    pub silhouette: SilhouetteID,
    pub effects: EffectParams,
    pub effect_bits: EffectBits,
    /// Nearest-neighbour sampling when true, the approximate linear test otherwise.
    pub use_nearest_neighbor: bool,
}

impl Drawable {
    /// Hit test of `silhouette` at texel `(x, y)` in this drawable's sampling mode. The
    /// texel is chosen for that mode: `(floor(u * width), floor(v * height))` for nearest
    /// sampling, `(floor(u * width - 0.5), floor(v * height - 0.5))` for the approximate
    /// linear test.
    pub fn is_touching_texel(&self, silhouette: &Silhouette, x: i32, y: i32) -> (r: bool)
        requires
            silhouette.wf(),
        ensures
            self.use_nearest_neighbor ==> r == silhouette.spec_point(x as int, y as int),
            !self.use_nearest_neighbor ==> r == (silhouette.spec_point(x as int, y as int)
                || silhouette.spec_point(x + 1, y as int) || silhouette.spec_point(x as int, y + 1)
                || silhouette.spec_point(x + 1, y + 1)),
    {
        if self.use_nearest_neighbor {
            silhouette.is_touching_nearest(x, y)
        } else {
            silhouette.is_touching_linear(x, y)
        }
    }
}

} // verus!
