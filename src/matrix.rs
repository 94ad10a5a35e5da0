use vstd::prelude::*;

verus! {

/// A square matrix that can be inverted. The stage transforms that hosts supply are
/// invertible; on a singular matrix the result is unspecified.
pub trait Matrix {
    fn inverse(&self) -> Self where Self: Sized;
}

} // verus!
