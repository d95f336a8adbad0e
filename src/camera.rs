//! The camera's discrete settings: the image size and the bounce budget.

use vstd::prelude::*;

verus! {

/// The size of the rendered image in pixels.
#[derive(Debug, Clone, Copy, PartialEq, Eq, Structural)]
pub struct Resolution {
    pub horizontal: u32,
    pub vertical: u32,
}

/// How many reflective or refractive bounces a primary ray may spend.
#[derive(Debug, Clone, Copy, PartialEq, Eq, Structural)]
pub struct MaxBounces {
    pub n: u32,
}

} // verus!
