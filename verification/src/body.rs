//! The closed set of celestial bodies that can be shaded.

use vstd::prelude::*;

verus! {

/// Selects the shading algorithm applied to a sample.
#[derive(Copy, Clone, Debug, PartialEq, Eq)]
pub enum Body {
    BlackHole,
    AccretionDisk,
    Rocky,
    GasGiant,
    Ice,
}

} // verus!
