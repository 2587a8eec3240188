//! The target, as the pursuer sees it.

use vstd::prelude::*;
use crate::vector::Vector3;

verus! {

/// A target, in the frame that moves with the pursuer and does not rotate.
#[derive(Clone, Copy, Debug)]
pub struct Target {
    /// Where the target is, relative to the pursuer.
    pub position: Vector3,
    /// How the target moves, relative to the pursuer.
    pub velocity: Vector3,
}

impl Target {
    /// Whether the target is approaching the pursuer along the line of sight:
    /// whether position and velocity have a negative dot product.
    pub fn is_closing(&self) -> (result: bool)
        ensures
            result == (self.position@.dot(self.velocity@) < 0),
    {
        self.position.dot(&self.velocity) < 0
    }
}

} // verus!
