//! Exact numbers that hold one square root.

use vstd::prelude::*;
use crate::vector::{RealVector3, WideVector3};

verus! {

/// The number `(rational + radical·√radicand) / denominator`.
#[derive(Clone, Copy, Debug, PartialEq, Eq)]
pub struct Surd {
    pub rational: i128,
    pub radical: i128,
    pub radicand: i128,
    pub denominator: i128,
}

impl Surd {
    /// Whether the number is defined: the radicand has a square root and the
    /// denominator is positive.
    pub open spec fn wf(self) -> bool {
        self.radicand >= 0 && self.denominator > 0
    }

    /// The number's value, given the square root of its radicand.
    pub open spec fn value(self, root: real) -> real {
        (self.rational as real + self.radical as real * root) / (self.denominator as real)
    }
}

/// The vector `(rational + radical·√radicand) / denominator`.
#[derive(Clone, Copy, Debug, PartialEq, Eq)]
pub struct SurdVector3 {
    pub rational: WideVector3,
    pub radical: WideVector3,
    pub radicand: i128,
    pub denominator: i128,
}

impl SurdVector3 {
    /// Whether the vector is defined: the radicand has a square root and the
    /// denominator is positive.
    pub open spec fn wf(self) -> bool {
        self.radicand >= 0 && self.denominator > 0
    }

    /// The vector's value, given the square root of its radicand.
    pub open spec fn value(self, root: real) -> RealVector3 {
        let denominator = self.denominator as real;
        RealVector3 {
            x: (self.rational.x as real + self.radical.x as real * root) / denominator,
            y: (self.rational.y as real + self.radical.y as real * root) / denominator,
            z: (self.rational.z as real + self.radical.z as real * root) / denominator,
        }
    }
}

} // verus!
