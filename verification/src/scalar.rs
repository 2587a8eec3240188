//! Fixed-point scalars.

use vstd::prelude::*;

verus! {

/// How many counts make one unit: a scalar counts thousandths.
pub const SCALE: i32 = 1000;

/// The largest magnitude, in thousandths, that a scalar may hold.
///
/// With every coordinate inside this limit, all the products the guidance
/// laws form fit in 128 bits.
pub const LIMIT: i32 = 0x4000_0000;

/// A real number held exactly as a whole count of thousandths.
#[derive(Clone, Copy, Debug, PartialEq, Eq)]
pub struct Scalar {
    thousandths: i32,
}

impl View for Scalar {
    type V = int;

    /// The number of thousandths.
    closed spec fn view(&self) -> int {
        self.thousandths as int
    }
}

impl Scalar {
    /// Whether a count of thousandths is within the limit.
    pub open spec fn in_range(thousandths: int) -> bool {
        -LIMIT <= thousandths <= LIMIT
    }

    /// What holds of every scalar: its count is within the limit.
    #[verifier::type_invariant]
    pub closed spec fn within_limit(self) -> bool {
        Self::in_range(self@)
    }

    /// The scalar of the given count of thousandths, if it is within the limit.
    pub fn new(thousandths: i32) -> (result: Option<Scalar>)
        ensures
            result is Some <==> Self::in_range(thousandths as int),
            result matches Some(s) ==> s@ == thousandths,
    {
        if -LIMIT <= thousandths && thousandths <= LIMIT {
            Some(Scalar { thousandths })
        } else {
            None
        }
    }

    /// The count of thousandths.
    pub fn thousandths(&self) -> (result: i32)
        ensures
            result == self@,
            Self::in_range(self@),
    {
        proof {
            use_type_invariant(self);
        }
        self.thousandths
    }
}

} // verus!
