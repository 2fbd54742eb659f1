//! Points and vectors of four components.

use crate::binary64::{equal, is_zero, negate, negated, same_number, ONE};
use vstd::prelude::*;
use vstd::std_specs::cmp::PartialEqSpecImpl;
use vstd::std_specs::ops::NegSpecImpl;

verus! {

/// Four components, each the bit pattern of a binary64 number. The fourth
/// tells what the tuple stands for: a point where it is one, a vector where it
/// is zero.
#[derive(Debug, Clone, Copy)]
pub struct Tuple {
    pub x: u64,
    pub y: u64,
    pub z: u64,
    pub w: u64,
}

impl Tuple {
    /// The tuple is a vector: its fourth component is zero, of either sign.
    pub fn is_vector(&self) -> (r: bool)
        ensures
            r == is_zero(self.w),
    {
        equal(self.w, 0)
    }

    /// The tuple is a point: its fourth component is one.
    pub fn is_point(&self) -> (r: bool)
        ensures
            r == (self.w == ONE),
    {
        equal(self.w, ONE)
    }

    /// The point at `x`, `y`, `z`.
    pub fn point(x: u64, y: u64, z: u64) -> (t: Tuple)
        ensures
            t == (Tuple { x, y, z, w: ONE }),
    {
        Tuple { x, y, z, w: ONE }
    }

    /// The vector of `x`, `y`, `z`.
    pub fn vector(x: u64, y: u64, z: u64) -> (t: Tuple)
        ensures
            t == (Tuple { x, y, z, w: 0 }),
    {
        Tuple { x, y, z, w: 0 }
    }
}

impl Default for Tuple {
    /// The vector of no length: every component is positive zero.
    fn default() -> (t: Tuple)
        ensures
            t == (Tuple { x: 0, y: 0, z: 0, w: 0 }),
    {
        Tuple { x: 0, y: 0, z: 0, w: 0 }
    }
}

impl PartialEq for Tuple {
    /// Two tuples are equal when each component of one denotes the same number
    /// as that component of the other.
    fn eq(&self, other: &Tuple) -> (r: bool) {
        equal(self.x, other.x) && equal(self.y, other.y) && equal(self.z, other.z) && equal(
            self.w,
            other.w,
        )
    }
}

impl PartialEqSpecImpl for Tuple {
    open spec fn obeys_eq_spec() -> bool {
        true
    }

    open spec fn eq_spec(&self, other: &Tuple) -> bool {
        &&& same_number(self.x, other.x)
        &&& same_number(self.y, other.y)
        &&& same_number(self.z, other.z)
        &&& same_number(self.w, other.w)
    }
}

impl core::ops::Neg for Tuple {
    type Output = Tuple;

    /// The tuple with the sign of every component flipped.
    fn neg(self) -> (t: Tuple) {
        Tuple { x: negate(self.x), y: negate(self.y), z: negate(self.z), w: negate(self.w) }
    }
}

impl NegSpecImpl for Tuple {
    open spec fn obeys_neg_spec() -> bool {
        true
    }

    open spec fn neg_req(self) -> bool {
        true
    }

    open spec fn neg_spec(self) -> Tuple {
        Tuple { x: negated(self.x), y: negated(self.y), z: negated(self.z), w: negated(self.w) }
    }
}

} // verus!
