//! Vector types over exact rational scalars, and the crate's error type.

use vstd::prelude::*;

use crate::rat::{Frac, Rat, frac_bounded, frac_int};

verus! {

/// Spec-level value of a 2-component vector.
pub ghost struct FracV2 {
    pub x: Frac,
    pub y: Frac,
}

/// Spec-level value of a 3-component vector.
pub ghost struct FracV3 {
    pub x: Frac,
    pub y: Frac,
    pub z: Frac,
}

#[derive(Clone, Copy, Debug)]
pub struct Vector2 {
    pub x: Rat,
    pub y: Rat,
}

#[derive(Clone, Copy, Debug)]
pub struct Vector3 {
    pub x: Rat,
    pub y: Rat,
    pub z: Rat,
}

impl View for Vector2 {
    type V = FracV2;

    open spec fn view(&self) -> FracV2 {
        FracV2 { x: self.x@, y: self.y@ }
    }
}

impl View for Vector3 {
    type V = FracV3;

    open spec fn view(&self) -> FracV3 {
        FracV3 { x: self.x@, y: self.y@, z: self.z@ }
    }
}

impl Vector2 {
    pub open spec fn wf(self) -> bool {
        self.x.wf() && self.y.wf()
    }

    /// Componentwise bound: numerators within `±n`, denominators in `[1, d]`.
    pub open spec fn bounded(self, n: int, d: int) -> bool {
        frac_bounded(self@.x, n, d) && frac_bounded(self@.y, n, d)
    }

    pub fn new(x: Rat, y: Rat) -> (r: Vector2)
        ensures
            r.x == x,
            r.y == y,
    {
        Vector2 { x, y }
    }

    pub fn zero() -> (r: Vector2)
        ensures
            r.wf(),
            r@.x == frac_int(0),
            r@.y == frac_int(0),
    {
        Vector2 { x: Rat::zero(), y: Rat::zero() }
    }
}

impl Vector3 {
    pub open spec fn wf(self) -> bool {
        self.x.wf() && self.y.wf() && self.z.wf()
    }

    /// Componentwise bound: numerators within `±n`, denominators in `[1, d]`.
    pub open spec fn bounded(self, n: int, d: int) -> bool {
        frac_bounded(self@.x, n, d) && frac_bounded(self@.y, n, d) && frac_bounded(self@.z, n, d)
    }

    pub fn new(x: Rat, y: Rat, z: Rat) -> (r: Vector3)
        ensures
            r.x == x,
            r.y == y,
            r.z == z,
    {
        Vector3 { x, y, z }
    }

    pub fn zero() -> (r: Vector3)
        ensures
            r.wf(),
            r@.x == frac_int(0),
            r@.y == frac_int(0),
            r@.z == frac_int(0),
    {
        Vector3 { x: Rat::zero(), y: Rat::zero(), z: Rat::zero() }
    }
}

/// Errors of the geometry core. Degenerate inputs (an empty vertex list)
/// are rejected with `InvalidInput` rather than producing an inverted box.
#[derive(Clone, Copy, Debug, PartialEq, Eq, Structural)]
pub enum GeomError {
    InvalidInput,
}

} // verus!
