//! Rays: an origin and an (unnormalized) direction.

use vstd::prelude::*;

verus! {

use crate::vec3::{Vec3, V3, v3_add, v3_smul, fits3};

/// The mathematical image of a `Ray`.
pub ghost struct RayV {
    pub origin: V3,
    pub direction: V3,
}

/// The point at parameter `t` along the ray: `origin + t * direction`.
pub open spec fn ray_at(r: RayV, t: int) -> V3 {
    v3_add(r.origin, v3_smul(t, r.direction))
}

/// A half-line through space, parametrized by a fixed-point scalar.
#[derive(Copy, Clone, Debug)]
pub struct Ray {
    pub origin: Vec3,
    pub direction: Vec3,
}

impl View for Ray {
    type V = RayV;

    open spec fn view(&self) -> RayV {
        RayV { origin: self.origin@, direction: self.direction@ }
    }
}

impl Ray {
    pub fn new(origin: Vec3, direction: Vec3) -> (r: Ray)
        ensures
            r@ == (RayV { origin: origin@, direction: direction@ }),
    {
        Ray { origin, direction }
    }

    /// Overwrite this ray with another.
    pub fn mut_from(&mut self, other: Ray)
        ensures
            *final(self) == other,
    {
        self.origin = other.origin;
        self.direction = other.direction;
    }

    /// The point `origin + t * direction`.
    pub fn point_at_parameter(self, t: i64) -> (r: Vec3)
        requires
            fits3(v3_smul(t as int, self@.direction)),
            fits3(ray_at(self@, t as int)),
        ensures
            r@ == ray_at(self@, t as int),
    {
        self.origin.add(self.direction.scale(t))
    }

    pub fn origin(self) -> (r: Vec3)
        ensures
            r@ == self@.origin,
    {
        self.origin
    }

    pub fn direction(self) -> (r: Vec3)
        ensures
            r@ == self@.direction,
    {
        self.direction
    }
}

} // verus!
