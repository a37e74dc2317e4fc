//! Rays: parametrized lines given by an origin and a direction.

use crate::vectors::{v3_add, v3_fits, v3_scale, v3_sub, Point, Vec3, V3};
use vstd::prelude::*;

verus! {

/// A ray: the points `orig + dir * t` for every parameter `t`.
#[derive(Clone, Copy, Debug, PartialEq, Eq, Structural)]
pub struct Ray {
    pub orig: Point,
    pub dir: Vec3,
}

/// The point of a ray at parameter `t`, in the model.
pub open spec fn spec_ray_at(orig: V3, dir: V3, t: int) -> V3 {
    v3_add(orig, v3_scale(dir, t))
}

impl Ray {
    /// The origin of the ray.
    pub fn origin(self) -> (r: Point)
        ensures
            r == self.orig,
    {
        self.orig
    }

    /// The direction of the ray.
    pub fn direction(&self) -> (r: Vec3)
        ensures
            r == self.dir,
    {
        self.dir
    }

    /// The point reached after advancing `t` steps of the direction from the
    /// origin; `t` may be negative or zero.
    pub fn at(self, t: i64) -> (r: Point)
        requires
            v3_fits(v3_scale(self.dir@, t as int)),
            v3_fits(spec_ray_at(self.orig@, self.dir@, t as int)),
        ensures
            r@ == spec_ray_at(self.orig@, self.dir@, t as int),
    {
        self.orig.add(self.dir.mul(t))
    }
}

/// A ray at parameter zero is at its origin.
pub proof fn lemma_ray_at_zero(orig: V3, dir: V3)
    ensures
        spec_ray_at(orig, dir, 0) == orig,
{
}

/// A ray at parameter one is at its origin advanced by its direction.
pub proof fn lemma_ray_at_one(orig: V3, dir: V3)
    ensures
        spec_ray_at(orig, dir, 1) == v3_add(orig, dir),
{
}

/// Advancing a ray is affine: moving from parameter `t1` to `t1 + t2`
/// displaces the point by the direction scaled by `t2`.
pub proof fn lemma_ray_at_affine(orig: V3, dir: V3, t1: int, t2: int)
    ensures
        v3_sub(spec_ray_at(orig, dir, t1 + t2), spec_ray_at(orig, dir, t1)) == v3_scale(dir, t2),
{
    assert(dir.x * (t1 + t2) - dir.x * t1 == dir.x * t2) by (nonlinear_arith);
    assert(dir.y * (t1 + t2) - dir.y * t1 == dir.y * t2) by (nonlinear_arith);
    assert(dir.z * (t1 + t2) - dir.z * t1 == dir.z * t2) by (nonlinear_arith);
}

} // verus!
