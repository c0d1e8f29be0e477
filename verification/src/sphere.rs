//! Spheres and their ray intersection.
//!
//! The intersection solves the fixed-point quadratic
//! `|O + tD - C|^2 = r^2` exactly as the spec `sphere_hit_s` states
//! it: smaller root first, each root accepted only strictly inside the
//! search window.  A negative radius is legitimate -- it flips the
//! reported normal inward, the standard construction for hollow glass
//! shells -- and is preserved here.

use vstd::prelude::*;

verus! {

use crate::fx::{
    FX_ONE, fx_mul_s, fx_div_s, fx_sqrt_s, fx_mul, fx_div, fx_sqrt,
    lemma_fx_mul_abs_le, lemma_fx_div_abs_le,
};
use crate::vec3::{
    Vec3, V3, v3_add, v3_sub, v3_smul, v3_dot, sdot, bounded3, lemma_v3_dot_abs_le,
};
use crate::ray::Ray;
use crate::material::Material;
use crate::hittable::{HitRecord, HitV, COORD_BOUND, NORMAL_BOUND, T_FAR, opt_rec_v, opt_rec_wf};

/// A sphere: center, radius (possibly negative, flipping the normal),
/// and the material every hit on it reports.
#[derive(Copy, Clone, Debug)]
pub struct Sphere {
    pub center: Vec3,
    pub radius: i64,
    pub material: Material,
}

/// A sphere the renderer can work with: coordinates in range, a
/// nonzero radius (a zero radius is degenerate geometry), and a
/// well-formed material.
pub open spec fn sphere_wf(s: Sphere) -> bool {
    &&& bounded3(s.center@, COORD_BOUND as int)
    &&& s.radius != 0
    &&& -(COORD_BOUND as int) <= s.radius <= COORD_BOUND as int
    &&& s.material.wf()
}

/// The record a sphere reports for an accepted root `t`: the point on
/// the ray, and the normal `(p - center) / radius`.  Points or normals
/// outside the representable ranges are dropped rather than reported.
pub open spec fn sphere_record_s(s: Sphere, o: V3, d: V3, t: int) -> Option<HitV> {
    let p = v3_add(o, v3_smul(t, d));
    if bounded3(p, COORD_BOUND as int) {
        let n = V3 {
            x: fx_div_s(p.x - s.center@.x, s.radius as int),
            y: fx_div_s(p.y - s.center@.y, s.radius as int),
            z: fx_div_s(p.z - s.center@.z, s.radius as int),
        };
        if bounded3(n, NORMAL_BOUND as int) {
            Some(HitV { t, p, normal: n, material: Some(s.material) })
        } else {
            None
        }
    } else {
        None
    }
}

/// The intersection a sphere reports: the quadratic in `t` with
/// `a = D.D`, `b = (O-C).D`, `c = (O-C).(O-C) - r^2` and discriminant
/// `b^2 - a c`; the smaller root is tried first, then the larger, each
/// accepted only strictly inside `(t_min, t_max)`.  A direction whose
/// self-dot rounds to zero is degenerate and reports nothing.
pub open spec fn sphere_hit_s(s: Sphere, o: V3, d: V3, t_min: int, t_max: int) -> Option<HitV> {
    let oc = v3_sub(o, s.center@);
    let a = v3_dot(d, d);
    let b = v3_dot(oc, d);
    let c = v3_dot(oc, oc) - fx_mul_s(s.radius as int, s.radius as int);
    let disc = fx_mul_s(b, b) - fx_mul_s(a, c);
    if a <= 0 || disc <= 0 {
        None
    } else {
        let sq = fx_sqrt_s(disc);
        let t1 = fx_div_s(-b - sq, a);
        if t_min < t1 < t_max {
            sphere_record_s(s, o, d, t1)
        } else {
            let t2 = fx_div_s(-b + sq, a);
            if t_min < t2 < t_max {
                sphere_record_s(s, o, d, t2)
            } else {
                None
            }
        }
    }
}

/// An accepted root lies on the sphere: with `a = D.D`,
/// `b = (O-C).D`, `c = (O-C).(O-C) - r^2` and an exact square root
/// `s` of the discriminant, the exact root `t = (-b - s)/a` (or the
/// larger one, which satisfies the same equation with `-s`) puts
/// `O + tD` at squared distance exactly `r^2` from the center.
/// Stated of the exact arithmetic that the fixed-point intersection
/// rounds, with every quantity scaled by `FX_ONE^2`.
pub proof fn lemma_root_on_sphere(oc: V3, d: V3, t: int, a: int, b: int, cc: int, rr: int, s: int)
    requires
        a == sdot(d, d),
        b == sdot(oc, d),
        cc == sdot(oc, oc),
        s * s == b * b - a * (cc - rr),
        t * a == -b - s,
    ensures
        a * sdot(
            V3 { x: oc.x + t * d.x, y: oc.y + t * d.y, z: oc.z + t * d.z },
            V3 { x: oc.x + t * d.x, y: oc.y + t * d.y, z: oc.z + t * d.z },
        ) == a * rr,
{
    let q = V3 { x: oc.x + t * d.x, y: oc.y + t * d.y, z: oc.z + t * d.z };
    assert((oc.x + t * d.x) * (oc.x + t * d.x) == oc.x * oc.x + 2 * t * (oc.x * d.x) + (t * t) * (
    d.x * d.x)) by (nonlinear_arith);
    assert((oc.y + t * d.y) * (oc.y + t * d.y) == oc.y * oc.y + 2 * t * (oc.y * d.y) + (t * t) * (
    d.y * d.y)) by (nonlinear_arith);
    assert((oc.z + t * d.z) * (oc.z + t * d.z) == oc.z * oc.z + 2 * t * (oc.z * d.z) + (t * t) * (
    d.z * d.z)) by (nonlinear_arith);
    assert(2 * t * (oc.x * d.x) + 2 * t * (oc.y * d.y) + 2 * t * (oc.z * d.z) == 2 * t * b)
        by (nonlinear_arith)
        requires
            b == oc.x * d.x + oc.y * d.y + oc.z * d.z,
    ;
    assert((t * t) * (d.x * d.x) + (t * t) * (d.y * d.y) + (t * t) * (d.z * d.z) == (t * t) * a)
        by (nonlinear_arith)
        requires
            a == d.x * d.x + d.y * d.y + d.z * d.z,
    ;
    assert(sdot(q, q) == cc + 2 * t * b + (t * t) * a);
    assert(a * (cc + 2 * t * b + (t * t) * a) == a * cc + 2 * (t * a) * b + (t * a) * (t * a))
        by (nonlinear_arith);
    assert(a * cc + 2 * (-b - s) * b + (-b - s) * (-b - s) == a * cc - b * b + s * s)
        by (nonlinear_arith);
    assert(a * cc - b * b + (b * b - a * (cc - rr)) == a * rr) by (nonlinear_arith);
}

/// The reported normal `(p - center) / radius` points along
/// `p - center` for a positive radius and against it for a negative
/// one: the negative-radius construction flips the normal inward,
/// which is what makes hollow glass shells work and is preserved
/// here, not repaired.
pub proof fn lemma_normal_orientation(q: V3, radius: int)
    requires
        radius != 0,
    ensures
        radius > 0 ==> sdot(
            V3 { x: fx_div_s(q.x, radius), y: fx_div_s(q.y, radius), z: fx_div_s(q.z, radius) },
            q,
        ) >= 0,
        radius < 0 ==> sdot(
            V3 { x: fx_div_s(q.x, radius), y: fx_div_s(q.y, radius), z: fx_div_s(q.z, radius) },
            q,
        ) <= 0,
{
    let n = V3 { x: fx_div_s(q.x, radius), y: fx_div_s(q.y, radius), z: fx_div_s(q.z, radius) };
    if radius > 0 {
        assert(n.x * q.x >= 0 && n.y * q.y >= 0 && n.z * q.z >= 0) by (nonlinear_arith)
            requires
                radius > 0,
                n.x == fx_div_s(q.x, radius),
                n.y == fx_div_s(q.y, radius),
                n.z == fx_div_s(q.z, radius),
        ;
        assert(sdot(n, q) >= 0);
    } else {
        assert(n.x * q.x <= 0 && n.y * q.y <= 0 && n.z * q.z <= 0) by (nonlinear_arith)
            requires
                radius < 0,
                n.x == fx_div_s(q.x, radius),
                n.y == fx_div_s(q.y, radius),
                n.z == fx_div_s(q.z, radius),
        ;
        assert(sdot(n, q) <= 0);
    }
}

impl Sphere {
    pub fn new(center: Vec3, radius: i64, material: Material) -> (r: Sphere)
        ensures
            r.center == center,
            r.radius == radius,
            r.material == material,
    {
        Sphere { center, radius, material }
    }

    /// Build the record for an accepted root, dropping out-of-range
    /// points and normals.
    fn make_record(&self, r: &Ray, t: i64) -> (res: Option<HitRecord>)
        requires
            sphere_wf(*self),
            bounded3(r@.origin, COORD_BOUND as int),
            bounded3(r@.direction, COORD_BOUND as int),
            0 < t <= T_FAR,
        ensures
            opt_rec_v(res) == sphere_record_s(*self, r@.origin, r@.direction, t as int),
            opt_rec_wf(res),
    {
        proof {
            lemma_fx_mul_abs_le(t as int, r@.direction.x, T_FAR as int, COORD_BOUND as int);
            lemma_fx_mul_abs_le(t as int, r@.direction.y, T_FAR as int, COORD_BOUND as int);
            lemma_fx_mul_abs_le(t as int, r@.direction.z, T_FAR as int, COORD_BOUND as int);
        }
        let p = r.origin().add(r.direction().scale(t));
        if p.x < -COORD_BOUND || p.x > COORD_BOUND || p.y < -COORD_BOUND || p.y > COORD_BOUND
            || p.z < -COORD_BOUND || p.z > COORD_BOUND {
            return None;
        }
        proof {
            lemma_fx_div_abs_le(p@.x - self.center@.x, self.radius as int, 134217728);
            lemma_fx_div_abs_le(p@.y - self.center@.y, self.radius as int, 134217728);
            lemma_fx_div_abs_le(p@.z - self.center@.z, self.radius as int, 134217728);
        }
        let nx = fx_div(p.x - self.center.x, self.radius);
        let ny = fx_div(p.y - self.center.y, self.radius);
        let nz = fx_div(p.z - self.center.z, self.radius);
        if nx < -NORMAL_BOUND || nx > NORMAL_BOUND || ny < -NORMAL_BOUND || ny > NORMAL_BOUND
            || nz < -NORMAL_BOUND || nz > NORMAL_BOUND {
            return None;
        }
        Some(
            HitRecord {
                t,
                p,
                normal: Vec3 { x: nx, y: ny, z: nz },
                material: Some(self.material),
            },
        )
    }

    /// Nearest intersection with parameter strictly inside
    /// `(t_min, t_max)`, or nothing.
    pub fn hit(&self, r: &Ray, t_min: i64, t_max: i64) -> (res: Option<HitRecord>)
        requires
            sphere_wf(*self),
            bounded3(r@.origin, COORD_BOUND as int),
            bounded3(r@.direction, COORD_BOUND as int),
            0 <= t_min,
            t_max <= T_FAR,
        ensures
            opt_rec_v(res) == sphere_hit_s(*self, r@.origin, r@.direction, t_min as int, t_max as int),
            opt_rec_wf(res),
    {
        let oc = r.origin().sub(self.center);
        let a = r.direction().dot(r.direction());
        let b = oc.dot(r.direction());
        proof {
            lemma_v3_dot_abs_le(oc@, oc@, 134217728, 134217728);
            lemma_v3_dot_abs_le(oc@, r@.direction, 134217728, COORD_BOUND as int);
            lemma_v3_dot_abs_le(r@.direction, r@.direction, COORD_BOUND as int, COORD_BOUND as int);
            lemma_fx_mul_abs_le(
                self.radius as int,
                self.radius as int,
                COORD_BOUND as int,
                COORD_BOUND as int,
            );
        }
        let c = oc.dot(oc) - fx_mul(self.radius, self.radius);
        proof {
            lemma_fx_mul_abs_le(b as int, b as int, 412316860416, 412316860416);
            lemma_fx_mul_abs_le(a as int, c as int, 206158430208, 893353197568);
        }
        let disc = fx_mul(b, b) - fx_mul(a, c);
        if a <= 0 || disc <= 0 {
            return None;
        }
        let sq = fx_sqrt(disc);
        proof {
            lemma_fx_div_abs_le(-(b as int) - (sq as int), a as int, 1511828488192);
            lemma_fx_div_abs_le(-(b as int) + (sq as int), a as int, 1511828488192);
        }
        let t1 = fx_div(-b - sq, a);
        if t_min < t1 && t1 < t_max {
            return self.make_record(r, t1);
        }
        let t2 = fx_div(-b + sq, a);
        if t_min < t2 && t2 < t_max {
            return self.make_record(r, t2);
        }
        None
    }
}

} // verus!
