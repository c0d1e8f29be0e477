//! Intersection records and the scene aggregate.
//!
//! A scene is an ordered collection of surfaces; its `hit` scans all
//! of them and keeps the nearest accepted intersection, shrinking the
//! search window as it goes.  The spec `list_hit_from` is that scan
//! written as a recursion, and the executable loop is proved to return
//! exactly its value.

use vstd::prelude::*;

verus! {

use crate::vec3::{Vec3, V3, bounded3};
use crate::ray::Ray;
use crate::material::Material;
use crate::sphere::{Sphere, sphere_hit_s, sphere_wf};

/// Magnitude bound on scene coordinates, sphere radii and ray
/// components (`2^26`, about a thousand world units either way with
/// plenty of headroom for intermediates).
pub const COORD_BOUND: i64 = 67108864;

/// Magnitude bound a surface normal must meet to be reported (`2`
/// in fixed point; true normals have length about `1`).
pub const NORMAL_BOUND: i64 = 131072;

/// Largest ray parameter a search window may reach (`2^34`, about
/// 262144 world units: the renderer's stand-in for infinity).
pub const T_FAR: i64 = 17179869184;

/// Offset guarding against self-intersection at a scattering origin
/// (about `0.001`).
pub const T_EPS: i64 = 65;

/// The mathematical image of a `HitRecord`.
pub ghost struct HitV {
    pub t: int,
    pub p: V3,
    pub normal: V3,
    pub material: Option<Material>,
}

/// What every reported intersection satisfies: a positive parameter
/// within the far bound, a point within scene coordinates, and a
/// normal of sensible magnitude.
pub open spec fn rec_in_range(h: HitV) -> bool {
    &&& 0 < h.t <= T_FAR
    &&& bounded3(h.p, COORD_BOUND as int)
    &&& bounded3(h.normal, NORMAL_BOUND as int)
}

/// A reported intersection is in range and carries a well-formed
/// material.
pub open spec fn rec_wf(h: HitV) -> bool {
    &&& rec_in_range(h)
    &&& match h.material {
        Some(m) => m.wf(),
        None => false,
    }
}

/// One intersection: parameter, point, oriented unit-scale normal and
/// the material of the surface that was hit.
#[derive(Copy, Clone, Debug)]
pub struct HitRecord {
    pub t: i64,
    pub p: Vec3,
    pub normal: Vec3,
    pub material: Option<Material>,
}

impl View for HitRecord {
    type V = HitV;

    open spec fn view(&self) -> HitV {
        HitV { t: self.t as int, p: self.p@, normal: self.normal@, material: self.material }
    }
}

/// The image of an optional record.
pub open spec fn opt_rec_v(r: Option<HitRecord>) -> Option<HitV> {
    match r {
        Some(h) => Some(h@),
        None => None,
    }
}

/// A record, if reported at all, is well formed.
pub open spec fn opt_rec_wf(r: Option<HitRecord>) -> bool {
    match r {
        Some(h) => rec_wf(h@),
        None => true,
    }
}

impl HitRecord {
    /// A placeholder record: zero parameter, zero point and normal,
    /// no material.
    pub fn empty() -> (r: HitRecord)
        ensures
            r@.t == 0,
            r@.p == (V3 { x: 0, y: 0, z: 0 }),
            r@.normal == (V3 { x: 0, y: 0, z: 0 }),
            r@.material is None,
    {
        HitRecord {
            t: 0,
            p: Vec3 { x: 0, y: 0, z: 0 },
            normal: Vec3 { x: 0, y: 0, z: 0 },
            material: None,
        }
    }
}

/// Anything a ray can intersect; the one concrete surface today is the
/// sphere.
#[derive(Copy, Clone, Debug)]
pub enum Hittable {
    Sphere(Sphere),
}

impl Hittable {
    pub open spec fn wf(self) -> bool {
        match self {
            Hittable::Sphere(s) => sphere_wf(s),
        }
    }

    /// The intersection this surface reports for the given ray and
    /// open window, as a spec-level value.
    pub open spec fn hit_s(self, o: V3, d: V3, t_min: int, t_max: int) -> Option<HitV> {
        match self {
            Hittable::Sphere(s) => sphere_hit_s(s, o, d, t_min, t_max),
        }
    }

    /// Nearest intersection with parameter strictly inside
    /// `(t_min, t_max)`, or nothing.
    pub fn hit(&self, r: &Ray, t_min: i64, t_max: i64) -> (res: Option<HitRecord>)
        requires
            self.wf(),
            bounded3(r@.origin, COORD_BOUND as int),
            bounded3(r@.direction, COORD_BOUND as int),
            0 <= t_min,
            t_max <= T_FAR,
        ensures
            opt_rec_v(res) == self.hit_s(r@.origin, r@.direction, t_min as int, t_max as int),
            opt_rec_wf(res),
    {
        match self {
            Hittable::Sphere(s) => s.hit(r, t_min, t_max),
        }
    }
}

/// The nearest-hit scan over `list[i..]`, entered with the best record
/// found so far and the window already shrunk to it.
pub open spec fn list_hit_from(
    list: Seq<Hittable>,
    i: int,
    o: V3,
    d: V3,
    t_min: int,
    t_max: int,
    best: Option<HitV>,
) -> Option<HitV>
    decreases list.len() - i,
{
    if i < 0 || i >= list.len() {
        best
    } else {
        match list[i].hit_s(o, d, t_min, t_max) {
            Some(h) => list_hit_from(list, i + 1, o, d, t_min, h.t, Some(h)),
            None => list_hit_from(list, i + 1, o, d, t_min, t_max, best),
        }
    }
}

/// The nearest intersection a whole scene reports.
pub open spec fn list_hit_s(list: Seq<Hittable>, o: V3, d: V3, t_min: int, t_max: int) -> Option<
    HitV,
> {
    list_hit_from(list, 0, o, d, t_min, t_max, None)
}

/// Every member of the scene is well formed.
pub open spec fn list_wf(list: Seq<Hittable>) -> bool {
    forall|i: int| 0 <= i < list.len() ==> #[trigger] list[i].wf()
}

/// An unordered collection of surfaces, scanned linearly.
pub struct HittableList {
    pub list: Vec<Hittable>,
}

impl HittableList {
    pub fn new(list: Vec<Hittable>) -> (r: HittableList)
        ensures
            r.list@ == list@,
    {
        HittableList { list }
    }

    pub open spec fn wf(&self) -> bool {
        list_wf(self.list@)
    }

    /// The nearest intersection among all members strictly inside
    /// `(t_min, t_max)`, independent of member order up to exact ties.
    pub fn hit(&self, r: &Ray, t_min: i64, t_max: i64) -> (res: Option<HitRecord>)
        requires
            self.wf(),
            bounded3(r@.origin, COORD_BOUND as int),
            bounded3(r@.direction, COORD_BOUND as int),
            0 <= t_min,
            t_max <= T_FAR,
        ensures
            opt_rec_v(res) == list_hit_s(self.list@, r@.origin, r@.direction, t_min as int, t_max as int),
            opt_rec_wf(res),
    {
        let mut closest: i64 = t_max;
        let mut best: Option<HitRecord> = None;
        let mut i: usize = 0;
        while i < self.list.len()
            invariant
                0 <= i <= self.list@.len(),
                self.wf(),
                bounded3(r@.origin, COORD_BOUND as int),
                bounded3(r@.direction, COORD_BOUND as int),
                0 <= t_min,
                closest <= T_FAR,
                opt_rec_wf(best),
                match best {
                    Some(h) => closest == h@.t,
                    None => closest == t_max,
                },
                list_hit_from(
                    self.list@,
                    i as int,
                    r@.origin,
                    r@.direction,
                    t_min as int,
                    closest as int,
                    opt_rec_v(best),
                ) == list_hit_s(
                    self.list@,
                    r@.origin,
                    r@.direction,
                    t_min as int,
                    t_max as int,
                ),
            decreases self.list@.len() - i,
        {
            let member = self.list[i];
            match member.hit(r, t_min, closest) {
                Some(rec) => {
                    closest = rec.t;
                    best = Some(rec);
                },
                None => {},
            }
            i = i + 1;
        }
        best
    }
}

} // verus!
