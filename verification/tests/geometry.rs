//! Sphere intersection, nearest-hit selection over a scene, and the
//! negative-radius normal flip.

use wknder::hittable::{HitRecord, Hittable, HittableList, T_EPS, T_FAR};
use wknder::material::{Dielectric, Lambertian, Material};
use wknder::ray::Ray;
use wknder::sphere::Sphere;
use wknder::vec3::Vec3;
use wknder::FX_ONE;

fn v(x: i64, y: i64, z: i64) -> Vec3 {
    Vec3 { x, y, z }
}

fn gray() -> Material {
    Material::Lambertian(Lambertian(v(FX_ONE / 2, FX_ONE / 2, FX_ONE / 2)))
}

#[test]
fn hit_point_lies_on_the_sphere() {
    // Unit sphere three units down the axis: hit at t == 2, and the
    // hit point is exactly one radius from the center.
    let center = v(0, 0, -3 * FX_ONE);
    let s = Sphere::new(center, FX_ONE, gray());
    let r = Ray::new(v(0, 0, 0), v(0, 0, -FX_ONE));
    let rec = s.hit(&r, T_EPS, T_FAR).expect("must hit");
    assert_eq!(rec.t, 2 * FX_ONE);
    assert_eq!(rec.p, v(0, 0, -2 * FX_ONE));
    assert_eq!(rec.p.sub(center).length(), FX_ONE);
    assert_eq!(rec.normal, v(0, 0, FX_ONE));
}

#[test]
fn oblique_hit_point_lies_on_the_sphere_within_tolerance() {
    let center = v(0, 0, -3 * FX_ONE);
    let s = Sphere::new(center, FX_ONE, gray());
    let r = Ray::new(v(0, 0, 0), v(19660, 6553, -FX_ONE));
    let rec = s.hit(&r, T_EPS, T_FAR).expect("must hit");
    let d = rec.p.sub(center).length() - FX_ONE;
    assert!(d.abs() <= 655, "off the surface by {}", d);
}

#[test]
fn miss_returns_nothing() {
    let s = Sphere::new(v(0, 0, -3 * FX_ONE), FX_ONE, gray());
    // Pointing away from the sphere.
    assert!(s.hit(&Ray::new(v(0, 0, 0), v(0, 0, FX_ONE)), T_EPS, T_FAR).is_none());
    // Passing well beside it.
    assert!(s
        .hit(&Ray::new(v(0, 0, 0), v(3 * FX_ONE, 0, -FX_ONE)), T_EPS, T_FAR)
        .is_none());
}

#[test]
fn window_excludes_roots() {
    let s = Sphere::new(v(0, 0, -3 * FX_ONE), FX_ONE, gray());
    let r = Ray::new(v(0, 0, 0), v(0, 0, -FX_ONE));
    // The near root is at t == 2, the far one at t == 4.
    let rec = s.hit(&r, 3 * FX_ONE, T_FAR).expect("far root");
    assert_eq!(rec.t, 4 * FX_ONE);
    assert!(s.hit(&r, 5 * FX_ONE, T_FAR).is_none());
    assert!(s.hit(&r, T_EPS, 2 * FX_ONE).is_none());
}

#[test]
fn scene_returns_nearest_hit_regardless_of_order() {
    let near = Sphere::new(v(0, 0, -2 * FX_ONE), FX_ONE / 2, gray());
    let far = Sphere::new(v(0, 0, -6 * FX_ONE), FX_ONE / 2, gray());
    let r = Ray::new(v(0, 0, 0), v(0, 0, -FX_ONE));
    for list in [
        vec![Hittable::Sphere(near), Hittable::Sphere(far)],
        vec![Hittable::Sphere(far), Hittable::Sphere(near)],
    ] {
        let world = HittableList::new(list);
        let rec = world.hit(&r, T_EPS, T_FAR).expect("must hit");
        assert_eq!(rec.t, FX_ONE + FX_ONE / 2);
    }
}

#[test]
fn empty_scene_hits_nothing() {
    let world = HittableList::new(vec![]);
    let r = Ray::new(v(0, 0, 0), v(0, 0, -FX_ONE));
    assert!(world.hit(&r, T_EPS, T_FAR).is_none());
}

#[test]
fn negative_radius_flips_the_normal_inward() {
    let glass = Material::Dielectric(Dielectric { ref_idx: 98304 });
    let s = Sphere::new(v(0, 0, -FX_ONE), -29491, glass);
    let r = Ray::new(v(0, 0, 0), v(0, 0, -FX_ONE));
    let rec = s.hit(&r, T_EPS, T_FAR).expect("must hit");
    assert_eq!(rec.t, 36046);
    // The hit point is on the near side, yet the normal points away
    // from the ray origin: the negative radius flipped it.
    assert!(rec.normal.z < 0);
}

#[test]
fn empty_record_is_blank() {
    let rec = HitRecord::empty();
    assert_eq!(rec.t, 0);
    assert_eq!(rec.p, v(0, 0, 0));
    assert_eq!(rec.normal, v(0, 0, 0));
    assert!(rec.material.is_none());
}

#[test]
fn ray_accessors_and_point_at() {
    let mut r = Ray::new(v(FX_ONE, 0, 0), v(0, FX_ONE, 0));
    assert_eq!(r.origin(), v(FX_ONE, 0, 0));
    assert_eq!(r.direction(), v(0, FX_ONE, 0));
    assert_eq!(r.point_at_parameter(2 * FX_ONE), v(FX_ONE, 2 * FX_ONE, 0));
    let other = Ray::new(v(0, 0, 0), v(0, 0, -FX_ONE));
    r.mut_from(other);
    assert_eq!(r.origin(), v(0, 0, 0));
    assert_eq!(r.direction(), v(0, 0, -FX_ONE));
}
