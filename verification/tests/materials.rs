//! Material scattering: diffuse, metal (including the exact
//! normal-incidence bounce), and dielectric refraction.

use wknder::hittable::HitRecord;
use wknder::material::{refract, schlick, Dielectric, Lambertian, Metal};
use wknder::ray::Ray;
use wknder::vec3::Vec3;
use wknder::FX_ONE;

fn v(x: i64, y: i64, z: i64) -> Vec3 {
    Vec3 { x, y, z }
}

fn rec_at(p: Vec3, normal: Vec3) -> HitRecord {
    HitRecord { t: FX_ONE, p, normal, material: None }
}

#[test]
fn lambertian_scatters_from_hit_point_toward_normal() {
    let alb = v(52428, 19660, 19660);
    let m = Lambertian(alb);
    let rec = rec_at(v(0, 0, -FX_ONE / 2), v(0, 0, FX_ONE));
    let rnd = v(10000, -20000, 5000);
    let (ray, att) = m.scatter_det(&rec, rnd);
    assert_eq!(ray.origin(), rec.p);
    assert_eq!(ray.direction(), v(10000, -20000, FX_ONE + 5000));
    assert_eq!(att, alb);
}

#[test]
fn metal_new_clamps_fuzz() {
    let alb = v(FX_ONE, FX_ONE, FX_ONE);
    assert_eq!(Metal::new(alb, -5).fuzz, 0);
    assert_eq!(Metal::new(alb, 2 * FX_ONE).fuzz, FX_ONE);
    assert_eq!(Metal::new(alb, 1234).fuzz, 1234);
}

#[test]
fn metal_normal_incidence_reflects_straight_back() {
    // Fuzz zero, incoming direction exactly opposite the unit normal:
    // the scattered direction is exactly the normal, for any draw.
    let m = Metal::new(v(52428, 39321, 13107), 0);
    let rec = rec_at(v(0, 0, -FX_ONE / 2), v(0, 0, FX_ONE));
    let r_in = Ray::new(v(0, 0, 0), v(0, 0, -FX_ONE));
    let rnd = v(30000, 10000, -20000);
    let (ray, att) = m.scatter_det(&r_in, &rec, rnd).expect("must scatter");
    assert_eq!(ray.direction(), v(0, 0, FX_ONE));
    assert_eq!(ray.origin(), rec.p);
    assert_eq!(att, v(52428, 39321, 13107));
}

#[test]
fn metal_absorbs_rays_leaving_into_the_surface() {
    // Strong fuzz can push the reflected ray below the surface; a
    // grazing incoming ray with a perturbation toward the surface is
    // absorbed.
    let m = Metal::new(v(FX_ONE, FX_ONE, FX_ONE), FX_ONE);
    let rec = rec_at(v(0, 0, -FX_ONE / 2), v(0, 0, FX_ONE));
    // Incoming almost parallel to the surface.
    let r_in = Ray::new(v(0, 0, 0), v(FX_ONE, 0, -60));
    let rnd = v(0, 0, -60000);
    assert!(m.scatter_det(&r_in, &rec, rnd).is_none());
}

#[test]
fn refract_at_ratio_one_keeps_the_direction() {
    // An index ratio of one never bends light: the refracted
    // direction is exactly the unit incoming direction.
    let out_n = v(0, 0, FX_ONE);
    let res = refract(v(0, 0, -2 * FX_ONE), out_n, FX_ONE).expect("must refract");
    assert_eq!(res, v(0, 0, -FX_ONE));
    // Off the exactly-representable cases the direction agrees with
    // the unit incoming direction up to rounding.
    let w = v(0, 0, -12345);
    let res2 = refract(w, out_n, FX_ONE).expect("must refract");
    let uw = w.into_unit();
    assert_eq!(res2.x, 0);
    assert_eq!(res2.y, 0);
    assert!((res2.z - uw.z).abs() <= 2);
}

#[test]
fn refract_reports_total_internal_reflection() {
    // Leaving glass at a grazing angle: no refracted ray exists.
    let out_n = v(0, 0, FX_ONE);
    // ratio 1.5, incoming nearly parallel to the surface
    let res = refract(v(FX_ONE, 0, -3000), out_n, 98304);
    assert!(res.is_none());
}

#[test]
fn schlick_normal_incidence_and_grazing() {
    // cosine 0 gives reflectance one; cosine 1 gives the base
    // reflectance ((1-1.5)/(1+1.5))^2 = 0.04.
    assert_eq!(schlick(0, 98304), FX_ONE);
    let r0 = schlick(FX_ONE, 98304);
    assert!((r0 - 2621).abs() <= 2, "base reflectance {}", r0);
}

#[test]
fn dielectric_normal_incidence_passes_straight_through() {
    let d = Dielectric { ref_idx: 98304 };
    let rec = rec_at(v(0, 0, -FX_ONE / 2), v(0, 0, FX_ONE));
    let r_in = Ray::new(v(0, 0, 0), v(0, 0, -FX_ONE));
    // A coin above the base reflectance picks refraction.
    let (ray, att) = d.scatter_det(&r_in, &rec, FX_ONE - 1).expect("always scatters");
    assert_eq!(ray.direction(), v(0, 0, -FX_ONE));
    assert_eq!(att, v(FX_ONE, FX_ONE, FX_ONE));
}

#[test]
fn dielectric_low_coin_reflects() {
    let d = Dielectric { ref_idx: 98304 };
    let rec = rec_at(v(0, 0, -FX_ONE / 2), v(0, 0, FX_ONE));
    let r_in = Ray::new(v(0, 0, 0), v(0, 0, -FX_ONE));
    // A coin of zero is always below the reflectance.
    let (ray, att) = d.scatter_det(&r_in, &rec, 0).expect("always scatters");
    // Reflection about the normal sends the head-on ray straight back.
    assert_eq!(ray.direction(), v(0, 0, FX_ONE));
    assert_eq!(att, v(FX_ONE, FX_ONE, FX_ONE));
}

#[test]
fn metal_reflects_the_raw_direction() {
    // The mirror formula uses the incoming direction as it is, not
    // normalized: a length-two head-on ray reflects to length two.
    let m = Metal::new(v(FX_ONE, FX_ONE, FX_ONE), 0);
    let rec = rec_at(v(0, 0, -FX_ONE / 2), v(0, 0, FX_ONE));
    let r_in = Ray::new(v(0, 0, 0), v(0, 0, -2 * FX_ONE));
    let (ray, _) = m.scatter_det(&r_in, &rec, v(0, 0, 0)).expect("must scatter");
    assert_eq!(ray.direction(), v(0, 0, 2 * FX_ONE));
}
