//! The camera, the integrator and the render driver: deterministic
//! rays with a closed aperture, the background gradient, the bounce
//! cutoff, and end-to-end scenes.

use wknder::camera::Camera;
use wknder::hittable::{Hittable, HittableList};
use wknder::material::{Dielectric, Lambertian, Material};
use wknder::ray::Ray;
use wknder::render::{background, channel_byte, color, render, render_band};
use wknder::sphere::Sphere;
use wknder::vec3::Vec3;
use wknder::FX_ONE;

fn v(x: i64, y: i64, z: i64) -> Vec3 {
    Vec3 { x, y, z }
}

/// Looking straight down the negative z axis, 90 degree field of
/// view, square aspect, closed aperture, focus at one unit.
fn straight_camera() -> Camera {
    Camera::new(
        v(0, 0, 0),
        v(0, 0, -FX_ONE),
        v(0, FX_ONE, 0),
        90 * FX_ONE,
        FX_ONE,
        0,
        FX_ONE,
    )
}

fn single_sphere_scene() -> HittableList {
    HittableList::new(vec![Hittable::Sphere(Sphere::new(
        v(0, 0, -FX_ONE),
        FX_ONE / 2,
        Material::Lambertian(Lambertian(v(52428, 19660, 19660))),
    ))])
}

#[test]
fn closed_aperture_gives_one_fixed_ray_per_pixel() {
    let cam = straight_camera();
    for (s, t) in [(0, 0), (32768, 32768), (FX_ONE, FX_ONE), (11111, 53333)] {
        let a = cam.get_ray(s, t);
        let b = cam.get_ray(s, t);
        assert_eq!(a.origin(), b.origin());
        assert_eq!(a.direction(), b.direction());
        // The same holds with explicit, different lens samples.
        let c = cam.get_ray_with(s, t, v(30000, 10000, 0));
        let d = cam.get_ray_with(s, t, v(-20000, -40000, 0));
        assert_eq!(c.origin(), d.origin());
        assert_eq!(c.direction(), d.direction());
    }
}

#[test]
fn center_ray_points_down_the_axis() {
    let cam = straight_camera();
    let r = cam.get_ray(FX_ONE / 2, FX_ONE / 2);
    assert_eq!(r.origin(), v(0, 0, 0));
    assert_eq!(r.direction().x, 0);
    assert_eq!(r.direction().y, 0);
    assert_eq!(r.direction().z, -FX_ONE);
}

#[test]
fn background_gradient_at_the_poles() {
    // Straight up is pure sky blue, straight down pure white.
    let up = background(&Ray::new(v(0, 0, 0), v(0, FX_ONE, 0)));
    assert_eq!(up, v(32768, 45875, FX_ONE));
    let down = background(&Ray::new(v(0, 0, 0), v(0, -FX_ONE, 0)));
    assert_eq!(down, v(FX_ONE, FX_ONE, FX_ONE));
}

#[test]
fn center_pixel_registers_the_sphere() {
    let cam = straight_camera();
    let world = single_sphere_scene();
    let r = cam.get_ray(FX_ONE / 2, FX_ONE / 2);
    let c = color(&r, &world, 0, 1);
    assert_ne!(c, background(&r), "the sphere must darken the pixel");
}

#[test]
fn missing_rays_return_the_exact_background() {
    let cam = straight_camera();
    let world = single_sphere_scene();
    for (s, t) in [(0, 0), (0, FX_ONE), (FX_ONE, 0), (FX_ONE, FX_ONE)] {
        let r = cam.get_ray(s, t);
        assert_eq!(color(&r, &world, 0, 50), background(&r));
    }
}

#[test]
fn empty_scene_returns_the_exact_background_everywhere() {
    let cam = straight_camera();
    let world = HittableList::new(vec![]);
    for (s, t) in [(0, 0), (32768, 32768), (FX_ONE, FX_ONE), (9999, 60000)] {
        let r = cam.get_ray(s, t);
        assert_eq!(color(&r, &world, 0, 50), background(&r));
    }
}

#[test]
fn zero_bounce_budget_makes_hits_black() {
    let cam = straight_camera();
    let world = single_sphere_scene();
    let r = cam.get_ray(FX_ONE / 2, FX_ONE / 2);
    assert_eq!(color(&r, &world, 0, 0), v(0, 0, 0));
}

#[test]
fn nested_dielectric_shell_yields_a_finite_color() {
    // A glass sphere with a negative-radius inner shell at the same
    // center: the hollow-bubble construction.  Every traced color
    // stays a valid color.
    let glass = Material::Dielectric(Dielectric { ref_idx: 98304 });
    let world = HittableList::new(vec![
        Hittable::Sphere(Sphere::new(v(0, 0, -FX_ONE), 32768, glass)),
        Hittable::Sphere(Sphere::new(v(0, 0, -FX_ONE), -29491, glass)),
        Hittable::Sphere(Sphere::new(
            v(0, -6553600, -FX_ONE),
            6520832,
            Material::Lambertian(Lambertian(v(32768, 39321, 0))),
        )),
    ]);
    let cam = straight_camera();
    for (s, t) in [
        (FX_ONE / 2, FX_ONE / 2),
        (30000, 36000),
        (36000, 30000),
        (32768, 40000),
    ] {
        let r = cam.get_ray(s, t);
        for _ in 0..20 {
            let c = color(&r, &world, 0, 50);
            for ch in [c.x, c.y, c.z] {
                assert!((0..=FX_ONE).contains(&ch), "channel {} out of range", ch);
            }
        }
    }
}

#[test]
fn channel_bytes_quantize_with_truncation() {
    assert_eq!(channel_byte(0), 0);
    assert_eq!(channel_byte(FX_ONE), 255);
    assert_eq!(channel_byte(FX_ONE / 2), 127);
}

#[test]
fn render_produces_a_full_rgb_buffer() {
    let cam = straight_camera();
    let world = single_sphere_scene();
    let buf = render(&world, &cam, 4, 4, 2, 5);
    assert_eq!(buf.len(), 4 * 4 * 3);
    let band = render_band(&world, &cam, 4, 4, 1, 3, 1, 3);
    assert_eq!(band.len(), 2 * 4 * 3);
}

#[test]
fn rendered_rows_split_like_the_whole() {
    // Bands tile the image: lengths add up.
    let cam = straight_camera();
    let world = single_sphere_scene();
    let top = render_band(&world, &cam, 3, 4, 2, 4, 1, 2);
    let bottom = render_band(&world, &cam, 3, 4, 0, 2, 1, 2);
    assert_eq!(top.len() + bottom.len(), 3 * 4 * 3);
}
