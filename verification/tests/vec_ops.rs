//! Vector algebra: exact arithmetic, normalization accuracy, the
//! reflection law, and the random samplers' postconditions.

use wknder::vec3::{Axis, Channel, Vec3};
use wknder::FX_ONE;

fn v(x: i64, y: i64, z: i64) -> Vec3 {
    Vec3 { x, y, z }
}

#[test]
fn add_sub_neg_scale() {
    let a = v(FX_ONE, 2 * FX_ONE, -FX_ONE);
    let b = v(FX_ONE, FX_ONE, FX_ONE);
    assert_eq!(a.add(b), v(2 * FX_ONE, 3 * FX_ONE, 0));
    assert_eq!(a.sub(b), v(0, FX_ONE, -2 * FX_ONE));
    assert_eq!(a.neg(), v(-FX_ONE, -2 * FX_ONE, FX_ONE));
    assert_eq!(a.scale(2 * FX_ONE), v(2 * FX_ONE, 4 * FX_ONE, -2 * FX_ONE));
    assert_eq!(a.mul(b), a);
}

#[test]
fn dot_and_cross() {
    let a = v(FX_ONE, 0, 0);
    let b = v(0, FX_ONE, 0);
    assert_eq!(a.dot(b), 0);
    assert_eq!(a.dot(a), FX_ONE);
    // x cross y == z
    assert_eq!(a.cross(&b), v(0, 0, FX_ONE));
    // 2x cross 3y == 6z
    assert_eq!(
        v(2 * FX_ONE, 0, 0).cross(&v(0, 3 * FX_ONE, 0)),
        v(0, 0, 6 * FX_ONE)
    );
}

#[test]
fn length_of_pythagorean_triple() {
    // |(3, 4, 0)| == 5 exactly
    let a = v(3 * FX_ONE, 4 * FX_ONE, 0);
    assert_eq!(a.length(), 5 * FX_ONE);
}

#[test]
fn normalization_length_close_to_one() {
    // length(normalize(v)) is within a few representation steps of 1
    let vectors = [
        v(FX_ONE, 2 * FX_ONE, 3 * FX_ONE),
        v(-5 * FX_ONE, FX_ONE / 2, 70000),
        v(123456, -654321, 42424),
        v(FX_ONE, 0, 0),
        v(33000, 33000, 33000),
    ];
    for a in vectors {
        let u = a.into_unit();
        let len = u.length();
        assert!(
            (len - FX_ONE).abs() <= 32,
            "length {} too far from one",
            len
        );
    }
}

#[test]
fn reflection_law_on_axis_normals() {
    // reflect(d, n) . n == -(d . n), exactly, for unit axis normals
    let n = v(0, 0, FX_ONE);
    let cases = [
        v(0, 0, -FX_ONE),
        v(FX_ONE, 0, 0),
        v(30000, -50000, 10000),
        v(-12345, 23456, -34567),
    ];
    for d in cases {
        let r = d.reflect_about(n);
        assert_eq!(r.dot(n), -d.dot(n));
    }
}

#[test]
fn reflect_head_on_flips_direction() {
    let n = v(0, FX_ONE, 0);
    let d = v(0, -FX_ONE, 0);
    assert_eq!(d.reflect_about(n), v(0, FX_ONE, 0));
}

#[test]
fn random_samples_land_inside_unit_ball() {
    for _ in 0..200 {
        let p = Vec3::random_in_unit_sphere();
        assert!(p.dot(p) < FX_ONE);
        let q = Vec3::random_in_unit_disk();
        assert!(q.dot(q) < FX_ONE);
        assert_eq!(q.z, 0);
    }
}

#[test]
fn axis_and_channel_access() {
    let a = v(1, 2, 3);
    assert_eq!(a.axis(Axis::X), 1);
    assert_eq!(a.axis(Axis::Y), 2);
    assert_eq!(a.axis(Axis::Z), 3);
    assert_eq!(a.channel(Channel::R), 1);
    assert_eq!(a.channel(Channel::G), 2);
    assert_eq!(a.channel(Channel::B), 3);
}

#[test]
fn mut_from_overwrites() {
    let mut a = v(1, 2, 3);
    a.mut_from(v(7, 8, 9));
    assert_eq!(a, v(7, 8, 9));
}
