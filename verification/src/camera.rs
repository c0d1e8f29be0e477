//! The thin-lens camera.
//!
//! Construction derives an orthonormal-ish basis and a viewport
//! rectangle from look-from/look-at/up, a vertical field of view in
//! degrees, aspect ratio, aperture and focus distance; `get_ray` maps
//! normalized image coordinates to a world ray, sampling the lens disk
//! for depth of field.  The trigonometry is a fixed-point Taylor
//! polynomial whose exact value is the spec.

use vstd::prelude::*;

verus! {

use crate::fx::{
    FX_ONE, fx_mul_s, fx_div_s, tdiv, fx_mul, fx_div, tdiv_i64,
    lemma_tdiv_abs_le, lemma_fx_mul_abs_le, lemma_fx_div_abs_le, lemma_tdiv_sign,
};
use crate::vec3::{
    Vec3, V3, v3_add, v3_sub, v3_smul, v3_dot, v3_cross, v3_unit, bounded3,
    in_unit_ball, lemma_v3_dot_abs_le, lemma_unit_comp_bound, lemma_sdot_self_nonneg,
};
use crate::ray::{Ray, RayV};
use crate::sample::sample_unit_fx;

/// Pi, rounded down to a fixed-point value.
pub const PI_FX: i64 = 205887;

/// Magnitude bound on camera positions and viewport vectors (`2^23`).
pub const CAM_BOUND: i64 = 8388608;

/// The sine Taylor polynomial `x - x^3/6 + x^5/120 - x^7/5040`, in
/// the exact fixed-point chain the camera computes.
pub open spec fn sin_poly_s(x: int) -> int {
    let x2 = fx_mul_s(x, x);
    let x3 = fx_mul_s(x2, x);
    let x5 = fx_mul_s(x3, x2);
    let x7 = fx_mul_s(x5, x2);
    x - tdiv(x3, 6) + tdiv(x5, 120) - tdiv(x7, 5040)
}

/// The cosine Taylor polynomial `1 - x^2/2 + x^4/24 - x^6/720`.
pub open spec fn cos_poly_s(x: int) -> int {
    let x2 = fx_mul_s(x, x);
    let x4 = fx_mul_s(x2, x2);
    let x6 = fx_mul_s(x4, x2);
    FX_ONE - tdiv(x2, 2) + tdiv(x4, 24) - tdiv(x6, 720)
}

/// The tangent as the quotient of the two polynomials.  A cosine that
/// rounds to zero or below is replaced by one representation step so
/// the quotient stays defined; on the admitted angle range the
/// replacement is inactive.
pub open spec fn tan_poly_s(x: int) -> int {
    let s = sin_poly_s(x);
    let c = cos_poly_s(x);
    let cg = if c < 1 {
        1
    } else {
        c
    };
    fx_div_s(s, cg)
}

/// The half-angle, in radians, of a vertical field of view given in
/// degrees: `(vfov * pi / 180) / 2`.
pub open spec fn half_angle_s(vfov: int) -> int {
    tdiv(fx_div_s(fx_mul_s(vfov, PI_FX as int), 180 * (FX_ONE as int)), 2)
}

/// The mathematical image of a `Camera`.
pub ghost struct CameraV {
    pub origin: V3,
    pub lower_left_corner: V3,
    pub horizontal: V3,
    pub vertical: V3,
    pub u: V3,
    pub v: V3,
    pub w: V3,
    pub lens_radius: int,
}

/// Everything the camera's construction derives, as one spec value.
pub open spec fn camera_make_s(
    lookfrom: V3,
    lookat: V3,
    vup: V3,
    vfov: int,
    aspect: int,
    aperture: int,
    focus_dist: int,
) -> CameraV {
    let half_height = tan_poly_s(half_angle_s(vfov));
    let half_width = fx_mul_s(aspect, half_height);
    let w = v3_unit(v3_sub(lookfrom, lookat));
    let u = v3_unit(v3_cross(vup, w));
    let v = v3_cross(w, u);
    let hwf = fx_mul_s(half_width, focus_dist);
    let hhf = fx_mul_s(half_height, focus_dist);
    CameraV {
        origin: lookfrom,
        lower_left_corner: v3_sub(
            v3_sub(v3_sub(lookfrom, v3_smul(hwf, u)), v3_smul(hhf, v)),
            v3_smul(focus_dist, w),
        ),
        horizontal: v3_smul(2 * hwf, u),
        vertical: v3_smul(2 * hhf, v),
        u,
        v,
        w,
        lens_radius: tdiv(aperture, 2),
    }
}

/// The inputs a camera can be built from without leaving the
/// representation: positions within `2^22`, an up vector of direction
/// scale, a field of view strictly between 0 and 150 degrees, and
/// derived viewport quantities that stay within their bounds.  The
/// later conjuncts speak of derived values; a caller can evaluate
/// them with the public fixed-point and vector operations before
/// construction.
pub open spec fn camera_inputs_ok(
    lookfrom: V3,
    lookat: V3,
    vup: V3,
    vfov: int,
    aspect: int,
    aperture: int,
    focus_dist: int,
) -> bool {
    let diff = v3_sub(lookfrom, lookat);
    let w = v3_unit(diff);
    let cu = v3_cross(vup, w);
    let half_height = tan_poly_s(half_angle_s(vfov));
    let half_width = fx_mul_s(aspect, half_height);
    let hwf = fx_mul_s(half_width, focus_dist);
    let hhf = fx_mul_s(half_height, focus_dist);
    &&& bounded3(lookfrom, 4194304)
    &&& bounded3(lookat, 4194304)
    &&& bounded3(vup, 131072)
    &&& 0 < vfov <= 9830400
    &&& 0 <= aspect <= 1048576
    &&& 0 <= aperture <= 1048576
    &&& 0 < focus_dist <= 4194304
    &&& v3_dot(diff, diff) >= 1
    &&& v3_dot(cu, cu) >= 1
    &&& -2097152 <= half_height <= 2097152
    &&& -2097152 <= half_width <= 2097152
    &&& -2097152 <= hwf <= 2097152
    &&& -2097152 <= hhf <= 2097152
    &&& bounded3(camera_make_s(lookfrom, lookat, vup, vfov, aspect, aperture, focus_dist).lower_left_corner, CAM_BOUND as int)
    &&& bounded3(camera_make_s(lookfrom, lookat, vup, vfov, aspect, aperture, focus_dist).vertical, CAM_BOUND as int)
}

/// A camera the renderer can trace through: all fields within their
/// representation bounds.
pub open spec fn camera_wf(c: CameraV) -> bool {
    &&& bounded3(c.origin, 4194304)
    &&& bounded3(c.lower_left_corner, CAM_BOUND as int)
    &&& bounded3(c.horizontal, CAM_BOUND as int)
    &&& bounded3(c.vertical, CAM_BOUND as int)
    &&& bounded3(c.u, 524288)
    &&& bounded3(c.v, 524288)
    &&& bounded3(c.w, 524288)
    &&& 0 <= c.lens_radius <= 524288
}

/// The ray for normalized image coordinates `(s, t)` once the lens
/// disk sample `rd` is fixed: from `origin + offset` toward the
/// viewport point, with `offset = lens_radius * (rd.x u + rd.y v)`.
pub open spec fn get_ray_s(c: CameraV, s: int, t: int, rd: V3) -> RayV {
    let rdx = fx_mul_s(c.lens_radius, rd.x);
    let rdy = fx_mul_s(c.lens_radius, rd.y);
    let offset = v3_add(v3_smul(rdx, c.u), v3_smul(rdy, c.v));
    let origin = v3_add(c.origin, offset);
    let target = v3_add(
        v3_add(c.lower_left_corner, v3_smul(s, c.horizontal)),
        v3_smul(t, c.vertical),
    );
    RayV { origin, direction: v3_sub(v3_sub(target, c.origin), offset) }
}

/// With a closed aperture the lens sample is multiplied by zero: every
/// pixel coordinate yields one fixed ray, whatever the disk draw.
pub proof fn lemma_get_ray_aperture_zero(c: CameraV, s: int, t: int, rd1: V3, rd2: V3)
    requires
        c.lens_radius == 0,
    ensures
        get_ray_s(c, s, t, rd1) == get_ray_s(c, s, t, rd2),
{
    assert(fx_mul_s(0, rd1.x) == 0 && fx_mul_s(0, rd1.y) == 0 && fx_mul_s(0, rd2.x) == 0
        && fx_mul_s(0, rd2.y) == 0);
}

/// The admitted field-of-view range keeps the half-angle inside the
/// polynomial's domain, `[0, pi/2)` in fixed point.
pub proof fn lemma_half_angle_range(vfov: int)
    requires
        0 < vfov <= 9830400,
    ensures
        0 <= half_angle_s(vfov) <= 102943,
{
    lemma_fx_mul_abs_le(vfov, PI_FX as int, 9830400, PI_FX as int);
    let p = fx_mul_s(vfov, PI_FX as int);
    lemma_tdiv_sign(vfov * (PI_FX as int), FX_ONE as int);
    assert(vfov * (PI_FX as int) >= 0) by (nonlinear_arith)
        requires
            vfov > 0,
    ;
    lemma_tdiv_abs_le(p * (FX_ONE as int), 180 * (FX_ONE as int), 30883056 * (FX_ONE as int));
    lemma_tdiv_sign(p * (FX_ONE as int), 180 * (FX_ONE as int));
    assert(p * (FX_ONE as int) >= 0) by (nonlinear_arith)
        requires
            p >= 0,
    ;
    let th = fx_div_s(p, 180 * (FX_ONE as int));
    lemma_tdiv_sign(th, 2);
    lemma_tdiv_abs_le(th, 2, 171573);
}

/// The sine polynomial, exact per `sin_poly_s`.
pub fn fx_sin(x: i64) -> (r: i64)
    requires
        0 <= x <= 102943,
    ensures
        r == sin_poly_s(x as int),
        -150810 <= r <= 150810,
{
    proof {
        let xi = x as int;
        let x2i = fx_mul_s(xi, xi);
        let x3i = fx_mul_s(x2i, xi);
        let x5i = fx_mul_s(x3i, x2i);
        let x7i = fx_mul_s(x5i, x2i);
        lemma_fx_mul_abs_le(xi, xi, 102943, 102943);
        lemma_fx_mul_abs_le(x2i, xi, 161702, 102943);
        lemma_fx_mul_abs_le(x3i, x2i, 254000, 161702);
        lemma_fx_mul_abs_le(x5i, x2i, 626720, 161702);
        lemma_tdiv_abs_le(x3i, 6, 254000);
        lemma_tdiv_abs_le(x5i, 120, 626720);
        lemma_tdiv_abs_le(x7i, 5040, 1546400);
    }
    let x2 = fx_mul(x, x);
    let x3 = fx_mul(x2, x);
    let x5 = fx_mul(x3, x2);
    let x7 = fx_mul(x5, x2);
    x - tdiv_i64(x3, 6) + tdiv_i64(x5, 120) - tdiv_i64(x7, 5040)
}

/// The cosine polynomial, exact per `cos_poly_s`.
pub fn fx_cos(x: i64) -> (r: i64)
    requires
        0 <= x <= 102943,
    ensures
        r == cos_poly_s(x as int),
        -164400 <= r <= 164400,
{
    proof {
        let xi = x as int;
        let x2i = fx_mul_s(xi, xi);
        let x4i = fx_mul_s(x2i, x2i);
        let x6i = fx_mul_s(x4i, x2i);
        lemma_fx_mul_abs_le(xi, xi, 102943, 102943);
        lemma_fx_mul_abs_le(x2i, x2i, 161702, 161702);
        lemma_fx_mul_abs_le(x4i, x2i, 398980, 161702);
        lemma_tdiv_abs_le(x2i, 2, 161702);
        lemma_tdiv_abs_le(x4i, 24, 398980);
        lemma_tdiv_abs_le(x6i, 720, 990000);
    }
    let x2 = fx_mul(x, x);
    let x4 = fx_mul(x2, x2);
    let x6 = fx_mul(x4, x2);
    FX_ONE - tdiv_i64(x2, 2) + tdiv_i64(x4, 24) - tdiv_i64(x6, 720)
}

/// The tangent, exact per `tan_poly_s`.
pub fn fx_tan(x: i64) -> (r: i64)
    requires
        0 <= x <= 102943,
    ensures
        r == tan_poly_s(x as int),
{
    let s = fx_sin(x);
    let c = fx_cos(x);
    let cg = if c < 1 {
        1
    } else {
        c
    };
    proof {
        lemma_fx_div_abs_le(s as int, cg as int, 150810);
    }
    fx_div(s, cg)
}

/// A thin-lens camera, immutable after construction.
#[derive(Copy, Clone, Debug)]
pub struct Camera {
    pub origin: Vec3,
    pub lower_left_corner: Vec3,
    pub horizontal: Vec3,
    pub vertical: Vec3,
    pub u: Vec3,
    pub v: Vec3,
    pub w: Vec3,
    pub lens_radius: i64,
}

impl View for Camera {
    type V = CameraV;

    open spec fn view(&self) -> CameraV {
        CameraV {
            origin: self.origin@,
            lower_left_corner: self.lower_left_corner@,
            horizontal: self.horizontal@,
            vertical: self.vertical@,
            u: self.u@,
            v: self.v@,
            w: self.w@,
            lens_radius: self.lens_radius as int,
        }
    }
}

impl Camera {
    /// Build a camera from look-from/look-at/up, a vertical field of
    /// view in degrees, aspect ratio, aperture and focus distance.
    pub fn new(
        lookfrom: Vec3,
        lookat: Vec3,
        vup: Vec3,
        vfov: i64,
        aspect: i64,
        aperture: i64,
        focus_dist: i64,
    ) -> (c: Camera)
        requires
            camera_inputs_ok(
                lookfrom@,
                lookat@,
                vup@,
                vfov as int,
                aspect as int,
                aperture as int,
                focus_dist as int,
            ),
        ensures
            c@ == camera_make_s(
                lookfrom@,
                lookat@,
                vup@,
                vfov as int,
                aspect as int,
                aperture as int,
                focus_dist as int,
            ),
            camera_wf(c@),
    {
        proof {
            lemma_half_angle_range(vfov as int);
        }
        let theta0 = fx_mul(vfov, PI_FX);
        let theta = fx_div(theta0, 180 * FX_ONE);
        let half_angle = tdiv_i64(theta, 2);
        let half_height = fx_tan(half_angle);
        proof {
            lemma_fx_mul_abs_le(aspect as int, half_height as int, 1048576, 2097152);
        }
        let half_width = fx_mul(aspect, half_height);
        let diff = lookfrom.sub(lookat);
        proof {
            lemma_sdot_self_nonneg(diff@);
            lemma_v3_dot_abs_le(diff@, diff@, 8388608, 8388608);
        }
        let w = diff.into_unit();
        proof {
            lemma_unit_comp_bound(diff@);
        }
        let cu = vup.cross(&w);
        proof {
            lemma_fx_mul_abs_le(vup@.y, w@.z, 131072, 131072);
            lemma_fx_mul_abs_le(vup@.z, w@.y, 131072, 131072);
            lemma_fx_mul_abs_le(vup@.x, w@.z, 131072, 131072);
            lemma_fx_mul_abs_le(vup@.z, w@.x, 131072, 131072);
            lemma_fx_mul_abs_le(vup@.x, w@.y, 131072, 131072);
            lemma_fx_mul_abs_le(vup@.y, w@.x, 131072, 131072);
            lemma_sdot_self_nonneg(cu@);
            lemma_v3_dot_abs_le(cu@, cu@, 524288, 524288);
        }
        let u = cu.into_unit();
        proof {
            lemma_unit_comp_bound(cu@);
        }
        let v = w.cross(&u);
        proof {
            lemma_fx_mul_abs_le(w@.y, u@.z, 131072, 131072);
            lemma_fx_mul_abs_le(w@.z, u@.y, 131072, 131072);
            lemma_fx_mul_abs_le(w@.x, u@.z, 131072, 131072);
            lemma_fx_mul_abs_le(w@.z, u@.x, 131072, 131072);
            lemma_fx_mul_abs_le(w@.x, u@.y, 131072, 131072);
            lemma_fx_mul_abs_le(w@.y, u@.x, 131072, 131072);
            lemma_fx_mul_abs_le(half_width as int, focus_dist as int, 2097152, 4194304);
            lemma_fx_mul_abs_le(half_height as int, focus_dist as int, 2097152, 4194304);
        }
        let hwf = fx_mul(half_width, focus_dist);
        let hhf = fx_mul(half_height, focus_dist);
        proof {
            lemma_fx_mul_abs_le(hwf as int, u@.x, 2097152, 131072);
            lemma_fx_mul_abs_le(hwf as int, u@.y, 2097152, 131072);
            lemma_fx_mul_abs_le(hwf as int, u@.z, 2097152, 131072);
            lemma_fx_mul_abs_le(hhf as int, v@.x, 2097152, 524288);
            lemma_fx_mul_abs_le(hhf as int, v@.y, 2097152, 524288);
            lemma_fx_mul_abs_le(hhf as int, v@.z, 2097152, 524288);
            lemma_fx_mul_abs_le(focus_dist as int, w@.x, 4194304, 131072);
            lemma_fx_mul_abs_le(focus_dist as int, w@.y, 4194304, 131072);
            lemma_fx_mul_abs_le(focus_dist as int, w@.z, 4194304, 131072);
            lemma_fx_mul_abs_le(2 * (hwf as int), u@.x, 4194304, 131072);
            lemma_fx_mul_abs_le(2 * (hwf as int), u@.y, 4194304, 131072);
            lemma_fx_mul_abs_le(2 * (hwf as int), u@.z, 4194304, 131072);
            lemma_fx_mul_abs_le(2 * (hhf as int), v@.x, 4194304, 524288);
            lemma_fx_mul_abs_le(2 * (hhf as int), v@.y, 4194304, 524288);
            lemma_fx_mul_abs_le(2 * (hhf as int), v@.z, 4194304, 524288);
        }
        let lower_left_corner = lookfrom.sub(u.scale(hwf)).sub(v.scale(hhf)).sub(w.scale(
            focus_dist,
        ));
        let horizontal = u.scale(2 * hwf);
        let vertical = v.scale(2 * hhf);
        let lens_radius = tdiv_i64(aperture, 2);
        proof {
            lemma_tdiv_sign(aperture as int, 2);
            lemma_tdiv_abs_le(aperture as int, 2, 1048576);
        }
        Camera {
            origin: lookfrom,
            lower_left_corner,
            horizontal,
            vertical,
            u,
            v,
            w,
            lens_radius,
        }
    }

    /// The ray for normalized image coordinates `(s, t)`, with the
    /// lens disk sample passed explicitly.
    pub fn get_ray_with(&self, s: i64, t: i64, rd: Vec3) -> (r: Ray)
        requires
            camera_wf(self@),
            0 <= s <= FX_ONE,
            0 <= t <= FX_ONE,
            in_unit_ball(rd@),
        ensures
            r@ == get_ray_s(self@, s as int, t as int, rd@),
            bounded3(r@.origin, crate::hittable::COORD_BOUND as int),
            bounded3(r@.direction, crate::hittable::COORD_BOUND as int),
    {
        proof {
            lemma_fx_mul_abs_le(self.lens_radius as int, rd@.x, 524288, FX_ONE as int);
            lemma_fx_mul_abs_le(self.lens_radius as int, rd@.y, 524288, FX_ONE as int);
        }
        let rdx = fx_mul(self.lens_radius, rd.x);
        let rdy = fx_mul(self.lens_radius, rd.y);
        proof {
            lemma_fx_mul_abs_le(rdx as int, self@.u.x, 524288, 524288);
            lemma_fx_mul_abs_le(rdx as int, self@.u.y, 524288, 524288);
            lemma_fx_mul_abs_le(rdx as int, self@.u.z, 524288, 524288);
            lemma_fx_mul_abs_le(rdy as int, self@.v.x, 524288, 524288);
            lemma_fx_mul_abs_le(rdy as int, self@.v.y, 524288, 524288);
            lemma_fx_mul_abs_le(rdy as int, self@.v.z, 524288, 524288);
            lemma_fx_mul_abs_le(s as int, self@.horizontal.x, FX_ONE as int, CAM_BOUND as int);
            lemma_fx_mul_abs_le(s as int, self@.horizontal.y, FX_ONE as int, CAM_BOUND as int);
            lemma_fx_mul_abs_le(s as int, self@.horizontal.z, FX_ONE as int, CAM_BOUND as int);
            lemma_fx_mul_abs_le(t as int, self@.vertical.x, FX_ONE as int, CAM_BOUND as int);
            lemma_fx_mul_abs_le(t as int, self@.vertical.y, FX_ONE as int, CAM_BOUND as int);
            lemma_fx_mul_abs_le(t as int, self@.vertical.z, FX_ONE as int, CAM_BOUND as int);
        }
        let offset = self.u.scale(rdx).add(self.v.scale(rdy));
        let origin = self.origin.add(offset);
        let target = self.lower_left_corner.add(self.horizontal.scale(s)).add(
            self.vertical.scale(t),
        );
        let direction = target.sub(self.origin).sub(offset);
        Ray { origin, direction }
    }

    /// The ray for normalized image coordinates `(s, t)`: a fresh lens
    /// disk sample, then the deterministic mapping.
    pub fn get_ray(&self, s: i64, t: i64) -> (r: Ray)
        requires
            camera_wf(self@),
            0 <= s <= FX_ONE,
            0 <= t <= FX_ONE,
        ensures
            bounded3(r@.origin, crate::hittable::COORD_BOUND as int),
            bounded3(r@.direction, crate::hittable::COORD_BOUND as int),
            exists|rd: V3|
                in_unit_ball(rd) && rd.z == 0 && r@ == #[trigger] get_ray_s(
                    self@,
                    s as int,
                    t as int,
                    rd,
                ),
    {
        let rd = Vec3::random_in_unit_disk();
        let r = self.get_ray_with(s, t, rd);
        proof {
            assert(in_unit_ball(rd@) && rd@.z == 0 && r@ == get_ray_s(
                self@,
                s as int,
                t as int,
                rd@,
            ));
        }
        r
    }
}

} // verus!
