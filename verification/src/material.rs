//! Materials and their scattering behavior.
//!
//! The three kinds of surface response -- diffuse, specular with
//! roughness, and refractive -- form a closed variant type.  Each
//! variant's response to an incoming ray is a deterministic function
//! of the ray, the hit record and the random draws it consumes; that
//! function is the spec, and the executable scatter routines are
//! proved to follow it for every value the draws could take.

use vstd::prelude::*;

verus! {

use crate::fx::{
    FX_ONE, fx_mul_s, fx_div_s, fx_sqrt_s, fx_mul, fx_div, fx_sqrt, clamp_i,
    lemma_fx_mul_abs_le, lemma_fx_div_abs_le,
};
use crate::vec3::{
    Vec3, V3, v3_add, v3_sub, v3_neg, v3_smul, v3_dot, v3_unit, v3_reflect, v3_len,
    bounded3, in_unit_ball, lemma_v3_dot_abs_le, lemma_sdot_self_nonneg, lemma_len_lower,
};
use crate::ray::{Ray, RayV};
use crate::hittable::{HitRecord, HitV, rec_in_range, COORD_BOUND, NORMAL_BOUND};
use crate::sample::sample_unit_fx;

/// Colors are componentwise in `[0, 1]`.
pub open spec fn color_in_unit(c: V3) -> bool {
    &&& 0 <= c.x <= FX_ONE
    &&& 0 <= c.y <= FX_ONE
    &&& 0 <= c.z <= FX_ONE
}

/// A diffuse surface holding its base color.
#[derive(Copy, Clone, Debug)]
pub struct Lambertian(pub Vec3);

/// A mirror-like surface with a roughness factor.
#[derive(Copy, Clone, Debug)]
pub struct Metal {
    pub albedo: Vec3,
    pub fuzz: i64,
}

/// A clear refractive surface with its refractive index.
#[derive(Copy, Clone, Debug)]
pub struct Dielectric {
    pub ref_idx: i64,
}

/// The closed variant type of surface responses.
#[derive(Copy, Clone, Debug)]
pub enum Material {
    Lambertian(Lambertian),
    Metal(Metal),
    Dielectric(Dielectric),
}

impl Lambertian {
    pub open spec fn wf(self) -> bool {
        color_in_unit(self.0@)
    }
}

impl Metal {
    pub open spec fn wf(self) -> bool {
        color_in_unit(self.albedo@) && 0 <= self.fuzz <= FX_ONE
    }

    /// Build a metal, clamping the roughness into `[0, 1]`.
    pub fn new(albedo: Vec3, fuzz: i64) -> (r: Metal)
        ensures
            r.albedo == albedo,
            r.fuzz == if fuzz < 0 {
                0
            } else if fuzz > FX_ONE {
                FX_ONE as int
            } else {
                fuzz as int
            },
            color_in_unit(albedo@) ==> r.wf(),
    {
        Metal {
            albedo,
            fuzz: if fuzz < 0 {
                0
            } else if fuzz > FX_ONE {
                FX_ONE
            } else {
                fuzz
            },
        }
    }
}

impl Dielectric {
    /// The representation forces the index away from zero and from
    /// values so large that intermediate products could not be held:
    /// any physical index (vacuum `1` up to diamond-like `2.4`) is
    /// comfortably inside `[1/4, 4]`.
    pub open spec fn wf(self) -> bool {
        (FX_ONE as int) / 4 <= self.ref_idx <= 4 * (FX_ONE as int)
    }
}

impl Material {
    pub open spec fn wf(self) -> bool {
        match self {
            Material::Lambertian(m) => m.wf(),
            Material::Metal(m) => m.wf(),
            Material::Dielectric(m) => m.wf(),
        }
    }
}

/// The image of an optional scatter result.
pub open spec fn opt_sc_v(r: Option<(Ray, Vec3)>) -> Option<(RayV, V3)> {
    match r {
        Some((ray, att)) => Some((ray@, att@)),
        None => None,
    }
}

/// The image of an optional vector.
pub open spec fn opt_v3(r: Option<Vec3>) -> Option<V3> {
    match r {
        Some(v) => Some(v@),
        None => None,
    }
}

/// What every scatter result satisfies: the outgoing ray starts at the
/// hit point with a representable direction, and the attenuation is a
/// color.
pub open spec fn scatter_post(s: Option<(RayV, V3)>, h: HitV) -> bool {
    match s {
        Some((ray, att)) => {
            &&& ray.origin == h.p
            &&& bounded3(ray.direction, COORD_BOUND as int)
            &&& color_in_unit(att)
        },
        None => true,
    }
}

/// Diffuse response: scatter from the hit point toward
/// `normal + rnd`, attenuated by the albedo.  Never absorbs.
pub open spec fn lambertian_scatter_s(alb: V3, h: HitV, rnd: V3) -> (RayV, V3) {
    (RayV { origin: h.p, direction: v3_add(h.normal, rnd) }, alb)
}

/// Specular response: mirror the raw incoming direction about the
/// normal -- unnormalized, as the scattering model prescribes --
/// perturb by `fuzz * rnd`, and absorb rays that would leave into the
/// surface or whose direction left the representable range.
pub open spec fn metal_scatter_s(m: Metal, r_in: RayV, h: HitV, rnd: V3) -> Option<(RayV, V3)> {
    let reflected = v3_reflect(r_in.direction, h.normal);
    let dir = v3_add(reflected, v3_smul(m.fuzz as int, rnd));
    if v3_dot(dir, h.normal) > 0 && bounded3(dir, COORD_BOUND as int) {
        Some((RayV { origin: h.p, direction: dir }, m.albedo@))
    } else {
        None
    }
}

/// Snell refraction of `v` at a surface with outward normal `n` and
/// index ratio `ni_over_nt`, or nothing under total internal
/// reflection.
pub open spec fn refract_s(v: V3, n: V3, ni: int) -> Option<V3>
    recommends
        v3_dot(v, v) >= 1,
{
    let uv = v3_unit(v);
    let dt = v3_dot(uv, n);
    let disc = FX_ONE - fx_mul_s(fx_mul_s(ni, ni), FX_ONE - fx_mul_s(dt, dt));
    if disc > 0 {
        Some(v3_sub(v3_smul(ni, v3_sub(uv, v3_smul(dt, n))), v3_smul(fx_sqrt_s(disc), n)))
    } else {
        None
    }
}

/// The fifth power, as the multiplication chain the renderer uses.
pub open spec fn pow5_s(q: int) -> int {
    let q2 = fx_mul_s(q, q);
    let q4 = fx_mul_s(q2, q2);
    fx_mul_s(q4, q)
}

/// Schlick's reflectance approximation
/// `r0 + (1 - r0) (1 - cosine)^5` with `r0 = ((1-n)/(1+n))^2`.
pub open spec fn schlick_s(cosine: int, ref_idx: int) -> int {
    let r0a = fx_div_s(FX_ONE - ref_idx, FX_ONE + ref_idx);
    let r0 = fx_mul_s(r0a, r0a);
    r0 + fx_mul_s(FX_ONE - r0, pow5_s(FX_ONE - cosine))
}

/// A reflected ray, kept only if its direction stays representable.
pub open spec fn guarded_ray_s(h: HitV, dir: V3, att: V3) -> Option<(RayV, V3)> {
    if bounded3(dir, COORD_BOUND as int) {
        Some((RayV { origin: h.p, direction: dir }, att))
    } else {
        None
    }
}

/// Refractive response: choose the side being entered by the sign of
/// `d . n`, attempt refraction, and otherwise -- or with probability
/// given by Schlick's approximation -- reflect.  Attenuation is the
/// unit color; nothing is absorbed but degenerate directions and
/// unrepresentable reflections.  The cosine handed to Schlick's
/// formula is clamped to `[-4, 4]` so its power chain stays
/// representable; the clamp is inactive for geometric inputs, whose
/// cosine magnitude is near one.
pub open spec fn dielectric_scatter_s(di: Dielectric, r_in: RayV, h: HitV, coin: int) -> Option<
    (RayV, V3),
> {
    let d = r_in.direction;
    let n = h.normal;
    if v3_dot(d, d) < 1 {
        None
    } else {
        let dn = v3_dot(d, n);
        let entering_from_inside = dn > 0;
        let outward = if entering_from_inside {
            v3_neg(n)
        } else {
            n
        };
        let ni = if entering_from_inside {
            di.ref_idx as int
        } else {
            fx_div_s(FX_ONE as int, di.ref_idx as int)
        };
        let ddn = fx_div_s(dn, v3_len(d));
        let cos0 = if entering_from_inside {
            fx_mul_s(di.ref_idx as int, ddn)
        } else {
            -ddn
        };
        let cosine = clamp_i(cos0, -4 * (FX_ONE as int), 4 * (FX_ONE as int));
        let white = V3 { x: FX_ONE as int, y: FX_ONE as int, z: FX_ONE as int };
        match refract_s(d, outward, ni) {
            Some(refr) => if coin < schlick_s(cosine, di.ref_idx as int) {
                guarded_ray_s(h, v3_reflect(d, n), white)
            } else {
                Some((RayV { origin: h.p, direction: refr }, white))
            },
            None => guarded_ray_s(h, v3_reflect(d, n), white),
        }
    }
}

/// A fuzz-free metal struck exactly head-on -- the incoming direction
/// is the negated unit normal -- reflects exactly back along the
/// normal, whatever the perturbation draw: every rounding in the
/// chain is exact on these values.
pub proof fn lemma_metal_normal_incidence(m: Metal, r_in: RayV, h: HitV, rnd: V3)
    requires
        m.fuzz == 0,
        crate::vec3::sdot(h.normal, h.normal) == (FX_ONE as int) * (FX_ONE as int),
        r_in.direction == v3_neg(h.normal),
    ensures
        metal_scatter_s(m, r_in, h, rnd) == Some(
            (RayV { origin: h.p, direction: h.normal }, m.albedo@),
        ),
{
    let n = h.normal;
    let d = r_in.direction;
    assert(crate::vec3::sdot(d, n) == -(crate::vec3::sdot(n, n))) by (nonlinear_arith)
        requires
            d.x == -n.x && d.y == -n.y && d.z == -n.z,
    ;
    crate::fx::lemma_tdiv_mul_exact(-65536, 65536);
    assert(v3_dot(d, n) == -65536);
    crate::fx::lemma_tdiv_mul_exact(-2 * n.x, 65536);
    crate::fx::lemma_tdiv_mul_exact(-2 * n.y, 65536);
    crate::fx::lemma_tdiv_mul_exact(-2 * n.z, 65536);
    assert(fx_mul_s(2 * v3_dot(d, n), n.x) == -2 * n.x && fx_mul_s(2 * v3_dot(d, n), n.y) == -2
        * n.y && fx_mul_s(2 * v3_dot(d, n), n.z) == -2 * n.z);
    assert(v3_reflect(d, n) == n);
    assert(fx_mul_s(0, rnd.x) == 0 && fx_mul_s(0, rnd.y) == 0 && fx_mul_s(0, rnd.z) == 0);
    assert(v3_add(v3_reflect(d, n), v3_smul(0, rnd)) == n);
    crate::fx::lemma_tdiv_mul_exact(65536, 65536);
    assert(v3_dot(n, n) == 65536);
    assert(-65536 <= n.x <= 65536 && -65536 <= n.y <= 65536 && -65536 <= n.z <= 65536)
        by (nonlinear_arith)
        requires
            n.x * n.x + n.y * n.y + n.z * n.z == 65536 * 65536,
    ;
}

/// An interface whose index ratio is one does not bend light: when
/// the unit incoming direction points against the outward normal and
/// its squared cosine is exactly representable, refraction returns
/// the unit incoming direction itself.  (Inputs whose squared cosine
/// is not a multiple of one representation step pick up a one-step
/// rounding and are excluded.)
pub proof fn lemma_refract_identity(v: V3, n: V3)
    requires
        v3_dot(v, v) >= 1,
        v3_dot(v3_unit(v), n) < 0,
        (v3_dot(v3_unit(v), n) * v3_dot(v3_unit(v), n)) % (FX_ONE as int) == 0,
    ensures
        refract_s(v, n, FX_ONE as int) == Some(v3_unit(v)),
{
    let uv = v3_unit(v);
    let dt = v3_dot(uv, n);
    let p = dt * dt / 65536;
    assert(dt * dt == 65536 * p && p >= 1) by (nonlinear_arith)
        requires
            dt <= -1,
            (dt * dt) % 65536 == 0,
            p == dt * dt / 65536,
    ;
    assert(fx_mul_s(dt, dt) == p) by {
        crate::fx::lemma_tdiv_mul_exact(p, 65536);
        assert(dt * dt == p * 65536) by (nonlinear_arith)
            requires
                dt * dt == 65536 * p,
        ;
    }
    crate::fx::lemma_tdiv_mul_exact(65536, 65536);
    assert(fx_mul_s(FX_ONE as int, FX_ONE as int) == 65536);
    crate::fx::lemma_tdiv_mul_exact(65536 - p, 65536);
    assert((FX_ONE as int) * (65536 - p) == (65536 - p) * 65536) by (nonlinear_arith);
    assert(fx_mul_s(FX_ONE as int, 65536 - p) == 65536 - p);
    let disc = FX_ONE - fx_mul_s(fx_mul_s(FX_ONE as int, FX_ONE as int), FX_ONE - fx_mul_s(dt, dt));
    assert(disc == p);
    assert(crate::fx::is_sqrt_floor(p * 65536, -dt)) by (nonlinear_arith)
        requires
            dt <= -1,
            dt * dt == 65536 * p,
    ;
    crate::fx::lemma_sqrt_floor_unique(p * 65536, -dt);
    assert(fx_sqrt_s(p) == -dt);
    crate::fx::lemma_tdiv_neg(dt * n.x, 65536);
    crate::fx::lemma_tdiv_neg(dt * n.y, 65536);
    crate::fx::lemma_tdiv_neg(dt * n.z, 65536);
    assert((-dt) * n.x == -(dt * n.x) && (-dt) * n.y == -(dt * n.y) && (-dt) * n.z == -(dt * n.z))
        by (nonlinear_arith);
    assert(fx_mul_s(-dt, n.x) == -fx_mul_s(dt, n.x) && fx_mul_s(-dt, n.y) == -fx_mul_s(dt, n.y)
        && fx_mul_s(-dt, n.z) == -fx_mul_s(dt, n.z));
    let inner = v3_sub(uv, v3_smul(dt, n));
    crate::fx::lemma_tdiv_mul_exact(inner.x, 65536);
    crate::fx::lemma_tdiv_mul_exact(inner.y, 65536);
    crate::fx::lemma_tdiv_mul_exact(inner.z, 65536);
    assert((FX_ONE as int) * inner.x == inner.x * 65536 && (FX_ONE as int) * inner.y == inner.y
        * 65536 && (FX_ONE as int) * inner.z == inner.z * 65536) by (nonlinear_arith);
    assert(v3_smul(FX_ONE as int, inner) == inner);
    assert(v3_sub(v3_smul(FX_ONE as int, inner), v3_smul(-dt, n)) == uv);
}

/// Snell refraction; see `refract_s`.
pub fn refract(v: Vec3, n: Vec3, ni_over_nt: i64) -> (res: Option<Vec3>)
    requires
        bounded3(v@, COORD_BOUND as int),
        bounded3(n@, NORMAL_BOUND as int),
        0 < ni_over_nt <= 4 * FX_ONE,
        v3_dot(v@, v@) >= 1,
    ensures
        opt_v3(res) == refract_s(v@, n@, ni_over_nt as int),
        match res {
            Some(u) => bounded3(u@, COORD_BOUND as int),
            None => true,
        },
{
    proof {
        lemma_v3_dot_abs_le(v@, v@, COORD_BOUND as int, COORD_BOUND as int);
        lemma_sdot_self_nonneg(v@);
    }
    let uv = v.into_unit();
    proof {
        crate::vec3::lemma_unit_comp_bound(v@);
        lemma_v3_dot_abs_le(uv@, n@, 131072, NORMAL_BOUND as int);
        lemma_fx_mul_abs_le(v3_dot(uv@, n@), v3_dot(uv@, n@), 786432, 786432);
        lemma_fx_mul_abs_le(ni_over_nt as int, ni_over_nt as int, 262144, 262144);
        lemma_fx_mul_abs_le(
            fx_mul_s(ni_over_nt as int, ni_over_nt as int),
            FX_ONE - fx_mul_s(v3_dot(uv@, n@), v3_dot(uv@, n@)),
            1048576,
            9502720,
        );
    }
    let dt = uv.dot(n);
    let disc = FX_ONE - fx_mul(fx_mul(ni_over_nt, ni_over_nt), FX_ONE - fx_mul(dt, dt));
    if disc > 0 {
        let sq = fx_sqrt(disc);
        proof {
            assert((sq as int) * (sq as int) <= (disc as int) * 65536 ==> sq <= 3200000)
                by (nonlinear_arith)
                requires
                    disc <= 152178688,
                    sq >= 0,
            ;
            lemma_fx_mul_abs_le(dt as int, n@.x, 786432, NORMAL_BOUND as int);
            lemma_fx_mul_abs_le(dt as int, n@.y, 786432, NORMAL_BOUND as int);
            lemma_fx_mul_abs_le(dt as int, n@.z, 786432, NORMAL_BOUND as int);
        }
        let inner = uv.sub(n.scale(dt));
        proof {
            lemma_fx_mul_abs_le(ni_over_nt as int, inner@.x, 262144, 1703936);
            lemma_fx_mul_abs_le(ni_over_nt as int, inner@.y, 262144, 1703936);
            lemma_fx_mul_abs_le(ni_over_nt as int, inner@.z, 262144, 1703936);
            lemma_fx_mul_abs_le(sq as int, n@.x, 3200000, NORMAL_BOUND as int);
            lemma_fx_mul_abs_le(sq as int, n@.y, 3200000, NORMAL_BOUND as int);
            lemma_fx_mul_abs_le(sq as int, n@.z, 3200000, NORMAL_BOUND as int);
        }
        let r = inner.scale(ni_over_nt).sub(n.scale(sq));
        Some(r)
    } else {
        None
    }
}

/// Schlick's reflectance approximation; see `schlick_s`.
pub fn schlick(cosine: i64, ref_idx: i64) -> (r: i64)
    requires
        -262144 <= cosine <= 262144,
        16384 <= ref_idx <= 262144,
    ensures
        r == schlick_s(cosine as int, ref_idx as int),
{
    proof {
        lemma_fx_div_abs_le(FX_ONE - ref_idx as int, FX_ONE + ref_idx as int, 196608);
    }
    let r0a = fx_div(FX_ONE - ref_idx, FX_ONE + ref_idx);
    proof {
        lemma_fx_mul_abs_le(r0a as int, r0a as int, 12884901888, 12884901888);
    }
    let r0 = fx_mul(r0a, r0a);
    let q = FX_ONE - cosine;
    proof {
        lemma_fx_mul_abs_le(q as int, q as int, 327680, 327680);
        lemma_fx_mul_abs_le(fx_mul_s(q as int, q as int), fx_mul_s(q as int, q as int), 1638400, 1638400);
        lemma_fx_mul_abs_le(
            fx_mul_s(fx_mul_s(q as int, q as int), fx_mul_s(q as int, q as int)),
            q as int,
            40960000,
            327680,
        );
    }
    let q2 = fx_mul(q, q);
    let q4 = fx_mul(q2, q2);
    let q5 = fx_mul(q4, q);
    proof {
        lemma_fx_mul_abs_le(FX_ONE - r0 as int, q5 as int, 2533274790461440, 204800000);
    }
    r0 + fx_mul(FX_ONE - r0, q5)
}

impl Lambertian {
    /// Diffuse scatter with the random in-ball draw made explicit.
    pub fn scatter_det(&self, rec: &HitRecord, rnd: Vec3) -> (res: (Ray, Vec3))
        requires
            self.wf(),
            rec_in_range(rec@),
            in_unit_ball(rnd@),
        ensures
            (res.0@, res.1@) == lambertian_scatter_s(self.0@, rec@, rnd@),
            scatter_post(Some((res.0@, res.1@)), rec@),
    {
        let dir = rec.normal.add(rnd);
        (Ray { origin: rec.p, direction: dir }, self.0)
    }
}

impl Metal {
    /// Specular scatter with the random in-ball draw made explicit.
    pub fn scatter_det(&self, r_in: &Ray, rec: &HitRecord, rnd: Vec3) -> (res: Option<(Ray, Vec3)>)
        requires
            self.wf(),
            rec_in_range(rec@),
            in_unit_ball(rnd@),
            bounded3(r_in@.direction, COORD_BOUND as int),
        ensures
            opt_sc_v(res) == metal_scatter_s(*self, r_in@, rec@, rnd@),
            scatter_post(opt_sc_v(res), rec@),
    {
        let d = r_in.direction();
        proof {
            lemma_v3_dot_abs_le(d@, rec@.normal, COORD_BOUND as int, NORMAL_BOUND as int);
            lemma_fx_mul_abs_le(
                2 * v3_dot(d@, rec@.normal),
                rec@.normal.x,
                805306368,
                NORMAL_BOUND as int,
            );
            lemma_fx_mul_abs_le(
                2 * v3_dot(d@, rec@.normal),
                rec@.normal.y,
                805306368,
                NORMAL_BOUND as int,
            );
            lemma_fx_mul_abs_le(
                2 * v3_dot(d@, rec@.normal),
                rec@.normal.z,
                805306368,
                NORMAL_BOUND as int,
            );
        }
        let reflected = d.reflect_about(rec.normal);
        proof {
            lemma_fx_mul_abs_le(self.fuzz as int, rnd@.x, FX_ONE as int, FX_ONE as int);
            lemma_fx_mul_abs_le(self.fuzz as int, rnd@.y, FX_ONE as int, FX_ONE as int);
            lemma_fx_mul_abs_le(self.fuzz as int, rnd@.z, FX_ONE as int, FX_ONE as int);
        }
        let dir = reflected.add(rnd.scale(self.fuzz));
        proof {
            lemma_v3_dot_abs_le(dir@, rec@.normal, 2147483648, NORMAL_BOUND as int);
        }
        if dir.dot(rec.normal) > 0 && dir.x >= -COORD_BOUND && dir.x <= COORD_BOUND && dir.y
            >= -COORD_BOUND && dir.y <= COORD_BOUND && dir.z >= -COORD_BOUND && dir.z
            <= COORD_BOUND {
            Some((Ray { origin: rec.p, direction: dir }, self.albedo))
        } else {
            None
        }
    }
}

impl Dielectric {
    /// Refractive scatter with the random Schlick coin made explicit.
    pub fn scatter_det(&self, r_in: &Ray, rec: &HitRecord, coin: i64) -> (res: Option<(Ray, Vec3)>)
        requires
            self.wf(),
            rec_in_range(rec@),
            0 <= coin < FX_ONE,
            bounded3(r_in@.direction, COORD_BOUND as int),
        ensures
            opt_sc_v(res) == dielectric_scatter_s(*self, r_in@, rec@, coin as int),
            scatter_post(opt_sc_v(res), rec@),
    {
        let d = r_in.direction();
        let n = rec.normal;
        proof {
            lemma_v3_dot_abs_le(d@, d@, COORD_BOUND as int, COORD_BOUND as int);
            lemma_v3_dot_abs_le(d@, n@, COORD_BOUND as int, NORMAL_BOUND as int);
            lemma_sdot_self_nonneg(d@);
        }
        let dd = d.dot(d);
        if dd < 1 {
            return None;
        }
        let dn = d.dot(n);
        let entering_from_inside = dn > 0;
        let outward = if entering_from_inside {
            n.neg()
        } else {
            n
        };
        proof {
            lemma_fx_div_abs_le(FX_ONE as int, self.ref_idx as int, FX_ONE as int);
            assert(16384 <= fx_div_s(FX_ONE as int, self.ref_idx as int) <= 262144)
                by (nonlinear_arith)
                requires
                    16384 <= self.ref_idx <= 262144,
            ;
        }
        let ni = if entering_from_inside {
            self.ref_idx
        } else {
            fx_div(FX_ONE, self.ref_idx)
        };
        let len = d.length();
        proof {
            crate::vec3::lemma_len_lower(d@);
            lemma_fx_div_abs_le(dn as int, len as int, 402653184);
        }
        let ddn = fx_div(dn, len);
        proof {
            lemma_fx_mul_abs_le(self.ref_idx as int, ddn as int, 262144, 26388279066624);
        }
        let cos0 = if entering_from_inside {
            fx_mul(self.ref_idx, ddn)
        } else {
            -ddn
        };
        let cosine = if cos0 < -262144 {
            -262144
        } else if cos0 > 262144 {
            262144
        } else {
            cos0
        };
        let white = Vec3 { x: FX_ONE, y: FX_ONE, z: FX_ONE };
        match refract(d, outward, ni) {
            Some(refr) => {
                if coin < schlick(cosine, self.ref_idx) {
                    self.reflect_or_absorb(r_in, rec)
                } else {
                    Some((Ray { origin: rec.p, direction: refr }, white))
                }
            },
            None => self.reflect_or_absorb(r_in, rec),
        }
    }

    /// The reflective branch: mirror the raw incoming direction about
    /// the reported normal, dropping directions that left the
    /// representable range.
    fn reflect_or_absorb(&self, r_in: &Ray, rec: &HitRecord) -> (res: Option<(Ray, Vec3)>)
        requires
            rec_in_range(rec@),
            bounded3(r_in@.direction, COORD_BOUND as int),
        ensures
            opt_sc_v(res) == guarded_ray_s(
                rec@,
                v3_reflect(r_in@.direction, rec@.normal),
                V3 { x: FX_ONE as int, y: FX_ONE as int, z: FX_ONE as int },
            ),
            scatter_post(opt_sc_v(res), rec@),
    {
        let dir = r_in.direction().reflect_about(rec.normal);
        if dir.x < -COORD_BOUND || dir.x > COORD_BOUND || dir.y < -COORD_BOUND || dir.y
            > COORD_BOUND || dir.z < -COORD_BOUND || dir.z > COORD_BOUND {
            return None;
        }
        let white = Vec3 { x: FX_ONE, y: FX_ONE, z: FX_ONE };
        Some((Ray { origin: rec.p, direction: dir }, white))
    }
}

impl Material {
    /// The deterministic scattering function: the full response once
    /// the random draws are fixed.
    pub open spec fn scatter_s(self, r_in: RayV, h: HitV, rnd: V3, coin: int) -> Option<
        (RayV, V3),
    > {
        match self {
            Material::Lambertian(m) => Some(lambertian_scatter_s(m.0@, h, rnd)),
            Material::Metal(m) => metal_scatter_s(m, r_in, h, rnd),
            Material::Dielectric(m) => dielectric_scatter_s(m, r_in, h, coin),
        }
    }

    /// Scatter an incoming ray at a hit: draw what randomness the
    /// variant needs and apply its deterministic response.
    pub fn scatter(&self, r_in: &Ray, rec: &HitRecord) -> (res: Option<(Ray, Vec3)>)
        requires
            self.wf(),
            rec_in_range(rec@),
            bounded3(r_in@.direction, COORD_BOUND as int),
        ensures
            scatter_post(opt_sc_v(res), rec@),
            exists|rnd: V3, coin: int|
                in_unit_ball(rnd) && 0 <= coin < FX_ONE && opt_sc_v(res) == #[trigger] self.scatter_s(
                    r_in@,
                    rec@,
                    rnd,
                    coin,
                ),
    {
        match self {
            Material::Lambertian(m) => {
                let rnd = Vec3::random_in_unit_sphere();
                let (ray, att) = m.scatter_det(rec, rnd);
                let res = Some((ray, att));
                proof {
                    assert(in_unit_ball(rnd@) && 0 <= 0 < FX_ONE && opt_sc_v(res)
                        == self.scatter_s(r_in@, rec@, rnd@, 0));
                }
                res
            },
            Material::Metal(m) => {
                let rnd = Vec3::random_in_unit_sphere();
                let res = m.scatter_det(r_in, rec, rnd);
                proof {
                    assert(in_unit_ball(rnd@) && 0 <= 0 < FX_ONE && opt_sc_v(res)
                        == self.scatter_s(r_in@, rec@, rnd@, 0));
                }
                res
            },
            Material::Dielectric(m) => {
                let coin = sample_unit_fx();
                let res = m.scatter_det(r_in, rec, coin);
                proof {
                    let z = V3 { x: 0, y: 0, z: 0 };
                    assert(in_unit_ball(z) && 0 <= coin < FX_ONE && opt_sc_v(res)
                        == self.scatter_s(r_in@, rec@, z, coin as int)) by {
                        assert(crate::vec3::sdot(z, z) == 0);
                        crate::fx::lemma_tdiv_mul_exact(0, 65536);
                        assert(v3_dot(z, z) == 0);
                    }
                }
                res
            },
        }
    }
}

} // verus!

