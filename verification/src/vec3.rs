//! Three-component fixed-point vectors, used for points, directions
//! and colors alike.
//!
//! Each executable operation returns exactly the value of its
//! spec-level counterpart (`v3_add`, `v3_dot`, `v3_unit`, ...), which
//! is stated over the mathematical image `V3` of a vector.  Overflow
//! is excluded by preconditions that only demand what the 64-bit
//! representation forces.

use vstd::prelude::*;

verus! {

use crate::fx::{
    FX_ONE, fits_i64, tdiv, fx_mul_s, fx_div_s, fx_sqrt_s, is_sqrt_floor, sqrt_floor,
    fx_mul, fx_div, fx_sqrt, tdiv128, lemma_tdiv_abs_le, lemma_mul_abs_le, lemma_fx_mul_abs_le,
};
use crate::sample::sample_unit_fx;

/// Magnitude bound on the components of vectors handed to `dot`,
/// `cross`, `length` and `into_unit` (`2^38`).
pub const VEC_BOUND: i64 = 274877906944;

/// Magnitude bound on the components of vectors handed to
/// `reflect_about` (`2^30`).
pub const REFLECT_BOUND: i64 = 1073741824;

/// The mathematical image of a `Vec3`: three unbounded integers, each
/// a multiple of `1/FX_ONE`.
pub ghost struct V3 {
    pub x: int,
    pub y: int,
    pub z: int,
}

/// Every component of `v` has magnitude at most `c`.
pub open spec fn bounded3(v: V3, c: int) -> bool {
    &&& -c <= v.x <= c
    &&& -c <= v.y <= c
    &&& -c <= v.z <= c
}

/// All three components are representable as `i64`.
pub open spec fn fits3(v: V3) -> bool {
    fits_i64(v.x) && fits_i64(v.y) && fits_i64(v.z)
}

pub open spec fn v3_add(a: V3, b: V3) -> V3 {
    V3 { x: a.x + b.x, y: a.y + b.y, z: a.z + b.z }
}

pub open spec fn v3_sub(a: V3, b: V3) -> V3 {
    V3 { x: a.x - b.x, y: a.y - b.y, z: a.z - b.z }
}

pub open spec fn v3_neg(a: V3) -> V3 {
    V3 { x: -a.x, y: -a.y, z: -a.z }
}

/// Scalar times vector, both fixed-point.
pub open spec fn v3_smul(k: int, v: V3) -> V3 {
    V3 { x: fx_mul_s(k, v.x), y: fx_mul_s(k, v.y), z: fx_mul_s(k, v.z) }
}

/// Componentwise fixed-point product (used for color attenuation).
pub open spec fn v3_mul(a: V3, b: V3) -> V3 {
    V3 { x: fx_mul_s(a.x, b.x), y: fx_mul_s(a.y, b.y), z: fx_mul_s(a.z, b.z) }
}

/// The raw integer dot product, scaled by `FX_ONE * FX_ONE`.
pub open spec fn sdot(a: V3, b: V3) -> int {
    a.x * b.x + a.y * b.y + a.z * b.z
}

/// The fixed-point dot product.
pub open spec fn v3_dot(a: V3, b: V3) -> int {
    tdiv(sdot(a, b), FX_ONE as int)
}

pub open spec fn v3_cross(a: V3, b: V3) -> V3 {
    V3 {
        x: fx_mul_s(a.y, b.z) - fx_mul_s(a.z, b.y),
        y: -(fx_mul_s(a.x, b.z) - fx_mul_s(a.z, b.x)),
        z: fx_mul_s(a.x, b.y) - fx_mul_s(a.y, b.x),
    }
}

/// The Euclidean length, rounded down to a fixed-point value.
pub open spec fn v3_len(v: V3) -> int {
    fx_sqrt_s(v3_dot(v, v))
}

/// `v` scaled by the reciprocal of its length.
pub open spec fn v3_unit(v: V3) -> V3
    recommends
        v3_len(v) > 0,
{
    V3 {
        x: fx_div_s(v.x, v3_len(v)),
        y: fx_div_s(v.y, v3_len(v)),
        z: fx_div_s(v.z, v3_len(v)),
    }
}

/// Mirror reflection of `d` about `n`: `d - 2 (d . n) n`.
pub open spec fn v3_reflect(d: V3, n: V3) -> V3 {
    v3_sub(d, v3_smul(2 * v3_dot(d, n), n))
}

/// `v` lies strictly inside the unit ball.
pub open spec fn in_unit_ball(v: V3) -> bool {
    bounded3(v, FX_ONE as int) && v3_dot(v, v) < FX_ONE
}

/// A dot product of a vector with itself is not negative.
pub proof fn lemma_sdot_self_nonneg(a: V3)
    by (nonlinear_arith)
    ensures
        sdot(a, a) >= 0,
{
}

/// Componentwise bounds give a bound on the raw dot product.
pub proof fn lemma_sdot_abs_le(a: V3, b: V3, ca: int, cb: int)
    by (nonlinear_arith)
    requires
        0 <= ca,
        0 <= cb,
        bounded3(a, ca),
        bounded3(b, cb),
    ensures
        -(3 * ca * cb) <= sdot(a, b) <= 3 * ca * cb,
{
}

/// Componentwise bounds give a bound on the fixed-point dot product.
pub proof fn lemma_v3_dot_abs_le(a: V3, b: V3, ca: int, cb: int)
    requires
        0 <= ca,
        0 <= cb,
        bounded3(a, ca),
        bounded3(b, cb),
    ensures
        -((3 * ca * cb) / (FX_ONE as int)) <= v3_dot(a, b) <= (3 * ca * cb) / (FX_ONE as int),
{
    lemma_sdot_abs_le(a, b, ca, cb);
    assert(3 * ca * cb >= 0) by (nonlinear_arith)
        requires
            0 <= ca,
            0 <= cb,
    ;
    lemma_tdiv_abs_le(sdot(a, b), FX_ONE as int, 3 * ca * cb);
}

/// A vector whose fixed-point self-dot is at least one representation
/// step has a length of at least `1/256`.
pub proof fn lemma_len_lower(v: V3)
    requires
        v3_dot(v, v) >= 1,
    ensures
        v3_len(v) >= 256,
{
    let d = v3_dot(v, v);
    let l = v3_len(v);
    assert(is_sqrt_floor(d * (FX_ONE as int), l)) by {
        lemma_sdot_self_nonneg(v);
        assert(is_sqrt_floor(d * (FX_ONE as int), sqrt_floor(d * (FX_ONE as int)))) by {
            crate::fx::lemma_sqrt_floor_exists(d * (FX_ONE as int));
        }
    }
    assert(l >= 256) by (nonlinear_arith)
        requires
            is_sqrt_floor(d * (FX_ONE as int), l),
            d >= 1,
    ;
}

/// The law of reflection: about an exactly unit normal
/// (`sdot(n, n) == 1` in fixed point, i.e. raw `FX_ONE^2`), the
/// reflected direction makes the opposite angle with the normal --
/// its dot with `n` is the negation of the incoming one's.  Stated of
/// the exact (unrounded) reflection `sdot(n,n) d - 2 sdot(d,n) n`,
/// whose per-component truncation `v3_reflect` computes.
pub proof fn lemma_reflect_law(d: V3, n: V3)
    requires
        sdot(n, n) == (FX_ONE as int) * (FX_ONE as int),
    ensures
        sdot(
            V3 {
                x: sdot(n, n) * d.x - 2 * sdot(d, n) * n.x,
                y: sdot(n, n) * d.y - 2 * sdot(d, n) * n.y,
                z: sdot(n, n) * d.z - 2 * sdot(d, n) * n.z,
            },
            n,
        ) == -((FX_ONE as int) * (FX_ONE as int) * sdot(d, n)),
{
    let k = sdot(d, n);
    let m = sdot(n, n);
    assert((m * d.x - 2 * k * n.x) * n.x == m * (d.x * n.x) - 2 * k * (n.x * n.x))
        by (nonlinear_arith);
    assert((m * d.y - 2 * k * n.y) * n.y == m * (d.y * n.y) - 2 * k * (n.y * n.y))
        by (nonlinear_arith);
    assert((m * d.z - 2 * k * n.z) * n.z == m * (d.z * n.z) - 2 * k * (n.z * n.z))
        by (nonlinear_arith);
    assert(m * (d.x * n.x) + m * (d.y * n.y) + m * (d.z * n.z) == m * k) by (nonlinear_arith)
        requires
            k == d.x * n.x + d.y * n.y + d.z * n.z,
    ;
    assert(2 * k * (n.x * n.x) + 2 * k * (n.y * n.y) + 2 * k * (n.z * n.z) == 2 * (k * m))
        by (nonlinear_arith)
        requires
            m == n.x * n.x + n.y * n.y + n.z * n.z,
    ;
    assert(m * k - 2 * (k * m) == -(k * m)) by (nonlinear_arith);
}

/// The law of reflection for the truncated reflection itself: about
/// an exactly unit normal, `v3_reflect(d, n) . n` (raw dots) differs
/// from `-(d . n)` by at most five representation steps -- the two
/// roundings in the chain each miss by less than one step, and three
/// of them meet the unit normal's components in the dot.
pub proof fn lemma_reflect_law_rounded(d: V3, n: V3)
    requires
        sdot(n, n) == (FX_ONE as int) * (FX_ONE as int),
    ensures
        -(5 * (FX_ONE as int)) <= sdot(v3_reflect(d, n), n) + sdot(d, n) <= 5 * (FX_ONE as int),
{
    let s = sdot(d, n);
    let k = tdiv(s, 65536);
    let e0 = s - 65536 * k;
    crate::fx::lemma_tdiv_remainder(s, 65536);
    let tx = tdiv(2 * k * n.x, 65536);
    let ty = tdiv(2 * k * n.y, 65536);
    let tz = tdiv(2 * k * n.z, 65536);
    let e1 = 2 * k * n.x - 65536 * tx;
    let e2 = 2 * k * n.y - 65536 * ty;
    let e3 = 2 * k * n.z - 65536 * tz;
    crate::fx::lemma_tdiv_remainder(2 * k * n.x, 65536);
    crate::fx::lemma_tdiv_remainder(2 * k * n.y, 65536);
    crate::fx::lemma_tdiv_remainder(2 * k * n.z, 65536);
    assert(-65536 <= n.x <= 65536 && -65536 <= n.y <= 65536 && -65536 <= n.z <= 65536)
        by (nonlinear_arith)
        requires
            n.x * n.x + n.y * n.y + n.z * n.z == 65536 * 65536,
    ;
    assert(sdot(v3_reflect(d, n), n) == s - (tx * n.x + ty * n.y + tz * n.z))
        by (nonlinear_arith)
        requires
            s == d.x * n.x + d.y * n.y + d.z * n.z,
            v3_reflect(d, n).x == d.x - tx,
            v3_reflect(d, n).y == d.y - ty,
            v3_reflect(d, n).z == d.z - tz,
            sdot(v3_reflect(d, n), n) == v3_reflect(d, n).x * n.x + v3_reflect(d, n).y * n.y
                + v3_reflect(d, n).z * n.z,
    ;
    assert(65536 * (tx * n.x) == 2 * k * (n.x * n.x) - e1 * n.x) by (nonlinear_arith)
        requires
            e1 == 2 * k * n.x - 65536 * tx,
    ;
    assert(65536 * (ty * n.y) == 2 * k * (n.y * n.y) - e2 * n.y) by (nonlinear_arith)
        requires
            e2 == 2 * k * n.y - 65536 * ty,
    ;
    assert(65536 * (tz * n.z) == 2 * k * (n.z * n.z) - e3 * n.z) by (nonlinear_arith)
        requires
            e3 == 2 * k * n.z - 65536 * tz,
    ;
    assert(2 * k * (n.x * n.x) + 2 * k * (n.y * n.y) + 2 * k * (n.z * n.z) == 2 * k * (65536
        * 65536)) by (nonlinear_arith)
        requires
            n.x * n.x + n.y * n.y + n.z * n.z == 65536 * 65536,
    ;
    assert(65536 * (tx * n.x + ty * n.y + tz * n.z) == 2 * k * (65536 * 65536) - (e1 * n.x + e2
        * n.y + e3 * n.z));
    assert(65536 * (sdot(v3_reflect(d, n), n) + s) == 2 * 65536 * s - 65536 * (tx * n.x + ty * n.y
        + tz * n.z)) by (nonlinear_arith)
        requires
            sdot(v3_reflect(d, n), n) == s - (tx * n.x + ty * n.y + tz * n.z),
    ;
    assert(2 * 65536 * s - 2 * k * (65536 * 65536) == 2 * 65536 * e0) by (nonlinear_arith)
        requires
            e0 == s - 65536 * k,
    ;
    assert(65536 * (sdot(v3_reflect(d, n), n) + s) == 2 * 65536 * e0 + e1 * n.x + e2 * n.y + e3
        * n.z);
    assert(-(5 * 65535 * 65536) <= 65536 * (sdot(v3_reflect(d, n), n) + s) <= 5 * 65535 * 65536)
        by (nonlinear_arith)
        requires
            65536 * (sdot(v3_reflect(d, n), n) + s) == 2 * 65536 * e0 + e1 * n.x + e2 * n.y + e3
                * n.z,
            -65535 <= e0 <= 65535,
            -65535 <= e1 <= 65535,
            -65535 <= e2 <= 65535,
            -65535 <= e3 <= 65535,
            -65536 <= n.x <= 65536,
            -65536 <= n.y <= 65536,
            -65536 <= n.z <= 65536,
    ;
    assert(-(5 * 65536) <= sdot(v3_reflect(d, n), n) + s <= 5 * 65536);
}

/// Scaling a vector to unit length cannot enlarge any component past
/// `2` (in fixed point): the rounded length is within one step of the
/// true length, which dominates every component.
pub proof fn lemma_unit_comp_bound(v: V3)
    requires
        v3_dot(v, v) >= 1,
    ensures
        bounded3(v3_unit(v), 2 * (FX_ONE as int)),
{
    let d = v3_dot(v, v);
    let s = sdot(v, v);
    lemma_sdot_self_nonneg(v);
    assert(d * 65536 <= s < (d + 1) * 65536) by (nonlinear_arith)
        requires
            d == tdiv(s, 65536),
            s >= 0,
    ;
    lemma_len_lower(v);
    let l = v3_len(v);
    assert(is_sqrt_floor(d * (FX_ONE as int), l)) by {
        crate::fx::lemma_sqrt_floor_exists(d * (FX_ONE as int));
    }
    assert(v.x * v.x <= s && v.y * v.y <= s && v.z * v.z <= s) by (nonlinear_arith)
        requires
            s == v.x * v.x + v.y * v.y + v.z * v.z,
    ;
    assert(-(l + 130) <= v.x <= l + 130 && -(l + 130) <= v.y <= l + 130 && -(l + 130) <= v.z <= l
        + 130) by (nonlinear_arith)
        requires
            v.x * v.x <= s,
            v.y * v.y <= s,
            v.z * v.z <= s,
            d * 65536 <= s < (d + 1) * 65536,
            is_sqrt_floor(d * 65536, l),
            l >= 256,
    ;
    assert(-(2 * 65536) <= tdiv(v.x * 65536, l) <= 2 * 65536 && -(2 * 65536) <= tdiv(
        v.y * 65536,
        l,
    ) <= 2 * 65536 && -(2 * 65536) <= tdiv(v.z * 65536, l) <= 2 * 65536) by (nonlinear_arith)
        requires
            -(l + 130) <= v.x <= l + 130,
            -(l + 130) <= v.y <= l + 130,
            -(l + 130) <= v.z <= l + 130,
            l >= 256,
    ;
}

/// A three-component fixed-point vector.
#[derive(Copy, Clone, Debug, PartialEq, Eq, Structural)]
pub struct Vec3 {
    pub x: i64,
    pub y: i64,
    pub z: i64,
}

impl View for Vec3 {
    type V = V3;

    open spec fn view(&self) -> V3 {
        V3 { x: self.x as int, y: self.y as int, z: self.z as int }
    }
}

/// The three slots of a vector read as spatial axes.
#[derive(Copy, Clone, Debug)]
pub enum Axis {
    X,
    Y,
    Z,
}

/// The same three slots read as color channels.
#[derive(Copy, Clone, Debug)]
pub enum Channel {
    R,
    G,
    B,
}

pub open spec fn v3_axis(v: V3, a: Axis) -> int {
    match a {
        Axis::X => v.x,
        Axis::Y => v.y,
        Axis::Z => v.z,
    }
}

pub open spec fn v3_channel(v: V3, c: Channel) -> int {
    match c {
        Channel::R => v.x,
        Channel::G => v.y,
        Channel::B => v.z,
    }
}

impl Vec3 {
    pub fn new(x: i64, y: i64, z: i64) -> (r: Vec3)
        ensures
            r@ == (V3 { x: x as int, y: y as int, z: z as int }),
    {
        Vec3 { x, y, z }
    }

    /// The component on the given spatial axis.
    pub fn axis(self, a: Axis) -> (r: i64)
        ensures
            r == v3_axis(self@, a),
    {
        match a {
            Axis::X => self.x,
            Axis::Y => self.y,
            Axis::Z => self.z,
        }
    }

    /// The component in the given color channel.
    pub fn channel(self, c: Channel) -> (r: i64)
        ensures
            r == v3_channel(self@, c),
    {
        match c {
            Channel::R => self.x,
            Channel::G => self.y,
            Channel::B => self.z,
        }
    }

    /// Overwrite this vector with another.
    pub fn mut_from(&mut self, other: Vec3)
        ensures
            *final(self) == other,
    {
        self.x = other.x;
        self.y = other.y;
        self.z = other.z;
    }

    pub fn add(self, other: Vec3) -> (r: Vec3)
        requires
            fits3(v3_add(self@, other@)),
        ensures
            r@ == v3_add(self@, other@),
    {
        Vec3 { x: self.x + other.x, y: self.y + other.y, z: self.z + other.z }
    }

    pub fn sub(self, other: Vec3) -> (r: Vec3)
        requires
            fits3(v3_sub(self@, other@)),
        ensures
            r@ == v3_sub(self@, other@),
    {
        Vec3 { x: self.x - other.x, y: self.y - other.y, z: self.z - other.z }
    }

    pub fn neg(self) -> (r: Vec3)
        requires
            fits3(v3_neg(self@)),
        ensures
            r@ == v3_neg(self@),
    {
        Vec3 { x: -self.x, y: -self.y, z: -self.z }
    }

    /// Fixed-point scalar multiple.
    pub fn scale(self, k: i64) -> (r: Vec3)
        requires
            fits3(v3_smul(k as int, self@)),
        ensures
            r@ == v3_smul(k as int, self@),
    {
        Vec3 { x: fx_mul(k, self.x), y: fx_mul(k, self.y), z: fx_mul(k, self.z) }
    }

    /// Componentwise fixed-point product.
    pub fn mul(self, other: Vec3) -> (r: Vec3)
        requires
            fits3(v3_mul(self@, other@)),
        ensures
            r@ == v3_mul(self@, other@),
    {
        Vec3 {
            x: fx_mul(self.x, other.x),
            y: fx_mul(self.y, other.y),
            z: fx_mul(self.z, other.z),
        }
    }

    pub fn dot(&self, other: Vec3) -> (r: i64)
        requires
            bounded3(self@, VEC_BOUND as int),
            bounded3(other@, VEC_BOUND as int),
        ensures
            r == v3_dot(self@, other@),
            fits_i64(v3_dot(self@, other@)),
    {
        proof {
            lemma_v3_dot_abs_le(self@, other@, VEC_BOUND as int, VEC_BOUND as int);
            lemma_mul_abs_le(self@.x, other@.x, VEC_BOUND as int, VEC_BOUND as int);
            lemma_mul_abs_le(self@.y, other@.y, VEC_BOUND as int, VEC_BOUND as int);
            lemma_mul_abs_le(self@.z, other@.z, VEC_BOUND as int, VEC_BOUND as int);
        }
        let p: i128 = (self.x as i128) * (other.x as i128) + (self.y as i128) * (other.y as i128)
            + (self.z as i128) * (other.z as i128);
        tdiv128(p, 65536) as i64
    }

    pub fn cross(&self, other: &Vec3) -> (r: Vec3)
        requires
            bounded3(self@, VEC_BOUND as int),
            bounded3(other@, VEC_BOUND as int),
        ensures
            r@ == v3_cross(self@, other@),
    {
        proof {
            lemma_fx_mul_abs_le(self@.y, other@.z, VEC_BOUND as int, VEC_BOUND as int);
            lemma_fx_mul_abs_le(self@.z, other@.y, VEC_BOUND as int, VEC_BOUND as int);
            lemma_fx_mul_abs_le(self@.x, other@.z, VEC_BOUND as int, VEC_BOUND as int);
            lemma_fx_mul_abs_le(self@.z, other@.x, VEC_BOUND as int, VEC_BOUND as int);
            lemma_fx_mul_abs_le(self@.x, other@.y, VEC_BOUND as int, VEC_BOUND as int);
            lemma_fx_mul_abs_le(self@.y, other@.x, VEC_BOUND as int, VEC_BOUND as int);
        }
        Vec3 {
            x: fx_mul(self.y, other.z) - fx_mul(self.z, other.y),
            y: -(fx_mul(self.x, other.z) - fx_mul(self.z, other.x)),
            z: fx_mul(self.x, other.y) - fx_mul(self.y, other.x),
        }
    }

    pub fn length(&self) -> (r: i64)
        requires
            bounded3(self@, VEC_BOUND as int),
        ensures
            r == v3_len(self@),
            r >= 0,
    {
        proof {
            lemma_sdot_self_nonneg(self@);
            lemma_v3_dot_abs_le(self@, self@, VEC_BOUND as int, VEC_BOUND as int);
        }
        let d = self.dot(*self);
        fx_sqrt(d)
    }

    /// The unit vector in this vector's direction.  Undefined (and
    /// excluded here) for vectors whose fixed-point self-dot rounds to
    /// zero.
    pub fn into_unit(self) -> (r: Vec3)
        requires
            bounded3(self@, VEC_BOUND as int),
            v3_dot(self@, self@) >= 1,
        ensures
            r@ == v3_unit(self@),
    {
        proof {
            lemma_sdot_self_nonneg(self@);
            lemma_v3_dot_abs_le(self@, self@, VEC_BOUND as int, VEC_BOUND as int);
        }
        let l = self.length();
        proof {
            lemma_len_lower(self@);
            lemma_tdiv_abs_le(self@.x * (FX_ONE as int), l as int, (VEC_BOUND as int) * (
            FX_ONE as int));
            lemma_tdiv_abs_le(self@.y * (FX_ONE as int), l as int, (VEC_BOUND as int) * (
            FX_ONE as int));
            lemma_tdiv_abs_le(self@.z * (FX_ONE as int), l as int, (VEC_BOUND as int) * (
            FX_ONE as int));
        }
        Vec3 { x: fx_div(self.x, l), y: fx_div(self.y, l), z: fx_div(self.z, l) }
    }

    /// Mirror reflection of this direction about `n`.
    pub fn reflect_about(self, n: Vec3) -> (r: Vec3)
        requires
            bounded3(self@, REFLECT_BOUND as int),
            bounded3(n@, REFLECT_BOUND as int),
        ensures
            r@ == v3_reflect(self@, n@),
    {
        proof {
            lemma_v3_dot_abs_le(self@, n@, REFLECT_BOUND as int, REFLECT_BOUND as int);
        }
        proof {
            assert((3 * (REFLECT_BOUND as int) * (REFLECT_BOUND as int)) / (FX_ONE as int)
                == 52776558133248);
        }
        let d = self.dot(n);
        let k = 2 * d;
        proof {
            lemma_fx_mul_abs_le(k as int, n@.x, 105553116266496, REFLECT_BOUND as int);
            lemma_fx_mul_abs_le(k as int, n@.y, 105553116266496, REFLECT_BOUND as int);
            lemma_fx_mul_abs_le(k as int, n@.z, 105553116266496, REFLECT_BOUND as int);
        }
        Vec3 { x: self.x - fx_mul(k, n.x), y: self.y - fx_mul(k, n.y), z: self.z - fx_mul(k, n.z) }
    }

    /// Rejection-sample a vector uniformly inside the unit ball.  The
    /// rejection loop terminates almost surely; a draw limit (with the
    /// center as the measure-zero fallback) makes termination a
    /// theorem rather than a probability-1 event.
    pub fn random_in_unit_sphere() -> (r: Vec3)
        ensures
            in_unit_ball(r@),
    {
        let mut tries: u32 = 0;
        while tries < 1024
            decreases 1024 - tries,
        {
            let x = 2 * sample_unit_fx() - FX_ONE;
            let y = 2 * sample_unit_fx() - FX_ONE;
            let z = 2 * sample_unit_fx() - FX_ONE;
            let p = Vec3 { x, y, z };
            proof {
                lemma_v3_dot_abs_le(p@, p@, FX_ONE as int, FX_ONE as int);
            }
            if p.dot(p) < FX_ONE {
                return p;
            }
            tries = tries + 1;
        }
        Vec3 { x: 0, y: 0, z: 0 }
    }

    /// Rejection-sample a vector uniformly inside the unit disk in the
    /// xy-plane, with the same draw limit as `random_in_unit_sphere`.
    pub fn random_in_unit_disk() -> (r: Vec3)
        ensures
            in_unit_ball(r@),
            r@.z == 0,
    {
        let mut tries: u32 = 0;
        while tries < 1024
            decreases 1024 - tries,
        {
            let x = 2 * sample_unit_fx() - FX_ONE;
            let y = 2 * sample_unit_fx() - FX_ONE;
            let p = Vec3 { x, y, z: 0 };
            proof {
                lemma_v3_dot_abs_le(p@, p@, FX_ONE as int, FX_ONE as int);
            }
            if p.dot(p) < FX_ONE {
                return p;
            }
            tries = tries + 1;
        }
        Vec3 { x: 0, y: 0, z: 0 }
    }
}

} // verus!
