//! The integrator and the render driver.
//!
//! `color` evaluates the radiance along a ray by bouncing it through
//! the scene up to a bounce limit, multiplying attenuations, and
//! falling back to the sky gradient when the ray escapes.
//! `render_band` accumulates jittered samples per pixel over a band of
//! rows and quantizes to bytes; bands are disjoint, so a caller may
//! run them on independent workers and concatenate.

use vstd::prelude::*;

verus! {

use crate::fx::{
    FX_ONE, is_sqrt_floor, tdiv, clamp_i, fx_sqrt, fx_sqrt_s, tdiv_i64, tdiv128,
    lemma_tdiv_abs_le, lemma_tdiv_sign, lemma_fx_mul_unit_range,
};
use crate::vec3::{
    Vec3, V3, v3_add, v3_smul, v3_mul, v3_dot, v3_unit, bounded3, in_unit_ball,
    lemma_v3_dot_abs_le, lemma_sdot_self_nonneg, lemma_unit_comp_bound,
};
use crate::ray::{Ray, RayV};
use crate::hittable::{HittableList, Hittable, HitV, list_hit_s, COORD_BOUND, T_EPS, T_FAR};
use crate::material::{color_in_unit, opt_sc_v};
use crate::camera::{Camera, CameraV, camera_wf, get_ray_s};
use crate::sample::sample_unit_fx;

/// The zero color.
pub open spec fn v3_black() -> V3 {
    V3 { x: 0, y: 0, z: 0 }
}

/// The sky gradient: white at the horizon blending to sky blue at the
/// zenith, by `t = (unit_direction.y + 1) / 2`; `t` is clamped into
/// `[0, 1]` (rounding can push a unit component a little past one),
/// and a direction whose self-dot rounds to zero yields black.
pub open spec fn background_s(r: RayV) -> V3 {
    if v3_dot(r.direction, r.direction) < 1 {
        v3_black()
    } else {
        let ud = v3_unit(r.direction);
        let t = clamp_i(tdiv(ud.y + FX_ONE, 2), 0, FX_ONE as int);
        v3_add(
            v3_smul(FX_ONE - t, V3 { x: FX_ONE as int, y: FX_ONE as int, z: FX_ONE as int }),
            v3_smul(t, V3 { x: 32768, y: 45875, z: FX_ONE as int }),
        )
    }
}

/// An empty scene reports no intersection for any ray and any window.
pub proof fn lemma_empty_scene_hits_nothing(
    list: Seq<Hittable>,
    o: V3,
    d: V3,
    t_min: int,
    t_max: int,
)
    requires
        list.len() == 0,
    ensures
        list_hit_s(list, o, d, t_min, t_max) is None,
{
}

/// `c` is an admissible radiance for the ray `r`: the integrator's
/// recursion written as a relation, with the random draws each
/// scatter consumes bound existentially.  A miss is exactly the sky
/// gradient, a hit at the bounce budget is exactly black, an absorbed
/// scatter is exactly black, and a scattered ray contributes its
/// attenuation times an admissible radiance of the scattered ray.
pub open spec fn radiance_rel(
    list: Seq<Hittable>,
    r: RayV,
    depth: int,
    max_bounces: int,
    c: V3,
) -> bool
    decreases max_bounces - depth,
{
    match list_hit_s(list, r.origin, r.direction, T_EPS as int, T_FAR as int) {
        None => c == background_s(r),
        Some(h) => {
            if depth >= max_bounces {
                c == v3_black()
            } else {
                match h.material {
                    None => c == v3_black(),
                    Some(m) => exists|rnd: V3, coin: int|
                        #![auto]
                        {
                            &&& in_unit_ball(rnd)
                            &&& 0 <= coin < FX_ONE
                            &&& (m.scatter_s(r, h, rnd, coin) matches Some((sc, att))
                                ==> exists|b: V3|
                                #![auto]
                                radiance_rel(list, sc, depth + 1, max_bounces, b) && c == v3_mul(
                                    att,
                                    b,
                                ))
                            &&& (m.scatter_s(r, h, rnd, coin) is None ==> c == v3_black())
                        },
                }
            }
        },
    }
}

/// The sky gradient, exact per `background_s`, and always a color.
pub fn background(r: &Ray) -> (c: Vec3)
    requires
        bounded3(r@.direction, COORD_BOUND as int),
    ensures
        c@ == background_s(r@),
        color_in_unit(c@),
{
    proof {
        lemma_sdot_self_nonneg(r@.direction);
        lemma_v3_dot_abs_le(r@.direction, r@.direction, COORD_BOUND as int, COORD_BOUND as int);
    }
    let d = r.direction();
    let dd = d.dot(d);
    if dd < 1 {
        return Vec3 { x: 0, y: 0, z: 0 };
    }
    let ud = d.into_unit();
    proof {
        lemma_unit_comp_bound(r@.direction);
    }
    let t0 = tdiv_i64(ud.y + FX_ONE, 2);
    let t = if t0 < 0 {
        0
    } else if t0 > FX_ONE {
        FX_ONE
    } else {
        t0
    };
    proof {
        lemma_fx_mul_unit_range((FX_ONE - t) as int, FX_ONE as int);
        lemma_fx_mul_unit_range(t as int, 32768);
        lemma_fx_mul_unit_range(t as int, 45875);
        lemma_fx_mul_unit_range(t as int, FX_ONE as int);
    }
    let white = Vec3 { x: FX_ONE, y: FX_ONE, z: FX_ONE };
    let blue = Vec3 { x: 32768, y: 45875, z: FX_ONE };
    white.scale(FX_ONE - t).add(blue.scale(t))
}

/// The radiance along a ray: the nearest hit scatters (or absorbs)
/// until the bounce budget runs out; a ray that escapes the scene
/// returns exactly the sky gradient, a hit at the budget returns
/// exactly black, and every result is a color.
pub fn color(r: &Ray, world: &HittableList, depth: u32, max_bounces: u32) -> (c: Vec3)
    requires
        world.wf(),
        bounded3(r@.origin, COORD_BOUND as int),
        bounded3(r@.direction, COORD_BOUND as int),
        depth <= max_bounces,
    ensures
        color_in_unit(c@),
        radiance_rel(world.list@, r@, depth as int, max_bounces as int, c@),
        list_hit_s(world.list@, r@.origin, r@.direction, T_EPS as int, T_FAR as int) is None
            ==> c@ == background_s(r@),
        (list_hit_s(world.list@, r@.origin, r@.direction, T_EPS as int, T_FAR as int) is Some
            && depth == max_bounces) ==> c@ == v3_black(),
    decreases max_bounces - depth,
{
    match world.hit(r, T_EPS, T_FAR) {
        Some(rec) => {
            if depth >= max_bounces {
                return Vec3 { x: 0, y: 0, z: 0 };
            }
            let material = match rec.material {
                Some(m) => m,
                None => {
                    return Vec3 { x: 0, y: 0, z: 0 };
                },
            };
            let sres = material.scatter(r, &rec);
            match sres {
                Some((scattered, attenuation)) => {
                    let bounce = color(&scattered, world, depth + 1, max_bounces);
                    proof {
                        lemma_fx_mul_unit_range(attenuation@.x, bounce@.x);
                        lemma_fx_mul_unit_range(attenuation@.y, bounce@.y);
                        lemma_fx_mul_unit_range(attenuation@.z, bounce@.z);
                    }
                    let out = attenuation.mul(bounce);
                    proof {
                        let (rnd, coin) = choose|rnd: V3, coin: int|
                            in_unit_ball(rnd) && 0 <= coin < FX_ONE && opt_sc_v(sres)
                                == material.scatter_s(r@, rec@, rnd, coin);
                        assert(material.scatter_s(r@, rec@, rnd, coin) == Some(
                            (scattered@, attenuation@),
                        ));
                        assert(radiance_rel(
                            world.list@,
                            scattered@,
                            depth as int + 1,
                            max_bounces as int,
                            bounce@,
                        ));
                        assert(exists|b: V3|
                            #![auto]
                            radiance_rel(
                                world.list@,
                                scattered@,
                                depth as int + 1,
                                max_bounces as int,
                                b,
                            ) && out@ == v3_mul(attenuation@, b)) by {
                            assert(radiance_rel(
                                world.list@,
                                scattered@,
                                depth as int + 1,
                                max_bounces as int,
                                bounce@,
                            ) && out@ == v3_mul(attenuation@, bounce@));
                        }
                        assert(exists|rnd2: V3, coin2: int|
                            #![auto]
                            {
                                &&& in_unit_ball(rnd2)
                                &&& 0 <= coin2 < FX_ONE
                                &&& (material.scatter_s(r@, rec@, rnd2, coin2) matches Some(
                                    (sc, att),
                                ) ==> exists|b: V3|
                                    #![auto]
                                    radiance_rel(
                                        world.list@,
                                        sc,
                                        depth as int + 1,
                                        max_bounces as int,
                                        b,
                                    ) && out@ == v3_mul(att, b))
                                &&& (material.scatter_s(r@, rec@, rnd2, coin2) is None ==> out@
                                    == v3_black())
                            }) by {
                            assert(in_unit_ball(rnd) && 0 <= coin < FX_ONE && (
                            material.scatter_s(r@, rec@, rnd, coin) matches Some((sc, att))
                                ==> exists|b: V3|
                                #![auto]
                                radiance_rel(
                                    world.list@,
                                    sc,
                                    depth as int + 1,
                                    max_bounces as int,
                                    b,
                                ) && out@ == v3_mul(att, b)) && (material.scatter_s(
                                r@,
                                rec@,
                                rnd,
                                coin,
                            ) is None ==> out@ == v3_black()));
                        }
                    }
                    out
                },
                None => {
                    proof {
                        let (rnd, coin) = choose|rnd: V3, coin: int|
                            in_unit_ball(rnd) && 0 <= coin < FX_ONE && opt_sc_v(sres)
                                == material.scatter_s(r@, rec@, rnd, coin);
                        let black = v3_black();
                        assert(material.scatter_s(r@, rec@, rnd, coin) is None);
                        assert(exists|rnd2: V3, coin2: int|
                            #![auto]
                            {
                                &&& in_unit_ball(rnd2)
                                &&& 0 <= coin2 < FX_ONE
                                &&& (material.scatter_s(r@, rec@, rnd2, coin2) matches Some(
                                    (sc, att),
                                ) ==> exists|b: V3|
                                    #![auto]
                                    radiance_rel(
                                        world.list@,
                                        sc,
                                        depth as int + 1,
                                        max_bounces as int,
                                        b,
                                    ) && black == v3_mul(att, b))
                                &&& (material.scatter_s(r@, rec@, rnd2, coin2) is None ==> black
                                    == v3_black())
                            }) by {
                            assert(in_unit_ball(rnd) && 0 <= coin < FX_ONE && (
                            material.scatter_s(r@, rec@, rnd, coin) matches Some((sc, att))
                                ==> exists|b: V3|
                                #![auto]
                                radiance_rel(
                                    world.list@,
                                    sc,
                                    depth as int + 1,
                                    max_bounces as int,
                                    b,
                                ) && black == v3_mul(att, b)) && (material.scatter_s(
                                r@,
                                rec@,
                                rnd,
                                coin,
                            ) is None ==> black == v3_black()));
                        }
                    }
                    Vec3 { x: 0, y: 0, z: 0 }
                },
            }
        },
        None => background(r),
    }
}

/// A normalized image coordinate: the pixel index jittered by a
/// sub-pixel offset, over the image extent.
pub open spec fn jitter_coord(p: int, jitter: int, extent: int) -> int {
    tdiv(p * FX_ONE + jitter, extent)
}

/// One admissible radiance sample for pixel `(i, j)`: some sub-pixel
/// jitter pair, some lens-disk draw, and a radiance admissible for
/// the resulting camera ray.
pub open spec fn pixel_sample_rel(
    list: Seq<Hittable>,
    cam: CameraV,
    i: int,
    j: int,
    width: int,
    height: int,
    max_bounces: int,
    c: V3,
) -> bool {
    exists|ju: int, jv: int, rd: V3|
        #![auto]
        {
            &&& 0 <= ju < FX_ONE
            &&& 0 <= jv < FX_ONE
            &&& in_unit_ball(rd)
            &&& rd.z == 0
            &&& radiance_rel(
                list,
                get_ray_s(
                    cam,
                    jitter_coord(i, ju, width),
                    jitter_coord(j, jv, height),
                    rd,
                ),
                0,
                max_bounces,
                c,
            )
        }
}

/// The componentwise sum of a sequence of radiance samples.
pub open spec fn color_sum(cs: Seq<V3>) -> V3
    decreases cs.len(),
{
    if cs.len() == 0 {
        v3_black()
    } else {
        v3_add(color_sum(cs.drop_last()), cs.last())
    }
}

/// Appending a sample adds it to the sum.
pub proof fn lemma_color_sum_push(cs: Seq<V3>, c: V3)
    ensures
        color_sum(cs.push(c)) == v3_add(color_sum(cs), c),
{
    assert(cs.push(c).drop_last() =~= cs);
    assert(cs.push(c).last() == c);
}

/// The three bytes of a pixel are the square-root-gamma-corrected,
/// quantized average of `samples` admissible radiance samples.
pub open spec fn pixel_bytes_rel(
    list: Seq<Hittable>,
    cam: CameraV,
    i: int,
    j: int,
    width: int,
    height: int,
    samples: int,
    max_bounces: int,
    b0: int,
    b1: int,
    b2: int,
) -> bool {
    exists|cs: Seq<V3>|
        #![auto]
        {
            &&& cs.len() == samples
            &&& (forall|k: int|
                0 <= k < cs.len() ==> pixel_sample_rel(
                    list,
                    cam,
                    i,
                    j,
                    width,
                    height,
                    max_bounces,
                    #[trigger] cs[k],
                ))
            &&& b0 == byte_of_s(fx_sqrt_s(tdiv(color_sum(cs).x, samples)))
            &&& b1 == byte_of_s(fx_sqrt_s(tdiv(color_sum(cs).y, samples)))
            &&& b2 == byte_of_s(fx_sqrt_s(tdiv(color_sum(cs).z, samples)))
        }
}

/// Pixel `k` of a band (row-major, top row of the band first, bottom
/// row `row_start`) holds three admissible bytes.
pub open spec fn band_pixel_ok(
    buf: Seq<u8>,
    list: Seq<Hittable>,
    cam: CameraV,
    row_end: int,
    width: int,
    height: int,
    samples: int,
    max_bounces: int,
    k: int,
) -> bool {
    pixel_bytes_rel(
        list,
        cam,
        k % width,
        row_end - 1 - k / width,
        width,
        height,
        samples,
        max_bounces,
        buf[3 * k] as int,
        buf[3 * k + 1] as int,
        buf[3 * k + 2] as int,
    )
}

/// A channel in `[0, 1]` scaled by `255.99` and truncated to a byte.
pub open spec fn byte_of_s(c: int) -> int {
    tdiv(c * 16776560, 4294967296)
}

/// Byte quantization of one color channel, exact per `byte_of_s`.
pub fn channel_byte(c: i64) -> (b: u8)
    requires
        0 <= c <= FX_ONE,
    ensures
        b == byte_of_s(c as int),
{
    proof {
        assert(0 <= (c as int) * 16776560 <= 65536 * 16776560) by (nonlinear_arith)
            requires
                0 <= c <= 65536,
        ;
        lemma_tdiv_sign((c as int) * 16776560, 4294967296);
        lemma_tdiv_abs_le((c as int) * 16776560, 4294967296, 65536int * 16776560);
    }
    tdiv128((c as i128) * 16776560, 4294967296) as u8
}

/// Render the rows `row_start .. row_end` of a `width x height`
/// image, top row first: for each pixel, the average of `samples`
/// jittered radiance estimates, square-root gamma, and byte
/// quantization, as a flat row-major RGB buffer.
pub fn render_band(
    world: &HittableList,
    cam: &Camera,
    width: u32,
    height: u32,
    row_start: u32,
    row_end: u32,
    samples: u32,
    max_bounces: u32,
) -> (buf: Vec<u8>)
    requires
        world.wf(),
        camera_wf(cam@),
        0 < width <= 16384,
        0 < height <= 16384,
        row_start <= row_end <= height,
        1 <= samples <= 65536,
    ensures
        buf@.len() == (row_end - row_start) * width * 3,
        forall|k: int|
            0 <= k < (row_end - row_start) * (width as int) ==> #[trigger] band_pixel_ok(
                buf@,
                world.list@,
                cam@,
                row_end as int,
                width as int,
                height as int,
                samples as int,
                max_bounces as int,
                k,
            ),
{
    let mut buf: Vec<u8> = Vec::new();
    let rows = row_end - row_start;
    let mut jj: u32 = 0;
    while jj < rows
        invariant
            world.wf(),
            camera_wf(cam@),
            0 < width <= 16384,
            0 < height <= 16384,
            row_start <= row_end <= height,
            rows == row_end - row_start,
            1 <= samples <= 65536,
            jj <= rows,
            buf@.len() == jj * width * 3,
            forall|k: int|
                0 <= k < jj * (width as int) ==> #[trigger] band_pixel_ok(
                    buf@,
                    world.list@,
                    cam@,
                    row_end as int,
                    width as int,
                    height as int,
                    samples as int,
                    max_bounces as int,
                    k,
                ),
        decreases rows - jj,
    {
        let j = row_end - 1 - jj;
        let mut i: u32 = 0;
        while i < width
            invariant
                world.wf(),
                camera_wf(cam@),
                0 < width <= 16384,
                0 < height <= 16384,
                row_start <= row_end <= height,
                rows == row_end - row_start,
                jj < rows,
                j == row_end - 1 - jj,
                j < height,
                1 <= samples <= 65536,
                i <= width,
                buf@.len() == jj * width * 3 + i * 3,
                forall|k: int|
                    0 <= k < jj * (width as int) + i ==> #[trigger] band_pixel_ok(
                        buf@,
                        world.list@,
                        cam@,
                        row_end as int,
                        width as int,
                        height as int,
                        samples as int,
                        max_bounces as int,
                        k,
                    ),
        decreases width - i,
        {
            let mut cr: i64 = 0;
            let mut cg: i64 = 0;
            let mut cb: i64 = 0;
            let mut s: u32 = 0;
            let ghost mut cs: Seq<V3> = Seq::<V3>::empty();
            while s < samples
                invariant
                    world.wf(),
                    camera_wf(cam@),
                    0 < width <= 16384,
                    0 < height <= 16384,
                    j < height,
                    i < width,
                    1 <= samples <= 65536,
                    s <= samples,
                    0 <= cr <= s * FX_ONE,
                    0 <= cg <= s * FX_ONE,
                    0 <= cb <= s * FX_ONE,
                    cs.len() == s,
                    cr == color_sum(cs).x,
                    cg == color_sum(cs).y,
                    cb == color_sum(cs).z,
                    forall|k: int|
                        0 <= k < cs.len() ==> pixel_sample_rel(
                            world.list@,
                            cam@,
                            i as int,
                            j as int,
                            width as int,
                            height as int,
                            max_bounces as int,
                            #[trigger] cs[k],
                        ),
                decreases samples - s,
            {
                let ju = sample_unit_fx();
                let jv = sample_unit_fx();
                let ux = (i as i64) * FX_ONE + ju;
                let vx = (j as i64) * FX_ONE + jv;
                proof {
                    lemma_tdiv_sign(ux as int, width as int);
                    lemma_tdiv_sign(vx as int, height as int);
                    assert(tdiv(ux as int, width as int) <= 65536 && tdiv(
                        vx as int,
                        height as int,
                    ) <= 65536) by (nonlinear_arith)
                        requires
                            0 <= ux < (width as int) * 65536,
                            0 <= vx < (height as int) * 65536,
                            width > 0,
                            height > 0,
                    ;
                    lemma_tdiv_abs_le(ux as int, width as int, ux as int);
                    lemma_tdiv_abs_le(vx as int, height as int, vx as int);
                }
                let u = tdiv_i64(ux, width as i64);
                let v = tdiv_i64(vx, height as i64);
                let ray = cam.get_ray(u, v);
                let col = color(&ray, world, 0, max_bounces);
                proof {
                    let rd = choose|rd: V3|
                        in_unit_ball(rd) && rd.z == 0 && ray@ == get_ray_s(
                            cam@,
                            u as int,
                            v as int,
                            rd,
                        );
                    assert(pixel_sample_rel(
                        world.list@,
                        cam@,
                        i as int,
                        j as int,
                        width as int,
                        height as int,
                        max_bounces as int,
                        col@,
                    )) by {
                        assert(0 <= ju < FX_ONE && 0 <= jv < FX_ONE && in_unit_ball(rd) && rd.z
                            == 0 && radiance_rel(
                            world.list@,
                            get_ray_s(
                                cam@,
                                jitter_coord(i as int, ju as int, width as int),
                                jitter_coord(j as int, jv as int, height as int),
                                rd,
                            ),
                            0,
                            max_bounces as int,
                            col@,
                        ));
                    }
                    lemma_color_sum_push(cs, col@);
                    let ghost cs0 = cs;
                    cs = cs.push(col@);
                    assert forall|k: int|
                        0 <= k < cs.len() implies pixel_sample_rel(
                        world.list@,
                        cam@,
                        i as int,
                        j as int,
                        width as int,
                        height as int,
                        max_bounces as int,
                        #[trigger] cs[k],
                    ) by {
                        if k < cs0.len() {
                            assert(cs[k] == cs0[k]);
                        } else {
                            assert(cs[k] == col@);
                        }
                    }
                }
                cr = cr + col.x;
                cg = cg + col.y;
                cb = cb + col.z;
                s = s + 1;
            }
            proof {
                assert(tdiv(cr as int, samples as int) <= 65536 && tdiv(
                    cg as int,
                    samples as int,
                ) <= 65536 && tdiv(cb as int, samples as int) <= 65536) by (nonlinear_arith)
                    requires
                        0 <= cr <= (samples as int) * 65536,
                        0 <= cg <= (samples as int) * 65536,
                        0 <= cb <= (samples as int) * 65536,
                        samples > 0,
                ;
                lemma_tdiv_sign(cr as int, samples as int);
                lemma_tdiv_sign(cg as int, samples as int);
                lemma_tdiv_sign(cb as int, samples as int);
                lemma_tdiv_abs_le(cr as int, samples as int, cr as int);
                lemma_tdiv_abs_le(cg as int, samples as int, cg as int);
                lemma_tdiv_abs_le(cb as int, samples as int, cb as int);
            }
            let ar = tdiv_i64(cr, samples as i64);
            let ag = tdiv_i64(cg, samples as i64);
            let ab = tdiv_i64(cb, samples as i64);
            let gr = fx_sqrt(ar);
            let gg = fx_sqrt(ag);
            let gb = fx_sqrt(ab);
            proof {
                assert(gr <= 65536 && gg <= 65536 && gb <= 65536) by (nonlinear_arith)
                    requires
                        is_sqrt_floor((ar as int) * 65536, gr as int),
                        is_sqrt_floor((ag as int) * 65536, gg as int),
                        is_sqrt_floor((ab as int) * 65536, gb as int),
                        ar <= 65536,
                        ag <= 65536,
                        ab <= 65536,
                        gr >= 0,
                        gg >= 0,
                        gb >= 0,
                ;
            }
            let b0 = channel_byte(gr);
            let b1 = channel_byte(gg);
            let b2 = channel_byte(gb);
            proof {
                assert(pixel_bytes_rel(
                    world.list@,
                    cam@,
                    i as int,
                    j as int,
                    width as int,
                    height as int,
                    samples as int,
                    max_bounces as int,
                    b0 as int,
                    b1 as int,
                    b2 as int,
                )) by {
                    assert(cs.len() == samples as int && (forall|k: int|
                        0 <= k < cs.len() ==> pixel_sample_rel(
                            world.list@,
                            cam@,
                            i as int,
                            j as int,
                            width as int,
                            height as int,
                            max_bounces as int,
                            #[trigger] cs[k],
                        )) && b0 as int == byte_of_s(
                        fx_sqrt_s(tdiv(color_sum(cs).x, samples as int)),
                    ) && b1 as int == byte_of_s(fx_sqrt_s(tdiv(color_sum(cs).y, samples as int)))
                        && b2 as int == byte_of_s(
                        fx_sqrt_s(tdiv(color_sum(cs).z, samples as int)),
                    ));
                }
            }
            let ghost buf0 = buf@;
            buf.push(b0);
            buf.push(b1);
            buf.push(b2);
            proof {
                let k0 = (jj as int) * (width as int) + (i as int);
                assert(k0 % (width as int) == i as int && k0 / (width as int) == jj as int)
                    by (nonlinear_arith)
                    requires
                        k0 == (jj as int) * (width as int) + (i as int),
                        0 <= i < width,
                        0 <= jj,
                ;
                assert(buf0.len() == 3 * k0);
                assert(buf@[3 * k0] == b0 && buf@[3 * k0 + 1] == b1 && buf@[3 * k0 + 2] == b2);
                assert(band_pixel_ok(
                    buf@,
                    world.list@,
                    cam@,
                    row_end as int,
                    width as int,
                    height as int,
                    samples as int,
                    max_bounces as int,
                    k0,
                ));
                assert forall|k: int|
                    0 <= k < k0 + 1 implies #[trigger] band_pixel_ok(
                    buf@,
                    world.list@,
                    cam@,
                    row_end as int,
                    width as int,
                    height as int,
                    samples as int,
                    max_bounces as int,
                    k,
                ) by {
                    if k < k0 {
                        assert(buf@[3 * k] == buf0[3 * k] && buf@[3 * k + 1] == buf0[3 * k + 1]
                            && buf@[3 * k + 2] == buf0[3 * k + 2]);
                        assert(band_pixel_ok(
                            buf0,
                            world.list@,
                            cam@,
                            row_end as int,
                            width as int,
                            height as int,
                            samples as int,
                            max_bounces as int,
                            k,
                        ));
                    }
                }
            }
            i = i + 1;
        }
        proof {
            assert((jj + 1) * (width as int) * 3 == jj * (width as int) * 3 + (width as int) * 3)
                by (nonlinear_arith);
            assert(((jj as int) + 1) * (width as int) == (jj as int) * (width as int) + (
            width as int)) by (nonlinear_arith);
        }
        jj = jj + 1;
    }
    buf
}

/// Render the whole image as one band.
pub fn render(
    world: &HittableList,
    cam: &Camera,
    width: u32,
    height: u32,
    samples: u32,
    max_bounces: u32,
) -> (buf: Vec<u8>)
    requires
        world.wf(),
        camera_wf(cam@),
        0 < width <= 16384,
        0 < height <= 16384,
        1 <= samples <= 65536,
    ensures
        buf@.len() == height * width * 3,
        forall|k: int|
            0 <= k < (height as int) * (width as int) ==> #[trigger] band_pixel_ok(
                buf@,
                world.list@,
                cam@,
                height as int,
                width as int,
                height as int,
                samples as int,
                max_bounces as int,
                k,
            ),
{
    render_band(world, cam, width, height, 0, height, samples, max_bounces)
}

} // verus!
