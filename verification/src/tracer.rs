//! The tracer: recursive shading with a depth bound, and per-pixel
//! antialiased sampling.
//!
//! Tracing is depth-bounded recursion: a missed ray is black, a hit is shaded
//! locally and, below the depth limit, the mirror-reflected ray's colour is
//! added scaled by the material's reflectiveness.  The contracts state the
//! result exactly through `sp_trace`, against an "oracle": one shadow-sample
//! set per recursion level, existentially quantified, since the samples are
//! drawn at random.  A hit point outside the coordinate bounds that the
//! fixed-point arithmetic supports is treated as a miss; exact real
//! arithmetic never produces one, since a hit point lies on its shape.

use vstd::prelude::*;

use crate::colour::{
    c3_bounded, lemma_cscale_bounded, sp_cadd, sp_cdivi, sp_clamp, sp_cscale, Colour, C3,
};
use crate::fx::{
    abs_int, lemma_abs_mul, lemma_tdiv_abs, lemma_tdiv_mul_bound, lemma_tdiv_sign, tdiv,
    tdiv_i128, SCALE,
};
use crate::limits::{COORD_MAX, DIR_MAX, POINT_MAX};
use crate::ray::{ray_wf, Ray};
use crate::scene::{scene_wf, sp_scene_best, Scene};
use crate::shapes::sphere::T_ABS_MAX;
use crate::shapes::{
    shape_wf, sp_lighting, sp_samples_li_wf, sp_samples_sh_wf, sp_samples_wf, sp_shape_material,
    sp_shape_normal, LIGHT_MAX,
};
use crate::vector::{
    lemma_dot_bounded, lemma_lerp_unit_bounded, lemma_vmul_bounded, sp_dot, sp_lerp, sp_magsq,
    sp_normalise, sp_vadd, sp_vmul, sp_vsub, v3_bounded, Vector, V3,
};

verus! {

/// Shadow samples for one full lighting evaluation: per light, per shape,
/// per shadow ray.
pub type SampleSet = Seq<Seq<Seq<V3>>>;

/// Shadow samples for a whole traced path: one sample set per recursion
/// level.
pub type Oracle = Seq<SampleSet>;

/// Number of recursion levels a trace starting at `depth` can visit.
pub open spec fn sp_levels(s: Scene, depth: int) -> int {
    if depth < s.recursion_depth_limit as int {
        s.recursion_depth_limit as int - depth + 1
    } else {
        1
    }
}

/// A valid oracle for a trace starting at `depth`: one valid sample set per
/// recursion level.
pub open spec fn sp_oracle_wf(s: Scene, orc: Oracle, depth: int) -> bool {
    &&& orc.len() == sp_levels(s, depth)
    &&& forall|i: int| 0 <= i < orc.len() ==> sp_samples_wf(s, #[trigger] orc[i])
}

/// The hit point of a ray at parametric distance `t`.
pub open spec fn sp_hit_point(o: V3, d: V3, t: int) -> V3 {
    sp_vadd(o, sp_vmul(d, t))
}

/// The locally shaded colour of a ray: black on a miss or an out-of-range
/// hit point, else the illumination model at the hit.
pub open spec fn sp_hit_local(s: Scene, o: V3, d: V3, set: SampleSet) -> C3 {
    match sp_scene_best(s.shapes@, o, d) {
        Option::None => C3 { r: 0, g: 0, b: 0 },
        Option::Some(hit) => {
            let point = sp_hit_point(o, d, hit.0);
            if !v3_bounded(point, POINT_MAX as int) {
                C3 { r: 0, g: 0, b: 0 }
            } else {
                let shape = s.shapes@[hit.1];
                let view = sp_normalise(sp_vmul(d, -(SCALE as int)));
                let normal = sp_shape_normal(shape, point);
                sp_lighting(s, shape, point, view, normal, set)
            }
        },
    }
}

/// The colour of a traced ray under a given oracle: the local shading plus,
/// below the depth limit, the traced colour of the mirror-reflected ray
/// scaled by the material's reflectiveness.
pub open spec fn sp_trace(s: Scene, o: V3, d: V3, depth: int, orc: Oracle) -> C3
    decreases orc.len(),
{
    if orc.len() == 0 {
        C3 { r: 0, g: 0, b: 0 }
    } else {
        match sp_scene_best(s.shapes@, o, d) {
            Option::None => C3 { r: 0, g: 0, b: 0 },
            Option::Some(hit) => {
                let point = sp_hit_point(o, d, hit.0);
                if !v3_bounded(point, POINT_MAX as int) {
                    C3 { r: 0, g: 0, b: 0 }
                } else {
                    let shape = s.shapes@[hit.1];
                    let view = sp_normalise(sp_vmul(d, -(SCALE as int)));
                    let normal = sp_shape_normal(shape, point);
                    let local = sp_lighting(s, shape, point, view, normal, orc[0]);
                    if depth < s.recursion_depth_limit as int {
                        let refl = sp_vsub(
                            sp_vmul(sp_vmul(normal, sp_dot(normal, view)), 2 * SCALE as int),
                            view,
                        );
                        let reflected = sp_trace(s, point, refl, depth + 1, orc.skip(1));
                        sp_cadd(
                            local,
                            sp_cscale(reflected, sp_shape_material(shape).reflectiveness as int),
                        )
                    } else {
                        local
                    }
                }
            },
        }
    }
}

/// At or beyond the recursion depth limit a trace returns the local shading
/// alone: no reflected contribution is added, whatever the materials'
/// reflectiveness, so a fully reflective surface still terminates there.
pub proof fn lemma_trace_at_depth_limit(s: Scene, o: V3, d: V3, depth: int, orc: Oracle)
    requires
        depth >= s.recursion_depth_limit as int,
        orc.len() >= 1,
    ensures
        sp_trace(s, o, d, depth, orc) == sp_hit_local(s, o, d, orc[0]),
{
}

/// A sample set made of light centres only: the witness used where no shadow
/// rays are cast.
pub open spec fn sp_centre_set(s: Scene) -> SampleSet {
    Seq::new(
        s.lights@.len(),
        |li: int|
            Seq::new(
                s.shapes@.len(),
                |sh: int| Seq::new(s.num_light_points as nat, |k: int| s.lights@[li].centre@),
            ),
    )
}

/// The centre-only sample set is valid for a well-formed scene.
proof fn lemma_centre_set_wf(s: Scene)
    requires
        scene_wf(s),
    ensures
        sp_samples_wf(s, sp_centre_set(s)),
{
    let smp = sp_centre_set(s);
    assert forall|li: int| 0 <= li < smp.len() implies sp_samples_li_wf(
        s,
        li,
        #[trigger] smp[li],
    ) by {
        let m = smp[li];
        let c = s.lights@[li].centre@;
        assert(sp_magsq(sp_vsub(c, c)) == 0);
        assert(s.lights@[li].radius as int * s.lights@[li].radius as int >= 0)
            by (nonlinear_arith);
        assert forall|sh: int| 0 <= sh < m.len() implies sp_samples_sh_wf(
            s,
            li,
            #[trigger] m[sh],
        ) by {
            assert(m[sh] == Seq::new(s.num_light_points as nat, |k: int| s.lights@[li].centre@));
        }
    }
}

/// An oracle made of centre-only sample sets: the witness used on a miss.
pub open spec fn sp_centre_oracle(s: Scene, depth: int) -> Oracle {
    Seq::new(sp_levels(s, depth) as nat, |i: int| sp_centre_set(s))
}

/// The centre-only oracle is valid for a well-formed scene.
proof fn lemma_centre_oracle_wf(s: Scene, depth: int)
    requires
        scene_wf(s),
    ensures
        sp_oracle_wf(s, sp_centre_oracle(s, depth), depth),
{
    lemma_centre_set_wf(s);
}

/// The within-pixel sampling weight of subcell `i` of `n` at pixel
/// coordinate `coord` over `extent` pixels: the fixed-point fraction
/// `(coord + (2 i + 1) / (2 n)) / extent`, the subcell's centre mapped to
/// the viewport.
pub open spec fn sp_alpha(coord: int, i: int, n: int, extent: int) -> int {
    tdiv((2 * n * coord + 2 * i + 1) * SCALE as int, 2 * n * extent)
}

/// The world-space image-plane point of subcell `(i, j)` of pixel `(x, y)`:
/// bilinear interpolation of the four viewport corners.
pub open spec fn sp_sample_point(s: Scene, w: int, h: int, x: int, y: int, i: int, j: int) -> V3 {
    let alpha = sp_alpha(x, i, s.antialiasing as int, w);
    let beta = sp_alpha(y, j, s.antialiasing as int, h);
    let top = sp_lerp(s.top_left@, s.top_right@, alpha);
    let bottom = sp_lerp(s.bottom_left@, s.bottom_right@, alpha);
    sp_lerp(top, bottom, beta)
}

/// Sum of the traced colours of the first `os.len()` subpixel samples, in
/// row-major subcell order.
pub open spec fn sp_pixel_sum(s: Scene, w: int, h: int, x: int, y: int, os: Seq<Oracle>) -> C3
    decreases os.len(),
{
    if os.len() == 0 {
        C3 { r: 0, g: 0, b: 0 }
    } else {
        let n = s.antialiasing as int;
        let m = os.len() - 1;
        let point = sp_sample_point(s, w, h, x, y, m / n, m % n);
        let d = sp_vsub(point, s.camera@);
        sp_cadd(
            sp_pixel_sum(s, w, h, x, y, os.drop_last()),
            sp_trace(s, point, d, 0, os.last()),
        )
    }
}

/// The 8-bit pixel colour: the subpixel average, clamped into one unit and
/// scaled to the `[0, 255]` channel range.
pub open spec fn sp_pixel_bytes(s: Scene, w: int, h: int, x: int, y: int, os: Seq<Oracle>) -> C3 {
    let n = s.antialiasing as int;
    let avg = sp_cdivi(sp_pixel_sum(s, w, h, x, y, os), n * n);
    let cl = sp_clamp(avg);
    C3 {
        r: tdiv(cl.r * 255, SCALE as int),
        g: tdiv(cl.g * 255, SCALE as int),
        b: tdiv(cl.b * 255, SCALE as int),
    }
}

/// Channel bound on any traced sample of a well-formed scene.
const TRACE_MAX: i128 = 0x40000000000000000000000;

/// Orchestrates per-pixel colour computation for one scene.
pub struct Tracer<'a> {
    pub scene: &'a Scene,
    pub width: u32,
    pub height: u32,
}

impl<'a> Tracer<'a> {
    /// Constructs a new tracer with the given scene, width and height.
    pub fn new(scene: &'a Scene, width: u32, height: u32) -> (t: Self)
        ensures
            t.scene == scene,
            t.width == width,
            t.height == height,
    {
        Self { scene, width, height }
    }

    /// Traces a ray: black on a miss, else the local shading plus (below the
    /// recursion depth limit) the reflected colour scaled by the material's
    /// reflectiveness.  The result equals the trace model under some valid
    /// oracle of shadow samples.
    pub fn recurse_colour(&self, ray: &Ray, recurses: usize) -> (c: Colour)
        requires
            scene_wf(*self.scene),
            ray_wf(*ray),
        ensures
            exists|orc: Oracle|
                sp_oracle_wf(*self.scene, orc, recurses as int) && c@ == sp_trace(
                    *self.scene,
                    ray.origin@,
                    ray.direction@,
                    recurses as int,
                    orc,
                ),
            c3_bounded(c@, sp_levels(*self.scene, recurses as int) * LIGHT_MAX as int),
        decreases sp_levels(*self.scene, recurses as int),
    {
        let s = self.scene;
        proof {
            assert(sp_levels(*s, recurses as int) * LIGHT_MAX as int >= 1 * LIGHT_MAX as int)
                by (nonlinear_arith)
                requires
                    sp_levels(*s, recurses as int) >= 1,
                    LIGHT_MAX as int > 0,
            ;
        }
        match s.shape_intersect(*ray) {
            None => {
                proof {
                    lemma_centre_oracle_wf(*s, recurses as int);
                }
                Colour::new(0, 0, 0)
            },
            Some(hit) => {
                let t = hit.0;
                let idx = hit.1;
                let d = &ray.direction;
                proof {
                    lemma_abs_mul(d.x as int, t as int, DIR_MAX as int, T_ABS_MAX as int);
                    lemma_abs_mul(d.y as int, t as int, DIR_MAX as int, T_ABS_MAX as int);
                    lemma_abs_mul(d.z as int, t as int, DIR_MAX as int, T_ABS_MAX as int);
                    lemma_tdiv_abs(d.x as int * t as int, SCALE as int);
                    lemma_tdiv_abs(d.y as int * t as int, SCALE as int);
                    lemma_tdiv_abs(d.z as int * t as int, SCALE as int);
                }
                let px: i128 = ray.origin.x + tdiv_i128(d.x * t, SCALE);
                let py: i128 = ray.origin.y + tdiv_i128(d.y * t, SCALE);
                let pz: i128 = ray.origin.z + tdiv_i128(d.z * t, SCALE);
                let point = Vector { x: px, y: py, z: pz };
                proof {
                    assert(point@ == sp_hit_point(ray.origin@, ray.direction@, t as int));
                }
                if px < -POINT_MAX || px > POINT_MAX || py < -POINT_MAX || py > POINT_MAX || pz
                    < -POINT_MAX || pz > POINT_MAX {
                    proof {
                        lemma_centre_oracle_wf(*s, recurses as int);
                        assert(!v3_bounded(point@, POINT_MAX as int));
                    }
                    Colour::new(0, 0, 0)
                } else {
                    let shape = &s.shapes[idx];
                    proof {
                        assert(shape_wf(s.shapes@[idx as int]));
                        lemma_vmul_bounded(
                            d@,
                            -(SCALE as int),
                            DIR_MAX as int,
                            SCALE as int,
                            DIR_MAX as int,
                        );
                    }
                    let view = ray.direction.mul(-SCALE).normalise();
                    let normal = shape.normal(&point);
                    let local = shape.lighting(s, point, view, normal);
                    let ghost smp = choose|smp: SampleSet|
                        sp_samples_wf(*s, smp) && local@ == sp_lighting(
                            *s,
                            s.shapes@[idx as int],
                            point@,
                            view@,
                            normal@,
                            smp,
                        );
                    if recurses < s.recursion_depth_limit {
                        let cosv = normal.dot(&view);
                        proof {
                            lemma_dot_bounded(
                                normal@,
                                view@,
                                SCALE as int,
                                SCALE as int,
                                3 * SCALE as int,
                            );
                            lemma_vmul_bounded(
                                normal@,
                                cosv as int,
                                SCALE as int,
                                3 * SCALE as int,
                                3 * SCALE as int,
                            );
                            lemma_vmul_bounded(
                                sp_vmul(normal@, cosv as int),
                                2 * SCALE as int,
                                3 * SCALE as int,
                                2 * SCALE as int,
                                6 * SCALE as int,
                            );
                        }
                        let refl = normal.mul(cosv).mul(2 * SCALE).sub(&view);
                        let rray = Ray::new(point, refl);
                        let reflected = self.recurse_colour(&rray, recurses + 1);
                        let ghost orc1 = choose|orc1: Oracle|
                            #[trigger] sp_oracle_wf(*s, orc1, recurses + 1int) && reflected@
                                == sp_trace(
                                *s,
                                rray.origin@,
                                rray.direction@,
                                recurses + 1int,
                                orc1,
                            );
                        let refl_frac = shape.material().reflectiveness;
                        proof {
                            assert(sp_levels(*s, recurses + 1int) * LIGHT_MAX as int <= 0x200000
                                * LIGHT_MAX as int) by (nonlinear_arith)
                                requires
                                    0 <= sp_levels(*s, recurses + 1int) <= 0x200000,
                                    LIGHT_MAX as int > 0,
                            ;
                            lemma_cscale_bounded(
                                reflected@,
                                refl_frac as int,
                                sp_levels(*s, recurses + 1int) * LIGHT_MAX as int,
                                SCALE as int,
                                sp_levels(*s, recurses + 1int) * LIGHT_MAX as int,
                            );
                            assert((sp_levels(*s, recurses + 1int) + 1) * LIGHT_MAX as int
                                == sp_levels(*s, recurses + 1int) * LIGHT_MAX as int
                                + LIGHT_MAX as int) by (nonlinear_arith);
                        }
                        let c = local.add(&reflected.scale(refl_frac));
                        proof {
                            let orc = seq![smp] + orc1;
                            assert(orc.skip(1) =~= orc1);
                            assert(sp_oracle_wf(*s, orc, recurses as int) && c@ == sp_trace(
                                *s,
                                ray.origin@,
                                ray.direction@,
                                recurses as int,
                                orc,
                            ));
                        }
                        c
                    } else {
                        proof {
                            let orc = seq![smp];
                            assert(sp_oracle_wf(*s, orc, recurses as int) && local@ == sp_trace(
                                *s,
                                ray.origin@,
                                ray.direction@,
                                recurses as int,
                                orc,
                            ));
                        }
                        local
                    }
                }
            },
        }
    }

    /// Computes the within-pixel sampling weight of subcell `i` along one
    /// axis: the subcell centre's fraction of the axis extent, in `[0, SCALE]`.
    fn sample_weight(coord: u32, i: usize, n: usize, extent: u32) -> (r: i128)
        requires
            1 <= n <= 0x100,
            i < n,
            1 <= extent <= 0x10000,
            coord < extent,
        ensures
            r == sp_alpha(coord as int, i as int, n as int, extent as int),
            0 <= r <= SCALE,
    {
        let nl: i128 = n as i128;
        let cl: i128 = coord as i128;
        let il: i128 = i as i128;
        let el: i128 = extent as i128;
        proof {
            assert(0 <= 2 * nl * cl <= 0x200000000) by (nonlinear_arith)
                requires
                    1 <= nl <= 0x100,
                    0 <= cl < 0x10000,
            ;
            assert(0 < 2 * nl * el <= 0x200000000) by (nonlinear_arith)
                requires
                    1 <= nl <= 0x100,
                    1 <= el <= 0x10000,
            ;
            assert(2 * nl * cl + 2 * il + 1 <= 2 * nl * el) by (nonlinear_arith)
                requires
                    cl <= el - 1,
                    il <= nl - 1,
                    1 <= nl,
            ;
        }
        let num: i128 = (2 * nl * cl + 2 * il + 1) * SCALE;
        let den: i128 = 2 * nl * el;
        proof {
            assert(num <= SCALE as int * den) by (nonlinear_arith)
                requires
                    0 <= 2 * nl * cl + 2 * il + 1 <= den,
                    num == (2 * nl * cl + 2 * il + 1) * SCALE as int,
                    SCALE as int > 0,
            ;
            assert(abs_int(num as int) <= SCALE as int * den);
            lemma_tdiv_mul_bound(num as int, SCALE as int, den as int);
            lemma_tdiv_sign(num as int, den as int);
        }
        tdiv_i128(num, den)
    }

    /// Finds the colour at a pixel: the pixel is divided into an
    /// antialiasing grid of subcells, a ray is traced through each subcell
    /// centre away from the camera, and the traced colours are averaged,
    /// clamped, and scaled to 8-bit channels.
    pub fn colour_at_pixel(&self, x: u32, y: u32) -> (px: [u8; 3])
        requires
            scene_wf(*self.scene),
            1 <= self.width <= 0x10000,
            1 <= self.height <= 0x10000,
            x < self.width,
            y < self.height,
        ensures
            exists|os: Seq<Oracle>|
                {
                    &&& os.len() == self.scene.antialiasing as int * self.scene.antialiasing as int
                    &&& (forall|m: int| 0 <= m < os.len() ==> sp_oracle_wf(*self.scene, #[trigger] os[m], 0))
                    &&& {
                        let bytes = sp_pixel_bytes(
                            *self.scene,
                            self.width as int,
                            self.height as int,
                            x as int,
                            y as int,
                            os,
                        );
                        px[0] == bytes.r && px[1] == bytes.g && px[2] == bytes.b
                    }
                },
    {
        let s = self.scene;
        let n = s.antialiasing;
        proof {
            assert(1 <= n as int * n as int <= 0x10000) by (nonlinear_arith)
                requires
                    1 <= n as int <= 0x100,
            ;
        }
        let nn: usize = n * n;
        let mut sum = Colour::new(0, 0, 0);
        let ghost mut os: Seq<Oracle> = Seq::empty();
        let mut m: usize = 0;
        while m < nn
            invariant
                scene_wf(*self.scene),
                1 <= self.width <= 0x10000,
                1 <= self.height <= 0x10000,
                x < self.width,
                y < self.height,
                s == self.scene,
                n == s.antialiasing,
                nn as int == n as int * n as int,
                1 <= nn <= 0x10000,
                m <= nn,
                os.len() == m as int,
                forall|q: int| 0 <= q < os.len() ==> sp_oracle_wf(*s, #[trigger] os[q], 0),
                sum@ == sp_pixel_sum(
                    *s,
                    self.width as int,
                    self.height as int,
                    x as int,
                    y as int,
                    os,
                ),
                c3_bounded(sum@, m as int * TRACE_MAX as int),
            decreases nn - m,
        {
            let i = m / n;
            let j = m % n;
            proof {
                vstd::arithmetic::div_mod::lemma_fundamental_div_mod(m as int, n as int);
                vstd::arithmetic::div_mod::lemma_mod_bound(m as int, n as int);
                assert(((m as int) / (n as int)) < n as int) by (nonlinear_arith)
                    requires
                        0 <= m as int,
                        1 <= n as int,
                        (m as int) < (n as int) * (n as int),
                        (n as int) * ((m as int) / (n as int)) + (m as int) % (n as int) == m as int,
                        0 <= (m as int) % (n as int) < n as int,
                ;
            }
            let alpha = Self::sample_weight(x, i, n, self.width);
            let beta = Self::sample_weight(y, j, n, self.height);
            proof {
                lemma_lerp_unit_bounded(s.top_left@, s.top_right@, alpha as int, COORD_MAX as int);
                lemma_lerp_unit_bounded(
                    s.bottom_left@,
                    s.bottom_right@,
                    alpha as int,
                    COORD_MAX as int,
                );
            }
            let top = s.top_left.lerp(&s.top_right, alpha);
            let bottom = s.bottom_left.lerp(&s.bottom_right, alpha);
            proof {
                lemma_lerp_unit_bounded(top@, bottom@, beta as int, COORD_MAX as int);
            }
            let point = top.lerp(&bottom, beta);
            let ray = Ray::towards_camera(point, s.camera);
            let sample = self.recurse_colour(&ray, 0);
            proof {
                assert(sp_levels(*s, 0) * LIGHT_MAX as int <= 0x200000 * LIGHT_MAX as int)
                    by (nonlinear_arith)
                    requires
                        0 <= sp_levels(*s, 0) <= 0x200000,
                        LIGHT_MAX as int > 0,
                ;
                assert(m as int * TRACE_MAX as int <= 0x10000 * TRACE_MAX as int)
                    by (nonlinear_arith)
                    requires
                        0 <= m as int <= 0x10000,
                ;
            }
            sum = sum.add(&sample);
            proof {
                let orc = choose|orc: Oracle|
                    #[trigger] sp_oracle_wf(*s, orc, 0) && sample@ == sp_trace(
                        *s,
                        ray.origin@,
                        ray.direction@,
                        0,
                        orc,
                    );
                let os0 = os;
                os = os.push(orc);
                assert(os.drop_last() =~= os0);
                assert(sum@ == sp_pixel_sum(
                    *s,
                    self.width as int,
                    self.height as int,
                    x as int,
                    y as int,
                    os,
                ));
            }
            m = m + 1;
        }
        proof {
            assert(m as int * TRACE_MAX as int <= 0x10000 * TRACE_MAX as int) by (nonlinear_arith)
                requires
                    0 <= m as int <= 0x10000,
            ;
        }
        let avg = sum.div(nn as i128);
        let clamped = avg.clamp();
        let inner = clamped.to_inner();
        proof {
            lemma_abs_mul(inner[0] as int, 255, SCALE as int, 255);
            lemma_abs_mul(inner[1] as int, 255, SCALE as int, 255);
            lemma_abs_mul(inner[2] as int, 255, SCALE as int, 255);
            lemma_tdiv_mul_bound(inner[0] as int * 255, 255, SCALE as int);
            lemma_tdiv_mul_bound(inner[1] as int * 255, 255, SCALE as int);
            lemma_tdiv_mul_bound(inner[2] as int * 255, 255, SCALE as int);
            lemma_tdiv_sign(inner[0] as int * 255, SCALE as int);
            lemma_tdiv_sign(inner[1] as int * 255, SCALE as int);
            lemma_tdiv_sign(inner[2] as int * 255, SCALE as int);
        }
        let r8 = tdiv_i128(inner[0] * 255, SCALE);
        let g8 = tdiv_i128(inner[1] * 255, SCALE);
        let b8 = tdiv_i128(inner[2] * 255, SCALE);
        proof {
            assert({
                let bytes = sp_pixel_bytes(
                    *self.scene,
                    self.width as int,
                    self.height as int,
                    x as int,
                    y as int,
                    os,
                );
                r8 as int == bytes.r && g8 as int == bytes.g && b8 as int == bytes.b
            });
        }
        [r8 as u8, g8 as u8, b8 as u8]
    }
}

} // verus!
