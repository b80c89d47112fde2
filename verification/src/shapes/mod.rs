//! Geometric primitives: the closed set of shapes a scene may hold.
//!
//! `Shape` is a sum type over spheres and planes, exposing ray intersection,
//! the surface normal at a point, the surface material, and the local
//! illumination computation.

pub mod plane;
pub mod sphere;

use vstd::prelude::*;

use self::plane::{plane_wf, sp_plane_eq, sp_plane_intersect, sp_plane_normal, Plane};
use self::sphere::{sp_sphere_intersect, sphere_wf, Sphere, T_ABS_MAX};
use crate::colour::{
    c3_bounded, lemma_cmul_bounded, lemma_cscale_bounded, sp_cadd, sp_clamp1, sp_cmul, sp_cscale,
    Colour, C3,
};
use crate::fx::{abs_int, pow_fix, sp_powfix, tdiv, tdiv_i128, SCALE};
use crate::light::{light_wf, sp_in_light, Light};
use crate::limits::{CHAN_MAX, POINT_MAX};
use crate::material::Material;
use crate::ray::{ray_wf, Ray};
use crate::scene::{scene_wf, Scene};
use crate::vector::{
    lemma_dot_bounded, lemma_vmul_bounded, sp_dot, sp_magsq, sp_normalise, sp_vmul, sp_vsub,
    v3_bounded, Vector, V3,
};

verus! {

/// A renderable primitive with a material.
#[derive(Clone, Copy, Debug)]
pub enum Shape {
    Sphere(Sphere),
    Plane(Plane),
}

/// Structural equality of shapes, as the executable `==` computes it.  The
/// shading loop excludes the shaded shape from its own shadow test by this
/// equality, not by identity, so two distinct scene entries with identical
/// data also exclude each other; that behaviour is deliberate and kept.
pub open spec fn sp_shape_eq(a: Shape, b: Shape) -> bool {
    match (a, b) {
        (Shape::Sphere(x), Shape::Sphere(y)) => x == y,
        (Shape::Plane(x), Shape::Plane(y)) => sp_plane_eq(x, y),
        _ => false,
    }
}

impl PartialEq for Shape {
    /// Shapes are equal when they are the same variant with equal data.
    fn eq(&self, other: &Self) -> (r: bool) {
        match (self, other) {
            (Shape::Sphere(x), Shape::Sphere(y)) => x == y,
            (Shape::Plane(x), Shape::Plane(y)) => x == y,
            _ => false,
        }
    }
}

impl vstd::std_specs::cmp::PartialEqSpecImpl for Shape {
    open spec fn obeys_eq_spec() -> bool {
        true
    }

    open spec fn eq_spec(&self, other: &Shape) -> bool {
        sp_shape_eq(*self, *other)
    }
}

/// A shape a well-formed scene may hold.
pub open spec fn shape_wf(s: Shape) -> bool {
    match s {
        Shape::Sphere(sphere) => sphere_wf(sphere),
        Shape::Plane(plane) => plane_wf(plane),
    }
}

/// The material of a shape.
pub open spec fn sp_shape_material(s: Shape) -> Material {
    match s {
        Shape::Sphere(sphere) => sphere.material,
        Shape::Plane(plane) => plane.material,
    }
}

/// The parametric distance of the nearest forward intersection of a ray
/// with a shape, if any.
pub open spec fn sp_shape_intersect(s: Shape, o: V3, d: V3) -> Option<int> {
    match s {
        Shape::Sphere(sphere) => sp_sphere_intersect(sphere.centre@, sphere.radius as int, o, d),
        Shape::Plane(plane) => sp_plane_intersect(plane, o, d),
    }
}

/// The unit surface normal of a shape at a point: for a sphere, the
/// normalised vector from the centre to the point; for a plane, its derived
/// normal (point-independent), normalised.
pub open spec fn sp_shape_normal(s: Shape, point: V3) -> V3 {
    match s {
        Shape::Sphere(sphere) => sp_normalise(sp_vsub(point, sphere.centre@)),
        Shape::Plane(plane) => sp_normalise(sp_plane_normal(plane, 0, 1, 1, 2)),
    }
}

/// Whether a shadow ray from `point` toward `sample` is blocked by `shape`:
/// the shape intersects it strictly after the origin and strictly before one
/// unit, the parametric distance of the sample point itself.
pub open spec fn sp_shadow_blocked(shape: Shape, point: V3, sample: V3) -> bool {
    match sp_shape_intersect(shape, point, sp_vsub(sample, point)) {
        Option::Some(t) => 0 < t < SCALE as int,
        Option::None => false,
    }
}

/// Number of blocked shadow rays among the samples toward one shape.
pub open spec fn sp_blocked_one(shape: Shape, point: V3, sm: Seq<V3>) -> int
    decreases sm.len(),
{
    if sm.len() == 0 {
        0
    } else {
        sp_blocked_one(shape, point, sm.drop_last()) + if sp_shadow_blocked(
            shape,
            point,
            sm.last(),
        ) {
            1int
        } else {
            0int
        }
    }
}

/// Total blocked count over a scene's shapes, the shaded shape excluded by
/// structural equality, with one sample sequence per shape.
pub open spec fn sp_blocked_total(shapes: Seq<Shape>, slf: Shape, point: V3, m: Seq<Seq<V3>>) -> int
    decreases shapes.len(),
{
    if shapes.len() == 0 || m.len() == 0 {
        0
    } else {
        sp_blocked_total(shapes.drop_last(), slf, point, m.drop_last()) + if sp_shape_eq(
            shapes.last(),
            slf,
        ) {
            0int
        } else {
            sp_blocked_one(shapes.last(), point, m.last())
        }
    }
}

/// The soft-shadow scale factor: one unit minus the blocked fraction, and
/// one unit exactly when shadow sampling is disabled.  Multiple occluders
/// can push it below zero; that approximation is kept.
pub open spec fn sp_scale_factor(blocked: int, nlp: int) -> int {
    if nlp == 0 {
        SCALE as int
    } else {
        SCALE as int - tdiv(blocked * SCALE as int, nlp)
    }
}

/// Sample sequence for one (light, shape) pair: one point per shadow ray,
/// each inside the light's volume.
pub open spec fn sp_samples_sh_wf(s: Scene, li: int, sm: Seq<V3>) -> bool
    recommends
        0 <= li < s.lights@.len(),
{
    &&& sm.len() == s.num_light_points as int
    &&& forall|k: int|
        0 <= k < sm.len() ==> sp_in_light(
            s.lights@[li].centre@,
            s.lights@[li].radius as int,
            #[trigger] sm[k],
        )
}

/// Sample sets for one light: one sequence per scene shape.
pub open spec fn sp_samples_li_wf(s: Scene, li: int, m: Seq<Seq<V3>>) -> bool
    recommends
        0 <= li < s.lights@.len(),
{
    &&& m.len() == s.shapes@.len()
    &&& forall|sh: int| 0 <= sh < m.len() ==> sp_samples_sh_wf(s, li, #[trigger] m[sh])
}

/// Sample sets for the whole scene: one per light.
pub open spec fn sp_samples_wf(s: Scene, smp: Seq<Seq<Seq<V3>>>) -> bool {
    &&& smp.len() == s.lights@.len()
    &&& forall|li: int| 0 <= li < smp.len() ==> sp_samples_li_wf(s, li, #[trigger] smp[li])
}

/// Contribution of one light to the local illumination of a point.
pub open spec fn sp_light_contrib(
    s: Scene,
    slf: Shape,
    point: V3,
    view: V3,
    normal: V3,
    li: int,
    m: Seq<Seq<V3>>,
) -> C3
    recommends
        0 <= li < s.lights@.len(),
{
    let light = s.lights@[li];
    let lv = sp_normalise(sp_vsub(light.centre@, point));
    let cos = sp_dot(normal, lv);
    if cos <= 0 {
        C3 { r: 0, g: 0, b: 0 }
    } else {
        let mat = sp_shape_material(slf);
        let blocked = sp_blocked_total(s.shapes@, slf, point, m);
        let sf = sp_scale_factor(blocked, s.num_light_points as int);
        let diffuse = sp_cscale(sp_cmul(mat.diffuse_constant@, light.diffuse_intensity@), cos);
        let reflectance = sp_normalise(sp_vsub(sp_vmul(normal, 2 * cos), lv));
        let spec_pow = sp_powfix(sp_clamp1(sp_dot(reflectance, view)), mat.shininess as nat);
        let specular = sp_cscale(
            sp_cmul(mat.specular_constant@, light.specular_intensity@),
            spec_pow,
        );
        sp_cscale(sp_cadd(diffuse, specular), sf)
    }
}

/// Sum of the contributions of the first `smp.len()` lights.
pub open spec fn sp_light_sum(
    s: Scene,
    slf: Shape,
    point: V3,
    view: V3,
    normal: V3,
    smp: Seq<Seq<Seq<V3>>>,
) -> C3
    decreases smp.len(),
{
    if smp.len() == 0 {
        C3 { r: 0, g: 0, b: 0 }
    } else {
        sp_cadd(
            sp_light_sum(s, slf, point, view, normal, smp.drop_last()),
            sp_light_contrib(s, slf, point, view, normal, smp.len() - 1, smp.last()),
        )
    }
}

/// Local illumination of a point: the ambient term plus every light's
/// diffuse and specular contribution, scaled by its soft-shadow factor.
pub open spec fn sp_lighting(
    s: Scene,
    slf: Shape,
    point: V3,
    view: V3,
    normal: V3,
    smp: Seq<Seq<Seq<V3>>>,
) -> C3 {
    sp_cadd(
        sp_cmul(sp_shape_material(slf).ambient_constant@, s.ambient_light@),
        sp_light_sum(s, slf, point, view, normal, smp),
    )
}

/// Channel bound on the colour `lighting` returns for a well-formed scene.
pub const LIGHT_MAX: i128 = 0x200000000000000000;

/// Channel bound on the contribution of a single light.
const PER_LIGHT_MAX: i128 = 0x10000000000000;

/// Counts the blocked shadow rays from `point` toward `nlp` fresh random
/// samples of `light`, testing occlusion by `other`.
fn blocked_one(other: &Shape, point: &Vector, light: &Light, nlp: usize) -> (cnt: u64)
    requires
        shape_wf(*other),
        light_wf(*light),
        v3_bounded(point@, POINT_MAX as int),
        nlp <= 0x10000,
    ensures
        cnt <= nlp,
        exists|sm: Seq<V3>|
            {
                &&& sm.len() == nlp as int
                &&& (forall|k: int|
                    0 <= k < sm.len() ==> sp_in_light(
                        light.centre@,
                        light.radius as int,
                        #[trigger] sm[k],
                    ))
                &&& cnt == sp_blocked_one(*other, point@, sm)
            },
{
    let mut cnt: u64 = 0;
    let ghost mut sm: Seq<V3> = Seq::empty();
    let mut k: usize = 0;
    while k < nlp
        invariant
            shape_wf(*other),
            light_wf(*light),
            v3_bounded(point@, POINT_MAX as int),
            nlp <= 0x10000,
            k <= nlp,
            cnt <= k,
            sm.len() == k as int,
            forall|j: int|
                0 <= j < sm.len() ==> sp_in_light(
                    light.centre@,
                    light.radius as int,
                    #[trigger] sm[j],
                ),
            cnt == sp_blocked_one(*other, point@, sm),
        decreases nlp - k,
    {
        let sample = light.random_in_light();
        let sray = Ray::new(*point, sample.sub(point));
        let hit = other.ray_intersect(&sray);
        let blocked = match hit {
            Some(t) => 0 < t && t < SCALE,
            None => false,
        };
        proof {
            assert(blocked == sp_shadow_blocked(*other, point@, sample@));
        }
        if blocked {
            cnt = cnt + 1;
        }
        proof {
            let sm0 = sm;
            sm = sm.push(sample@);
            assert(sm.drop_last() =~= sm0);
            assert(sm.last() == sample@);
        }
        k = k + 1;
    }
    cnt
}

/// Counts the blocked shadow rays from `point` toward light `li` over every
/// scene shape other than `slf` (excluded by structural equality).
fn blocked_total(scene: &Scene, slf: &Shape, point: &Vector, li: usize) -> (cnt: u64)
    requires
        scene_wf(*scene),
        li < scene.lights@.len(),
        v3_bounded(point@, POINT_MAX as int),
    ensures
        cnt <= scene.shapes@.len() * scene.num_light_points,
        exists|m: Seq<Seq<V3>>|
            {
                &&& sp_samples_li_wf(*scene, li as int, m)
                &&& cnt == sp_blocked_total(scene.shapes@, *slf, point@, m)
            },
{
    let light = &scene.lights[li];
    let nlp = scene.num_light_points;
    let mut cnt: u64 = 0;
    let ghost mut m: Seq<Seq<V3>> = Seq::empty();
    let mut sh: usize = 0;
    while sh < scene.shapes.len()
        invariant
            scene_wf(*scene),
            li < scene.lights@.len(),
            v3_bounded(point@, POINT_MAX as int),
            light == &scene.lights@[li as int],
            nlp == scene.num_light_points,
            sh <= scene.shapes@.len(),
            m.len() == sh as int,
            forall|j: int| 0 <= j < m.len() ==> sp_samples_sh_wf(*scene, li as int, #[trigger] m[j]),
            cnt as int == sp_blocked_total(scene.shapes@.take(sh as int), *slf, point@, m),
            cnt as int <= sh as int * nlp as int,
        decreases scene.shapes@.len() - sh,
    {
        let other = &scene.shapes[sh];
        proof {
            assert(scene.shapes@.take(sh + 1int).drop_last() =~= scene.shapes@.take(sh as int));
            assert(scene.shapes@.take(sh + 1int).last() == scene.shapes@[sh as int]);
            assert(sh as int * nlp as int <= 0x10000 * 0x10000) by (nonlinear_arith)
                requires
                    0 <= sh as int <= 0x10000,
                    0 <= nlp as int <= 0x10000,
            ;
            assert((sh as int + 1) * nlp as int == sh as int * nlp as int + nlp as int)
                by (nonlinear_arith);
        }
        if *other == *slf {
            proof {
                let filler = Seq::new(nlp as nat, |k: int| light.centre@);
                let c = light.centre@;
                assert(sp_magsq(sp_vsub(c, c)) == 0);
                assert(light.radius as int * light.radius as int >= 0) by (nonlinear_arith);
                assert(forall|k: int|
                    0 <= k < filler.len() ==> sp_in_light(
                        light.centre@,
                        light.radius as int,
                        #[trigger] filler[k],
                    ));
                let m0 = m;
                m = m.push(filler);
                assert(m.drop_last() =~= m0);
            }
        } else {
            let c1 = blocked_one(other, point, light, nlp);
            proof {
                let sm = choose|sm: Seq<V3>|
                    {
                        &&& sm.len() == nlp as int
                        &&& (forall|k: int|
                            0 <= k < sm.len() ==> sp_in_light(
                                light.centre@,
                                light.radius as int,
                                #[trigger] sm[k],
                            ))
                        &&& c1 == sp_blocked_one(*other, point@, sm)
                    };
                let m0 = m;
                m = m.push(sm);
                assert(m.drop_last() =~= m0);
            }
            cnt = cnt + c1;
        }
        sh = sh + 1;
    }
    proof {
        assert(scene.shapes@.take(scene.shapes@.len() as int) =~= scene.shapes@);
        assert(sp_samples_li_wf(*scene, li as int, m) && cnt as int == sp_blocked_total(
            scene.shapes@,
            *slf,
            point@,
            m,
        ));
    }
    cnt
}

impl Shape {
    /// The material of the shape.
    pub fn material(&self) -> (m: &Material)
        ensures
            *m == sp_shape_material(*self),
    {
        match self {
            Shape::Sphere(sphere) => &sphere.material,
            Shape::Plane(plane) => &plane.material,
        }
    }

    /// Returns the minimum non-negative parametric distance (if any) of the
    /// ray-shape intersection.
    pub fn ray_intersect(&self, ray: &Ray) -> (res: Option<i128>)
        requires
            shape_wf(*self),
            ray_wf(*ray),
        ensures
            res is Some <==> sp_shape_intersect(*self, ray.origin@, ray.direction@) is Some,
            res matches Some(t) ==> sp_shape_intersect(*self, ray.origin@, ray.direction@)
                == Option::Some(t as int) && abs_int(t as int) <= T_ABS_MAX as int,
    {
        match self {
            Shape::Sphere(sphere) => sphere.ray_intersect(ray),
            Shape::Plane(plane) => plane.ray_intersect(ray),
        }
    }

    /// Calculates the colour of the shape at a hit point: the ambient term
    /// plus, for each light facing the surface, diffuse and specular terms
    /// scaled by a stochastically sampled soft-shadow factor.  The result
    /// equals the illumination model evaluated at some valid set of shadow
    /// samples (one per light, shape and shadow ray, each inside its light).
    #[verifier::rlimit(50)]
    pub fn lighting(&self, scene: &Scene, point: Vector, view: Vector, normal: Vector) -> (c:
        Colour)
        requires
            scene_wf(*scene),
            shape_wf(*self),
            v3_bounded(point@, POINT_MAX as int),
            v3_bounded(view@, SCALE as int),
            v3_bounded(normal@, SCALE as int),
        ensures
            exists|smp: Seq<Seq<Seq<V3>>>|
                sp_samples_wf(*scene, smp) && c@ == sp_lighting(
                    *scene,
                    *self,
                    point@,
                    view@,
                    normal@,
                    smp,
                ),
            c3_bounded(c@, LIGHT_MAX as int),
    {
        let mat = *self.material();
        proof {
            lemma_cmul_bounded(
                mat.ambient_constant@,
                scene.ambient_light@,
                CHAN_MAX as int,
                CHAN_MAX as int,
                0x100000000,
            );
        }
        let mut colour = mat.ambient_constant.mul(&scene.ambient_light);
        let ghost amb = sp_cmul(mat.ambient_constant@, scene.ambient_light@);
        let ghost mut smp: Seq<Seq<Seq<V3>>> = Seq::empty();
        let mut li: usize = 0;
        while li < scene.lights.len()
            invariant
                scene_wf(*scene),
                shape_wf(*self),
                v3_bounded(point@, POINT_MAX as int),
                v3_bounded(view@, SCALE as int),
                v3_bounded(normal@, SCALE as int),
                mat == sp_shape_material(*self),
                amb == sp_cmul(mat.ambient_constant@, scene.ambient_light@),
                li <= scene.lights@.len(),
                smp.len() == li as int,
                forall|j: int|
                    0 <= j < smp.len() ==> sp_samples_li_wf(*scene, j, #[trigger] smp[j]),
                colour@ == sp_cadd(amb, sp_light_sum(*scene, *self, point@, view@, normal@, smp)),
                c3_bounded(colour@, 0x100000000 + li as int * PER_LIGHT_MAX as int),
            decreases scene.lights@.len() - li,
        {
            let light = &scene.lights[li];
            let lv = light.centre.sub(&point).normalise();
            let cos = normal.dot(&lv);
            proof {
                lemma_dot_bounded(normal@, lv@, SCALE as int, SCALE as int, 3 * SCALE as int);
            }
            if cos <= 0 {
                proof {
                    let filler = Seq::new(
                        scene.shapes@.len(),
                        |s: int| Seq::new(scene.num_light_points as nat, |k: int| light.centre@),
                    );
                    let cv = light.centre@;
                    assert(sp_magsq(sp_vsub(cv, cv)) == 0);
                    assert(light.radius as int * light.radius as int >= 0) by (nonlinear_arith);
                    assert forall|s: int| 0 <= s < filler.len() implies sp_samples_sh_wf(
                        *scene,
                        li as int,
                        #[trigger] filler[s],
                    ) by {
                        assert(filler[s] == Seq::new(
                            scene.num_light_points as nat,
                            |k: int| light.centre@,
                        ));
                    }
                    let smp0 = smp;
                    smp = smp.push(filler);
                    assert(smp.drop_last() =~= smp0);
                    let light_term = sp_light_contrib(
                        *scene,
                        *self,
                        point@,
                        view@,
                        normal@,
                        li as int,
                        filler,
                    );
                    assert(light_term == (C3 { r: 0, g: 0, b: 0 }));
                    assert(sp_cadd(
                        sp_light_sum(*scene, *self, point@, view@, normal@, smp0),
                        light_term,
                    ) == sp_light_sum(*scene, *self, point@, view@, normal@, smp0));
                }
            } else {
                let blocked = blocked_total(scene, self, &point, li);
                let nlp = scene.num_light_points;
                proof {
                    assert(scene.shapes@.len() * nlp as int <= 0x100000000) by (nonlinear_arith)
                        requires
                            0 <= scene.shapes@.len() <= 0x10000,
                            0 <= nlp as int <= 0x10000,
                    ;
                    assert(blocked as int * SCALE as int <= 0x100000000 * nlp as int)
                        by (nonlinear_arith)
                        requires
                            0 <= blocked as int <= scene.shapes@.len() * nlp as int,
                            scene.shapes@.len() <= 0x10000,
                            SCALE as int == 0x10000,
                    ;
                    assert(blocked as int * SCALE as int >= 0) by (nonlinear_arith)
                        requires
                            blocked as int >= 0,
                    ;
                }
                let sf: i128 = if nlp == 0 {
                    SCALE
                } else {
                    proof {
                        crate::fx::lemma_tdiv_mul_bound(
                            blocked as int * SCALE as int,
                            0x100000000,
                            nlp as int,
                        );
                    }
                    SCALE - tdiv_i128(blocked as i128 * SCALE, nlp as i128)
                };
                proof {
                    lemma_cmul_bounded(
                        mat.diffuse_constant@,
                        light.diffuse_intensity@,
                        CHAN_MAX as int,
                        CHAN_MAX as int,
                        0x100000000,
                    );
                    lemma_cmul_bounded(
                        mat.specular_constant@,
                        light.specular_intensity@,
                        CHAN_MAX as int,
                        CHAN_MAX as int,
                        0x100000000,
                    );
                }
                let md = mat.diffuse_constant.mul(&light.diffuse_intensity);
                proof {
                    lemma_cscale_bounded(
                        md@,
                        cos as int,
                        0x100000000,
                        3 * SCALE as int,
                        0x400000000,
                    );
                }
                let diffuse = md.scale(cos);
                proof {
                    lemma_vmul_bounded(
                        normal@,
                        2 * cos as int,
                        SCALE as int,
                        6 * SCALE as int,
                        0x80000,
                    );
                }
                let reflectance = normal.mul(2 * cos).sub(&lv).normalise();
                let rdotv = reflectance.dot(&view);
                let base: i128 = if rdotv < 0 {
                    0
                } else if rdotv > SCALE {
                    SCALE
                } else {
                    rdotv
                };
                let p = pow_fix(base, mat.shininess);
                let ms = mat.specular_constant.mul(&light.specular_intensity);
                proof {
                    lemma_cscale_bounded(ms@, p as int, 0x100000000, SCALE as int, 0x100000000);
                }
                let specular = ms.scale(p);
                let ds = diffuse.add(&specular);
                proof {
                    lemma_cscale_bounded(
                        ds@,
                        sf as int,
                        0x800000000,
                        0x200000000,
                        PER_LIGHT_MAX as int,
                    );
                }
                let light_term = ds.scale(sf);
                colour = colour.add(&light_term);
                proof {
                    let m = choose|m: Seq<Seq<V3>>|
                        {
                            &&& sp_samples_li_wf(*scene, li as int, m)
                            &&& blocked as int == sp_blocked_total(scene.shapes@, *self, point@, m)
                        };
                    let smp0 = smp;
                    smp = smp.push(m);
                    assert(smp.drop_last() =~= smp0);
                    assert(sf as int == sp_scale_factor(
                        sp_blocked_total(scene.shapes@, *self, point@, m),
                        nlp as int,
                    ));
                    assert(light_term@ == sp_light_contrib(
                        *scene,
                        *self,
                        point@,
                        view@,
                        normal@,
                        li as int,
                        m,
                    ));
                }
            }
            li = li + 1;
        }
        proof {
            assert(sp_samples_wf(*scene, smp) && colour@ == sp_lighting(
                *scene,
                *self,
                point@,
                view@,
                normal@,
                smp,
            ));
            assert(li as int * PER_LIGHT_MAX as int <= 0x10000 * PER_LIGHT_MAX as int)
                by (nonlinear_arith)
                requires
                    0 <= li as int <= 0x10000,
            ;
        }
        colour
    }

    /// The unit surface normal at a point of the shape.
    pub fn normal(&self, point: &Vector) -> (n: Vector)
        requires
            shape_wf(*self),
            v3_bounded(point@, POINT_MAX as int),
        ensures
            n@ == sp_shape_normal(*self, point@),
            v3_bounded(n@, SCALE as int),
    {
        match self {
            Shape::Sphere(sphere) => point.sub(&sphere.centre).normalise(),
            Shape::Plane(plane) => plane.normal([(0, 1), (1, 2)]).normalise(),
        }
    }
}

} // verus!
