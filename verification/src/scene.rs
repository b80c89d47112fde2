//! The scene: shapes, lights, ambient light, viewport and camera geometry,
//! and the render parameters.
//!
//! A scene is built once and read-only afterwards; `scene_wf` is the
//! well-formedness every public kernel entry point requires, and it is
//! nothing more than the machine bounds of `limits` on every stored value.

use vstd::prelude::*;

use crate::colour::{c3_bounded, Colour};
use crate::fx::abs_int;
use crate::light::{light_wf, Light};
use crate::limits::{CHAN_MAX, COORD_MAX};
use crate::ray::{ray_wf, Ray};
use crate::shapes::sphere::T_ABS_MAX;
use crate::shapes::{shape_wf, sp_shape_intersect, Shape};
use crate::vector::{v3_bounded, Vector, V3};

verus! {

/// The aggregate the tracer renders.
#[derive(Debug)]
pub struct Scene {
    pub shapes: Vec<Shape>,
    pub lights: Vec<Light>,
    pub ambient_light: Colour,
    pub top_left: Vector,
    pub top_right: Vector,
    pub bottom_left: Vector,
    pub bottom_right: Vector,
    pub camera: Vector,
    pub num_light_points: usize,
    pub width: u32,
    pub height: u32,
    pub recursion_depth_limit: usize,
    pub antialiasing: usize,
}

/// A well-formed scene: every stored value within the machine bounds the
/// fixed-point arithmetic needs, dimensions positive, and at least one
/// sample per pixel.
pub open spec fn scene_wf(s: Scene) -> bool {
    &&& forall|i: int| 0 <= i < s.shapes@.len() ==> shape_wf(#[trigger] s.shapes@[i])
    &&& forall|i: int| 0 <= i < s.lights@.len() ==> light_wf(#[trigger] s.lights@[i])
    &&& s.shapes@.len() <= 0x10000
    &&& s.lights@.len() <= 0x10000
    &&& c3_bounded(s.ambient_light@, CHAN_MAX as int)
    &&& v3_bounded(s.top_left@, COORD_MAX as int)
    &&& v3_bounded(s.top_right@, COORD_MAX as int)
    &&& v3_bounded(s.bottom_left@, COORD_MAX as int)
    &&& v3_bounded(s.bottom_right@, COORD_MAX as int)
    &&& v3_bounded(s.camera@, COORD_MAX as int)
    &&& s.num_light_points <= 0x10000
    &&& 1 <= s.width <= 0x10000
    &&& 1 <= s.height <= 0x10000
    &&& s.recursion_depth_limit <= 0x100000
    &&& 1 <= s.antialiasing <= 0x100
}

/// The nearest forward intersection over a sequence of shapes, with the
/// index of the shape that owns it.  Scanning keeps an intersection only
/// when strictly nearer, so among equally near shapes the first one wins.
pub open spec fn sp_scene_best(shapes: Seq<Shape>, o: V3, d: V3) -> Option<(int, int)>
    decreases shapes.len(),
{
    if shapes.len() == 0 {
        Option::None
    } else {
        let prev = sp_scene_best(shapes.drop_last(), o, d);
        let i = shapes.len() - 1;
        match sp_shape_intersect(shapes.last(), o, d) {
            Option::None => prev,
            Option::Some(t) => match prev {
                Option::None => Option::Some((t, i as int)),
                Option::Some(p) => if t < p.0 {
                    Option::Some((t, i as int))
                } else {
                    prev
                },
            },
        }
    }
}

/// The nearest-shape scan returns the minimum intersection distance over
/// all shapes, owned by the first shape that attains it; and it returns
/// nothing exactly when no shape intersects the ray.
pub proof fn lemma_scene_best_is_minimum(shapes: Seq<Shape>, o: V3, d: V3)
    ensures
        sp_scene_best(shapes, o, d) matches Some(p) ==> {
            &&& 0 <= p.1 < shapes.len()
            &&& sp_shape_intersect(shapes[p.1], o, d) == Option::Some(p.0)
            &&& forall|j: int|
                0 <= j < shapes.len() ==> (#[trigger] sp_shape_intersect(shapes[j], o, d) matches
                Some(tj) ==> p.0 <= tj)
            &&& forall|j: int|
                0 <= j < p.1 ==> (#[trigger] sp_shape_intersect(shapes[j], o, d) matches Some(tj)
                    ==> p.0 < tj)
        },
        sp_scene_best(shapes, o, d) is None ==> forall|j: int|
            0 <= j < shapes.len() ==> (#[trigger] sp_shape_intersect(shapes[j], o, d)) is None,
    decreases shapes.len(),
{
    if shapes.len() > 0 {
        lemma_scene_best_is_minimum(shapes.drop_last(), o, d);
        assert(forall|j: int|
            0 <= j < shapes.len() - 1 ==> shapes.drop_last()[j] == shapes[j]);
    }
}

impl Scene {
    /// Returns the first shape the ray intersects, if any: the parametric
    /// distance and the index of the owning shape.
    pub fn shape_intersect(&self, ray: Ray) -> (res: Option<(i128, usize)>)
        requires
            scene_wf(*self),
            ray_wf(ray),
        ensures
            res is None <==> sp_scene_best(self.shapes@, ray.origin@, ray.direction@) is None,
            res matches Some(p) ==> sp_scene_best(self.shapes@, ray.origin@, ray.direction@)
                == Option::Some((p.0 as int, p.1 as int)) && p.1 < self.shapes@.len() && abs_int(
                p.0 as int,
            ) <= T_ABS_MAX as int,
    {
        let ghost o = ray.origin@;
        let ghost d = ray.direction@;
        let mut best: Option<(i128, usize)> = None;
        let mut i: usize = 0;
        while i < self.shapes.len()
            invariant
                scene_wf(*self),
                ray_wf(ray),
                o == ray.origin@,
                d == ray.direction@,
                i <= self.shapes@.len(),
                best is None <==> sp_scene_best(self.shapes@.take(i as int), o, d) is None,
                best matches Some(q) ==> sp_scene_best(self.shapes@.take(i as int), o, d)
                    == Option::Some((q.0 as int, q.1 as int)) && q.1 < i && abs_int(q.0 as int)
                    <= T_ABS_MAX as int,
            decreases self.shapes@.len() - i,
        {
            let shape = &self.shapes[i];
            let hit = shape.ray_intersect(&ray);
            proof {
                assert(self.shapes@.take(i + 1int).drop_last() =~= self.shapes@.take(i as int));
                assert(self.shapes@.take(i + 1int).last() == self.shapes@[i as int]);
            }
            match hit {
                Some(t) => {
                    match best {
                        Some(q) => {
                            if t < q.0 {
                                best = Some((t, i));
                            }
                        },
                        None => {
                            best = Some((t, i));
                        },
                    }
                },
                None => {},
            }
            i = i + 1;
        }
        proof {
            assert(self.shapes@.take(self.shapes@.len() as int) =~= self.shapes@);
        }
        best
    }
}

} // verus!
