//! Light sampling and end-to-end pixel rendering.

use raytracer::colour::Colour;
use raytracer::fx::SCALE;
use raytracer::light::Light;
use raytracer::material::Material;
use raytracer::scene::Scene;
use raytracer::shapes::sphere::Sphere;
use raytracer::shapes::Shape;
use raytracer::tracer::Tracer;
use raytracer::vector::Vector;

#[test]
fn random_in_light_stays_inside_volume() {
    // Ten thousand samples of a unit light at the origin all lie within the
    // radius.
    let light = Light {
        centre: Vector::new(0, 0, 0),
        radius: SCALE,
        diffuse_intensity: Colour::new(SCALE, SCALE, SCALE),
        specular_intensity: Colour::new(SCALE, SCALE, SCALE),
    };
    for _ in 0..10000 {
        let p = light.random_in_light();
        let d2 = p.x * p.x + p.y * p.y + p.z * p.z;
        assert!(d2 <= SCALE * SCALE);
    }
}

/// One diffuse sphere two units in front of the viewport plane, one light at
/// the origin, camera on the axis: the basic end-to-end scene.
fn one_sphere_scene(reflectiveness: i128, recursion_depth_limit: usize, antialiasing: usize) -> Scene {
    let material = Material::new(
        Colour::new(0, 0, 0),
        Colour::new(SCALE, SCALE, SCALE),
        Colour::new(0, 0, 0),
        1,
        reflectiveness,
    );
    Scene {
        shapes: vec![Shape::Sphere(Sphere {
            centre: Vector::new(0, 0, 2 * SCALE),
            radius: SCALE,
            material,
        })],
        lights: vec![Light {
            centre: Vector::new(0, 0, 0),
            radius: SCALE / 2,
            diffuse_intensity: Colour::new(SCALE, SCALE, SCALE),
            specular_intensity: Colour::new(SCALE, SCALE, SCALE),
        }],
        ambient_light: Colour::new(0, 0, 0),
        top_left: Vector::new(-SCALE, SCALE, 0),
        top_right: Vector::new(SCALE, SCALE, 0),
        bottom_left: Vector::new(-SCALE, -SCALE, 0),
        bottom_right: Vector::new(SCALE, -SCALE, 0),
        camera: Vector::new(0, 0, -2 * SCALE),
        num_light_points: 0,
        width: 9,
        height: 9,
        recursion_depth_limit,
        antialiasing,
    }
}

#[test]
fn centre_pixel_lit_outside_silhouette_black() {
    let scene = one_sphere_scene(0, 0, 1);
    let tracer = Tracer::new(&scene, scene.width, scene.height);
    let centre = tracer.colour_at_pixel(4, 4);
    assert!(centre != [0u8, 0u8, 0u8], "centre pixel should be lit");
    // head-on hit, unit diffuse, unit intensity: full brightness exactly
    assert_eq!(centre, [255u8, 255u8, 255u8]);
    let corner = tracer.colour_at_pixel(0, 0);
    assert_eq!(corner, [0u8, 0u8, 0u8]);
    let edge = tracer.colour_at_pixel(0, 4);
    assert_eq!(edge, [0u8, 0u8, 0u8]);
}

#[test]
fn depth_limit_zero_ignores_reflectiveness() {
    // With the recursion depth limit at zero, a fully reflective material
    // renders identically to a non-reflective one: local shading only.
    let mirror = one_sphere_scene(SCALE, 0, 1);
    let matte = one_sphere_scene(0, 0, 1);
    let t_mirror = Tracer::new(&mirror, mirror.width, mirror.height);
    let t_matte = Tracer::new(&matte, matte.width, matte.height);
    for x in 0..9u32 {
        for y in 0..9u32 {
            assert_eq!(t_mirror.colour_at_pixel(x, y), t_matte.colour_at_pixel(x, y));
        }
    }
}

#[test]
fn doubling_antialiasing_changes_an_edge_pixel() {
    // With a hard-edged silhouette bisecting a pixel, the four-sample
    // average differs from the single-sample colour at some pixel of the
    // centre row.
    let one = one_sphere_scene(0, 0, 1);
    let four = one_sphere_scene(0, 0, 2);
    let t_one = Tracer::new(&one, one.width, one.height);
    let t_four = Tracer::new(&four, four.width, four.height);
    let mut differs = false;
    for x in 0..9u32 {
        if t_one.colour_at_pixel(x, 4) != t_four.colour_at_pixel(x, 4) {
            differs = true;
        }
    }
    assert!(differs, "antialiasing should change at least one edge pixel");
}

#[test]
fn one_bounce_reflection_adds_colour() {
    // One bounce: with a positive depth limit a fully reflective surface
    // picks up the reflected ray's colour on top of its local shading, so a
    // lit pixel brightens; a pixel whose primary ray misses stays black.
    let mut mirror = one_sphere_scene(SCALE, 1, 1);
    let mut matte = one_sphere_scene(SCALE, 0, 1);
    // dim the diffuse term so the lit pixel is not already saturated
    let dim = Material::new(
        Colour::new(0, 0, 0),
        Colour::new(3 * SCALE / 10, 3 * SCALE / 10, 3 * SCALE / 10),
        Colour::new(0, 0, 0),
        1,
        SCALE,
    );
    if let Shape::Sphere(s) = &mut mirror.shapes[0] {
        s.material = dim;
    }
    if let Shape::Sphere(s) = &mut matte.shapes[0] {
        s.material = Material::new(
            dim.ambient_constant,
            dim.diffuse_constant,
            dim.specular_constant,
            dim.shininess,
            0,
        );
    }
    let t_mirror = Tracer::new(&mirror, mirror.width, mirror.height);
    let t_matte = Tracer::new(&matte, matte.width, matte.height);
    let bright = t_mirror.colour_at_pixel(4, 4);
    let local = t_matte.colour_at_pixel(4, 4);
    assert!(bright[0] > local[0]);
    assert_eq!(t_mirror.colour_at_pixel(0, 4), [0u8, 0u8, 0u8]);
}

#[test]
fn shadow_sampling_darkens_occluded_point() {
    // A small sphere sits between an off-axis light and the big sphere's
    // front hit point, away from the primary ray; with shadow sampling on,
    // the centre pixel darkens.
    let mut lit = one_sphere_scene(0, 0, 1);
    let mut shadowed = one_sphere_scene(0, 0, 1);
    let off_axis_light = Light {
        centre: Vector::new(2 * SCALE, 0, 0),
        radius: SCALE / 8,
        diffuse_intensity: Colour::new(SCALE, SCALE, SCALE),
        specular_intensity: Colour::new(SCALE, SCALE, SCALE),
    };
    lit.lights = vec![off_axis_light];
    shadowed.lights = vec![off_axis_light];
    let blocker = Shape::Sphere(Sphere {
        centre: Vector::new(SCALE, 0, SCALE / 2),
        radius: SCALE / 4,
        material: Material::new(
            Colour::new(0, 0, 0),
            Colour::new(SCALE, SCALE, SCALE),
            Colour::new(0, 0, 0),
            1,
            0,
        ),
    });
    lit.num_light_points = 16;
    shadowed.num_light_points = 16;
    shadowed.shapes.push(blocker);
    let t_lit = Tracer::new(&lit, lit.width, lit.height);
    let t_shadowed = Tracer::new(&shadowed, shadowed.width, shadowed.height);
    let bright = t_lit.colour_at_pixel(4, 4);
    let dark = t_shadowed.colour_at_pixel(4, 4);
    assert!(dark[0] < bright[0], "occluder should darken the centre pixel");
}

#[test]
fn specular_highlight_brightens_head_on_pixel() {
    // A glossy material adds a specular term at the mirror angle: with the
    // light, camera and hit point aligned, the highlight saturates the
    // centre pixel, which a purely diffuse dim material leaves grey.
    let mut glossy = one_sphere_scene(0, 0, 1);
    let mut dull = one_sphere_scene(0, 0, 1);
    let dim_diffuse = Colour::new(3 * SCALE / 10, 3 * SCALE / 10, 3 * SCALE / 10);
    if let Shape::Sphere(s) = &mut glossy.shapes[0] {
        s.material = Material::new(
            Colour::new(0, 0, 0),
            dim_diffuse,
            Colour::new(SCALE, SCALE, SCALE),
            4,
            0,
        );
    }
    if let Shape::Sphere(s) = &mut dull.shapes[0] {
        s.material = Material::new(Colour::new(0, 0, 0), dim_diffuse, Colour::new(0, 0, 0), 4, 0);
    }
    let t_glossy = Tracer::new(&glossy, glossy.width, glossy.height);
    let t_dull = Tracer::new(&dull, dull.width, dull.height);
    assert!(t_glossy.colour_at_pixel(4, 4)[0] > t_dull.colour_at_pixel(4, 4)[0]);
}
