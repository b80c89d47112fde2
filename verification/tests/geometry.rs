//! Ray intersection with spheres and planes, and the scene-level query.

use raytracer::colour::Colour;
use raytracer::fx::SCALE;
use raytracer::material::Material;
use raytracer::ray::Ray;
use raytracer::scene::Scene;
use raytracer::shapes::plane::Plane;
use raytracer::shapes::sphere::Sphere;
use raytracer::shapes::Shape;
use raytracer::vector::Vector;

fn plain_material() -> Material {
    Material::new(
        Colour::new(0, 0, 0),
        Colour::new(SCALE, SCALE, SCALE),
        Colour::new(0, 0, 0),
        1,
        0,
    )
}

#[test]
fn sphere_head_on_hit_at_distance_minus_radius() {
    // A ray aimed straight at a sphere of radius r centred at distance d
    // hits at t = d - r: here d = 4, r = 1, so t = 3.
    let sphere = Sphere {
        centre: Vector::new(0, 0, 4 * SCALE),
        radius: SCALE,
        material: plain_material(),
    };
    let ray = Ray::new(Vector::new(0, 0, 0), Vector::new(0, 0, SCALE));
    assert_eq!(sphere.ray_intersect(&ray), Some(3 * SCALE));
}

#[test]
fn sphere_from_inside_single_forward_root() {
    // A ray whose origin lies strictly inside returns exactly the one
    // forward intersection.
    let sphere = Sphere {
        centre: Vector::new(0, 0, 0),
        radius: 2 * SCALE,
        material: plain_material(),
    };
    let ray = Ray::new(Vector::new(0, 0, 0), Vector::new(0, 0, SCALE));
    assert_eq!(sphere.ray_intersect(&ray), Some(2 * SCALE));

    let off_centre = Ray::new(Vector::new(0, 0, SCALE), Vector::new(0, 0, SCALE));
    assert_eq!(sphere.ray_intersect(&off_centre), Some(SCALE));
}

#[test]
fn sphere_perpendicular_offset_misses() {
    // Perpendicular offset (3) greater than the radius (1): no intersection.
    let sphere = Sphere {
        centre: Vector::new(3 * SCALE, 0, 4 * SCALE),
        radius: SCALE,
        material: plain_material(),
    };
    let ray = Ray::new(Vector::new(0, 0, 0), Vector::new(0, 0, SCALE));
    assert_eq!(sphere.ray_intersect(&ray), None);
}

#[test]
fn sphere_behind_origin_misses() {
    let sphere = Sphere {
        centre: Vector::new(0, 0, -4 * SCALE),
        radius: SCALE,
        material: plain_material(),
    };
    let ray = Ray::new(Vector::new(0, 0, 0), Vector::new(0, 0, SCALE));
    assert_eq!(sphere.ray_intersect(&ray), None);
}

fn unit_z_plane() -> Plane {
    Plane {
        points: [
            Vector::new(0, 0, SCALE),
            Vector::new(SCALE, 0, SCALE),
            Vector::new(0, SCALE, SCALE),
        ],
        material: plain_material(),
    }
}

#[test]
fn plane_normal_is_cross_product() {
    let plane = unit_z_plane();
    let n = plane.normal([(0, 1), (1, 2)]);
    assert_eq!(n, Vector::new(0, 0, -(SCALE * SCALE)));
}

#[test]
fn plane_forward_hit() {
    let plane = unit_z_plane();
    let ray = Ray::new(Vector::new(0, 0, 0), Vector::new(0, 0, SCALE));
    assert_eq!(plane.ray_intersect(&ray), Some(SCALE));
}

#[test]
fn plane_parallel_ray_misses() {
    let plane = unit_z_plane();
    let ray = Ray::new(Vector::new(0, 0, 0), Vector::new(SCALE, 0, 0));
    assert_eq!(plane.ray_intersect(&ray), None);
}

#[test]
fn plane_hit_at_zero_distance_counts() {
    let plane = unit_z_plane();
    let ray = Ray::new(Vector::new(0, 0, SCALE), Vector::new(0, 0, SCALE));
    assert_eq!(plane.ray_intersect(&ray), Some(0));
}

#[test]
fn plane_behind_origin_misses() {
    let plane = unit_z_plane();
    let ray = Ray::new(Vector::new(0, 0, 2 * SCALE), Vector::new(0, 0, SCALE));
    assert_eq!(plane.ray_intersect(&ray), None);
}

fn scene_with_shapes(shapes: Vec<Shape>) -> Scene {
    Scene {
        shapes,
        lights: vec![],
        ambient_light: Colour::new(0, 0, 0),
        top_left: Vector::new(-SCALE, SCALE, 0),
        top_right: Vector::new(SCALE, SCALE, 0),
        bottom_left: Vector::new(-SCALE, -SCALE, 0),
        bottom_right: Vector::new(SCALE, -SCALE, 0),
        camera: Vector::new(0, 0, -2 * SCALE),
        num_light_points: 0,
        width: 9,
        height: 9,
        recursion_depth_limit: 0,
        antialiasing: 1,
    }
}

#[test]
fn scene_intersect_picks_nearest() {
    let far = Shape::Sphere(Sphere {
        centre: Vector::new(0, 0, 8 * SCALE),
        radius: SCALE,
        material: plain_material(),
    });
    let near = Shape::Sphere(Sphere {
        centre: Vector::new(0, 0, 4 * SCALE),
        radius: SCALE,
        material: plain_material(),
    });
    let scene = scene_with_shapes(vec![far, near]);
    let ray = Ray::new(Vector::new(0, 0, 0), Vector::new(0, 0, SCALE));
    assert_eq!(scene.shape_intersect(ray), Some((3 * SCALE, 1)));
}

#[test]
fn scene_intersect_tie_first_encountered_wins() {
    let a = Shape::Sphere(Sphere {
        centre: Vector::new(0, 0, 4 * SCALE),
        radius: SCALE,
        material: plain_material(),
    });
    let b = Shape::Sphere(Sphere {
        centre: Vector::new(0, 0, 4 * SCALE),
        radius: SCALE,
        material: plain_material(),
    });
    let scene = scene_with_shapes(vec![a, b]);
    let ray = Ray::new(Vector::new(0, 0, 0), Vector::new(0, 0, SCALE));
    assert_eq!(scene.shape_intersect(ray), Some((3 * SCALE, 0)));
}

#[test]
fn scene_intersect_none_on_empty() {
    let scene = scene_with_shapes(vec![]);
    let ray = Ray::new(Vector::new(0, 0, 0), Vector::new(0, 0, SCALE));
    assert_eq!(scene.shape_intersect(ray), None);
}
