//! End-to-end checks of the renderer: ray casting, shadows, glow,
//! termination, determinism, and the camera.

use raytracer::camera::Camera;
use raytracer::color::Color;
use raytracer::light::{DirectionalLight, Light};
use raytracer::material::Material;
use raytracer::object::{BlendObjects, BoxShape, Object, Sphere};
use raytracer::scene::Scene;
use raytracer::vector::Vector;

const S: i64 = 1048576;

fn q(x: f64) -> i64 {
    (x * (S as f64)) as i64
}

fn sphere_of(cx: f64, cy: f64, cz: f64, r: f64, material: Material) -> Object {
    Object::Sphere(Sphere { center: Vector::new(q(cx), q(cy), q(cz)), radius: q(r), material })
}

fn white_light_along(x: f64, y: f64, z: f64) -> Light {
    Light::Directional(DirectionalLight::new(Vector::new(q(x), q(y), q(z)), Vector::unit()))
}

#[test]
fn empty_scene_misses() {
    // a scene with no shapes resolves every ray to nothing
    let scene = Scene::new();
    assert!(scene.cast_ray(Vector::zero(), Vector::new(0, 0, S), 5).is_none());
}

#[test]
fn ray_pointing_away_misses() {
    let mut scene = Scene::new();
    scene.add_object(sphere_of(0.0, 0.0, 0.0, 2.0, Material::debug()));
    let r = scene.cast_ray(Vector::new(0, 0, q(-10.0)), Vector::new(0, 0, -S), 5);
    assert!(r.is_none());
}

#[test]
fn spent_depth_yields_nothing_at_once() {
    let mut scene = Scene::new();
    scene.add_object(sphere_of(0.0, 0.0, 0.0, 2.0, Material::debug()));
    assert!(scene.cast_ray(Vector::new(0, 0, q(-10.0)), Vector::new(0, 0, S), 0).is_none());
    assert!(scene.cast_ray(Vector::new(0, 0, q(-10.0)), Vector::new(0, 0, S), -3).is_none());
}

#[test]
fn mirror_room_terminates() {
    // a fully reflective enclosure: the reflection recursion still
    // returns within the depth bound
    let mut scene = Scene::new();
    scene.add_object(Object::BoxShape(BoxShape {
        center: Vector::zero(),
        size: Vector::new(q(5.0), q(5.0), q(5.0)),
        material: Material {
            color: Vector::new(q(0.9), q(0.9), q(0.9)),
            reflection_coeff: q(0.99),
            specular_coeff: 838861,
            specular_power: 20971520,
        },
    }));
    scene.add_light(white_light_along(0.3, 1.0, 0.2));
    let r = scene.cast_ray(Vector::zero(), Vector::new(0, 0, S), 5);
    assert!(r.is_some());
}

#[test]
fn single_red_sphere_scene() {
    // one red sphere straight ahead: the central pixel is bright red,
    // a pixel whose rays pass far from everything is the background
    let mut scene = Scene::new();
    scene.set_camera(Camera::new((10, 10)));
    scene.add_object(sphere_of(
        0.0,
        0.0,
        0.0,
        2.0,
        Material::default_color(Vector::from_color(Color::new(255, 0, 0))),
    ));
    scene.add_light(white_light_along(0.0, 0.0, 1.0));
    let buffer = scene.render(10, 10);
    assert_eq!(buffer.len(), 300);
    let center = 3 * (5 * 10 + 5);
    assert_eq!(buffer[center], 255, "central pixel should be saturated red");
    assert_eq!(buffer[center + 1], 0);
    assert_eq!(buffer[center + 2], 0);
    let corner = 0;
    assert_eq!(buffer[corner], 0, "corner pixel should be the black background");
    assert_eq!(buffer[corner + 1], 0);
    assert_eq!(buffer[corner + 2], 0);
}

#[test]
fn rendering_twice_is_byte_identical() {
    let mut scene = Scene::new();
    scene.set_camera(Camera::new((8, 8)));
    scene.debug();
    let first = scene.render(8, 8);
    let second = scene.render(8, 8);
    assert_eq!(first, second);
}

#[test]
fn shadowed_light_adds_nothing() {
    // the same hit, lit and then occluded: the occluded version is black
    let target = || {
        sphere_of(
            0.0,
            0.0,
            0.0,
            2.0,
            Material::default_color(Vector::from_color(Color::new(255, 255, 255))),
        )
    };
    let light = white_light_along(-0.7071, 0.0, 0.7071);
    let origin = Vector::new(0, 0, q(-10.0));
    let ahead = Vector::new(0, 0, S);

    let mut lit = Scene::new();
    lit.add_object(target());
    lit.add_light(light);
    let c1 = lit.cast_ray(origin, ahead, 5).expect("the lit ray must hit");
    assert!(c1.x > q(0.3), "the unoccluded surface should be lit");

    let mut occluded = Scene::new();
    occluded.add_object(target());
    occluded.add_object(sphere_of(3.0, 0.0, -5.0, 1.5, Material::debug()));
    occluded.add_light(light);
    let c2 = occluded.cast_ray(origin, ahead, 5).expect("the occluded ray must still hit");
    assert_eq!(c2, Vector::zero(), "an occluded light must contribute nothing");
}

#[test]
fn near_miss_glows_on_primary_rays_only() {
    let mut scene = Scene::new();
    scene.add_object(sphere_of(0.0, 0.0, 0.0, 1.0, Material::debug()));
    let origin = Vector::new(q(1.1), 0, q(-10.0));
    let ahead = Vector::new(0, 0, S);
    // a primary ray passing within the glow distance yields a faint,
    // gray glow
    let glow = scene.cast_ray(origin, ahead, 5).expect("a near miss should glow");
    assert!(glow.x > 0 && glow.x <= q(0.05));
    assert_eq!(glow.x, glow.y);
    assert_eq!(glow.y, glow.z);
    // the same ray below the primary depth yields nothing
    assert!(scene.cast_ray(origin, ahead, 4).is_none());
}

#[test]
fn blended_spheres_merge_where_plain_spheres_miss() {
    // between two blended spheres the surface bulges and the central ray
    // hits; without the blend the same ray finds nothing bright
    let bright = Material::default_color(Vector::from_color(Color::new(255, 255, 255)));
    let a = Sphere { center: Vector::new(q(-1.2), 0, 0), radius: S, material: bright };
    let b = Sphere { center: Vector::new(q(1.2), 0, 0), radius: S, material: bright };
    let origin = Vector::new(0, 0, q(-10.0));
    let ahead = Vector::new(0, 0, S);
    let light = white_light_along(0.0, 0.0, 1.0);

    let mut blended = Scene::new();
    blended.add_object(Object::Blend(BlendObjects {
        objects: vec![Object::Sphere(a), Object::Sphere(b)],
        smooth_coef: q(4.0),
    }));
    blended.add_light(light);
    let merged = blended.cast_ray(origin, ahead, 5).expect("the blended waist must be hit");
    assert!(merged.x > q(0.1), "the merged surface should be lit");

    let mut plain = Scene::new();
    plain.add_object(Object::Sphere(a));
    plain.add_object(Object::Sphere(b));
    plain.add_light(light);
    match plain.cast_ray(origin, ahead, 5) {
        None => (),
        Some(c) => {
            // at most the faint glow of a near miss, never a lit surface
            assert!(c.x <= q(0.05), "the unblended gap should show no surface");
        }
    }
}

#[test]
fn camera_rays() {
    let cam = Camera::new((10, 10));
    assert_eq!(cam.origin, Vector::new(0, 0, q(-10.0)));
    let (o, d) = cam.get_ray(5, 5);
    assert_eq!(o, cam.origin);
    assert_eq!(d, Vector::new(0, 0, S), "the central ray looks straight ahead");
    let rays = cam.get_rays(5, 5, 5);
    assert_eq!(rays.len(), 5);
    assert_eq!(rays[0].1, d);
    for i in 1..5 {
        assert!(rays[i].1 != d, "offset samples must differ from the center");
    }
    assert_eq!(cam.get_rays(5, 5, 3).len(), 3);
    assert_eq!(cam.get_rays(5, 5, 9).len(), 5);
}

#[test]
fn directional_light_is_normalized_and_reversed() {
    let l = Light::Directional(DirectionalLight::new(
        Vector::new(q(3.0), q(4.0), 0),
        Vector::unit(),
    ));
    let towards = l.get_direction(Vector::zero());
    // the stored direction is normalized; the returned one points back
    assert_eq!(towards, Vector::new(-629145, -838860, 0));
    assert_eq!(l.get_color(), Vector::unit());
}

#[test]
fn scene_defaults() {
    let s = Scene::new();
    assert_eq!(s.background_color, Vector::zero());
    assert_eq!(s.camera.origin, Vector::new(0, 0, q(-10.0)));
    assert_eq!(s.camera.size, (400, 400));
    assert_eq!(s.objects.len(), 0);
    assert_eq!(s.lights.len(), 0);
    assert_eq!(s.epsilon, 1049);
    assert_eq!(s.max_depth, 5);
    assert_eq!(s.max_distance, q(100.0));
}

#[test]
fn demo_scene_contents() {
    let mut scene = Scene::new();
    scene.debug();
    assert_eq!(scene.objects.len(), 3);
    assert_eq!(scene.lights.len(), 2);
}
