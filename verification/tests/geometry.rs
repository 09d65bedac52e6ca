//! Checks of the shape distances, the numeric normals, and the
//! smooth-minimum blend.

use raytracer::color::Color;
use raytracer::material::Material;
use raytracer::object::{BlendObjects, BoxShape, Object, Sphere};
use raytracer::vector::Vector;

const S: i64 = 1048576;

fn units(x: f64) -> i64 {
    (x * (S as f64)) as i64
}

fn fval(x: i64) -> f64 {
    (x as f64) / (S as f64)
}

fn plain_sphere(cx: f64, cy: f64, cz: f64, r: f64) -> Sphere {
    Sphere {
        center: Vector::new(units(cx), units(cy), units(cz)),
        radius: units(r),
        material: Material::debug(),
    }
}

#[test]
fn sphere_distance_signs() {
    let s = Object::Sphere(plain_sphere(0.0, 0.0, 0.0, 2.0));
    assert_eq!(s.distance(Vector::new(units(5.0), 0, 0)), units(3.0));
    assert_eq!(s.distance(Vector::new(0, 0, 0)), units(-2.0));
    assert_eq!(s.distance(Vector::new(0, units(2.0), 0)), 0);
    assert_eq!(s.distance(Vector::new(units(3.0), units(4.0), 0)), units(3.0));
}

#[test]
fn box_distance_values() {
    let b = Object::BoxShape(BoxShape::new(
        Vector::zero(),
        Vector::new(units(1.0), units(1.0), units(1.0)),
        Color::debug(),
    ));
    // outside along one axis: the excess along that axis
    assert_eq!(b.distance(Vector::new(units(3.0), 0, 0)), units(2.0));
    // outside along a diagonal: the distance to the corner
    let d = fval(b.distance(Vector::new(units(2.0), units(2.0), units(2.0))));
    assert!((d - 3.0f64.sqrt()).abs() < 1e-4);
    // inside: the negative depth to the nearest face
    assert_eq!(b.distance(Vector::new(units(0.5), 0, 0)), units(-0.5));
}

#[test]
fn sphere_normal_matches_radial_direction() {
    // on a sphere's surface the numeric normal must align with the
    // outward radial direction within a small angular tolerance
    let center = (0.5f64, -0.25f64, 0.25f64);
    let radius = 1.75f64;
    let o = Object::Sphere(plain_sphere(center.0, center.1, center.2, radius));
    let dirs: [(f64, f64, f64); 5] = [
        (1.0, 0.0, 0.0),
        (0.0, 1.0, 0.0),
        (0.0, 0.0, -1.0),
        (0.57735, 0.57735, 0.57735),
        (-0.33333, 0.66667, -0.66667),
    ];
    for u in dirs.iter() {
        let p = Vector::new(
            units(center.0 + radius * u.0),
            units(center.1 + radius * u.1),
            units(center.2 + radius * u.2),
        );
        let n = o.normal(p);
        let dot = (n.x as i128) * (units(u.0) as i128) + (n.y as i128) * (units(u.1) as i128)
            + (n.z as i128) * (units(u.2) as i128);
        let cos = (dot / (S as i128)) as i64;
        assert!(
            cos > units(0.98),
            "normal deviates from radial at {:?}: cos = {}",
            u,
            fval(cos)
        );
    }
}

fn two_sphere_blend(k: f64) -> (Object, Object, Object) {
    let a = plain_sphere(-1.2, 0.0, 0.0, 1.0);
    let b = plain_sphere(1.2, 0.0, 0.0, 1.0);
    let blend = Object::Blend(BlendObjects {
        objects: vec![Object::Sphere(a), Object::Sphere(b)],
        smooth_coef: units(k),
    });
    (blend, Object::Sphere(a), Object::Sphere(b))
}

#[test]
fn blend_lies_below_hard_minimum() {
    // the smooth minimum never exceeds the plain minimum of its parts
    let (blend, a, b) = two_sphere_blend(4.0);
    let mut x = -3.0f64;
    while x <= 3.0 {
        let p = Vector::new(units(x), 0, 0);
        let da = a.distance(p);
        let db = b.distance(p);
        let min = if da < db { da } else { db };
        let d = blend.distance(p);
        assert!(d <= min, "blend above minimum at x = {}: {} > {}", x, fval(d), fval(min));
        x += 0.25;
    }
}

#[test]
fn blend_converges_to_hard_minimum() {
    // with a large sharpness the smooth minimum approaches the plain one
    let (blend, a, b) = two_sphere_blend(64.0);
    // points near the surfaces, where the blend terms stay representable
    let probes: [f64; 4] = [-2.3, -0.35, 0.35, 2.3];
    for x in probes.iter() {
        let p = Vector::new(units(*x), 0, 0);
        let da = a.distance(p);
        let db = b.distance(p);
        let min = if da < db { da } else { db };
        let d = blend.distance(p);
        assert!(
            (d - min).abs() <= units(0.02),
            "blend far from minimum at x = {}: {} vs {}",
            x,
            fval(d),
            fval(min)
        );
    }
}

#[test]
fn blend_is_continuous_across_the_overlap() {
    // no hard seam: along the line through both centers the blended
    // distance changes by no more than twice the step
    let (blend, _, _) = two_sphere_blend(4.0);
    let step = S / 8;
    let mut x = units(-2.5);
    let mut prev = blend.distance(Vector::new(x, 0, 0));
    while x < units(2.5) {
        x += step;
        let cur = blend.distance(Vector::new(x, 0, 0));
        assert!(
            (cur - prev).abs() <= 2 * step,
            "jump near x = {}: {} to {}",
            fval(x),
            fval(prev),
            fval(cur)
        );
        prev = cur;
    }
}

#[test]
fn blend_material_is_first_childs() {
    let (blend, a, _) = two_sphere_blend(4.0);
    let p = Vector::zero();
    assert_eq!(blend.get_material(p), a.get_material(p));
}

#[test]
fn material_defaults() {
    let m = Material::default_color(Vector::new(S, 0, 0));
    assert_eq!(m.color, Vector::new(S, 0, 0));
    assert_eq!(m.reflection_coeff, 0);
    assert_eq!(m.specular_coeff, 838861);
    assert_eq!(m.specular_power, 20971520);
    assert_eq!(Material::debug().color, Vector::new(S, 0, S));
}
