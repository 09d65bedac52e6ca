//! Checks of the fixed-point scalar layer: exact arithmetic, saturation,
//! the transcendental approximations, and the gamma round trip.

use raytracer::color::Color;
use raytracer::fixed::{
    fx_add, fx_div, fx_exp2, fx_log2, fx_mul, fx_neg, fx_powf, fx_sqrt, fx_sub, FX_MAX, FX_ONE,
};
use raytracer::vector::Vector;

const S: i64 = FX_ONE;

fn fx(x: f64) -> i64 {
    (x * (S as f64)) as i64
}

fn to_f(x: i64) -> f64 {
    (x as f64) / (S as f64)
}

#[test]
fn add_sub_mul_div_exact() {
    assert_eq!(fx_add(fx(1.5), fx(2.25)), fx(3.75));
    assert_eq!(fx_sub(fx(1.5), fx(2.25)), fx(-0.75));
    assert_eq!(fx_mul(fx(3.0), fx(2.0)), fx(6.0));
    assert_eq!(fx_mul(fx(-3.0), fx(2.0)), fx(-6.0));
    assert_eq!(fx_div(fx(1.0), fx(2.0)), fx(0.5));
    assert_eq!(fx_div(fx(-1.0), fx(2.0)), fx(-0.5));
    assert_eq!(fx_neg(fx(4.0)), fx(-4.0));
}

#[test]
fn saturation_and_totality() {
    assert_eq!(fx_add(FX_MAX, FX_MAX), FX_MAX);
    assert_eq!(fx_sub(-FX_MAX, FX_MAX), -FX_MAX);
    assert_eq!(fx_mul(FX_MAX, FX_MAX), FX_MAX);
    // division by zero is defined: it yields zero
    assert_eq!(fx_div(fx(5.0), 0), 0);
    // the square root of a negative value is defined: it yields zero
    assert_eq!(fx_sqrt(fx(-2.0)), 0);
    // the logarithm of zero is the smallest scalar, standing for -inf
    assert_eq!(fx_log2(0), -FX_MAX);
}

#[test]
fn sqrt_values() {
    assert_eq!(fx_sqrt(fx(4.0)), fx(2.0));
    assert_eq!(fx_sqrt(fx(9.0)), fx(3.0));
    assert_eq!(fx_sqrt(0), 0);
    let r = to_f(fx_sqrt(fx(2.0)));
    assert!((r - 1.41421356).abs() < 1e-4);
}

#[test]
fn exp2_and_log2_values() {
    assert_eq!(fx_exp2(0), S);
    assert_eq!(fx_exp2(fx(1.0)), 2 * S);
    assert_eq!(fx_exp2(fx(3.0)), 8 * S);
    assert_eq!(fx_log2(S), 0);
    assert_eq!(fx_log2(2 * S), S);
    assert_eq!(fx_log2(8 * S), 3 * S);
    // fractional arguments are close to the real functions
    assert!((to_f(fx_exp2(fx(0.5))) - 1.41421356).abs() < 1e-4);
    assert!((to_f(fx_exp2(fx(-0.5))) - 0.70710678).abs() < 1e-4);
    assert!((to_f(fx_log2(fx(3.0))) - 1.5849625).abs() < 1e-4);
    // a very negative exponent underflows to zero
    assert_eq!(fx_exp2(fx(-40.0)), 0);
}

#[test]
fn powf_values() {
    assert!((to_f(fx_powf(fx(4.0), fx(0.5))) - 2.0).abs() < 1e-3);
    assert!((to_f(fx_powf(fx(2.0), fx(10.0))) - 1024.0).abs() < 0.5);
    assert!((to_f(fx_powf(fx(0.7071), fx(20.0))) - 0.0009765).abs() < 1e-4);
    // a nonpositive base yields zero
    assert_eq!(fx_powf(0, fx(2.0)), 0);
    assert_eq!(fx_powf(fx(-1.0), fx(2.0)), 0);
    // anything positive to the zeroth power is one
    assert_eq!(fx_powf(fx(7.25), 0), S);
}

#[test]
fn gamma_round_trip_within_quantization() {
    // encode = x^(1/2.2) then 8-bit quantization; decode = (b/255)^2.2.
    // The round trip must come back within the quantization error.
    let gamma_exp = raytracer::scene::GAMMA_EXP;
    let mut c = 0.0f64;
    while c <= 1.0 {
        let linear = Vector::new(fx(c), fx(c), fx(c));
        let encoded = linear.powf(gamma_exp);
        let byte = Color::from_vector(encoded).red;
        let decoded = ((byte as f64) / 255.0).powf(2.2);
        assert!(
            (decoded - c).abs() < 0.02,
            "round trip failed at {}: byte {} decodes to {}",
            c,
            byte,
            decoded
        );
        c += 0.05;
    }
}

#[test]
fn quantization_clamps() {
    assert_eq!(
        Color::from_vector(Vector::new(fx(-1.0), 0, fx(3.0))),
        Color::new(0, 0, 255)
    );
    assert_eq!(
        Color::from_vector(Vector::new(fx(1.0), fx(0.5), fx(1.0))),
        Color::new(255, 127, 255)
    );
    assert_eq!(Color::from_vector(Vector::new(0, 0, 0)), Color::new(0, 0, 0));
}

#[test]
fn color_constructors() {
    let c = Color::new(12, 34, 56);
    assert_eq!(c.red, 12);
    assert_eq!(c.green, 34);
    assert_eq!(c.blue, 56);
    assert_eq!(Color::debug(), Color::new(255, 0, 255));
}

#[test]
fn vector_ops() {
    let a = Vector::new(fx(3.0), fx(4.0), 0);
    assert_eq!(a.norm(), fx(5.0));
    assert_eq!(a.dot(&a), fx(25.0));
    let n = a.normalized();
    assert_eq!(n, Vector::new(fx(0.6), fx(0.8), 0));
    assert_eq!(Vector::new(fx(-1.0), fx(2.0), fx(-3.0)).abs(), Vector::new(fx(1.0), fx(2.0), fx(3.0)));
    assert_eq!(Vector::new(fx(-1.0), fx(2.0), 0).max(0), Vector::new(0, fx(2.0), 0));
    assert_eq!(a.add(a), Vector::new(fx(6.0), fx(8.0), 0));
    assert_eq!(a.sub(a), Vector::zero());
    assert_eq!(a.mul(fx(2.0)), Vector::new(fx(6.0), fx(8.0), 0));
    assert_eq!(a.div(fx(2.0)), Vector::new(fx(1.5), fx(2.0), 0));
    assert_eq!(a.neg(), Vector::new(fx(-3.0), fx(-4.0), 0));
    // the zero vector stays zero under normalization (no undefined value)
    assert_eq!(Vector::zero().normalized(), Vector::zero());
    // a display color maps to its linear vector
    assert_eq!(Vector::from_color(Color::new(255, 0, 255)), Vector::new(fx(1.0), 0, fx(1.0)));
}
