//! Lights: parallel light arriving from a fixed direction.

use vstd::prelude::*;
use crate::fixed::FX_ONE;
use crate::vector::{vnormalized, vscale, Vector};

verus! {

/// A parallel light at infinity.  The stored direction is the direction
/// the light travels along, normalized at construction; the color is
/// linear radiance.
#[derive(Debug, Clone, Copy, PartialEq, Eq, Structural)]
pub struct DirectionalLight {
    pub direction: Vector,
    pub color: Vector,
}

impl DirectionalLight {
    /// A parallel light travelling along `direction` (normalized here)
    /// with the given radiance.
    pub fn new(direction: Vector, color: Vector) -> (r: DirectionalLight)
        ensures
            r == (DirectionalLight { direction: vnormalized(direction), color }),
    {
        DirectionalLight { direction: direction.normalized(), color }
    }
}

/// Any light a scene can hold.
#[derive(Debug, Clone, Copy, PartialEq, Eq, Structural)]
pub enum Light {
    Directional(DirectionalLight),
}

/// The direction from a surface point toward the light.  For a parallel
/// light this is the reverse of its travel direction, wherever the point.
pub open spec fn light_direction(l: Light, point: Vector) -> Vector {
    match l {
        Light::Directional(d) => vscale(d.direction, -(FX_ONE as int)),
    }
}

/// The radiance the light emits.
pub open spec fn light_color(l: Light) -> Vector {
    match l {
        Light::Directional(d) => d.color,
    }
}

impl Light {
    /// The direction from a surface point toward the light.
    pub fn get_direction(&self, point: Vector) -> (r: Vector)
        ensures
            r == light_direction(*self, point),
    {
        match self {
            Light::Directional(d) => d.direction.neg(),
        }
    }

    /// The radiance the light emits.
    pub fn get_color(&self) -> (r: Vector)
        ensures
            r == light_color(*self),
    {
        match self {
            Light::Directional(d) => d.color,
        }
    }
}

} // verus!
