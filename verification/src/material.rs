//! Surface materials: a linear color with reflectivity and specular
//! parameters.

use vstd::prelude::*;
use crate::fixed::FX_ONE;
use crate::vector::Vector;

verus! {

/// A surface material.  The color is linear light; the coefficients are
/// fixed-point scalars (reflection in [0, 1], specular nonnegative).
#[derive(Debug, Clone, Copy, PartialEq, Eq, Structural)]
pub struct Material {
    pub color: Vector,
    pub reflection_coeff: i64,
    pub specular_coeff: i64,
    pub specular_power: i64,
}

/// The stock material carrying a given color: not reflective, with a
/// moderate specular highlight.
pub open spec fn default_material(color: Vector) -> Material {
    Material {
        color,
        reflection_coeff: 0,
        specular_coeff: 838861,  // 0.8 in units
        specular_power: 20971520,  // 20 in units
    }
}

impl Material {
    /// The placeholder material: stock parameters in loud magenta.
    pub fn debug() -> (r: Material)
        ensures
            r == default_material(Vector { x: FX_ONE, y: 0i64, z: FX_ONE }),
    {
        Material::default_color(Vector::new(FX_ONE, 0, FX_ONE))
    }

    /// The stock material carrying a given color.
    pub fn default_color(color: Vector) -> (r: Material)
        ensures
            r == default_material(color),
    {
        Material {
            color,
            reflection_coeff: 0,
            specular_coeff: 838861,
            specular_power: 20971520,  // 20 in units
        }
    }
}

} // verus!
