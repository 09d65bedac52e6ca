//! Three-component fixed-point vectors: positions, directions and
//! linear-light colors.

use vstd::prelude::*;
use crate::fixed::{
    div_fx, fx_add, fx_div, fx_max, fx_mul, fx_powf, fx_sqrt, mul_fx, powf_fx, sat, sqrt_fx,
    FX_ONE,
};
use crate::color::Color;

verus! {

/// A vector of three fixed-point scalars (units of 2^-20).
#[derive(Debug, Clone, Copy, PartialEq, Eq, Structural)]
pub struct Vector {
    pub x: i64,
    pub y: i64,
    pub z: i64,
}

/// Componentwise saturating sum.
pub open spec fn vadd(a: Vector, b: Vector) -> Vector {
    Vector { x: sat(a.x + b.x) as i64, y: sat(a.y + b.y) as i64, z: sat(a.z + b.z) as i64 }
}

/// Componentwise saturating difference.
pub open spec fn vsub(a: Vector, b: Vector) -> Vector {
    Vector { x: sat(a.x - b.x) as i64, y: sat(a.y - b.y) as i64, z: sat(a.z - b.z) as i64 }
}

/// Componentwise product with a scalar.
pub open spec fn vscale(a: Vector, s: int) -> Vector {
    Vector {
        x: mul_fx(a.x as int, s) as i64,
        y: mul_fx(a.y as int, s) as i64,
        z: mul_fx(a.z as int, s) as i64,
    }
}

/// Componentwise quotient by a scalar.
pub open spec fn vdiv(a: Vector, s: int) -> Vector {
    Vector {
        x: div_fx(a.x as int, s) as i64,
        y: div_fx(a.y as int, s) as i64,
        z: div_fx(a.z as int, s) as i64,
    }
}

/// Componentwise product of two vectors (used for light filtering).
pub open spec fn vmul_components(a: Vector, b: Vector) -> Vector {
    Vector {
        x: mul_fx(a.x as int, b.x as int) as i64,
        y: mul_fx(a.y as int, b.y as int) as i64,
        z: mul_fx(a.z as int, b.z as int) as i64,
    }
}

/// The inner product: the three componentwise products summed left to
/// right.
pub open spec fn vdot(a: Vector, b: Vector) -> int {
    sat(sat(mul_fx(a.x as int, b.x as int) + mul_fx(a.y as int, b.y as int)) + mul_fx(
        a.z as int,
        b.z as int,
    ))
}

/// The Euclidean length: square root of the self inner product.
pub open spec fn vnorm(a: Vector) -> int {
    sqrt_fx(vdot(a, a))
}

/// The direction of `a`: each component divided by the length.  The zero
/// vector (whose length is zero) maps to the zero vector.
pub open spec fn vnormalized(a: Vector) -> Vector {
    vdiv(a, vnorm(a))
}

/// Componentwise magnitude.
pub open spec fn vabs(a: Vector) -> Vector {
    Vector {
        x: sat(if a.x < 0 {
            -(a.x as int)
        } else {
            a.x as int
        }) as i64,
        y: sat(if a.y < 0 {
            -(a.y as int)
        } else {
            a.y as int
        }) as i64,
        z: sat(if a.z < 0 {
            -(a.z as int)
        } else {
            a.z as int
        }) as i64,
    }
}

/// Componentwise maximum against one scalar.
pub open spec fn vmax(a: Vector, m: int) -> Vector {
    Vector {
        x: (if a.x as int >= m {
            a.x as int
        } else {
            m
        }) as i64,
        y: (if a.y as int >= m {
            a.y as int
        } else {
            m
        }) as i64,
        z: (if a.z as int >= m {
            a.z as int
        } else {
            m
        }) as i64,
    }
}

/// Componentwise real power.
pub open spec fn vpowf(a: Vector, p: int) -> Vector {
    Vector {
        x: powf_fx(a.x as int, p) as i64,
        y: powf_fx(a.y as int, p) as i64,
        z: powf_fx(a.z as int, p) as i64,
    }
}

/// The linear-light color a display color denotes: each channel divided
/// by 255.
pub open spec fn vector_of_color(c: Color) -> Vector {
    Vector {
        x: div_fx(c.red * FX_ONE, 255 * FX_ONE) as i64,
        y: div_fx(c.green * FX_ONE, 255 * FX_ONE) as i64,
        z: div_fx(c.blue * FX_ONE, 255 * FX_ONE) as i64,
    }
}

impl Vector {
    /// The origin.
    pub fn zero() -> (r: Vector)
        ensures
            r == (Vector { x: 0i64, y: 0i64, z: 0i64 }),
    {
        Vector { x: 0, y: 0, z: 0 }
    }

    /// A vector from its three components.
    pub fn new(x: i64, y: i64, z: i64) -> (r: Vector)
        ensures
            r == (Vector { x, y, z }),
    {
        Vector { x, y, z }
    }

    /// Inner product with another vector.
    pub fn dot(&self, other: &Vector) -> (r: i64)
        ensures
            r == vdot(*self, *other),
    {
        let px = fx_mul(self.x, other.x);
        let py = fx_mul(self.y, other.y);
        let pz = fx_mul(self.z, other.z);
        fx_add(fx_add(px, py), pz)
    }

    /// Euclidean length.
    pub fn norm(&self) -> (r: i64)
        ensures
            r == vnorm(*self),
    {
        fx_sqrt(self.dot(self))
    }

    /// This vector scaled to unit length; the zero vector stays zero.
    pub fn normalized(&self) -> (r: Vector)
        ensures
            r == vnormalized(*self),
    {
        self.div(self.norm())
    }

    /// Componentwise magnitude.
    pub fn abs(&self) -> (r: Vector)
        ensures
            r == vabs(*self),
    {
        Vector {
            x: crate::fixed::fx_abs(self.x),
            y: crate::fixed::fx_abs(self.y),
            z: crate::fixed::fx_abs(self.z),
        }
    }

    /// Componentwise maximum against one scalar.
    pub fn max(&self, max: i64) -> (r: Vector)
        ensures
            r == vmax(*self, max as int),
    {
        Vector {
            x: fx_max(self.x, max),
            y: fx_max(self.y, max),
            z: fx_max(self.z, max),
        }
    }

    /// Componentwise real power.
    pub fn powf(&self, n: i64) -> (r: Vector)
        ensures
            r == vpowf(*self, n as int),
    {
        Vector { x: fx_powf(self.x, n), y: fx_powf(self.y, n), z: fx_powf(self.z, n) }
    }

    /// Componentwise saturating sum.
    pub fn add(self, rhs: Vector) -> (r: Vector)
        ensures
            r == vadd(self, rhs),
    {
        Vector { x: fx_add(self.x, rhs.x), y: fx_add(self.y, rhs.y), z: fx_add(self.z, rhs.z) }
    }

    /// Componentwise saturating difference.
    pub fn sub(self, rhs: Vector) -> (r: Vector)
        ensures
            r == vsub(self, rhs),
    {
        Vector {
            x: crate::fixed::fx_sub(self.x, rhs.x),
            y: crate::fixed::fx_sub(self.y, rhs.y),
            z: crate::fixed::fx_sub(self.z, rhs.z),
        }
    }

    /// This vector scaled by a scalar.
    pub fn mul(self, rhs: i64) -> (r: Vector)
        ensures
            r == vscale(self, rhs as int),
    {
        Vector { x: fx_mul(self.x, rhs), y: fx_mul(self.y, rhs), z: fx_mul(self.z, rhs) }
    }

    /// This vector reversed, as a scaling by minus one.
    pub fn neg(self) -> (r: Vector)
        ensures
            r == vscale(self, -(FX_ONE as int)),
    {
        self.mul(-FX_ONE)
    }

    /// This vector divided by a scalar; a zero divisor yields zero
    /// components.
    pub fn div(self, rhs: i64) -> (r: Vector)
        ensures
            r == vdiv(self, rhs as int),
    {
        Vector { x: fx_div(self.x, rhs), y: fx_div(self.y, rhs), z: fx_div(self.z, rhs) }
    }

    /// Componentwise product with another vector.
    pub fn mul_components(self, rhs: Vector) -> (r: Vector)
        ensures
            r == vmul_components(self, rhs),
    {
        Vector { x: fx_mul(self.x, rhs.x), y: fx_mul(self.y, rhs.y), z: fx_mul(self.z, rhs.z) }
    }

    /// The linear-light color a display color denotes.
    pub fn from_color(color: Color) -> (r: Vector)
        ensures
            r == vector_of_color(color),
    {
        let full: i64 = 255 * FX_ONE;
        Vector {
            x: fx_div(crate::fixed::fx_of_usize(color.red as usize), full),
            y: fx_div(crate::fixed::fx_of_usize(color.green as usize), full),
            z: fx_div(crate::fixed::fx_of_usize(color.blue as usize), full),
        }
    }

    /// The vector with one unit in every component.
    pub fn unit() -> (r: Vector)
        ensures
            r == (Vector { x: FX_ONE, y: FX_ONE, z: FX_ONE }),
    {
        Vector { x: FX_ONE, y: FX_ONE, z: FX_ONE }
    }
}

} // verus!
