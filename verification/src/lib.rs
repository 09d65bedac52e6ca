//! A verified sphere-tracing renderer over implicit surfaces.
//!
//! Scenes are built from signed-distance shapes (spheres, boxes, and
//! smooth-minimum composites), lit by directional lights, and rendered
//! by marching view rays with shadows, specular highlights, bounded
//! reflection recursion, and a glow for near misses.
//!
//! All arithmetic is fixed point (`i64` scalars at 2^20 units per one),
//! so every computation is total and fully determined: results are
//! clamped into range instead of overflowing, division by zero and the
//! logarithm of zero have defined values, and no NaN or undefined
//! comparison exists anywhere.  Every function's result is pinned by its
//! contract, and the renderer's output buffer is proved to be exactly
//! the pixel function of the scene.

use vstd::prelude::*;

pub mod camera;
pub mod color;
pub mod fixed;
pub mod light;
pub mod material;
pub mod object;
pub mod scene;
pub mod vector;

verus! {

} // verus!
