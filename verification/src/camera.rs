//! The camera: a fixed eye position mapping pixel coordinates to view
//! rays, with a fixed sub-pixel offset table for antialiasing.

use vstd::prelude::*;
use crate::fixed::{div_fx, fx_add, fx_div, fx_of_usize, fx_sub, max_i, min_i, sat, FX_HALF, FX_ONE};
use crate::vector::{vnormalized, Vector};

verus! {

/// The view direction's forward component; larger narrows the field of
/// view.
pub const FOV_Z: i64 = 1572864;  // 1.5 in units

/// The eye position and the viewport size in pixels.
#[derive(Debug, Clone, Copy)]
pub struct Camera {
    pub origin: Vector,
    pub size: (usize, usize),
}

/// The normalized view direction for fixed-point pixel coordinates
/// (`xf`, `yf`): the pixel offset from the viewport center, over half the
/// larger viewport side, with the fixed forward component.
pub open spec fn camera_ray_dir(c: Camera, xf: int, yf: int) -> Vector {
    let max_len = div_fx(sat(max_i(c.size.0 as int, c.size.1 as int) * FX_ONE), 2 * FX_ONE);
    let half_w = div_fx(sat(c.size.0 * FX_ONE), 2 * FX_ONE);
    let half_h = div_fx(sat(c.size.1 * FX_ONE), 2 * FX_ONE);
    vnormalized(
        Vector {
            x: div_fx(sat(xf - half_w), max_len) as i64,
            y: div_fx(sat(yf - half_h), max_len) as i64,
            z: FOV_Z,
        },
    )
}

/// The fixed sub-pixel offset table: the pixel center and the four
/// half-pixel diagonal offsets.
pub open spec fn sample_offset(s: nat) -> (int, int) {
    if s == 0 {
        (0int, 0int)
    } else if s == 1 {
        (FX_HALF as int, FX_HALF as int)
    } else if s == 2 {
        (FX_HALF as int, -(FX_HALF as int))
    } else if s == 3 {
        (-(FX_HALF as int), -(FX_HALF as int))
    } else {
        (-(FX_HALF as int), FX_HALF as int)
    }
}

/// The ray for sample `s` of pixel (`x`, `y`): the eye position, and the
/// direction through the offset pixel coordinates.
pub open spec fn camera_sample_ray(c: Camera, x: int, y: int, s: nat) -> (Vector, Vector) {
    let o = sample_offset(s);
    (c.origin, camera_ray_dir(c, sat(sat(x * FX_ONE) + o.0), sat(sat(y * FX_ONE) + o.1)))
}

impl Camera {
    /// A camera at the fixed eye position, for a viewport of the given
    /// pixel size.
    pub fn new(size: (usize, usize)) -> (r: Camera)
        ensures
            r == (Camera {
                origin: Vector { x: 0i64, y: 0i64, z: -10485760i64 },  // z = -10
                size,
            }),
    {
        Camera { origin: Vector::new(0, 0, -10485760), size }
    }

    /// The normalized view direction for fixed-point pixel coordinates.
    fn ray_dir(&self, xf: i64, yf: i64) -> (r: Vector)
        ensures
            r == camera_ray_dir(*self, xf as int, yf as int),
    {
        let two: i64 = 2 * FX_ONE;
        let longer: usize = if self.size.0 >= self.size.1 {
            self.size.0
        } else {
            self.size.1
        };
        let max_len: i64 = fx_div(fx_of_usize(longer), two);
        let half_w: i64 = fx_div(fx_of_usize(self.size.0), two);
        let half_h: i64 = fx_div(fx_of_usize(self.size.1), two);
        Vector {
            x: fx_div(fx_sub(xf, half_w), max_len),
            y: fx_div(fx_sub(yf, half_h), max_len),
            z: FOV_Z,
        }.normalized()
    }

    /// The centered ray for pixel (`x`, `y`): origin and normalized
    /// direction.
    pub fn get_ray(&self, x: usize, y: usize) -> (r: (Vector, Vector))
        ensures
            r == camera_sample_ray(*self, x as int, y as int, 0),
    {
        (self.origin, self.ray_dir(fx_of_usize(x), fx_of_usize(y)))
    }

    /// The first `n_samples` (at most five) antialiasing rays for pixel
    /// (`x`, `y`), in table order.
    pub fn get_rays(&self, x: usize, y: usize, n_samples: usize) -> (r: Vec<(Vector, Vector)>)
        ensures
            r@.len() == min_i(n_samples as int, 5),
            forall|s: int|
                0 <= s < r@.len() ==> r@[s] == camera_sample_ray(
                    *self,
                    x as int,
                    y as int,
                    s as nat,
                ),
    {
        let count: usize = if n_samples <= 5 {
            n_samples
        } else {
            5
        };
        let xf: i64 = fx_of_usize(x);
        let yf: i64 = fx_of_usize(y);
        let mut res: Vec<(Vector, Vector)> = Vec::new();
        let mut s: usize = 0;
        while s < count
            invariant
                0 <= s <= count <= 5,
                xf == sat(x * FX_ONE),
                yf == sat(y * FX_ONE),
                res@.len() == s,
                forall|t: int|
                    0 <= t < s ==> res@[t] == camera_sample_ray(*self, x as int, y as int, t as nat),
            decreases count - s,
        {
            let dx: i64 = if s == 0 {
                0
            } else if s == 1 || s == 2 {
                FX_HALF
            } else {
                -FX_HALF
            };
            let dy: i64 = if s == 0 {
                0
            } else if s == 1 || s == 4 {
                FX_HALF
            } else {
                -FX_HALF
            };
            let dir = self.ray_dir(fx_add(xf, dx), fx_add(yf, dy));
            res.push((self.origin, dir));
            s = s + 1;
        }
        res
    }
}

} // verus!
