//! The shapes a scene can hold, each an implicit surface: a signed
//! distance, an outward normal derived numerically from it, and a
//! material.

use vstd::prelude::*;
use vstd::arithmetic::div_mod::{lemma_div_of0, lemma_div_pos_is_pos};
use vstd::arithmetic::mul::lemma_mul_basics;
use crate::fixed::{
    div_fx, exp2_fx, fx_add, fx_div, fx_exp2, fx_log2, fx_max, fx_min, fx_mul, fx_neg, fx_sub,
    lemma_exp2_fx_nonneg, lemma_exp2_fx_zero, lemma_log2_fx_nonneg, log2_fx, mag, max_i, min_i,
    mul_fx, sat, FX_MAX, FX_ONE,
};
use crate::material::{default_material, Material};
use crate::vector::{vabs, vadd, vmax, vnorm, vnormalized, vscale, vsub, vector_of_color, Vector};
use crate::color::Color;

verus! {

/// Step half-width of the central-difference gradient: about 1e-4.
pub const DERIVATIVE_EPSILON: i64 = 105;

/// Factor (2^12 in units) bringing the tiny gradient into range before
/// it is normalized.
pub const GRADIENT_SCALE: i64 = 4294967296;

/// A ball: all points within `radius` of `center`.
#[derive(Debug, Clone, Copy, PartialEq, Eq, Structural)]
pub struct Sphere {
    pub center: Vector,
    pub radius: i64,
    pub material: Material,
}

/// An axis-aligned box given by its center and half-extents.
#[derive(Debug, Clone, Copy, PartialEq, Eq, Structural)]
pub struct BoxShape {
    pub center: Vector,
    pub size: Vector,
    pub material: Material,
}

/// Several shapes merged by an exponential smooth minimum of their
/// distances; the sharpness grows with `smooth_coef`.
#[derive(Debug)]
pub struct BlendObjects {
    pub objects: Vec<Object>,
    pub smooth_coef: i64,
}

/// Any shape a scene can hold.
#[derive(Debug)]
pub enum Object {
    Sphere(Sphere),
    BoxShape(BoxShape),
    Blend(BlendObjects),
}

/// Signed distance from `p` to the sphere's surface.
pub open spec fn sphere_distance(s: Sphere, p: Vector) -> int {
    sat(vnorm(vsub(p, s.center)) - s.radius)
}

/// Signed distance from `p` to the box's surface (the standard box
/// distance: length of the componentwise excess, plus the negative
/// interior depth).
pub open spec fn box_distance(b: BoxShape, p: Vector) -> int {
    let q = vsub(vabs(vsub(p, b.center)), b.size);
    sat(vnorm(vmax(q, 0)) + min_i(max_i(q.x as int, max_i(q.y as int, q.z as int)), 0))
}

/// The smallest distance among the first `i` children.
pub open spec fn blend_child_min(objects: Seq<Object>, p: Vector, i: nat) -> int
    decreases objects, 0int, i,
{
    if i == 0 || i > objects.len() {
        0
    } else if i == 1 {
        object_distance(objects[0], p)
    } else {
        min_i(blend_child_min(objects, p, (i - 1) as nat), object_distance(objects[i - 1], p))
    }
}

/// Sum of the first `i` blend terms 2^(-k (d - base)), folded left to
/// right.  The distances enter shifted by the smallest one, so the
/// nearest child always contributes a full unit and the sum never
/// vanishes: the smooth minimum stays meaningful at any distance.
pub open spec fn blend_sum(objects: Seq<Object>, k: int, p: Vector, base: int, i: nat) -> int
    decreases objects, 0int, i,
{
    if i == 0 || i > objects.len() {
        0
    } else {
        sat(
            blend_sum(objects, k, p, base, (i - 1) as nat) + exp2_fx(
                mul_fx(sat(-k), sat(object_distance(objects[i - 1], p) - base)),
            ),
        )
    }
}

/// The smooth minimum the blend composite computes, in the min-shifted
/// form d_min - log2(sum of 2^(-k (d_i - d_min))) / k.  A composite with
/// no children behaves as empty space: its distance is the largest
/// representable scalar over k.
pub open spec fn blend_distance(b: BlendObjects, p: Vector) -> int
    decreases b, 1int, 0nat,
{
    let k = b.smooth_coef as int;
    if b.objects@.len() == 0 {
        div_fx(sat(-log2_fx(0)), k)
    } else {
        let base = blend_child_min(b.objects@, p, b.objects@.len());
        let total = blend_sum(b.objects@, k, p, base, b.objects@.len());
        sat(base + div_fx(sat(-log2_fx(total)), k))
    }
}

/// Signed distance from `p` to the shape's surface.
pub open spec fn object_distance(o: Object, p: Vector) -> int
    decreases o, 0int, 0nat,
{
    match o {
        Object::Sphere(s) => sphere_distance(s, p),
        Object::BoxShape(b) => box_distance(b, p),
        Object::Blend(b) => blend_distance(b, p),
    }
}

/// The material governing shading at `p`: a composite answers with its
/// first child's material (materials are not blended).
pub open spec fn object_material(o: Object, p: Vector) -> Material
    decreases o,
{
    match o {
        Object::Sphere(s) => s.material,
        Object::BoxShape(b) => b.material,
        Object::Blend(b) => if b.objects@.len() > 0 {
            object_material(b.objects@[0], p)
        } else {
            default_material(Vector { x: 0i64, y: 0i64, z: 0i64 })
        },
    }
}

/// Geometric well-formedness: positive radii, half-extents and blend
/// sharpness, and at least one child under every composite.
pub open spec fn object_wf(o: Object) -> bool
    decreases o,
{
    match o {
        Object::Sphere(s) => s.radius > 0,
        Object::BoxShape(b) => b.size.x > 0 && b.size.y > 0 && b.size.z > 0,
        Object::Blend(b) => b.smooth_coef > 0 && b.objects@.len() > 0 && (forall|i: int|
            0 <= i < b.objects@.len() ==> object_wf(#[trigger] b.objects@[i])),
    }
}

/// The central-difference gradient of the distance, scaled well into
/// range and normalized: the outward surface normal, meaningful near the
/// surface.  The scaling leaves the direction unchanged; without it the
/// squared length of so small a gradient would fall below one unit.
pub open spec fn object_normal(o: Object, p: Vector) -> Vector {
    let ex = Vector { x: DERIVATIVE_EPSILON, y: 0i64, z: 0i64 };
    let ey = Vector { x: 0i64, y: DERIVATIVE_EPSILON, z: 0i64 };
    let ez = Vector { x: 0i64, y: 0i64, z: DERIVATIVE_EPSILON };
    let dd = Vector {
        x: sat(object_distance(o, vadd(p, ex)) - object_distance(o, vsub(p, ex))) as i64,
        y: sat(object_distance(o, vadd(p, ey)) - object_distance(o, vsub(p, ey))) as i64,
        z: sat(object_distance(o, vadd(p, ez)) - object_distance(o, vsub(p, ez))) as i64,
    };
    vnormalized(vscale(dd, GRADIENT_SCALE as int))
}

/// Every distance a shape reports is a representable scalar.
pub proof fn lemma_object_distance_in_range(o: Object, p: Vector)
    ensures
        -FX_MAX <= object_distance(o, p) <= FX_MAX,
{
}

proof fn lemma_blend_child_min_le(objects: Seq<Object>, p: Vector, i: nat, j: int)
    requires
        0 <= j < i <= objects.len(),
    ensures
        blend_child_min(objects, p, i) <= object_distance(objects[j], p),
    decreases i,
{
    if j + 1 < i {
        lemma_blend_child_min_le(objects, p, (i - 1) as nat, j);
    }
}

proof fn lemma_blend_child_min_in_range(objects: Seq<Object>, p: Vector, i: nat)
    requires
        1 <= i <= objects.len(),
    ensures
        -FX_MAX <= blend_child_min(objects, p, i) <= FX_MAX,
    decreases i,
{
    lemma_object_distance_in_range(objects[i - 1], p);
    if i > 1 {
        lemma_blend_child_min_in_range(objects, p, (i - 1) as nat);
    }
}

proof fn lemma_blend_child_min_witness(objects: Seq<Object>, p: Vector, i: nat)
    requires
        1 <= i <= objects.len(),
    ensures
        exists|j: int|
            0 <= j < i && #[trigger] object_distance(objects[j], p) == blend_child_min(
                objects,
                p,
                i,
            ),
    decreases i,
{
    if i == 1 {
        assert(object_distance(objects[0], p) == blend_child_min(objects, p, 1));
    } else {
        lemma_blend_child_min_witness(objects, p, (i - 1) as nat);
        let last = object_distance(objects[i - 1], p);
        if last < blend_child_min(objects, p, (i - 1) as nat) {
            assert(object_distance(objects[i - 1], p) == blend_child_min(objects, p, i));
        } else {
            let j = choose|j: int|
                0 <= j < i - 1 && #[trigger] object_distance(objects[j], p) == blend_child_min(
                    objects,
                    p,
                    (i - 1) as nat,
                );
            assert(object_distance(objects[j], p) == blend_child_min(objects, p, i));
        }
    }
}

proof fn lemma_blend_sum_nonneg(objects: Seq<Object>, k: int, p: Vector, base: int, i: nat)
    ensures
        blend_sum(objects, k, p, base, i) >= 0,
    decreases i,
{
    if i != 0 && i <= objects.len() {
        lemma_blend_sum_nonneg(objects, k, p, base, (i - 1) as nat);
        lemma_exp2_fx_nonneg(mul_fx(sat(-k), sat(object_distance(objects[i - 1], p) - base)));
    }
}

proof fn lemma_blend_sum_total(objects: Seq<Object>, k: int, p: Vector, base: int, i: nat)
    requires
        i <= objects.len(),
        exists|j: int|
            0 <= j < i && #[trigger] object_distance(objects[j], p) == base,
    ensures
        blend_sum(objects, k, p, base, i) >= FX_ONE,
    decreases i,
{
    let j = choose|j: int| 0 <= j < i && #[trigger] object_distance(objects[j], p) == base;
    lemma_blend_sum_nonneg(objects, k, p, base, (i - 1) as nat);
    if j == i - 1 {
        lemma_mul_basics(sat(-k));
        lemma_div_of0(FX_ONE as int);
        assert(mul_fx(sat(-k), sat(object_distance(objects[i - 1], p) - base)) == 0);
        lemma_exp2_fx_zero();
    } else {
        assert(exists|jj: int|
            0 <= jj < i - 1 && #[trigger] object_distance(objects[jj], p) == base);
        lemma_blend_sum_total(objects, k, p, base, (i - 1) as nat);
        lemma_exp2_fx_nonneg(mul_fx(sat(-k), sat(object_distance(objects[i - 1], p) - base)));
    }
}

/// The smooth minimum never exceeds any of its parts: a composite's
/// distance lies at or below the distance of each of its children, so
/// blending only ever pulls surfaces closer together.
pub proof fn lemma_blend_distance_below_children(b: BlendObjects, p: Vector, j: int)
    requires
        b.smooth_coef > 0,
        0 <= j < b.objects@.len(),
    ensures
        blend_distance(b, p) <= object_distance(b.objects@[j], p),
{
    let k = b.smooth_coef as int;
    let objects = b.objects@;
    let n = objects.len();
    let base = blend_child_min(objects, p, n);
    lemma_blend_child_min_le(objects, p, n, j);
    lemma_blend_child_min_in_range(objects, p, n);
    lemma_blend_child_min_witness(objects, p, n);
    lemma_blend_sum_total(objects, k, p, base, n);
    let total = blend_sum(objects, k, p, base, n);
    lemma_log2_fx_nonneg(total);
    let e = sat(-log2_fx(total));
    if e < 0 {
        assert(e * FX_ONE < 0) by (nonlinear_arith)
            requires
                e < 0,
        ;
    } else {
        lemma_mul_basics(FX_ONE as int);
        assert(e == 0);
        assert(e * FX_ONE == 0) by (nonlinear_arith)
            requires
                e == 0,
        ;
    }
    lemma_div_pos_is_pos(mag(e * FX_ONE), mag(k));
    assert(div_fx(e, k) <= 0);
    assert(blend_distance(b, p) <= base);
}

impl Sphere {
    /// A sphere carrying the stock material in the given color.
    pub fn new(center: Vector, radius: i64, color: Color) -> (r: Sphere)
        ensures
            r == (Sphere { center, radius, material: default_material(vector_of_color(color)) }),
    {
        Sphere { center, radius, material: Material::default_color(Vector::from_color(color)) }
    }
}

impl BoxShape {
    /// A box carrying the stock material in the given color.
    pub fn new(center: Vector, size: Vector, color: Color) -> (r: BoxShape)
        ensures
            r == (BoxShape { center, size, material: default_material(vector_of_color(color)) }),
    {
        BoxShape { center, size, material: Material::default_color(Vector::from_color(color)) }
    }
}

impl Object {
    /// Signed distance from `point` to this shape's surface.
    #[verifier::loop_isolation(false)]
    pub fn distance(&self, point: Vector) -> (r: i64)
        ensures
            r == object_distance(*self, point),
        decreases *self, 0int, 0nat,
    {
        match self {
            Object::Sphere(s) => fx_sub(point.sub(s.center).norm(), s.radius),
            Object::BoxShape(b) => {
                let q = point.sub(b.center).abs().sub(b.size);
                fx_add(q.max(0).norm(), fx_min(fx_max(q.x, fx_max(q.y, q.z)), 0))
            },
            Object::Blend(b) => {
                let nk = fx_neg(b.smooth_coef);
                if b.objects.len() == 0 {
                    return fx_div(fx_neg(fx_log2(0)), b.smooth_coef);
                }
                let mut dists: Vec<i64> = Vec::new();
                let mut dmin: i64 = 0;
                let mut j: usize = 0;
                while j < b.objects.len()
                    invariant
                        0 <= j <= b.objects.len(),
                        dists@.len() == j,
                        forall|t: int|
                            0 <= t < j ==> dists@[t] == object_distance(b.objects@[t], point),
                        j >= 1 ==> dmin == blend_child_min(b.objects@, point, j as nat),
                    decreases b.objects.len() - j,
                {
                    let d = b.objects[j].distance(point);
                    dists.push(d);
                    if j == 0 {
                        dmin = d;
                    } else {
                        dmin = fx_min(dmin, d);
                    }
                    j = j + 1;
                }
                let ghost base = blend_child_min(b.objects@, point, b.objects@.len());
                let mut acc: i64 = 0;
                let mut t: usize = 0;
                while t < dists.len()
                    invariant
                        0 <= t <= dists@.len(),
                        acc == blend_sum(b.objects@, b.smooth_coef as int, point, base, t as nat),
                    decreases dists@.len() - t,
                {
                    acc = fx_add(acc, fx_exp2(fx_mul(nk, fx_sub(dists[t], dmin))));
                    t = t + 1;
                }
                fx_add(dmin, fx_div(fx_neg(fx_log2(acc)), b.smooth_coef))
            },
        }
    }

    /// The outward normal at `point`, as the normalized central-difference
    /// gradient of the distance.
    pub fn normal(&self, point: Vector) -> (r: Vector)
        ensures
            r == object_normal(*self, point),
    {
        let ex = Vector::new(DERIVATIVE_EPSILON, 0, 0);
        let ey = Vector::new(0, DERIVATIVE_EPSILON, 0);
        let ez = Vector::new(0, 0, DERIVATIVE_EPSILON);
        let dd = Vector {
            x: fx_sub(self.distance(point.add(ex)), self.distance(point.sub(ex))),
            y: fx_sub(self.distance(point.add(ey)), self.distance(point.sub(ey))),
            z: fx_sub(self.distance(point.add(ez)), self.distance(point.sub(ez))),
        };
        dd.mul(GRADIENT_SCALE).normalized()
    }

    /// The material governing shading at `point`.
    pub fn get_material(&self, point: Vector) -> (r: Material)
        requires
            object_wf(*self),
        ensures
            r == object_material(*self, point),
        decreases *self,
    {
        match self {
            Object::Sphere(s) => s.material,
            Object::BoxShape(b) => b.material,
            Object::Blend(b) => b.objects[0].get_material(point),
        }
    }
}

} // verus!
