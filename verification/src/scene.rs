//! The scene and its renderer: sphere tracing with direct lighting,
//! shadows, specular highlights, reflections, a glow for near misses,
//! and multi-sample antialiasing.
//!
//! Every quantity is a fixed-point scalar, so every decision in the
//! marcher is fully determined: there is no NaN and no undefined
//! comparison anywhere in the pipeline.

use vstd::prelude::*;
use vstd::arithmetic::div_mod::{lemma_fundamental_div_mod, lemma_mod_division_less_than_divisor};
use crate::camera::{camera_sample_ray, Camera};
use crate::color::{color_of_vector, quantize, Color};
use crate::fixed::{
    div_fx, exp_fx, fx_abs, fx_div, fx_exp, fx_max, fx_min, fx_mul, fx_powf, fx_sub, mag, max_i,
    min_i, mul_fx, powf_fx, sat, FX_ONE,
};
use crate::light::{light_color, light_direction, DirectionalLight, Light};
use crate::material::Material;
use crate::object::{
    object_distance, object_material, object_normal, object_wf, BlendObjects, BoxShape, Object,
    Sphere,
};
use crate::vector::{
    vadd, vdiv, vdot, vmul_components, vnormalized, vpowf, vscale, vsub, Vector,
};

verus! {

/// The bound on march iterations within one ray cast.
pub const MARCH_STEPS: usize = 1000;

/// The starting value of the closest-approach tracker: one billion units.
pub const INIT_CLOSEST: i64 = 1048576000000000;

/// Distances of closest approach below this feed the glow; about 0.2.
pub const GLOW_DISTANCE: i64 = 209715;

/// Peak glow brightness; about 0.05.
pub const GLOW_INTENSITY: i64 = 52429;

/// Decay coefficient of the glow: minus seven in units.
pub const GLOW_FALLOFF: i64 = -7340032;

/// The gamma-encoding exponent, about 1/2.2.
pub const GAMMA_EXP: i64 = 476625;

/// A scene: camera, shapes, lights, the background color, and the
/// renderer's tolerances.
#[derive(Debug)]
pub struct Scene {
    pub background_color: Vector,
    pub camera: Camera,
    pub objects: Vec<Object>,
    pub lights: Vec<Light>,
    pub epsilon: i64,
    pub max_depth: i64,
    pub max_distance: i64,
}

/// Every shape in the scene is geometrically well formed.
pub open spec fn scene_wf(s: Scene) -> bool {
    forall|i: int| 0 <= i < s.objects@.len() ==> object_wf(#[trigger] s.objects@[i])
}

/// The first-minimum shape among the first `i` shapes: its index and its
/// distance from `p`, or index -1 when there is none.  A later shape
/// displaces the running minimum only with a strictly smaller distance.
pub open spec fn closest_rec(objects: Seq<Object>, p: Vector, i: nat) -> (int, int)
    decreases i,
{
    if i == 0 || i > objects.len() {
        (-1int, 0int)
    } else {
        let prev = closest_rec(objects, p, (i - 1) as nat);
        let d = object_distance(objects[i - 1], p);
        if prev.0 < 0 || d < prev.1 {
            (i - 1, d)
        } else {
            prev
        }
    }
}

/// The first-minimum shape of the whole scene as seen from `p`.
pub open spec fn scene_closest(s: Scene, p: Vector) -> (int, int) {
    closest_rec(s.objects@, p, s.objects@.len())
}

/// What one ray march ends in: a surface hit, or a miss carrying the
/// closest approach seen on the way (for the glow).
#[derive(Debug, Clone, Copy)]
pub enum MarchResult {
    Hit { point: Vector, distance: i64, index: usize },
    Miss { closest: i64 },
}

/// The march from `point` along `direction` with `steps` iterations
/// left.  Each step finds the nearest surface; within `epsilon` it is a
/// hit, beyond `max_distance` the ray has escaped, otherwise the ray
/// advances by the distance itself (a safe step for a distance field).
pub open spec fn spec_march(s: Scene, direction: Vector, point: Vector, closest: i64, steps: nat) -> MarchResult
    decreases steps,
{
    if steps == 0 {
        MarchResult::Miss { closest }
    } else {
        let c = scene_closest(s, point);
        if c.0 < 0 {
            MarchResult::Miss { closest }
        } else if c.1 < s.epsilon {
            MarchResult::Hit { point, distance: c.1 as i64, index: c.0 as usize }
        } else if c.1 > s.max_distance {
            MarchResult::Miss { closest }
        } else {
            spec_march(
                s,
                direction,
                vadd(point, vscale(direction, c.1)),
                min_i(c.1, closest as int) as i64,
                (steps - 1) as nat,
            )
        }
    }
}

/// What one light adds at a hit: nothing when a shadow probe toward the
/// light strikes anything; otherwise the light's color filtering the
/// diffuse term plus the specular highlight.  The specular view vector is
/// taken from the ray's own origin, for consistency across reflections.
pub open spec fn spec_light_contribution(
    s: Scene,
    l: Light,
    origin: Vector,
    hit_position: Vector,
    normal: Vector,
    material: Material,
    depth: int,
) -> Vector
    decreases depth, 0int, 0nat,
{
    if depth <= 0 {
        Vector { x: 0i64, y: 0i64, z: 0i64 }
    } else {
        let towards_light = light_direction(l, hit_position);
        let offset_shadow_point = vadd(
            hit_position,
            vdiv(vscale(towards_light, FX_ONE as int), sat(mag(vdot(towards_light, normal)))),
        );
        if spec_cast_ray(s, offset_shadow_point, towards_light, min_i(1, depth - 1)) is Some {
            Vector { x: 0i64, y: 0i64, z: 0i64 }
        } else {
            let ambient = vscale(material.color, max_i(vdot(towards_light, normal), 0));
            let reflection = vsub(
                vscale(vscale(normal, 2 * FX_ONE), vdot(normal, towards_light)),
                towards_light,
            );
            let sp = powf_fx(
                max_i(vdot(vnormalized(vsub(origin, hit_position)), reflection), 0),
                material.specular_power as int,
            );
            let specular = vscale(material.color, sp);
            vmul_components(
                light_color(l),
                vadd(ambient, vscale(specular, material.specular_coeff as int)),
            )
        }
    }
}

/// The lighting at a hit: the contributions of the first `i` lights,
/// summed in order.
pub open spec fn spec_shade_lights(
    s: Scene,
    origin: Vector,
    hit_position: Vector,
    normal: Vector,
    material: Material,
    depth: int,
    i: nat,
) -> Vector
    decreases depth, 0int, i,
{
    if i == 0 || i > s.lights@.len() || depth <= 0 {
        Vector { x: 0i64, y: 0i64, z: 0i64 }
    } else {
        vadd(
            spec_shade_lights(s, origin, hit_position, normal, material, depth, (i - 1) as nat),
            spec_light_contribution(
                s,
                s.lights@[i - 1],
                origin,
                hit_position,
                normal,
                material,
                depth,
            ),
        )
    }
}

/// The color a hit resolves to: direct lighting over all lights, and,
/// for a reflective material, a recursive reflection blended in by the
/// reflection coefficient.  The hit position is corrected outward along
/// the ray so that secondary rays do not start inside the surface.
pub open spec fn spec_shade(
    s: Scene,
    origin: Vector,
    direction: Vector,
    point: Vector,
    distance: i64,
    index: int,
    depth: int,
) -> Vector
    decreases depth, 1int, 0nat,
{
    if depth <= 0 {
        Vector { x: 0i64, y: 0i64, z: 0i64 }
    } else {
        let o = s.objects@[index];
        let material = object_material(o, point);
        let normal = object_normal(o, point);
        let hit_position = vadd(point, vscale(vnormalized(direction), sat(s.epsilon - distance)));
        let color = spec_shade_lights(
            s,
            origin,
            hit_position,
            normal,
            material,
            depth,
            s.lights@.len(),
        );
        if material.reflection_coeff <= 0 {
            color
        } else {
            let towards_origin = vnormalized(vsub(origin, hit_position));
            let reflection = vnormalized(
                vsub(
                    vscale(vscale(normal, 2 * FX_ONE), vdot(normal, towards_origin)),
                    towards_origin,
                ),
            );
            let offset_reflection_point = vadd(
                hit_position,
                vscale(vscale(reflection, 2 * FX_ONE), s.epsilon as int),
            );
            match spec_cast_ray(s, offset_reflection_point, reflection, depth - 1) {
                Option::Some(rc) => vadd(
                    vscale(color, sat(FX_ONE - material.reflection_coeff)),
                    vscale(rc, material.reflection_coeff as int),
                ),
                Option::None => color,
            }
        }
    }
}

/// One full ray cast: march; on a hit, shade; on a miss, the glow for a
/// near miss on a primary ray, else nothing.  A spent recursion budget
/// (`depth <= 0`) yields nothing at once.
pub open spec fn spec_cast_ray(s: Scene, origin: Vector, direction: Vector, depth: int) -> Option<
    Vector,
>
    decreases depth, 2int, 0nat,
{
    if depth <= 0 {
        Option::None
    } else {
        match spec_march(s, direction, origin, INIT_CLOSEST, MARCH_STEPS as nat) {
            MarchResult::Hit { point, distance, index } => Option::Some(
                spec_shade(s, origin, direction, point, distance, index as int, depth),
            ),
            MarchResult::Miss { closest } => {
                if closest < GLOW_DISTANCE && depth >= s.max_depth {
                    Option::Some(
                        vscale(
                            vscale(
                                Vector { x: FX_ONE, y: FX_ONE, z: FX_ONE },
                                GLOW_INTENSITY as int,
                            ),
                            exp_fx(div_fx(mul_fx(GLOW_FALLOFF as int, closest as int), GLOW_DISTANCE as int)),
                        ),
                    )
                } else {
                    Option::None
                }
            },
        }
    }
}

/// The linear color of one antialiasing sample of a pixel: a full ray
/// cast, with the background color standing in for a miss.
pub open spec fn sample_color(s: Scene, x: int, y: int, k: nat) -> Vector {
    let ray = camera_sample_ray(s.camera, x, y, k);
    match spec_cast_ray(s, ray.0, ray.1, s.max_depth as int) {
        Option::Some(c) => c,
        Option::None => s.background_color,
    }
}

/// The sum of the first `i` sample colors of a pixel, in table order.
pub open spec fn sample_sum(s: Scene, x: int, y: int, i: nat) -> Vector
    decreases i,
{
    if i == 0 {
        Vector { x: 0i64, y: 0i64, z: 0i64 }
    } else {
        vadd(sample_sum(s, x, y, (i - 1) as nat), sample_color(s, x, y, (i - 1) as nat))
    }
}

/// The linear color of a pixel: the mean of its five samples.
pub open spec fn pixel_color(s: Scene, x: int, y: int) -> Vector {
    vdiv(sample_sum(s, x, y, 5), 5 * FX_ONE)
}

/// The display color of a pixel: the linear pixel color gamma-encoded
/// and quantized.
pub open spec fn pixel_bytes(s: Scene, x: int, y: int) -> Color {
    color_of_vector(vpowf(pixel_color(s, x, y), GAMMA_EXP as int))
}

/// The three bytes of pixel (`x`, `y`) stand at their row-major place in
/// the buffer.
pub open spec fn pixel_ok(s: Scene, buf: Seq<u8>, w: int, x: int, y: int) -> bool {
    let c = pixel_bytes(s, x, y);
    &&& buf[3 * (y * w + x)] == c.red
    &&& buf[3 * (y * w + x) + 1] == c.green
    &&& buf[3 * (y * w + x) + 2] == c.blue
}

impl Scene {
    /// An empty scene with the stock camera, a black background, and the
    /// stock tolerances.
    pub fn new() -> (r: Scene)
        ensures
            r.background_color == (Vector { x: 0i64, y: 0i64, z: 0i64 }),
            r.camera == (Camera {
                origin: Vector { x: 0i64, y: 0i64, z: -10485760i64 },
                size: (400usize, 400usize),
            }),
            r.objects@.len() == 0,
            r.lights@.len() == 0,
            r.epsilon == 1049,  // about 1e-3
            r.max_depth == 5,
            r.max_distance == 104857600,  // 100 in units
            scene_wf(r),
    {
        Scene {
            background_color: Vector::from_color(Color::new(0, 0, 0)),
            camera: Camera::new((400, 400)),
            objects: Vec::new(),
            lights: Vec::new(),
            epsilon: 1049,
            max_depth: 5,
            max_distance: 104857600,
        }
    }

    /// Replace the camera.
    pub fn set_camera(&mut self, camera: Camera)
        ensures
            final(self).camera == camera,
            final(self).background_color == old(self).background_color,
            final(self).objects == old(self).objects,
            final(self).lights == old(self).lights,
            final(self).epsilon == old(self).epsilon,
            final(self).max_depth == old(self).max_depth,
            final(self).max_distance == old(self).max_distance,
    {
        self.camera = camera;
    }

    /// Append a well-formed shape to the scene.
    pub fn add_object(&mut self, object: Object)
        requires
            object_wf(object),
        ensures
            final(self).objects@ == old(self).objects@.push(object),
            final(self).camera == old(self).camera,
            final(self).background_color == old(self).background_color,
            final(self).lights == old(self).lights,
            final(self).epsilon == old(self).epsilon,
            final(self).max_depth == old(self).max_depth,
            final(self).max_distance == old(self).max_distance,
            scene_wf(*old(self)) ==> scene_wf(*final(self)),
    {
        self.objects.push(object);
        proof {
            if scene_wf(*old(self)) {
                assert forall|i: int| 0 <= i < self.objects@.len() implies object_wf(
                    #[trigger] self.objects@[i],
                ) by {
                    if i < old(self).objects@.len() {
                        assert(self.objects@[i] == old(self).objects@[i]);
                    } else {
                        assert(self.objects@[i] == object);
                    }
                }
            }
        }
    }

    /// Append a light to the scene.
    pub fn add_light(&mut self, light: Light)
        ensures
            final(self).lights@ == old(self).lights@.push(light),
            final(self).camera == old(self).camera,
            final(self).background_color == old(self).background_color,
            final(self).objects == old(self).objects,
            final(self).epsilon == old(self).epsilon,
            final(self).max_depth == old(self).max_depth,
            final(self).max_distance == old(self).max_distance,
    {
        self.lights.push(light);
    }

    /// Fill the scene with the demonstration content: a sphere and a box
    /// smoothly blended, a large reflective sphere, a reflective floor
    /// box, and two directional lights.
    pub fn debug(&mut self)
        ensures
            final(self).camera == old(self).camera,
            final(self).background_color == old(self).background_color,
            final(self).epsilon == old(self).epsilon,
            final(self).max_depth == old(self).max_depth,
            final(self).max_distance == old(self).max_distance,
            final(self).objects@.len() == old(self).objects@.len() + 3,
            final(self).lights@.len() == old(self).lights@.len() + 2,
            scene_wf(*old(self)) ==> scene_wf(*final(self)),
    {
        let mut children: Vec<Object> = Vec::new();
        children.push(
            Object::Sphere(
                Sphere {
                    center: Vector::new(1258291, -1048576, -209715),  // (1.2, -1, -0.2)
                    radius: 1048576,
                    material: Material {
                        color: Vector::new(104857, 104857, 1048576),  // (0.1, 0.1, 1)
                        reflection_coeff: 0,
                        specular_coeff: 838861,
                        specular_power: 20971520,
                    },
                },
            ),
        );
        children.push(
            Object::BoxShape(
                BoxShape::new(
                    Vector::new(2097152, 0, 0),  // (2, 0, 0)
                    Vector::new(1048576, 1048576, 1048576),
                    Color::debug(),
                ),
            ),
        );
        let ghost cs = children@;
        let blend = Object::Blend(BlendObjects { objects: children, smooth_coef: 16777216 });
        proof {
            assert(object_wf(cs[0]));
            assert(object_wf(cs[1]));
            assert forall|i: int| 0 <= i < cs.len() implies object_wf(#[trigger] cs[i]) by {
                if i == 0 {
                    assert(object_wf(cs[0]));
                } else {
                    assert(i == 1);
                }
            }
            assert(object_wf(blend));
        }
        self.add_object(blend);
        self.add_object(
            Object::Sphere(
                Sphere {
                    center: Vector::new(-2097152, 0, 0),
                    radius: 2097152,
                    material: Material {
                        color: Vector::new(1048576, 41120, 41120),  // (1, 10/255, 10/255)
                        reflection_coeff: 209715,  // 0.2
                        specular_coeff: 996147,  // 0.95
                        specular_power: 36700160,  // 35
                    },
                },
            ),
        );
        // the floor box
        self.add_object(
            Object::BoxShape(
                BoxShape {
                    center: Vector::new(0, 10485760, 0),
                    size: Vector::new(10485760, 8388608, 10485760),  // (10, 8, 10)
                    material: Material {
                        color: Vector::new(104857, 104857, 104857),  // white at a tenth
                        reflection_coeff: 996147,
                        specular_coeff: 838861,
                        specular_power: 20971520,
                    },
                },
            ),
        );
        self.add_light(
            Light::Directional(
                DirectionalLight::new(
                    Vector::new(1048576, 104857, 524288),  // (1, 0.1, 0.5)
                    Vector::unit().mul(419430),  // two fifths of white
                ),
            ),
        );
        self.add_light(
            Light::Directional(
                DirectionalLight::new(
                    Vector::new(-104857, 1048576, 1048576),
                    Vector::new(419430, 104857, 524288).mul(104857),
                ),
            ),
        );
    }

    /// The nearest shape from `point`, first-minimum-wins, with its
    /// distance; `None` when the scene holds no shapes.
    fn closest_object(&self, point: Vector) -> (r: Option<(usize, i64)>)
        ensures
            match r {
                Some(p) => {
                    &&& scene_closest(*self, point).0 == p.0
                    &&& scene_closest(*self, point).1 == p.1
                    &&& p.0 < self.objects@.len()
                },
                None => scene_closest(*self, point).0 < 0,
            },
    {
        let mut best: Option<(usize, i64)> = None;
        let mut j: usize = 0;
        while j < self.objects.len()
            invariant
                0 <= j <= self.objects@.len(),
                match best {
                    Some(p) => {
                        &&& closest_rec(self.objects@, point, j as nat).0 == p.0
                        &&& closest_rec(self.objects@, point, j as nat).1 == p.1
                        &&& p.0 < j
                    },
                    None => closest_rec(self.objects@, point, j as nat).0 < 0,
                },
            decreases self.objects@.len() - j,
    {
            let d = self.objects[j].distance(point);
            match best {
                None => {
                    best = Some((j, d));
                },
                Some(p) => {
                    if d < p.1 {
                        best = Some((j, d));
                    }
                },
            }
            j = j + 1;
        }
        best
    }

    /// March a ray from `origin` along `direction` until it hits a
    /// surface, escapes, or runs out of steps.
    fn march(&self, direction: Vector, origin: Vector) -> (r: MarchResult)
        ensures
            r == spec_march(*self, direction, origin, INIT_CLOSEST, MARCH_STEPS as nat),
            match r {
                MarchResult::Hit { point, distance, index } => index < self.objects@.len(),
                MarchResult::Miss { closest } => true,
            },
    {
        let mut point = origin;
        let mut closest: i64 = INIT_CLOSEST;
        let mut steps: usize = MARCH_STEPS;
        while steps > 0
            invariant
                spec_march(*self, direction, point, closest, steps as nat) == spec_march(
                    *self,
                    direction,
                    origin,
                    INIT_CLOSEST,
                    MARCH_STEPS as nat,
                ),
            ensures
                steps == 0,
                spec_march(*self, direction, point, closest, steps as nat) == spec_march(
                    *self,
                    direction,
                    origin,
                    INIT_CLOSEST,
                    MARCH_STEPS as nat,
                ),
                (match spec_march(*self, direction, point, closest, steps as nat) {
                    MarchResult::Hit { point, distance, index } => false,
                    MarchResult::Miss { closest: c } => c == closest,
                }),
            decreases steps,
        {
            match self.closest_object(point) {
                None => {
                    proof {
                        assert(spec_march(*self, direction, point, closest, steps as nat)
                            == (MarchResult::Miss { closest }));
                    }
                    return MarchResult::Miss { closest };
                },
                Some(p) => {
                    let d: i64 = p.1;
                    if d < self.epsilon {
                        return MarchResult::Hit { point, distance: d, index: p.0 };
                    }
                    if d > self.max_distance {
                        return MarchResult::Miss { closest };
                    }
                    closest = fx_min(d, closest);
                    point = point.add(direction.mul(d));
                    steps = steps - 1;
                },
            }
        }
        MarchResult::Miss { closest }
    }

    /// Resolve the color of a hit: direct lighting with shadow probes,
    /// then a recursive reflection for reflective materials.
    #[verifier::loop_isolation(false)]
    #[verifier::rlimit(60)]
    fn shade(
        &self,
        origin: Vector,
        direction: Vector,
        point: Vector,
        distance: i64,
        index: usize,
        depth: i64,
    ) -> (r: Vector)
        requires
            scene_wf(*self),
            index < self.objects@.len(),
            depth >= 1,
        ensures
            r == spec_shade(*self, origin, direction, point, distance, index as int, depth as int),
        decreases depth, 1int, 0nat,
    {
        let material = self.objects[index].get_material(point);
        let normal = self.objects[index].normal(point);
        let hit_position = point.add(direction.normalized().mul(fx_sub(self.epsilon, distance)));
        let mut color = Vector::zero();
        let mut i: usize = 0;
        while i < self.lights.len()
            invariant
                0 <= i <= self.lights@.len(),
                color == spec_shade_lights(
                    *self,
                    origin,
                    hit_position,
                    normal,
                    material,
                    depth as int,
                    i as nat,
                ),
            decreases self.lights@.len() - i,
        {
            let towards_light = self.lights[i].get_direction(hit_position);
            let offset_shadow_point = hit_position.add(
                towards_light.mul(FX_ONE).div(fx_abs(towards_light.dot(&normal))),
            );
            let shadow_depth: i64 = fx_min(1, depth - 1);
            let shadow = self.cast_ray(offset_shadow_point, towards_light, shadow_depth);
            let contribution = if shadow.is_none() {
                let ambient = material.color.mul(fx_max(towards_light.dot(&normal), 0));
                let reflection = normal.mul(2 * FX_ONE).mul(normal.dot(&towards_light)).sub(
                    towards_light,
                );
                let sp = fx_powf(
                    fx_max(origin.sub(hit_position).normalized().dot(&reflection), 0),
                    material.specular_power,
                );
                let specular = material.color.mul(sp);
                self.lights[i].get_color().mul_components(
                    ambient.add(specular.mul(material.specular_coeff)),
                )
            } else {
                Vector::zero()
            };
            proof {
                // one unfolding of the fold over lights
                assert(spec_shade_lights(
                    *self,
                    origin,
                    hit_position,
                    normal,
                    material,
                    depth as int,
                    (i + 1) as nat,
                ) == vadd(
                    spec_shade_lights(
                        *self,
                        origin,
                        hit_position,
                        normal,
                        material,
                        depth as int,
                        i as nat,
                    ),
                    spec_light_contribution(
                        *self,
                        self.lights@[i as int],
                        origin,
                        hit_position,
                        normal,
                        material,
                        depth as int,
                    ),
                ));
            }
            color = color.add(contribution);
            i = i + 1;
        }
        if material.reflection_coeff <= 0 {
            return color;
        }
        let towards_origin = origin.sub(hit_position).normalized();
        let reflection = normal.mul(2 * FX_ONE).mul(normal.dot(&towards_origin)).sub(
            towards_origin,
        ).normalized();
        let offset_reflection_point = hit_position.add(reflection.mul(2 * FX_ONE).mul(self.epsilon));
        match self.cast_ray(offset_reflection_point, reflection, depth - 1) {
            Option::Some(rc) => color.mul(fx_sub(FX_ONE, material.reflection_coeff)).add(
                rc.mul(material.reflection_coeff),
            ),
            Option::None => color,
        }
    }

    /// Cast one ray: march it through the scene; shade a hit, apply the
    /// glow to a primary-ray near miss, and answer nothing otherwise.
    pub fn cast_ray(&self, origin: Vector, direction: Vector, depth: i64) -> (r: Option<Vector>)
        requires
            scene_wf(*self),
        ensures
            r == spec_cast_ray(*self, origin, direction, depth as int),
        decreases depth, 2int, 0nat,
    {
        if depth <= 0 {
            return None;
        }
        match self.march(direction, origin) {
            MarchResult::Hit { point, distance, index } => Some(
                self.shade(origin, direction, point, distance, index, depth),
            ),
            MarchResult::Miss { closest } => {
                if closest < GLOW_DISTANCE && depth >= self.max_depth {
                    Some(
                        Vector::unit().mul(GLOW_INTENSITY).mul(
                            fx_exp(fx_div(fx_mul(GLOW_FALLOFF, closest), GLOW_DISTANCE)),
                        ),
                    )
                } else {
                    None
                }
            },
        }
    }

    /// The linear color of pixel (`x`, `y`): five sample rays cast and
    /// averaged, misses taking the background color.
    #[verifier::loop_isolation(false)]
    #[verifier::rlimit(80)]
    pub fn compute_color_at(&self, x: usize, y: usize) -> (r: Vector)
        requires
            scene_wf(*self),
        ensures
            r == pixel_color(*self, x as int, y as int),
    {
        let rays = self.camera.get_rays(x, y, 5);
        let mut su = Vector::zero();
        let mut k: usize = 0;
        while k < rays.len()
            invariant
                0 <= k <= 5,
                su == sample_sum(*self, x as int, y as int, k as nat),
            decreases 5 - k,
        {
            let ray = rays[k];
            let c = match self.cast_ray(ray.0, ray.1, self.max_depth) {
                Option::Some(c) => c,
                Option::None => self.background_color,
            };
            proof {
                assert(sample_sum(*self, x as int, y as int, (k + 1) as nat) == vadd(
                    sample_sum(*self, x as int, y as int, k as nat),
                    sample_color(*self, x as int, y as int, k as nat),
                ));
            }
            su = su.add(c);
            k = k + 1;
        }
        su.div(5 * FX_ONE)
    }

    /// Render the scene: one display pixel for every point of the
    /// viewport, row-major from the top-left, three bytes per pixel.
    #[verifier::loop_isolation(false)]
    #[verifier::rlimit(80)]
    pub fn render(&self, width: usize, height: usize) -> (buffer: Vec<u8>)
        requires
            scene_wf(*self),
        ensures
            buffer@.len() == 3 * (width as int) * (height as int),
            forall|xi: int, yi: int|
                0 <= xi < width && 0 <= yi < height ==> #[trigger] pixel_ok(
                    *self,
                    buffer@,
                    width as int,
                    xi,
                    yi,
                ),
    {
        let mut buffer: Vec<u8> = Vec::new();
        let mut y: usize = 0;
        while y < height
            invariant
                0 <= y <= height,
                buffer@.len() == 3 * (width as int) * (y as int),
                forall|xi: int, yi: int|
                    0 <= xi < width && 0 <= yi < y ==> #[trigger] pixel_ok(
                        *self,
                        buffer@,
                        width as int,
                        xi,
                        yi,
                    ),
            decreases height - y,
        {
            let mut x: usize = 0;
            while x < width
                invariant
                    0 <= x <= width,
                    y < height,
                    buffer@.len() == 3 * (width as int) * (y as int) + 3 * (x as int),
                    forall|xi: int, yi: int|
                        0 <= xi < width && 0 <= yi < y ==> #[trigger] pixel_ok(
                            *self,
                            buffer@,
                            width as int,
                            xi,
                            yi,
                        ),
                    forall|xi: int|
                        0 <= xi < x ==> #[trigger] pixel_ok(
                            *self,
                            buffer@,
                            width as int,
                            xi,
                            y as int,
                        ),
                decreases width - x,
            {
                let ghost old_buf = buffer@;
                let colorf = self.compute_color_at(x, y);
                let colorg = colorf.powf(GAMMA_EXP);
                let color = Color::from_vector(colorg);
                buffer.push(color.red);
                buffer.push(color.green);
                buffer.push(color.blue);
                proof {
                    let w = width as int;
                    let xx = x as int;
                    let yy = y as int;
                    assert(3 * (yy * w + xx) == 3 * w * yy + 3 * xx) by (nonlinear_arith);
                    assert(3 * (yy * w + xx) == old_buf.len());
                    assert forall|xi: int, yi: int|
                        0 <= xi < width && 0 <= yi < yy implies #[trigger] pixel_ok(
                        *self,
                        buffer@,
                        w,
                        xi,
                        yi,
                    ) by {
                        assert(pixel_ok(*self, old_buf, w, xi, yi));
                        assert(3 * (yi * w + xi) + 2 < 3 * w * yy) by (nonlinear_arith)
                            requires
                                0 <= xi < w,
                                0 <= yi,
                                yi + 1 <= yy,
                        ;
                    }
                    assert forall|xi: int| 0 <= xi < xx implies #[trigger] pixel_ok(
                        *self,
                        buffer@,
                        w,
                        xi,
                        y as int,
                    ) by {
                        assert(pixel_ok(*self, old_buf, w, xi, y as int));
                        assert(3 * (yy * w + xi) + 2 < 3 * w * yy + 3 * xx);
                    }
                    assert(pixel_ok(*self, buffer@, w, xx, yy));
                }
                x = x + 1;
            }
            proof {
                assert(3 * (width as int) * (y as int + 1) == 3 * (width as int) * (y as int) + 3
                    * (width as int)) by (nonlinear_arith);
            }
            y = y + 1;
        }
        buffer
    }
}

/// A ray whose origin already sees every surface beyond `max_distance`
/// (or a scene with no shapes at all) resolves to nothing: no hit, no
/// glow, and, this being a total function, no failure of any kind.
pub proof fn lemma_far_ray_yields_nothing(s: Scene, origin: Vector, direction: Vector, depth: int)
    requires
        s.epsilon <= s.max_distance,
        scene_closest(s, origin).0 < 0 || scene_closest(s, origin).1 > s.max_distance,
    ensures
        spec_cast_ray(s, origin, direction, depth) is None,
{
    if depth > 0 {
        assert(spec_march(s, direction, origin, INIT_CLOSEST, MARCH_STEPS as nat)
            == (MarchResult::Miss { closest: INIT_CLOSEST }));
    }
}

/// A ray that misses without ever coming within the glow distance of a
/// surface resolves to nothing: the caller substitutes the background,
/// never a synthetic value.
pub proof fn lemma_distant_miss_yields_nothing(
    s: Scene,
    origin: Vector,
    direction: Vector,
    depth: int,
)
    requires
        spec_march(s, direction, origin, INIT_CLOSEST, MARCH_STEPS as nat) matches
            MarchResult::Miss { closest } && closest >= GLOW_DISTANCE,
    ensures
        spec_cast_ray(s, origin, direction, depth) is None,
{
}

/// The glow is reserved for primary rays: below the scene's full
/// recursion budget a miss resolves to nothing, however close the ray
/// came.
pub proof fn lemma_no_glow_within_recursion(s: Scene, origin: Vector, direction: Vector, depth: int)
    requires
        depth < s.max_depth,
        spec_march(s, direction, origin, INIT_CLOSEST, MARCH_STEPS as nat) is Miss,
    ensures
        spec_cast_ray(s, origin, direction, depth) is None,
{
}

/// A spent recursion budget resolves to nothing at once: the reflection
/// and shadow recursion can descend at most `depth` levels.
pub proof fn lemma_cast_ray_depth_exhausted(s: Scene, origin: Vector, direction: Vector, depth: int)
    requires
        depth <= 0,
    ensures
        spec_cast_ray(s, origin, direction, depth) is None,
{
}

/// A light whose shadow probe strikes anything contributes nothing at
/// all to the shading of the hit: its diffuse and specular terms are
/// dropped entirely.
pub proof fn lemma_shadowed_light_contributes_nothing(
    s: Scene,
    l: Light,
    origin: Vector,
    hit_position: Vector,
    normal: Vector,
    material: Material,
    depth: int,
)
    requires
        depth >= 1,
        spec_cast_ray(
            s,
            vadd(
                hit_position,
                vdiv(
                    vscale(light_direction(l, hit_position), FX_ONE as int),
                    sat(mag(vdot(light_direction(l, hit_position), normal))),
                ),
            ),
            light_direction(l, hit_position),
            min_i(1, depth - 1),
        ) is Some,
    ensures
        spec_light_contribution(s, l, origin, hit_position, normal, material, depth) == (Vector {
            x: 0i64,
            y: 0i64,
            z: 0i64,
        }),
{
}

/// Gamma encoding followed by 8-bit quantization fixes the endpoints of
/// the channel range exactly: a black channel encodes to byte 0 and a
/// full white channel to byte 255.
pub proof fn lemma_gamma_endpoints()
    ensures
        quantize(powf_fx(0, GAMMA_EXP as int)) == 0,
        quantize(powf_fx(FX_ONE as int, GAMMA_EXP as int)) == 255,
{
    vstd::arithmetic::mul::lemma_mul_basics(255 * FX_ONE);
    vstd::arithmetic::mul::lemma_mul_basics(sat(-(GAMMA_EXP as int)));
    vstd::arithmetic::div_mod::lemma_div_of0(FX_ONE as int);
    crate::fixed::lemma_log2_fx_one();
    vstd::arithmetic::mul::lemma_mul_basics(GAMMA_EXP as int);
    crate::fixed::lemma_exp2_fx_zero();
    vstd::arithmetic::div_mod::lemma_div_by_multiple(255 * FX_ONE, FX_ONE as int);
}

/// Rendering is deterministic: any two buffers that satisfy `render`'s
/// contract for the same scene and viewport are equal byte for byte.
/// Since `render` promises exactly this contract of its result, two
/// renders of one immutable scene always produce identical output.
pub proof fn lemma_render_deterministic(s: Scene, w: int, h: int, b1: Seq<u8>, b2: Seq<u8>)
    requires
        w >= 0,
        h >= 0,
        b1.len() == 3 * w * h,
        b2.len() == 3 * w * h,
        forall|xi: int, yi: int|
            0 <= xi < w && 0 <= yi < h ==> #[trigger] pixel_ok(s, b1, w, xi, yi),
        forall|xi: int, yi: int|
            0 <= xi < w && 0 <= yi < h ==> #[trigger] pixel_ok(s, b2, w, xi, yi),
    ensures
        b1 == b2,
{
    assert forall|i: int| 0 <= i < b1.len() implies b1[i] == b2[i] by {
        let p = i / 3;
        let c = i % 3;
        lemma_fundamental_div_mod(i, 3);
        lemma_mod_division_less_than_divisor(i, 3);
        assert(0 <= p < w * h) by (nonlinear_arith)
            requires
                i == 3 * p + c,
                0 <= c < 3,
                0 <= i < 3 * w * h,
        ;
        let yi = p / w;
        let xi = p % w;
        lemma_fundamental_div_mod(p, w);
        lemma_mod_division_less_than_divisor(p, w);
        assert(0 <= yi < h) by (nonlinear_arith)
            requires
                p == w * yi + xi,
                0 <= xi < w,
                0 <= p < w * h,
        ;
        assert(pixel_ok(s, b1, w, xi, yi));
        assert(pixel_ok(s, b2, w, xi, yi));
        assert(i == 3 * (yi * w + xi) + c) by (nonlinear_arith)
            requires
                i == 3 * p + c,
                p == w * yi + xi,
        ;
    }
    assert(b1 =~= b2);
}

} // verus!
