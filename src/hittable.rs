//! Spheres and ordered collections of them, queried for the nearest hit.
use vstd::prelude::*;
use crate::fixed::{
    add_spec, div_spec, fx_add, fx_div, fx_mul, fx_sqrt, fx_sub, in_range, mul_spec, sqrt_spec,
    sub_spec,
};
use crate::material::Material;
use crate::ray::{at_spec, Ray};
use crate::vec3::{lemma_vadd_vsub_wf, vscale, div, dot, dot_spec, length_squared_spec, minus, vdiv, vsub, Point3, Vec3};

verus! {

/// Where a ray struck a surface: the point, the outward unit normal, the
/// ray parameter, and the material of the surface.
#[derive(Clone, Copy, Debug, PartialEq, Eq, Structural)]
pub struct HitRecord {
    pub point: Point3,
    pub normal: Vec3,
    pub t: i128,
    pub material: Material,
}

impl HitRecord {
    pub open spec fn wf(self) -> bool {
        self.point.wf() && self.normal.wf() && in_range(self.t as int) && self.material.wf()
    }
}

/// A sphere; a negative radius turns its normals inward, for hollow shells.
#[derive(Clone, Copy, Debug, PartialEq, Eq, Structural)]
pub struct Sphere {
    pub center: Point3,
    pub radius: i128,
    pub material: Material,
}

impl Sphere {
    pub open spec fn wf(self) -> bool {
        self.center.wf() && in_range(self.radius as int) && self.radius != 0 && self.material.wf()
    }

    pub fn new(center: Point3, radius: i128, material: Material) -> (s: Sphere)
        ensures
            s == (Sphere { center, radius, material }),
    {
        Sphere { center, radius, material }
    }
}

/// `|direction|^2`, the leading coefficient of the intersection quadratic.
pub open spec fn quad_a(s: Sphere, ray: Ray) -> int {
    length_squared_spec(ray.direction)
}

/// Half the middle coefficient of the intersection quadratic.
pub open spec fn quad_half_b(s: Sphere, ray: Ray) -> int {
    dot_spec(vsub(ray.origin, s.center), ray.direction)
}

pub open spec fn quad_c(s: Sphere, ray: Ray) -> int {
    sub_spec(
        length_squared_spec(vsub(ray.origin, s.center)),
        mul_spec(s.radius as int, s.radius as int),
    )
}

/// The quarter discriminant `half_b^2 - a c` of the intersection quadratic.
pub open spec fn discriminant(s: Sphere, ray: Ray) -> int {
    sub_spec(
        mul_spec(quad_half_b(s, ray), quad_half_b(s, ray)),
        mul_spec(quad_a(s, ray), quad_c(s, ray)),
    )
}

pub open spec fn near_root(s: Sphere, ray: Ray) -> int {
    div_spec(sub_spec(-quad_half_b(s, ray), sqrt_spec(discriminant(s, ray))), quad_a(s, ray))
}

pub open spec fn far_root(s: Sphere, ray: Ray) -> int {
    div_spec(add_spec(-quad_half_b(s, ray), sqrt_spec(discriminant(s, ray))), quad_a(s, ray))
}

pub open spec fn inside(t: int, t_min: int, t_max: int) -> bool {
    t_min < t < t_max
}

/// The record of a hit on `s` at parameter `t`.
pub open spec fn record_spec(s: Sphere, ray: Ray, t: int) -> HitRecord {
    let p = at_spec(ray, t);
    HitRecord { point: p, normal: vdiv(vsub(p, s.center), s.radius as int), t: t as i128, material: s.material }
}

pub open spec fn sphere_hit_spec(s: Sphere, ray: Ray, t_min: int, t_max: int) -> Option<HitRecord> {
    if discriminant(s, ray) < 0 || quad_a(s, ray) == 0 {
        None
    } else if inside(near_root(s, ray), t_min, t_max) {
        Some(record_spec(s, ray, near_root(s, ray)))
    } else if inside(far_root(s, ray), t_min, t_max) {
        Some(record_spec(s, ray, far_root(s, ray)))
    } else {
        None
    }
}

/// The nearest hit among `objs`, each member searched only up to the
/// nearest hit found before it.
pub open spec fn world_hit_spec(objs: Seq<Sphere>, ray: Ray, t_min: int, t_max: int) -> Option<HitRecord>
    decreases objs.len(),
{
    if objs.len() == 0 {
        None
    } else {
        let prev = world_hit_spec(objs.drop_last(), ray, t_min, t_max);
        let bound = match prev {
            Some(h) => h.t as int,
            None => t_max,
        };
        match sphere_hit_spec(objs.last(), ray, t_min, bound) {
            Some(h) => Some(h),
            None => prev,
        }
    }
}

fn record(s: &Sphere, ray: &Ray, t: i128) -> (h: HitRecord)
    requires
        s.wf(),
        ray.wf(),
        in_range(t as int),
    ensures
        h == record_spec(*s, *ray, t as int),
        h.wf(),
{
    let p = ray.at(t);
    HitRecord { point: p, normal: div(minus(p, s.center), s.radius), t, material: s.material }
}

impl Sphere {
    /// The first root of the intersection quadratic that lies strictly inside
    /// `(t_min, t_max)`, near root first.
    pub fn hit(&self, ray: &Ray, t_min: i128, t_max: i128) -> (r: Option<HitRecord>)
        requires
            self.wf(),
            ray.wf(),
        ensures
            r == sphere_hit_spec(*self, *ray, t_min as int, t_max as int),
            r is None <==> (discriminant(*self, *ray) < 0 || quad_a(*self, *ray) == 0 || (
            !inside(near_root(*self, *ray), t_min as int, t_max as int) && !inside(
                far_root(*self, *ray),
                t_min as int,
                t_max as int,
            ))),
            r matches Some(h) ==> t_min < h.t < t_max && h.wf() && h.material == self.material,
    {
        let oc = minus(ray.origin, self.center);
        let a = ray.direction.length_squared();
        let half_b = dot(oc, ray.direction);
        let c = fx_sub(oc.length_squared(), fx_mul(self.radius, self.radius));
        let disc = fx_sub(fx_mul(half_b, half_b), fx_mul(a, c));
        if disc < 0 || a == 0 {
            return None;
        }
        let sq = fx_sqrt(disc);
        let near = fx_div(fx_sub(-half_b, sq), a);
        if t_min < near && near < t_max {
            return Some(record(self, ray, near));
        }
        let far = fx_div(fx_add(-half_b, sq), a);
        if t_min < far && far < t_max {
            return Some(record(self, ray, far));
        }
        None
    }
}

/// An ordered collection of spheres, queried as one.
pub struct Hittables {
    pub objects: Vec<Sphere>,
}

impl Hittables {
    pub open spec fn wf(&self) -> bool {
        forall|i: int| 0 <= i < self.objects@.len() ==> (#[trigger] self.objects@[i]).wf()
    }

    pub fn new() -> (w: Hittables)
        ensures
            w.objects@ == Seq::<Sphere>::empty(),
    {
        Hittables { objects: Vec::new() }
    }

    pub fn from(objects: Vec<Sphere>) -> (w: Hittables)
        ensures
            w.objects@ == objects@,
    {
        Hittables { objects }
    }

    pub fn add(&mut self, s: Sphere)
        ensures
            final(self).objects@ == old(self).objects@.push(s),
    {
        self.objects.push(s);
    }

    /// The nearest hit of `ray` among the members, strictly inside `(t_min, t_max)`.
    pub fn hit(&self, ray: &Ray, t_min: i128, t_max: i128) -> (r: Option<HitRecord>)
        requires
            self.wf(),
            ray.wf(),
        ensures
            r == world_hit_spec(self.objects@, *ray, t_min as int, t_max as int),
            r matches Some(h) ==> t_min < h.t < t_max && h.wf(),
    {
        let mut closest: Option<HitRecord> = None;
        let mut bound: i128 = t_max;
        let mut i: usize = 0;
        while i < self.objects.len()
            invariant
                self.wf(),
                ray.wf(),
                i <= self.objects@.len(),
                closest == world_hit_spec(self.objects@.subrange(0, i as int), *ray, t_min as int, t_max as int),
                closest matches Some(h) ==> t_min < h.t < t_max && h.wf() && bound == h.t,
                closest is None ==> bound == t_max,
            decreases self.objects@.len() - i,
        {
            let ghost prefix = self.objects@.subrange(0, i as int + 1);
            assert(prefix.drop_last() =~= self.objects@.subrange(0, i as int));
            assert(prefix.last() == self.objects@[i as int]);
            let s = &self.objects[i];
            match s.hit(ray, t_min, bound) {
                Some(h) => {
                    bound = h.t;
                    closest = Some(h);
                },
                None => {},
            }
            i += 1;
        }
        assert(self.objects@.subrange(0, self.objects@.len() as int) =~= self.objects@);
        closest
    }
}

proof fn lemma_sphere_hit_range(s: Sphere, ray: Ray, t_min: int, t_max: int)
    ensures
        sphere_hit_spec(s, ray, t_min, t_max) matches Some(h) ==> t_min < h.t < t_max,
{
}

/// Narrowing the upper bound to `b` keeps a hit no farther than before, or
/// loses it only when it lay at or beyond `b`.
proof fn lemma_sphere_hit_narrowed(s: Sphere, ray: Ray, t_min: int, t_max: int, b: int)
    requires
        b <= t_max,
        sphere_hit_spec(s, ray, t_min, t_max) is Some,
    ensures
        sphere_hit_spec(s, ray, t_min, b) matches Some(h2) ==> h2.t <= sphere_hit_spec(s, ray, t_min, t_max)->0.t,
        sphere_hit_spec(s, ray, t_min, b) is None ==> b <= sphere_hit_spec(s, ray, t_min, t_max)->0.t,
{
    lemma_sphere_hit_range(s, ray, t_min, t_max);
    lemma_sphere_hit_range(s, ray, t_min, b);
}

proof fn lemma_world_hit_range(objs: Seq<Sphere>, ray: Ray, t_min: int, t_max: int)
    ensures
        world_hit_spec(objs, ray, t_min, t_max) matches Some(w) ==> t_min < w.t < t_max,
    decreases objs.len(),
{
    if objs.len() > 0 {
        let prev = world_hit_spec(objs.drop_last(), ray, t_min, t_max);
        lemma_world_hit_range(objs.drop_last(), ray, t_min, t_max);
        let bound = match prev {
            Some(h) => h.t as int,
            None => t_max,
        };
        lemma_sphere_hit_range(objs.last(), ray, t_min, bound);
    }
}

/// The nearest surface wins: whenever some member is hit strictly inside
/// `(t_min, t_max)`, the collection reports a hit, and one no farther away.
pub proof fn lemma_world_hit_nearest(objs: Seq<Sphere>, ray: Ray, t_min: int, t_max: int, j: int)
    requires
        0 <= j < objs.len(),
        sphere_hit_spec(objs[j], ray, t_min, t_max) is Some,
    ensures
        world_hit_spec(objs, ray, t_min, t_max) matches Some(w) && w.t <= sphere_hit_spec(objs[j], ray, t_min, t_max)->0.t,
    decreases objs.len(),
{
    let prefix = objs.drop_last();
    let prev = world_hit_spec(prefix, ray, t_min, t_max);
    lemma_world_hit_range(prefix, ray, t_min, t_max);
    let bound = match prev {
        Some(h) => h.t as int,
        None => t_max,
    };
    lemma_sphere_hit_range(objs.last(), ray, t_min, bound);
    if j < objs.len() - 1 {
        assert(prefix[j] == objs[j]);
        lemma_world_hit_nearest(prefix, ray, t_min, t_max, j);
    } else {
        lemma_sphere_hit_narrowed(objs.last(), ray, t_min, t_max, bound);
    }
}

/// A hit of the collection is a hit on one of its members, with that
/// member's material.
pub proof fn lemma_world_hit_material(objs: Seq<Sphere>, ray: Ray, t_min: int, t_max: int)
    ensures
        world_hit_spec(objs, ray, t_min, t_max) matches Some(w) ==> w.point.wf() && exists|j: int|
            0 <= j < objs.len() && w.material == (#[trigger] objs[j]).material,
    decreases objs.len(),
{
    if objs.len() > 0 {
        let prefix = objs.drop_last();
        lemma_world_hit_material(prefix, ray, t_min, t_max);
        let prev = world_hit_spec(prefix, ray, t_min, t_max);
        let bound = match prev {
            Some(h) => h.t as int,
            None => t_max,
        };
        match sphere_hit_spec(objs.last(), ray, t_min, bound) {
            Some(h) => {
                let t = h.t as int;
                lemma_vadd_vsub_wf(ray.origin, vscale(ray.direction, t));
                assert(objs[objs.len() - 1].material == h.material);
            },
            None => {
                if let Some(w) = prev {
                    let j = choose|j: int| 0 <= j < prefix.len() && w.material == (#[trigger] prefix[j]).material;
                    assert(objs[j] == prefix[j]);
                }
            },
        }
    }
}

} // verus!
