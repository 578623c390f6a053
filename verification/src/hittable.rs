//! Intersection records and the scene aggregate: an append-only list of
//! surfaces with a nearest-hit query.

use vstd::prelude::*;
use crate::math::{COORD_LIMIT, T_LIMIT};
use crate::vec::{Vec3, s_in, s_neg, s_dot};
use crate::ray::{Ray, s_at, CENTER_LIMIT, DIR_LIMIT};
use crate::material::Material;
use crate::sphere::{Sphere, s_sphere_hit, s_sphere_wf};

verus! {

/// The transient result of a successful intersection query: the hit
/// point, the unit-scale normal oriented against the incoming ray, the
/// ray parameter, which side of the surface was struck, and the
/// surface's material.
pub struct HitRecord {
    pub point: Vec3,
    pub normal: Vec3,
    pub t: i64,
    pub front_face: bool,
    pub material: Material,
}

/// What a hit record constructed from ray, parameter, geometric outward
/// normal and material holds: the point is the ray evaluated at `t`, and
/// the stored normal opposes the ray's direction, with `front_face`
/// recording whether the outward normal already did.
pub open spec fn s_record_matches(
    rec: HitRecord,
    o: (int, int, int),
    d: (int, int, int),
    t: int,
    outward: (int, int, int),
    material: Material,
) -> bool {
    &&& rec.t == t
    &&& rec.point@ == s_at(o, d, t)
    &&& rec.material == material
    &&& if s_dot(d, outward) < 0 {
        rec.normal@ == outward && rec.front_face
    } else {
        rec.normal@ == s_neg(outward) && !rec.front_face
    }
}

impl HitRecord {
    pub fn new(ray: &Ray, t: i64, normal: Vec3, material: Material) -> (r: HitRecord)
        requires
            s_in(ray.origin@, CENTER_LIMIT as int),
            s_in(ray.direction@, DIR_LIMIT as int),
            0 <= t <= T_LIMIT,
            s_in(normal@, COORD_LIMIT as int),
        ensures
            s_record_matches(r, ray.origin@, ray.direction@, t as int, normal@, material),
    {
        let point = ray.at(t);
        let outward_normal: Vec3;
        let front_face: bool;
        if ray.direction.dot(&normal) < 0 {
            front_face = true;
            outward_normal = normal;
        } else {
            front_face = false;
            outward_normal = normal.neg();
        }
        HitRecord { point, normal: outward_normal, t, front_face, material }
    }
}

/// The scene: an insertion-ordered sequence of owned surfaces.
pub struct HittableList(Vec<Sphere>);

impl View for HittableList {
    type V = Seq<Sphere>;

    closed spec fn view(&self) -> Seq<Sphere> {
        self.0@
    }
}

/// Every surface of the scene has well-formed geometry and material.
pub open spec fn s_list_wf(s: Seq<Sphere>) -> bool {
    forall|i: int| 0 <= i < s.len() ==> s_sphere_wf(#[trigger] s[i])
}

/// The linear nearest-hit scan over the first `i` surfaces: each surface
/// is queried with the closest parameter found so far as the upper
/// bound. The result carries the ray parameter, the geometric outward
/// normal, and the index of the surface hit.
pub open spec fn s_scan(
    spheres: Seq<Sphere>,
    o: (int, int, int),
    d: (int, int, int),
    t_min: int,
    t_max: int,
    i: int,
) -> Option<(int, (int, int, int), int)>
    decreases i,
{
    if i <= 0 {
        None
    } else {
        let prev = s_scan(spheres, o, d, t_min, t_max, i - 1);
        let bound = match prev {
            Some(p) => p.0,
            None => t_max,
        };
        match s_sphere_hit(spheres[i - 1], o, d, t_min, bound) {
            Some(h) => Some((h.0, h.1, i - 1)),
            None => prev,
        }
    }
}

/// The parameter a scan returns never exceeds the upper bound it was
/// given, and its index points into the scanned prefix.
pub proof fn lemma_scan_in_range(
    spheres: Seq<Sphere>,
    o: (int, int, int),
    d: (int, int, int),
    t_min: int,
    t_max: int,
    i: int,
)
    ensures
        s_scan(spheres, o, d, t_min, t_max, i) matches Some(h) ==> {
            &&& t_min <= h.0 <= t_max
            &&& 0 <= h.2 < i
        },
    decreases i,
{
    if i > 0 {
        lemma_scan_in_range(spheres, o, d, t_min, t_max, i - 1);
    }
}

/// A ray misses the whole scene exactly when it misses every surface:
/// the scan reports no hit if and only if each sphere, queried over the
/// full parameter range, reports none.
pub proof fn lemma_scan_misses_all(
    spheres: Seq<Sphere>,
    o: (int, int, int),
    d: (int, int, int),
    t_min: int,
    t_max: int,
    i: int,
)
    ensures
        s_scan(spheres, o, d, t_min, t_max, i) is None <==> (forall|k: int|
            0 <= k < i ==> #[trigger] s_sphere_hit(spheres[k], o, d, t_min, t_max) is None),
    decreases i,
{
    if i > 0 {
        lemma_scan_misses_all(spheres, o, d, t_min, t_max, i - 1);
    }
}

impl HittableList {
    pub fn new() -> (r: HittableList)
        ensures
            r@ == Seq::<Sphere>::empty(),
    {
        HittableList(Vec::new())
    }

    pub fn add(&mut self, i: Sphere)
        ensures
            final(self)@ == old(self)@.push(i),
    {
        self.0.push(i)
    }

    /// How many surfaces the scene holds.
    pub fn len(&self) -> (r: usize)
        ensures
            r == self@.len(),
    {
        self.0.len()
    }

    /// Nearest hit along the ray within `[t_min, t_max]`, by linear scan
    /// with the running closest parameter as upper bound.
    #[verifier::loop_isolation(false)]
    pub fn hit(&self, ray: &Ray, t_min: i64, t_max: i64) -> (r: Option<HitRecord>)
        requires
            s_list_wf(self@),
            s_in(ray.origin@, CENTER_LIMIT as int),
            s_in(ray.direction@, DIR_LIMIT as int),
            1 <= crate::vec::s_ls(ray.direction@),
            0 <= t_min,
            t_max <= T_LIMIT,
        ensures
            ({
                let m = s_scan(
                    self@,
                    ray.origin@,
                    ray.direction@,
                    t_min as int,
                    t_max as int,
                    self@.len() as int,
                );
                match m {
                    None => r is None,
                    Some(h) => r matches Some(rec) && 0 <= h.2 < self@.len()
                        && s_record_matches(
                        rec,
                        ray.origin@,
                        ray.direction@,
                        h.0,
                        h.1,
                        self@[h.2].material,
                    ),
                }
            }),
    {
        let ghost tmin = t_min as int;
        let ghost tmax = t_max as int;
        let mut closest: i64 = t_max;
        let mut closest_hit: Option<HitRecord> = None;
        let mut i: usize = 0;
        while i < self.0.len()
            invariant
                0 <= i <= self.0.len(),
                closest <= t_max,
                ({
                    let m = s_scan(self@, ray.origin@, ray.direction@, tmin, tmax, i as int);
                    match m {
                        None => closest_hit is None && closest == t_max,
                        Some(h) => closest == h.0 && 0 <= h.2 < i && (closest_hit matches Some(rec)
                            && s_record_matches(
                            rec,
                            ray.origin@,
                            ray.direction@,
                            h.0,
                            h.1,
                            self@[h.2].material,
                        )),
                    }
                }),
            decreases self.0.len() - i,
        {
            assert(s_sphere_wf(self@[i as int]));
            if let Some(hit_record) = self.0[i].hit(ray, t_min, closest) {
                closest = hit_record.t;
                closest_hit = Some(hit_record);
            }
            i = i + 1;
        }
        closest_hit
    }
}

} // verus!
