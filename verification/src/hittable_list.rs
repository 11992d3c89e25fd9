//! The scene aggregate: an owned list of spheres that is itself intersectable,
//! reporting the closest intersection among its members.

use vstd::prelude::*;
use crate::ray::{Ray, RayV, ray_at};
use crate::interval::Interval;
use crate::hittable::{Hittable, HitRecord, HitV, ray_admissible};
use crate::sphere::{Sphere, sphere_hit_t, sphere_qa, lemma_sphere_hit_narrow};

verus! {

/// The hit the first `n` members report. Each member is queried with the
/// window narrowed to the closest parameter seen so far, so a later member
/// replaces the record only with a strictly closer hit; at an exact tie the
/// earlier member's record stands.
pub open spec fn scan_hits(objs: Seq<Sphere>, n: int, r: RayV, t_min: int, t_max: int) -> Option<
    HitV,
>
    decreases n,
{
    if n <= 0 {
        None
    } else {
        let prev = scan_hits(objs, n - 1, r, t_min, t_max);
        let closest = match prev {
            Some(h) => h.t,
            None => t_max,
        };
        match objs[n - 1].hit_spec(r, t_min, closest) {
            Some(h2) => Some(h2),
            None => prev,
        }
    }
}

/// A scan hit lies strictly inside the full window and its point is the ray
/// evaluated at its parameter.
pub proof fn lemma_scan_props(objs: Seq<Sphere>, n: int, r: RayV, t_min: int, t_max: int)
    requires
        n <= objs.len(),
    ensures
        scan_hits(objs, n, r, t_min, t_max) is Some ==> {
            let h = scan_hits(objs, n, r, t_min, t_max)->Some_0;
            &&& t_min < h.t < t_max
            &&& h.p == ray_at(r, h.t)
        },
    decreases n,
{
    if n > 0 {
        lemma_scan_props(objs, n - 1, r, t_min, t_max);
    }
}

/// The aggregate of every intersectable object in the scene. It owns its
/// members outright: nothing else mutates or shares them once added.
#[derive(Clone, Debug)]
pub struct HittableList {
    pub objects: Vec<Sphere>,
}

impl View for HittableList {
    type V = Seq<Sphere>;

    open spec fn view(&self) -> Seq<Sphere> {
        self.objects@
    }
}

impl HittableList {
    /// An empty scene.
    pub fn new() -> (r: Self)
        ensures
            r@.len() == 0,
            r.wf(),
    {
        Self { objects: Vec::new() }
    }

    /// Append a well-formed object to the scene.
    pub fn add(&mut self, object: Sphere)
        requires
            object.wf(),
        ensures
            final(self)@ == old(self)@.push(object),
            old(self).wf() ==> final(self).wf(),
    {
        self.objects.push(object);
        proof {
            if old(self).wf() {
                assert forall|i: int| 0 <= i < self@.len() implies (#[trigger] self@[i]).wf() by {
                    if i < self@.len() - 1 {
                        assert(self@[i] == old(self)@[i]);
                    }
                }
            }
        }
    }
}

impl Hittable for HittableList {
    /// Every member fits the world bounds.
    open spec fn wf(&self) -> bool {
        forall|i: int| 0 <= i < self@.len() ==> (#[trigger] self@[i]).wf()
    }

    open spec fn hit_spec(&self, r: RayV, t_min: int, t_max: int) -> Option<HitV> {
        scan_hits(self@, self@.len() as int, r, t_min, t_max)
    }

    proof fn hit_spec_properties(&self, r: RayV, t_min: int, t_max: int) {
        lemma_scan_props(self@, self@.len() as int, r, t_min, t_max);
    }

    fn hit(&self, r: &Ray, ray_t: &Interval, rec: &mut HitRecord) -> (b: bool) {
        let mut temp_rec = HitRecord::default();
        let mut hit_anything = false;
        let mut closest_so_far: i64 = ray_t.max;
        let ghost t_min: int = ray_t.min as int;
        let ghost t_max: int = ray_t.max as int;
        let mut i: usize = 0;
        let n = self.objects.len();
        while i < n
            invariant
                n == self@.len(),
                i <= n,
                self.wf(),
                ray_admissible(r@, t_min, t_max),
                t_min == ray_t.min as int,
                t_max == ray_t.max as int,
                hit_anything == (scan_hits(self@, i as int, r@, t_min, t_max) is Some),
                hit_anything ==> {
                    let h = scan_hits(self@, i as int, r@, t_min, t_max)->Some_0;
                    rec@ == h && temp_rec@ == h && closest_so_far as int == h.t
                },
                !hit_anything ==> rec@ == old(rec)@ && closest_so_far == ray_t.max,
            decreases n - i,
        {
            proof {
                lemma_scan_props(self@, i as int, r@, t_min, t_max);
                assert(self@[i as int].wf());
            }
            let obj = self.objects[i];
            let window = Interval::new(ray_t.min, closest_so_far);
            if obj.hit(r, &window, &mut temp_rec) {
                hit_anything = true;
                closest_so_far = temp_rec.t;
                *rec = temp_rec;
                proof {
                    assert(obj == self@[i as int]);
                    assert(scan_hits(self@, i as int + 1, r@, t_min, t_max) == Some(temp_rec@));
                }
            } else {
                proof {
                    assert(scan_hits(self@, i as int + 1, r@, t_min, t_max) == scan_hits(self@,
                        i as int, r@, t_min, t_max));
                }
            }
            i = i + 1;
        }
        hit_anything
    }
}

/// The aggregate reports the globally closest intersection: whenever a member
/// hits the ray inside the full window on its own, the aggregate reports a hit
/// whose parameter is no farther than that member's.
pub proof fn lemma_scan_closest(
    objs: Seq<Sphere>,
    n: int,
    r: RayV,
    t_min: int,
    t_max: int,
    j: int,
)
    requires
        0 <= j < n <= objs.len(),
        sphere_qa(r) >= 1,
        objs[j].hit_spec(r, t_min, t_max) is Some,
    ensures
        scan_hits(objs, n, r, t_min, t_max) is Some,
        scan_hits(objs, n, r, t_min, t_max)->Some_0.t <= objs[j].hit_spec(r, t_min,
            t_max)->Some_0.t,
    decreases n,
{
    lemma_scan_props(objs, n - 1, r, t_min, t_max);
    let prev = scan_hits(objs, n - 1, r, t_min, t_max);
    let closest = match prev {
        Some(h) => h.t,
        None => t_max,
    };
    let tj = objs[j].hit_spec(r, t_min, t_max)->Some_0.t;
    if j == n - 1 {
        lemma_sphere_hit_narrow(objs[j].center@, objs[j].radius as int, r, t_min, closest, t_max);
        match objs[j].hit_spec(r, t_min, closest) {
            Some(h2) => {
                assert(h2.t == tj);
            },
            None => {
                assert(prev is Some && prev->Some_0.t <= tj);
            },
        }
    } else {
        lemma_scan_closest(objs, n - 1, r, t_min, t_max, j);
    }
}

/// The closest-hit law at the scene aggregate itself.
pub proof fn lemma_scene_hit_closest(scene: &HittableList, r: RayV, t_min: int, t_max: int, j: int)
    requires
        0 <= j < scene@.len(),
        sphere_qa(r) >= 1,
        scene@[j].hit_spec(r, t_min, t_max) is Some,
    ensures
        scene.hit_spec(r, t_min, t_max) is Some,
        scene.hit_spec(r, t_min, t_max)->Some_0.t <= scene@[j].hit_spec(r, t_min,
            t_max)->Some_0.t,
{
    lemma_scan_closest(scene@, scene@.len() as int, r, t_min, t_max, j);
}

} // verus!
