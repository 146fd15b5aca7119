use vstd::prelude::*;

use crate::hittable::{hittable_hit_t, hittable_rec_ok, HitRecord, Hittable};
use crate::interval::{Interval, Intervali};
use crate::ray::{Ray, Rayi};

verus! {

/// The scene aggregate: a linear collection of objects, itself queried for
/// the closest hit along a ray.
pub struct HittableList {
    objects: Vec<Hittable>,
}

impl View for HittableList {
    type V = Seq<Hittable>;

    closed spec fn view(&self) -> Seq<Hittable> {
        self.objects@
    }
}

/// The outcome of scanning the first `k` objects in order, narrowing the
/// acceptable interval's upper bound to the closest parameter seen so far:
/// the index of the object holding the current closest hit, and that
/// parameter.  Later objects can replace the record only with a strictly
/// closer hit.
pub open spec fn scan_hits(objs: Seq<Hittable>, k: int, r: Rayi, tmin: int, tmax: int) -> Option<
    (int, int),
>
    decreases k,
{
    if k <= 0 {
        None
    } else {
        let prev = scan_hits(objs, k - 1, r, tmin, tmax);
        let closest = match prev {
            Some(pt) => pt.1,
            None => tmax,
        };
        match hittable_hit_t(objs[k - 1], r, Intervali { min: tmin, max: closest }) {
            Some(t) => Some((k - 1, t)),
            None => prev,
        }
    }
}

/// Any accepted hit parameter lies strictly inside the query interval:
/// the scan narrows the upper bound but never leaves the original range.
pub proof fn lemma_scan_hit_in_interval(objs: Seq<Hittable>, k: int, r: Rayi, tmin: int, tmax: int)
    requires
        scan_hits(objs, k, r, tmin, tmax) is Some,
    ensures
        tmin < scan_hits(objs, k, r, tmin, tmax)->Some_0.1 < tmax,
    decreases k,
{
    let prev = scan_hits(objs, k - 1, r, tmin, tmax);
    let closest = match prev {
        Some(pt) => pt.1,
        None => tmax,
    };
    if prev is Some {
        lemma_scan_hit_in_interval(objs, k - 1, r, tmin, tmax);
    }
    match hittable_hit_t(objs[k - 1], r, Intervali { min: tmin, max: closest }) {
        Some(t) => {},
        None => {},
    }
}

/// A later object can only replace the current record with a strictly
/// closer hit: the accepted parameter never grows as the scan proceeds.
pub proof fn lemma_scan_only_improves(objs: Seq<Hittable>, k: int, r: Rayi, tmin: int, tmax: int)
    requires
        k >= 1,
        scan_hits(objs, k - 1, r, tmin, tmax) is Some,
    ensures
        scan_hits(objs, k, r, tmin, tmax) is Some,
        scan_hits(objs, k, r, tmin, tmax)->Some_0.1 <= scan_hits(
            objs,
            k - 1,
            r,
            tmin,
            tmax,
        )->Some_0.1,
{
}

impl HittableList {
    pub fn new() -> (r: Self)
        ensures
            r@ == Seq::<Hittable>::empty(),
    {
        HittableList { objects: Vec::new() }
    }

    pub fn add(&mut self, object: Hittable)
        ensures
            final(self)@ == old(self)@.push(object),
    {
        self.objects.push(object);
    }

    pub fn clear(&mut self)
        ensures
            final(self)@ == Seq::<Hittable>::empty(),
    {
        self.objects = Vec::new();
    }

    /// The closest accepted hit over all members, or nothing: each member
    /// is asked for a hit strictly closer than the best seen so far.
    pub fn hit(&self, r: Ray, ray_t: Interval) -> (res: Option<HitRecord>)
        ensures
            match res {
                None => scan_hits(self@, self@.len() as int, r@, ray_t@.min, ray_t@.max) is None,
                Some(rec) => {
                    let sc = scan_hits(self@, self@.len() as int, r@, ray_t@.min, ray_t@.max);
                    &&& sc is Some
                    &&& rec@.t == sc->Some_0.1
                    &&& 0 <= sc->Some_0.0 < self@.len()
                    &&& hittable_rec_ok(self@[sc->Some_0.0], r@, rec@, rec@.t)
                },
            },
    {
        let mut res: Option<HitRecord> = None;
        let mut closest_so_far = ray_t.max();
        let n = self.objects.len();
        let mut i: usize = 0;

        while i < n
            invariant
                0 <= i <= n,
                n == self@.len(),
                match res {
                    None => {
                        &&& scan_hits(self@, i as int, r@, ray_t@.min, ray_t@.max) is None
                        &&& closest_so_far == ray_t@.max
                    },
                    Some(rec) => {
                        let sc = scan_hits(self@, i as int, r@, ray_t@.min, ray_t@.max);
                        &&& sc is Some
                        &&& rec@.t == sc->Some_0.1
                        &&& closest_so_far == rec@.t
                        &&& 0 <= sc->Some_0.0 < i
                        &&& hittable_rec_ok(self@[sc->Some_0.0], r@, rec@, rec@.t)
                    },
                },
            decreases n - i,
        {
            let object = &self.objects[i];
            if let Some(temp_rec) = object.hit(r, Interval::new(ray_t.min(), closest_so_far)) {
                closest_so_far = temp_rec.t();
                res = Some(temp_rec);
            }
            i = i + 1;
        }
        res
    }
}

} // verus!
