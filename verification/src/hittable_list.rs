//! A scene: a list of things a ray can hit, answering with the nearest hit.

use vstd::prelude::*;
use crate::hittable::{HitRecord, Hittable};
use crate::ray::Ray;
use crate::scalar::Fixed;
use crate::sphere::Sphere;

verus! {

/// The members of a scene, in the order they were added.
pub struct HittableList<H>(pub Vec<H>);

/// The upper bound left for the next member once `best` has been found.
pub open spec fn bound_after(best: Option<HitRecord>, t: (Fixed, Fixed)) -> Fixed {
    match best {
        Some(h) => h.t,
        None => t.1,
    }
}

/// The hit that a scan of `items` from first to last ends with: each member
/// is asked for a hit no farther than the best one found before it, and a
/// member that answers replaces the best.
pub open spec fn spec_scan<H: Hittable>(items: Seq<H>, r: Ray, t: (Fixed, Fixed)) -> Option<
    HitRecord,
>
    decreases items.len(),
{
    if items.len() == 0 {
        None
    } else {
        let before = spec_scan(items.drop_last(), r, t);
        match items.last().spec_hit(r, (t.0, bound_after(before, t))) {
            Some(h) => Some(h),
            None => before,
        }
    }
}

/// In a scene of spheres the nearest hit wins: the scan reports no hit
/// exactly when no sphere is hit in the interval, and otherwise the hit of
/// one of the spheres, whose ray parameter is the least among the hits of all
/// the spheres in that interval.
pub proof fn lemma_nearest_hit_wins(items: Seq<Sphere>, r: Ray, t: (Fixed, Fixed))
    ensures
        spec_scan(items, r, t) is None <==> forall|i: int|
            0 <= i < items.len() ==> (#[trigger] items[i]).spec_hit(r, t) is None,
        spec_scan(items, r, t) matches Some(best) ==> {
            &&& t.0@ < best.t@ <= t.1@
            &&& exists|i: int|
                0 <= i < items.len() && (#[trigger] items[i]).spec_hit(r, t) == Some(best)
            &&& forall|j: int|
                0 <= j < items.len() ==> ((#[trigger] items[j]).spec_hit(r, t) matches Some(h)
                    ==> best.t@ <= h.t@)
        },
    decreases items.len(),
{
    if items.len() > 0 {
        let front = items.drop_last();
        let last = items.last();
        lemma_nearest_hit_wins(front, r, t);
        let before = spec_scan(front, r, t);
        let bound = bound_after(before, t);
        last.lemma_hit_under_tighter_bound(r, t, bound);
        assert forall|i: int| 0 <= i < front.len() implies front[i] == items[i] by {}
        match last.spec_hit(r, (t.0, bound)) {
            Some(h) => {
                assert(items[items.len() - 1].spec_hit(r, t) == Some(h));
                assert forall|j: int| 0 <= j < items.len() implies ((#[trigger] items[j]).spec_hit(
                    r,
                    t,
                ) matches Some(g) ==> h.t@ <= g.t@) by {
                    if j < front.len() {
                        assert(front[j] == items[j]);
                    }
                }
            },
            None => {
                match before {
                    Some(b) => {
                        let i = choose|i: int|
                            0 <= i < front.len() && (#[trigger] front[i]).spec_hit(r, t) == Some(
                                b,
                            );
                        assert(items[i].spec_hit(r, t) == Some(b));
                        assert forall|j: int| 0 <= j < items.len() implies ((
                        #[trigger] items[j]).spec_hit(r, t) matches Some(g) ==> b.t@ <= g.t@) by {
                            if j < front.len() {
                                assert(front[j] == items[j]);
                            }
                        }
                    },
                    None => {
                        assert forall|i: int| 0 <= i < items.len() implies (
                        #[trigger] items[i]).spec_hit(r, t) is None by {
                            if i < front.len() {
                                assert(front[i] == items[i]);
                            }
                        }
                    },
                }
            },
        }
    }
}

impl<H: Hittable> HittableList<H> {
    pub open spec fn view(&self) -> Seq<H> {
        self.0@
    }

    pub fn new() -> (list: HittableList<H>)
        ensures
            list@ == Seq::<H>::empty(),
    {
        HittableList(Vec::new())
    }

    pub fn add(&mut self, el: H)
        ensures
            final(self)@ == old(self)@.push(el),
    {
        self.0.push(el)
    }
}

impl<H: Hittable> Hittable for HittableList<H> {
    open spec fn spec_hit(&self, r: Ray, t: (Fixed, Fixed)) -> Option<HitRecord> {
        spec_scan(self@, r, t)
    }

    fn hit(&self, r: &Ray, t: (Fixed, Fixed)) -> (rec: Option<HitRecord>) {
        let mut result: Option<HitRecord> = None;
        let mut closest_so_far: Fixed = t.1;
        let mut i: usize = 0;
        while i < self.0.len()
            invariant
                i <= self.0.len(),
                result == spec_scan(self@.take(i as int), *r, t),
                closest_so_far == bound_after(result, t),
                result matches Some(h) ==> t.0@ < h.t@ <= t.1@,
            decreases self.0.len() - i,
        {
            proof {
                assert(self@.take(i + 1).drop_last() =~= self@.take(i as int));
            }
            if let Some(rec) = self.0[i].hit(r, (t.0, closest_so_far)) {
                closest_so_far = rec.t;
                result = Some(rec);
            }
            i = i + 1;
        }
        proof {
            assert(self@.take(i as int) =~= self@);
        }
        result
    }
}

} // verus!
