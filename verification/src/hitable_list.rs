//! A scene: a list of spheres, of which a ray hits the nearest.

use vstd::prelude::*;
use crate::hitable::{HitRecord, Hitable};
use crate::ray::Ray;
use crate::scalar::Scalar;
use crate::sphere::Sphere;

verus! {

/// The spheres of a scene, in a fixed order.
pub struct HitableList {
    pub spheres: Vec<Sphere>,
}

/// The nearer of two hits; the first of two that are equally near.
pub open spec fn nearer(first: Option<HitRecord>, second: Option<HitRecord>) -> Option<HitRecord> {
    match (first, second) {
        (Some(a), Some(b)) => if b.t@ < a.t@ {
            second
        } else {
            first
        },
        (Some(_), None) => first,
        (None, _) => second,
    }
}

/// The nearest of a sequence of hits; of several that are equally near,
/// the first.
pub open spec fn nearest_of(hits: Seq<Option<HitRecord>>) -> Option<HitRecord>
    decreases hits.len(),
{
    if hits.len() == 0 {
        None
    } else {
        nearer(nearest_of(hits.drop_last()), hits.last())
    }
}

/// What the spheres give when each is asked on its own, with the same ray
/// and the same bounds.
pub open spec fn independent_hits(spheres: Seq<Sphere>, r: &Ray, t_min: Scalar, t_max: Scalar) -> Seq<
    Option<HitRecord>,
> {
    Seq::new(spheres.len(), |i: int| spheres[i].intersect(r, t_min, t_max))
}

/// The closest hit of a ray among the spheres: the nearest of their
/// independent hits.
pub open spec fn closest_hit(spheres: Seq<Sphere>, r: &Ray, t_min: Scalar, t_max: Scalar) -> Option<
    HitRecord,
> {
    nearest_of(independent_hits(spheres, r, t_min, t_max))
}

/// Whether `h` is the hit at index `i`, no hit is nearer, and no hit
/// before `i` is as near.
pub open spec fn is_first_minimum(hits: Seq<Option<HitRecord>>, i: int, h: HitRecord) -> bool {
    &&& 0 <= i < hits.len()
    &&& hits[i] == Some(h)
    &&& forall|j: int|
        0 <= j < hits.len() ==> match #[trigger] hits[j] {
            Some(o) => h.t@ <= o.t@ && (j < i ==> h.t@ < o.t@),
            None => true,
        }
}

/// The nearest of a sequence of hits is one of them, none is nearer, and
/// none before it is as near. Where there is no nearest, there is no hit.
pub proof fn lemma_nearest_is_first_minimum(hits: Seq<Option<HitRecord>>)
    ensures
        match nearest_of(hits) {
            None => forall|j: int| 0 <= j < hits.len() ==> #[trigger] hits[j] is None,
            Some(h) => exists|i: int| is_first_minimum(hits, i, h),
        },
    decreases hits.len(),
{
    if hits.len() > 0 {
        let init = hits.drop_last();
        let n = init.len() as int;
        lemma_nearest_is_first_minimum(init);
        assert forall|j: int| 0 <= j < n implies init[j] == hits[j] by {}
        match nearest_of(hits) {
            None => {},
            Some(h) => {
                if nearest_of(init) == Some(h) {
                    let i = choose|i: int| is_first_minimum(init, i, h);
                    assert forall|j: int| 0 <= j < hits.len() implies match #[trigger] hits[j] {
                        Some(o) => h.t@ <= o.t@ && (j < i ==> h.t@ < o.t@),
                        None => true,
                    } by {
                        if j < n {
                            assert(init[j] == hits[j]);
                        }
                    }
                    assert(is_first_minimum(hits, i, h));
                } else {
                    assert(hits[n] == Some(h));
                    assert forall|j: int| 0 <= j < hits.len() implies match #[trigger] hits[j] {
                        Some(o) => h.t@ <= o.t@ && (j < n ==> h.t@ < o.t@),
                        None => true,
                    } by {
                        if j < n {
                            assert(init[j] == hits[j]);
                            match nearest_of(init) {
                                Some(b) => {
                                    let i = choose|i: int| is_first_minimum(init, i, b);
                                    assert(is_first_minimum(init, i, b));
                                },
                                None => {},
                            }
                        }
                    }
                    assert(is_first_minimum(hits, n, h));
                }
            },
        }
    }
}

/// The closest hit among the spheres is the hit of one of them, asked on
/// its own, with the material of that sphere and within the bounds; no
/// sphere is hit nearer, and no sphere before that one is hit as near.
/// Where there is no closest hit, no sphere is hit.
pub proof fn lemma_closest_hit_is_minimum(
    spheres: Seq<Sphere>,
    r: &Ray,
    t_min: Scalar,
    t_max: Scalar,
)
    ensures
        match closest_hit(spheres, r, t_min, t_max) {
            None => forall|j: int|
                0 <= j < spheres.len() ==> (#[trigger] spheres[j]).intersect(r, t_min, t_max) is None,
            Some(h) => exists|i: int|
                {
                    &&& 0 <= i < spheres.len()
                    &&& (#[trigger] spheres[i]).intersect(r, t_min, t_max) == Some(h)
                    &&& h.material == spheres[i].material
                    &&& t_min@ < h.t@ < t_max@
                    &&& forall|j: int|
                        0 <= j < spheres.len() ==> match (#[trigger] spheres[j]).intersect(
                            r,
                            t_min,
                            t_max,
                        ) {
                            Some(o) => h.t@ <= o.t@ && (j < i ==> h.t@ < o.t@),
                            None => true,
                        }
                },
        },
{
    let hits = independent_hits(spheres, r, t_min, t_max);
    lemma_nearest_is_first_minimum(hits);
    match closest_hit(spheres, r, t_min, t_max) {
        None => {
            assert forall|j: int| 0 <= j < spheres.len() implies (#[trigger] spheres[j]).intersect(
                r,
                t_min,
                t_max,
            ) is None by {
                assert(hits[j] is None);
            }
        },
        Some(h) => {
            let i = choose|i: int| is_first_minimum(hits, i, h);
            assert(spheres[i].intersect(r, t_min, t_max) == Some(h));
            assert forall|j: int| 0 <= j < spheres.len() implies match (
            #[trigger] spheres[j]).intersect(r, t_min, t_max) {
                Some(o) => h.t@ <= o.t@ && (j < i ==> h.t@ < o.t@),
                None => true,
            } by {
                assert(hits[j] == spheres[j].intersect(r, t_min, t_max));
            }
        },
    }
}

impl HitableList {
    /// The scene of the given spheres.
    pub fn new(spheres: Vec<Sphere>) -> (out: HitableList)
        ensures
            out.spheres == spheres,
    {
        HitableList { spheres }
    }
}

impl Hitable for HitableList {
    open spec fn hit_spec(&self, r: &Ray, t_min: Scalar, t_max: Scalar) -> Option<HitRecord> {
        closest_hit(self.spheres@, r, t_min, t_max)
    }

    proof fn lemma_hit_within_bounds(&self, r: &Ray, t_min: Scalar, t_max: Scalar) {
        lemma_closest_hit_is_minimum(self.spheres@, r, t_min, t_max);
    }

    /// Asks the spheres in order, each with the far bound lowered to the
    /// nearest hit so far, so that one pass finds the closest hit.
    fn hit(&self, r: &Ray, t_min: Scalar, t_max: Scalar) -> (out: Option<HitRecord>) {
        let ghost hits = independent_hits(self.spheres@, r, t_min, t_max);
        let mut closest: Option<HitRecord> = None;
        let mut i: usize = 0;
        while i < self.spheres.len()
            invariant
                i <= self.spheres.len(),
                hits == independent_hits(self.spheres@, r, t_min, t_max),
                closest == nearest_of(hits.take(i as int)),
                closest matches Some(h) ==> t_min@ < h.t@ < t_max@,
            decreases self.spheres.len() - i,
        {
            let bound: Scalar = match closest {
                Some(h) => h.t,
                None => t_max,
            };
            let sphere: &Sphere = &self.spheres[i];
            proof {
                sphere.lemma_hit_bound_lowered(r, t_min, t_max, bound);
                assert(hits.take(i + 1).drop_last() == hits.take(i as int));
                assert(hits.take(i + 1).last() == sphere.intersect(r, t_min, t_max));
            }
            if let Some(hit) = sphere.hit(r, t_min, bound) {
                closest = Some(hit);
            }
            i = i + 1;
        }
        assert(hits.take(i as int) == hits);
        closest
    }
}

} // verus!
