//! Scenes: ordered collections of surfaces, and the nearest of the hits that
//! one ray makes on them.

use crate::hit::hittable::HitRecord;
use crate::interval::Interval;
use crate::ray::Ray;
use vstd::prelude::*;

verus! {

/// An ordered collection of surfaces, seen as the sequence of its members.
pub struct HittableList<H> {
    list: Vec<H>,
}

impl<H> View for HittableList<H> {
    type V = Seq<H>;

    closed spec fn view(&self) -> Seq<H> {
        self.list@
    }
}

impl<H> HittableList<H> {
    /// The empty scene.
    pub fn new() -> (scene: HittableList<H>)
        ensures
            scene@ == Seq::<H>::empty(),
    {
        HittableList { list: Vec::new() }
    }

    /// Adds a surface behind those already in the scene.
    pub fn add(&mut self, object: H)
        ensures
            final(self)@ == old(self)@.push(object),
    {
        self.list.push(object)
    }

    /// Empties the scene.
    pub fn clear(&mut self)
        ensures
            final(self)@ == Seq::<H>::empty(),
    {
        self.list.clear()
    }

    /// The number of surfaces in the scene.
    pub fn len(&self) -> (len: usize)
        ensures
            len == self@.len(),
    {
        self.list.len()
    }

    /// The surface at `index`, counted from the first one added.
    pub fn get(&self, index: usize) -> (object: &H)
        requires
            index < self@.len(),
        ensures
            *object == self@[index as int],
    {
        &self.list[index]
    }

    /// Whether `found` can be what `probe` reports of the surfaces of this
    /// scene, one after the other, for one ray and one range of times.
    pub open spec fn reports<P: Fn(&H, &Ray, Interval) -> Option<HitRecord>>(
        &self,
        probe: P,
        ray: Ray,
        time_range: Interval,
        found: Seq<Option<HitRecord>>,
    ) -> bool {
        &&& found.len() == self@.len()
        &&& forall|i: int|
            0 <= i < found.len() ==> call_ensures(
                probe,
                (&self@[i], &ray, time_range),
                #[trigger] found[i],
            )
    }

    /// Whether `probe` may be asked about every surface of this scene, for
    /// any ray and any range of times.
    pub open spec fn probed_by<P: Fn(&H, &Ray, Interval) -> Option<HitRecord>>(
        &self,
        probe: P,
    ) -> bool {
        forall|i: int, ray: Ray, time_range: Interval|
            0 <= i < self@.len() ==> call_requires(probe, (&#[trigger] self@[i], &ray, time_range))
    }

    /// The nearest hit of a ray on the scene within a range of times.
    ///
    /// `probe` tells where the ray meets a single surface. Every surface is
    /// probed once, in order. Of the hits reported, those at a time outside
    /// the range are left aside and the nearest of the others comes back: the
    /// one with the least time, and of several at that time the one on the
    /// surface that comes first. An empty scene is never hit.
    pub fn hit<P: Fn(&H, &Ray, Interval) -> Option<HitRecord>>(
        &self,
        ray: &Ray,
        time_range: Interval,
        probe: &P,
    ) -> (hit: Option<HitRecord>)
        requires
            self.probed_by(*probe),
        ensures
            exists|found: Seq<Option<HitRecord>>|
                {
                    &&& #[trigger] self.reports(*probe, *ray, time_range, found)
                    &&& hit == nearest_within(found, time_range)
                    &&& is_least(all_within(found, time_range), hit)
                },
            hit matches Some(record) ==> time_range.contains(record.time),
            self@.len() == 0 ==> hit is None,
    {
        let ghost mut found: Seq<Option<HitRecord>> = Seq::empty();
        let mut kept: Vec<Option<HitRecord>> = Vec::new();
        let mut i: usize = 0;
        while i < self.list.len()
            invariant
                0 <= i <= self.list.len(),
                found.len() == i,
                kept.len() == i,
                self.probed_by(*probe),
                forall|k: int|
                    0 <= k < i ==> call_ensures(
                        *probe,
                        (&self@[k], ray, time_range),
                        #[trigger] found[k],
                    ),
                forall|k: int| 0 <= k < i ==> #[trigger] kept[k] == within(found[k], time_range),
            decreases self.list.len() - i,
        {
            assert(self@[i as int] == self.list@[i as int]);
            let reported: Option<HitRecord> = probe(&self.list[i], ray, time_range);
            let inside: Option<HitRecord> = match reported {
                Some(record) => if time_range.contains(record.time) {
                    reported
                } else {
                    None
                },
                None => None,
            };
            proof {
                found = found.push(reported);
            }
            kept.push(inside);
            i = i + 1;
        }
        let hit: Option<HitRecord> = nearest(&kept);
        proof {
            assert(self.reports(*probe, *ray, time_range, found));
            assert(kept@ == all_within(found, time_range));
            lemma_nearest_within_is_least(found, time_range);
        }
        hit
    }
}

/// A reported hit, if its time lies in the range; nothing otherwise.
pub open spec fn within(reported: Option<HitRecord>, time_range: Interval) -> Option<HitRecord> {
    match reported {
        Some(record) => if time_range.contains(record.time) {
            reported
        } else {
            None
        },
        None => None,
    }
}

/// The reported hits whose times lie in the range, each in its place.
pub open spec fn all_within(found: Seq<Option<HitRecord>>, time_range: Interval) -> Seq<
    Option<HitRecord>,
> {
    Seq::new(found.len(), |i: int| within(found[i], time_range))
}

/// The nearest of the reported hits whose times lie in the range.
pub open spec fn nearest_within(found: Seq<Option<HitRecord>>, time_range: Interval) -> Option<
    HitRecord,
> {
    nearest_of(all_within(found, time_range))
}

/// The nearer of two hits: the second only where it comes strictly earlier
/// than the first, so that of two hits at one time the first stays.
pub open spec fn nearer(best: Option<HitRecord>, next: Option<HitRecord>) -> Option<HitRecord> {
    match (best, next) {
        (None, _) => next,
        (Some(_), None) => best,
        (Some(b), Some(n)) => if n.time.lt(b.time) {
            next
        } else {
            best
        },
    }
}

/// The nearest of the hits among `candidates`, taken in order.
pub open spec fn nearest_of(candidates: Seq<Option<HitRecord>>) -> Option<HitRecord>
    decreases candidates.len(),
{
    if candidates.len() == 0 {
        None
    } else {
        nearer(nearest_of(candidates.drop_last()), candidates.last())
    }
}

/// Whether every hit among `candidates` has a time that is a number.
pub open spec fn times_are_numbers(candidates: Seq<Option<HitRecord>>) -> bool {
    forall|i: int|
        0 <= i < candidates.len() ==> (#[trigger] candidates[i] matches Some(hit) ==> !hit.time.nan())
}

/// Whether `candidates[at]` is the earliest hit among `candidates`, and the
/// first of those that come as early.
pub open spec fn is_first_minimum(candidates: Seq<Option<HitRecord>>, at: int) -> bool {
    &&& 0 <= at < candidates.len()
    &&& candidates[at] is Some
    &&& forall|j: int|
        0 <= j < candidates.len() ==> (#[trigger] candidates[j] matches Some(hit)
            ==> candidates[at]->0.time.le(hit.time))
    &&& forall|j: int|
        0 <= j < at ==> (#[trigger] candidates[j] matches Some(hit) ==> candidates[at]->0.time.lt(
            hit.time,
        ))
}

/// Whether `hit` is the least of `candidates`: nothing where nothing was
/// hit, and else the earliest hit, the first of those that come as early.
pub open spec fn is_least(candidates: Seq<Option<HitRecord>>, hit: Option<HitRecord>) -> bool {
    &&& hit is None <==> forall|i: int|
        0 <= i < candidates.len() ==> #[trigger] candidates[i] is None
    &&& hit is Some ==> exists|at: int|
        #[trigger] is_first_minimum(candidates, at) && candidates[at] == hit
}

/// Among hits whose times are numbers, the nearest is the hit with the least
/// time, and the first of those where several share it; there is none exactly
/// when nothing was hit.
pub proof fn lemma_nearest_is_first_minimum(candidates: Seq<Option<HitRecord>>)
    requires
        times_are_numbers(candidates),
    ensures
        is_least(candidates, nearest_of(candidates)),
    decreases candidates.len(),
{
    if candidates.len() > 0 {
        let front = candidates.drop_last();
        lemma_nearest_is_first_minimum(front);
        let last = candidates.len() - 1;
        assert(forall|i: int| 0 <= i < last ==> front[i] == candidates[i]);
        match (nearest_of(front), candidates.last()) {
            (None, None) => {
                assert forall|i: int| 0 <= i < candidates.len() implies #[trigger] candidates[i]
                    is None by {
                    if i < last {
                        assert(front[i] is None);
                    }
                }
            },
            (None, Some(_)) => {
                assert forall|j: int| 0 <= j < last implies #[trigger] candidates[j] is None by {
                    assert(front[j] is None);
                }
                assert(is_first_minimum(candidates, last));
            },
            (Some(b), next) => {
                let at = choose|at: int|
                    #[trigger] is_first_minimum(front, at) && front[at] == nearest_of(front);
                assert(candidates[at] is Some);
                if next is Some && next->0.time.lt(b.time) {
                    let n = next->0;
                    assert forall|j: int|
                        0 <= j < candidates.len() implies (#[trigger] candidates[j] matches Some(
                        hit,
                    ) ==> n.time.le(hit.time)) by {
                        if j < last {
                            assert(front[j] == candidates[j]);
                        }
                    }
                    assert forall|j: int| 0 <= j < last implies (#[trigger] candidates[j] matches Some(
                        hit,
                    ) ==> n.time.lt(hit.time)) by {
                        assert(front[j] == candidates[j]);
                    }
                    assert(is_first_minimum(candidates, last));
                } else {
                    assert forall|j: int|
                        0 <= j < candidates.len() implies (#[trigger] candidates[j] matches Some(
                        hit,
                    ) ==> b.time.le(hit.time)) by {
                        if j < last {
                            assert(front[j] == candidates[j]);
                        }
                    }
                    assert forall|j: int| 0 <= j < at implies (#[trigger] candidates[j] matches Some(
                        hit,
                    ) ==> b.time.lt(hit.time)) by {
                        assert(front[j] == candidates[j]);
                    }
                    assert(is_first_minimum(candidates, at));
                }
            },
        }
    }
}

/// The nearest hit within a range is the least of the reported hits that lie
/// in the range, and its own time lies in the range.
pub proof fn lemma_nearest_within_is_least(found: Seq<Option<HitRecord>>, time_range: Interval)
    ensures
        is_least(all_within(found, time_range), nearest_within(found, time_range)),
        nearest_within(found, time_range) matches Some(record) ==> time_range.contains(
            record.time,
        ),
{
    let kept = all_within(found, time_range);
    assert(times_are_numbers(kept));
    lemma_nearest_is_first_minimum(kept);
}

/// The nearest of the hits that one ray makes on the surfaces of a scene.
///
/// `candidates` holds, surface by surface, the hit on that surface or `None`.
/// The answer is the hit with the least time; of several hits at that time,
/// the one on the surface that comes first.
pub fn nearest(candidates: &Vec<Option<HitRecord>>) -> (hit: Option<HitRecord>)
    ensures
        hit == nearest_of(candidates@),
        times_are_numbers(candidates@) ==> is_least(candidates@, hit),
{
    let mut best: Option<HitRecord> = None;
    let mut i: usize = 0;
    while i < candidates.len()
        invariant
            0 <= i <= candidates.len(),
            best == nearest_of(candidates@.take(i as int)),
        decreases candidates.len() - i,
    {
        let next: Option<HitRecord> = candidates[i];
        proof {
            assert(candidates@.take(i + 1).drop_last() == candidates@.take(i as int));
        }
        best =
        match (best, next) {
            (None, _) => next,
            (Some(_), None) => best,
            (Some(b), Some(n)) => if n.time.lt(b.time) {
                next
            } else {
                best
            },
        };
        i = i + 1;
    }
    proof {
        assert(candidates@.take(candidates.len() as int) == candidates@);
        if times_are_numbers(candidates@) {
            lemma_nearest_is_first_minimum(candidates@);
        }
    }
    best
}

} // verus!
