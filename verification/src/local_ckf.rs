//! The local projection of cached blocks: one filter lane per backend of this gateway.

use vstd::prelude::*;

use crate::cuckoo_filter;
use crate::cuckoo_filter::{
    alt_index, bucket_contains, probe, try_delete, try_insert, Fp, PackedBucket, BUCKETS_PER_LANE,
};
use crate::ids::{BackendId, BackendView};
use crate::lane;
use crate::lane_grid;
use crate::lane_grid::{LaneGrid, GRID_LANES};

verus! {

/// Number of lanes, which is the number of backends that can have one at a time.
pub const LOCAL_LANE_COUNT: usize = 16;

/// What the projection knows of one lane.
#[verifier::ext_equal]
pub struct LocalLane {
    /// Buckets of the lane.
    pub buckets: Seq<PackedBucket>,
    /// Backend bound to the lane.
    pub backend: Option<BackendView>,
    /// Whether the lane takes part in queries.
    pub active: bool,
}

/// No two lanes are bound to one backend.
pub open spec fn lanes_distinct(lanes: Seq<LocalLane>) -> bool {
    forall|i: int, j: int|
        #![trigger lanes[i], lanes[j]]
        0 <= i < j < lanes.len() && lanes[i].backend is Some ==> lanes[i].backend
            != lanes[j].backend
}

/// Whether `lane` is the lane of `backend`.
pub open spec fn is_lane_of(lanes: Seq<LocalLane>, backend: BackendView, lane: int) -> bool {
    0 <= lane < lanes.len() && lanes[lane].backend == Some(backend)
}

/// Whether `backend` has a lane.
pub open spec fn has_lane(lanes: Seq<LocalLane>, backend: BackendView) -> bool {
    exists|lane: int| is_lane_of(lanes, backend, lane)
}

/// Whether `lane` is the first lane that is not bound.
pub open spec fn is_first_free(lanes: Seq<LocalLane>, lane: int) -> bool {
    &&& 0 <= lane < lanes.len()
    &&& lanes[lane].backend is None
    &&& forall|i: int| 0 <= i < lane ==> (#[trigger] lanes[i]).backend is Some
}

/// The buckets of a lane after storing the fingerprint of `hash` in its primary bucket, or in its
/// alternate one when that is full; `None` when both are full.
pub open spec fn stored_in(buckets: Seq<PackedBucket>, hash: u64) -> Option<Seq<PackedBucket>> {
    let fp = cuckoo_filter::fp_of(hash);
    let a = cuckoo_filter::bucket_of(hash);
    let b = cuckoo_filter::alt_of(a, fp);
    match cuckoo_filter::bucket_insert(buckets[a as int], fp) {
        Some(bucket) => Some(buckets.update(a as int, bucket)),
        None => match cuckoo_filter::bucket_insert(buckets[b as int], fp) {
            Some(bucket) => Some(buckets.update(b as int, bucket)),
            None => None,
        },
    }
}

/// The prefix overlap of a hash sequence with a lane; 0 when the lane is not active.
pub open spec fn lane_overlap(lane: LocalLane, hashes: Seq<u64>) -> nat {
    if lane.active {
        lane_grid::prefix_overlap(lane.buckets, hashes)
    } else {
        0
    }
}

/// Whether the overlaps of a hash sequence with all lanes fit their counters.
pub open spec fn all_countable(lanes: Seq<LocalLane>, hashes: Seq<u64>) -> bool {
    forall|l: int|
        0 <= l < lanes.len() ==> lane_grid::countable(
            hashes,
            lane_overlap(#[trigger] lanes[l], hashes),
        )
}

/// The answers of a batch query: each active lane, in order, with its prefix overlap.
pub open spec fn active_overlaps(lanes: Seq<LocalLane>, hashes: Seq<u64>) -> Seq<(usize, u32)>
    decreases lanes.len(),
{
    if lanes.len() == 0 {
        Seq::empty()
    } else {
        let before = active_overlaps(lanes.drop_last(), hashes);
        if lanes.last().active {
            before.push(
                (
                    (lanes.len() - 1) as usize,
                    lane_overlap(lanes.last(), hashes) as u32,
                ),
            )
        } else {
            before
        }
    }
}

/// Number of lanes that are bound.
pub open spec fn bound_lanes(lanes: Seq<LocalLane>) -> nat
    decreases lanes.len(),
{
    if lanes.len() == 0 {
        0
    } else {
        bound_lanes(lanes.drop_last()) + (if lanes.last().backend is Some {
            1nat
        } else {
            0
        })
    }
}

/// Local projection with one lane per backend.
pub struct LocalCkf {
    grid: LaneGrid,
    backends: Vec<Option<BackendId>>,
    active: Vec<bool>,
}

/// The names of an optional backend.
pub open spec fn backend_view(backend: Option<BackendId>) -> Option<BackendView> {
    match backend {
        Some(b) => Some(b@),
        None => None,
    }
}

impl View for LocalCkf {
    type V = Seq<LocalLane>;

    closed spec fn view(&self) -> Seq<LocalLane> {
        Seq::new(
            LOCAL_LANE_COUNT as nat,
            |l: int|
                LocalLane {
                    buckets: self.grid.lane(l),
                    backend: backend_view(self.backends@[l]),
                    active: self.active@[l],
                },
        )
    }
}

impl LocalCkf {
    /// The projection has all its lanes, and no backend has two.
    pub closed spec fn wf(&self) -> bool {
        &&& self.parts_wf()
        &&& lanes_distinct(self@)
    }

    spec fn parts_wf(&self) -> bool {
        &&& self.grid.wf()
        &&& self.backends@.len() == LOCAL_LANE_COUNT
        &&& self.active@.len() == LOCAL_LANE_COUNT
    }

    /// A projection has sixteen lanes, each with its full number of buckets, and no two of them
    /// are bound to one backend.
    pub proof fn lemma_shape(&self)
        requires
            self.wf(),
        ensures
            self@.len() == LOCAL_LANE_COUNT,
            lanes_distinct(self@),
            forall|l: int|
                0 <= l < LOCAL_LANE_COUNT ==> (#[trigger] self@[l]).buckets.len()
                    == BUCKETS_PER_LANE,
    {
        assert forall|l: int| 0 <= l < LOCAL_LANE_COUNT implies (#[trigger] self@[l]).buckets.len()
            == BUCKETS_PER_LANE by {
            self.grid.lemma_lane(l);
        }
    }

    /// A projection of empty lanes, none bound and none active.
    pub fn new() -> (ckf: Self)
        ensures
            ckf.wf(),
            ckf@ == Seq::new(
                LOCAL_LANE_COUNT as nat,
                |l: int|
                    LocalLane { buckets: lane_grid::empty_lane(), backend: None, active: false },
            ),
    {
        let mut backends: Vec<Option<BackendId>> = Vec::new();
        let mut active: Vec<bool> = Vec::new();
        while active.len() < LOCAL_LANE_COUNT
            invariant
                active@.len() <= LOCAL_LANE_COUNT,
                backends@.len() == active@.len(),
                forall|l: int| 0 <= l < active@.len() ==> !#[trigger] active@[l],
                forall|l: int| 0 <= l < backends@.len() ==> #[trigger] backends@[l] is None,
            decreases LOCAL_LANE_COUNT - active@.len(),
        {
            backends.push(None);
            active.push(false);
        }
        let ckf = LocalCkf { grid: LaneGrid::new(), backends, active };
        proof {
            assert forall|l: int| 0 <= l < LOCAL_LANE_COUNT implies #[trigger] ckf@[l] == (
            LocalLane { buckets: lane_grid::empty_lane(), backend: None, active: false }) by {
                assert(ckf.grid.lane(l) == lane_grid::empty_lane());
            }
            assert(ckf@ =~= Seq::new(
                LOCAL_LANE_COUNT as nat,
                |l: int|
                    LocalLane { buckets: lane_grid::empty_lane(), backend: None, active: false },
            ));
        }
        ckf
    }

    /// The lane of a backend, which gets the first free one, emptied and active, if it has none;
    /// `None` when no lane is free.
    pub fn assign_lane(&mut self, backend: &BackendId) -> (lane: Option<usize>)
        requires
            old(self).wf(),
        ensures
            final(self).wf(),
            has_lane(old(self)@, backend@) ==> lane is Some && is_lane_of(
                old(self)@,
                backend@,
                lane->0 as int,
            ) && final(self)@ == old(self)@,
            !has_lane(old(self)@, backend@) && lane is Some ==> is_first_free(
                old(self)@,
                lane->0 as int,
            ) && final(self)@ == old(self)@.update(
                lane->0 as int,
                LocalLane {
                    buckets: lane_grid::empty_lane(),
                    backend: Some(backend@),
                    active: true,
                },
            ),
            lane is None <==> !has_lane(old(self)@, backend@) && forall|l: int|
                0 <= l < LOCAL_LANE_COUNT ==> (#[trigger] old(self)@[l]).backend is Some,
            lane is None ==> final(self)@ == old(self)@,
    {
        match self.lane_of(backend) {
            Some(lane) => {
                return Some(lane);
            },
            None => {},
        }
        let mut l: usize = 0;
        while l < LOCAL_LANE_COUNT
            invariant
                l <= LOCAL_LANE_COUNT,
                self.wf(),
                self@ == old(self)@,
                !has_lane(old(self)@, backend@),
                forall|i: int| 0 <= i < l ==> (#[trigger] self@[i]).backend is Some,
            decreases LOCAL_LANE_COUNT - l,
        {
            if self.backends[l].is_none() {
                proof {
                    assert(self@[l as int].backend is None);
                    assert(is_first_free(self@, l as int));
                }
                self.grid.clear(l);
                self.backends.set(l, Some(backend.clone()));
                self.active.set(l, true);
                proof {
                    let bound = LocalLane {
                        buckets: lane_grid::empty_lane(),
                        backend: Some(backend@),
                        active: true,
                    };
                    assert(self@ =~= old(self)@.update(l as int, bound));
                    assert forall|i: int, j: int|
                        #![trigger self@[i], self@[j]]
                        0 <= i < j < self@.len() && self@[i].backend is Some implies self@[i].backend
                        != self@[j].backend by {
                        if i != l && j != l {
                            assert(old(self)@[i].backend != old(self)@[j].backend);
                        } else if i == l {
                            assert(!is_lane_of(old(self)@, backend@, j));
                        } else {
                            assert(!is_lane_of(old(self)@, backend@, i));
                        }
                    }
                }
                return Some(l);
            }
            assert(self@[l as int].backend is Some);
            l = l + 1;
        }
        None
    }

    /// Unbinds the lane of a backend, empties it and takes it out of queries.
    pub fn unassign_lane(&mut self, backend: &BackendId)
        requires
            old(self).wf(),
        ensures
            final(self).wf(),
            forall|lane: int| #[trigger]
                is_lane_of(old(self)@, backend@, lane) ==> final(self)@ == old(self)@.update(
                    lane,
                    LocalLane { buckets: lane_grid::empty_lane(), backend: None, active: false },
                ),
            !has_lane(old(self)@, backend@) ==> final(self)@ == old(self)@,
            !has_lane(final(self)@, backend@),
    {
        match self.lane_of(backend) {
            Some(lane) => {
                self.active.set(lane, false);
                self.grid.clear(lane);
                self.backends.set(lane, None);
                proof {
                    let free = LocalLane {
                        buckets: lane_grid::empty_lane(),
                        backend: None,
                        active: false,
                    };
                    assert(self@ =~= old(self)@.update(lane as int, free));
                    assert forall|other: int| #[trigger]
                        is_lane_of(old(self)@, backend@, other) implies other == lane by {
                        if other < lane {
                            assert(old(self)@[other].backend != old(self)@[lane as int].backend);
                        } else if lane < other {
                            assert(old(self)@[lane as int].backend != old(self)@[other].backend);
                        }
                    }
                    assert forall|i: int, j: int|
                        #![trigger self@[i], self@[j]]
                        0 <= i < j < self@.len() && self@[i].backend is Some implies self@[i].backend
                        != self@[j].backend by {
                        if j != lane {
                            assert(old(self)@[i].backend != old(self)@[j].backend);
                        }
                    }
                    assert forall|other: int| !is_lane_of(self@, backend@, other) by {
                        if other != lane {
                            assert(!is_lane_of(old(self)@, backend@, other));
                        }
                    }
                }
            },
            None => {},
        }
    }

    /// The lane of a backend.
    pub fn lane_of(&self, backend: &BackendId) -> (lane: Option<usize>)
        requires
            self.wf(),
        ensures
            match lane {
                Some(l) => l < LOCAL_LANE_COUNT && is_lane_of(self@, backend@, l as int),
                None => !has_lane(self@, backend@),
            },
    {
        let mut l: usize = 0;
        while l < LOCAL_LANE_COUNT
            invariant
                l <= LOCAL_LANE_COUNT,
                self.wf(),
                forall|i: int| 0 <= i < l ==> (#[trigger] self@[i]).backend != Some(backend@),
            decreases LOCAL_LANE_COUNT - l,
        {
            match &self.backends[l] {
                Some(bound) => {
                    if bound.same(backend) {
                        assert(is_lane_of(self@, backend@, l as int));
                        return Some(l);
                    }
                },
                None => {},
            }
            assert(self@[l as int].backend != Some(backend@));
            l = l + 1;
        }
        assert forall|i: int| !is_lane_of(self@, backend@, i) by {
            if 0 <= i < self@.len() {
                assert(self@[i].backend != Some(backend@));
            }
        }
        None
    }

    /// The backend bound to a lane.
    pub fn backend_of_lane(&self, lane: usize) -> (backend: Option<BackendId>)
        requires
            self.wf(),
        ensures
            backend_view(backend) == (if lane < LOCAL_LANE_COUNT {
                self@[lane as int].backend
            } else {
                None
            }),
    {
        if lane >= LOCAL_LANE_COUNT {
            return None;
        }
        match &self.backends[lane] {
            Some(backend) => Some(backend.clone()),
            None => None,
        }
    }

    /// Stores the fingerprint of `hash` in a lane; `false` when the lane is not active, or both of
    /// the hash's buckets are full.
    pub fn insert(&mut self, hash: u64, lane: usize) -> (stored: bool)
        requires
            old(self).wf(),
            lane < LOCAL_LANE_COUNT,
        ensures
            final(self).wf(),
            stored == (old(self)@[lane as int].active && stored_in(
                old(self)@[lane as int].buckets,
                hash,
            ) is Some),
            stored ==> final(self)@ == old(self)@.update(
                lane as int,
                LocalLane {
                    buckets: stored_in(old(self)@[lane as int].buckets, hash)->0,
                    ..old(self)@[lane as int]
                },
            ),
            !stored ==> final(self)@ == old(self)@,
    {
        if !self.active[lane] {
            return false;
        }
        let (fp, bucket_a): (Fp, usize) = probe(hash);
        let bucket_b: usize = alt_index(bucket_a, fp);
        let ghost before = self.grid.lane(lane as int);
        let mut word: PackedBucket = self.grid.get(bucket_a, lane);
        if try_insert(&mut word, fp) {
            self.grid.set(bucket_a, lane, word);
            proof {
                self.lemma_lane_written(
                    *old(self),
                    lane as int,
                    before.update(bucket_a as int, word),
                );
            }
            return true;
        }
        word = self.grid.get(bucket_b, lane);
        if try_insert(&mut word, fp) {
            self.grid.set(bucket_b, lane, word);
            proof {
                self.lemma_lane_written(
                    *old(self),
                    lane as int,
                    before.update(bucket_b as int, word),
                );
            }
            return true;
        }
        false
    }

    /// Deletes one occurrence of the fingerprint of `hash` from a lane; `false` when the lane is
    /// not active, or holds none.
    pub fn delete(&mut self, hash: u64, lane: usize) -> (deleted: bool)
        requires
            old(self).wf(),
            lane < LOCAL_LANE_COUNT,
        ensures
            final(self).wf(),
            deleted == (old(self)@[lane as int].active && lane::delete_at(
                old(self)@[lane as int].buckets,
                hash,
            ) is Some),
            deleted ==> final(self)@ == old(self)@.update(
                lane as int,
                LocalLane {
                    buckets: lane::lane_delete(old(self)@[lane as int].buckets, hash),
                    ..old(self)@[lane as int]
                },
            ),
            !deleted ==> final(self)@ == old(self)@,
    {
        if !self.active[lane] {
            return false;
        }
        let (fp, bucket_a): (Fp, usize) = probe(hash);
        let bucket_b: usize = alt_index(bucket_a, fp);
        let ghost before = self.grid.lane(lane as int);
        let mut word: PackedBucket = self.grid.get(bucket_a, lane);
        if try_delete(&mut word, fp) {
            self.grid.set(bucket_a, lane, word);
            proof {
                self.lemma_lane_written(
                    *old(self),
                    lane as int,
                    before.update(bucket_a as int, word),
                );
            }
            return true;
        }
        word = self.grid.get(bucket_b, lane);
        if try_delete(&mut word, fp) {
            self.grid.set(bucket_b, lane, word);
            proof {
                self.lemma_lane_written(
                    *old(self),
                    lane as int,
                    before.update(bucket_b as int, word),
                );
            }
            return true;
        }
        false
    }

    proof fn lemma_lane_written(
        &self,
        before: LocalCkf,
        lane: int,
        buckets: Seq<PackedBucket>,
    )
        requires
            before.wf(),
            self.grid.wf(),
            0 <= lane < LOCAL_LANE_COUNT,
            self.backends == before.backends,
            self.active == before.active,
            self.grid.lane(lane) == buckets,
            forall|l: int|
                0 <= l < GRID_LANES && l != lane ==> #[trigger] self.grid.lane(l)
                    == before.grid.lane(l),
        ensures
            self.wf(),
            self@ == before@.update(lane, LocalLane { buckets, ..before@[lane] }),
    {
        assert(self@ =~= before@.update(lane, LocalLane { buckets, ..before@[lane] }));
        assert forall|i: int, j: int|
            #![trigger self@[i], self@[j]]
            0 <= i < j < self@.len() && self@[i].backend is Some implies self@[i].backend
            != self@[j].backend by {
            assert(before@[i].backend != before@[j].backend);
        }
    }

    /// The prefix overlap of a hash sequence with a lane; 0 when the lane is not active.
    pub fn estimate_overlap(&self, hashes: &[u64], lane: usize) -> (n: u32)
        requires
            self.wf(),
            lane < LOCAL_LANE_COUNT,
            lane_grid::countable(hashes@, lane_overlap(self@[lane as int], hashes@)),
        ensures
            n == lane_overlap(self@[lane as int], hashes@),
    {
        if !self.active[lane] {
            return 0;
        }
        self.grid.overlap(hashes, lane)
    }

    /// The prefix overlaps of a hash sequence with all active lanes, found in one pass over the
    /// hashes; a lane that misses a hash counts no further ones.
    pub fn estimate_all_overlaps(&self, hashes: &[u64]) -> (overlaps: Vec<(usize, u32)>)
        requires
            self.wf(),
            all_countable(self@, hashes@),
        ensures
            overlaps@ == active_overlaps(self@, hashes@),
    {
        let mut counts: Vec<u32> = vec![0u32; LOCAL_LANE_COUNT];
        let mut n: usize = 0;
        let mut any_hit: bool = true;
        proof {
            assert(hashes@.take(0) =~= Seq::empty());
        }
        while n < hashes.len() && any_hit
            invariant
                n <= hashes@.len(),
                all_countable(self@, hashes@),
                self.wf(),
                counts@.len() == LOCAL_LANE_COUNT,
                forall|l: int|
                    0 <= l < LOCAL_LANE_COUNT && self@[l].active ==> #[trigger] counts@[l]
                        == lane_grid::prefix_overlap(self@[l].buckets, hashes@.take(n as int)),
                !any_hit ==> forall|l: int|
                    0 <= l < LOCAL_LANE_COUNT && self@[l].active ==> #[trigger] counts@[l] < n,
            decreases hashes@.len() - n,
        {
            let (fp, bucket): (Fp, usize) = probe(hashes[n]);
            let ghost longer = hashes@.take(n + 1);
            proof {
                assert(longer.drop_last() =~= hashes@.take(n as int));
                assert(longer.last() == hashes@[n as int]);
            }
            any_hit = false;
            let mut l: usize = 0;
            while l < LOCAL_LANE_COUNT
                invariant
                    l <= LOCAL_LANE_COUNT,
                    n < hashes@.len(),
                    longer == hashes@.take(n + 1),
                    all_countable(self@, hashes@),
                    self.wf(),
                    counts@.len() == LOCAL_LANE_COUNT,
                    bucket < BUCKETS_PER_LANE,
                    fp != 0,
                    fp == cuckoo_filter::fp_of(longer.last()),
                    bucket == cuckoo_filter::bucket_of(longer.last()),
                    longer.len() == n + 1,
                    longer.drop_last() == hashes@.take(n as int),
                    forall|i: int|
                        0 <= i < l && self@[i].active ==> #[trigger] counts@[i]
                            == lane_grid::prefix_overlap(self@[i].buckets, longer),
                    forall|i: int|
                        l <= i < LOCAL_LANE_COUNT && self@[i].active ==> #[trigger] counts@[i]
                            == lane_grid::prefix_overlap(
                            self@[i].buckets,
                            hashes@.take(n as int),
                        ),
                    !any_hit ==> forall|i: int|
                        0 <= i < l && self@[i].active ==> #[trigger] counts@[i] < n + 1,
                decreases LOCAL_LANE_COUNT - l,
            {
                if self.active[l] && counts[l] as usize == n {
                    proof {
                        assert(self@[l as int].active);
                        assert(self@[l as int].buckets == self.grid.lane(l as int));
                    }
                    if bucket_contains(self.grid.get(bucket, l), fp) {
                        proof {
                            let buckets = self@[l as int].buckets;
                            assert(lane_grid::hits(buckets, longer.last()));
                            lane_grid::overlap_of_a_prefix(buckets, hashes@, (n + 1) as nat);
                            lane_grid::overlap_stops_at_the_first_miss(buckets, hashes@);
                            assert(lane_grid::countable(
                                hashes@,
                                lane_overlap(self@[l as int], hashes@),
                            ));
                        }
                        counts.set(l, counts[l] + 1);
                        any_hit = true;
                    }
                }
                proof {
                    if self@[l as int].active {
                        lane_grid::overlap_stops_at_the_first_miss(
                            self@[l as int].buckets,
                            hashes@.take(n as int),
                        );
                    }
                }
                l = l + 1;
            }
            n = n + 1;
        }
        let mut overlaps: Vec<(usize, u32)> = Vec::new();
        let mut l: usize = 0;
        proof {
            assert forall|i: int| 0 <= i < LOCAL_LANE_COUNT && self@[i].active implies (
            #[trigger] counts@[i]) == lane_grid::prefix_overlap(self@[i].buckets, hashes@) by {
                lane_grid::overlap_of_a_prefix(self@[i].buckets, hashes@, n as nat);
                lane_grid::overlap_stops_at_the_first_miss(self@[i].buckets, hashes@);
            }
            assert(self@.take(0) =~= Seq::empty());
        }
        while l < LOCAL_LANE_COUNT
            invariant
                l <= LOCAL_LANE_COUNT,
                self.wf(),
                counts@.len() == LOCAL_LANE_COUNT,
                forall|i: int|
                    0 <= i < LOCAL_LANE_COUNT && self@[i].active ==> #[trigger] counts@[i]
                        == lane_grid::prefix_overlap(self@[i].buckets, hashes@),
                overlaps@ == active_overlaps(self@.take(l as int), hashes@),
            decreases LOCAL_LANE_COUNT - l,
        {
            proof {
                assert(self@.take(l + 1).drop_last() =~= self@.take(l as int));
                assert(self@.take(l + 1).last() == self@[l as int]);
            }
            if self.active[l] {
                overlaps.push((l, counts[l]));
            }
            l = l + 1;
        }
        assert(self@.take(l as int) =~= self@);
        overlaps
    }

    /// Empties a lane, which is active afterwards.
    pub fn clear_lane(&mut self, lane: usize)
        requires
            old(self).wf(),
            lane < LOCAL_LANE_COUNT,
        ensures
            final(self).wf(),
            final(self)@ == old(self)@.update(
                lane as int,
                LocalLane {
                    buckets: lane_grid::empty_lane(),
                    active: true,
                    ..old(self)@[lane as int]
                },
            ),
    {
        self.grid.clear(lane);
        self.active.set(lane, true);
        proof {
            assert(self@ =~= old(self)@.update(
                lane as int,
                LocalLane {
                    buckets: lane_grid::empty_lane(),
                    active: true,
                    ..old(self)@[lane as int]
                },
            ));
            assert forall|i: int, j: int|
                #![trigger self@[i], self@[j]]
                0 <= i < j < self@.len() && self@[i].backend is Some implies self@[i].backend
                != self@[j].backend by {
                assert(old(self)@[i].backend != old(self)@[j].backend);
            }
        }
    }

    /// Number of lanes that are bound.
    pub fn assigned_count(&self) -> (n: usize)
        requires
            self.wf(),
        ensures
            n == bound_lanes(self@),
    {
        let mut n: usize = 0;
        let mut l: usize = 0;
        assert(self@.take(0) =~= Seq::empty());
        while l < LOCAL_LANE_COUNT
            invariant
                l <= LOCAL_LANE_COUNT,
                n <= l,
                self.wf(),
                n == bound_lanes(self@.take(l as int)),
            decreases LOCAL_LANE_COUNT - l,
        {
            proof {
                assert(self@.take(l + 1).drop_last() =~= self@.take(l as int));
                assert(self@.take(l + 1).last() == self@[l as int]);
            }
            if self.backends[l].is_some() {
                n = n + 1;
            }
            l = l + 1;
        }
        assert(self@.take(l as int) =~= self@);
        n
    }
}

impl Default for LocalCkf {
    fn default() -> (ckf: Self)
        ensures
            ckf.wf(),
            ckf@ == Seq::new(
                LOCAL_LANE_COUNT as nat,
                |l: int|
                    LocalLane { buckets: lane_grid::empty_lane(), backend: None, active: false },
            ),
    {
        LocalCkf::new()
    }
}

/// The batch query answers for each active lane, once, in order, and for no other; and each answer
/// is that lane's own.
pub proof fn batch_answers_are_single_answers(lanes: Seq<LocalLane>, hashes: Seq<u64>)
    requires
        lanes.len() <= usize::MAX,
        all_countable(lanes, hashes),
    ensures
        forall|i: int|
            0 <= i < active_overlaps(lanes, hashes).len() ==> ({
                let answer = #[trigger] active_overlaps(lanes, hashes)[i];
                &&& answer.0 < lanes.len()
                &&& lanes[answer.0 as int].active
                &&& answer.1 == lane_overlap(lanes[answer.0 as int], hashes)
            }),
        forall|i: int, j: int|
            #![trigger active_overlaps(lanes, hashes)[i], active_overlaps(lanes, hashes)[j]]
            0 <= i < j < active_overlaps(lanes, hashes).len() ==> active_overlaps(lanes, hashes)[i].0
                < active_overlaps(lanes, hashes)[j].0,
        forall|l: int|
            0 <= l < lanes.len() && (#[trigger] lanes[l]).active ==> exists|i: int|
                0 <= i < active_overlaps(lanes, hashes).len() && (#[trigger] active_overlaps(
                    lanes,
                    hashes,
                )[i]).0 == l,
    decreases lanes.len(),
{
    if lanes.len() > 0 {
        let shorter = lanes.drop_last();
        assert forall|l: int| 0 <= l < shorter.len() implies lane_grid::countable(
            hashes,
            lane_overlap(#[trigger] shorter[l], hashes),
        ) by {
            assert(shorter[l] == lanes[l]);
        }
        batch_answers_are_single_answers(shorter, hashes);
        assert(lane_grid::countable(hashes, lane_overlap(lanes[lanes.len() - 1], hashes)));
        lane_grid::overlap_stops_at_the_first_miss(lanes.last().buckets, hashes);
        let before = active_overlaps(shorter, hashes);
        let answers = active_overlaps(lanes, hashes);
        assert forall|i: int| 0 <= i < before.len() implies #[trigger] answers[i] == before[i] by {}
        assert forall|l: int| 0 <= l < lanes.len() && (#[trigger] lanes[l]).active implies exists|
            i: int,
        |
            0 <= i < answers.len() && (#[trigger] answers[i]).0 == l by {
            if l < shorter.len() {
                assert(shorter[l].active);
                let i = choose|i: int| 0 <= i < before.len() && (#[trigger] before[i]).0 == l;
                assert(answers[i].0 == l);
            } else {
                assert(answers[before.len() as int].0 == l);
            }
        }
    }
}

/// A block that is stored in a lane whose primary bucket for it has room is found there.
pub proof fn a_stored_block_is_found(buckets: Seq<PackedBucket>, hash: u64)
    requires
        buckets.len() == BUCKETS_PER_LANE,
        !lane::is_full(buckets[cuckoo_filter::bucket_of(hash) as int]),
    ensures
        stored_in(buckets, hash) is Some,
        lane_grid::hits(stored_in(buckets, hash)->0, hash),
{
    let fp = cuckoo_filter::fp_of(hash);
    let a = cuckoo_filter::bucket_of(hash);
    cuckoo_filter::probe_is_in_range(hash);
    let slot = cuckoo_filter::first_slot(buckets[a as int], 0)->0;
    cuckoo_filter::lemma_first_slot(buckets[a as int], 0);
    cuckoo_filter::put_slot_writes_one_slot(buckets[a as int], slot as u64, fp);
    let after = stored_in(buckets, hash)->0;
    assert(cuckoo_filter::slots(after[a as int])[slot as int] == fp);
}

/// The number of bound lanes grows by one with each lane that is bound, falls by one with each that is
/// given up, and is 0 if none is bound.
pub proof fn bound_lanes_are_counted(lanes: Seq<LocalLane>, lane: int, changed: LocalLane)
    requires
        0 <= lane < lanes.len(),
    ensures
        bound_lanes(lanes.update(lane, changed)) == bound_lanes(lanes) - (if lanes[lane].backend is Some {
            1int
        } else {
            0
        }) + (if changed.backend is Some {
            1int
        } else {
            0
        }),
        (forall|l: int| 0 <= l < lanes.len() ==> (#[trigger] lanes[l]).backend is None)
            ==> bound_lanes(lanes) == 0,
    decreases lanes.len(),
{
    let after = lanes.update(lane, changed);
    let shorter = lanes.drop_last();
    if lane < lanes.len() - 1 {
        bound_lanes_are_counted(shorter, lane, changed);
        assert(after.drop_last() =~= shorter.update(lane, changed));
        assert(after.last() == lanes.last());
        assert(lanes.last() == lanes[lanes.len() - 1]);
    } else {
        assert(after.drop_last() =~= shorter);
        if forall|l: int| 0 <= l < lanes.len() ==> (#[trigger] lanes[l]).backend is None {
            assert(lanes[lanes.len() - 1].backend is None);
            if shorter.len() > 0 {
                bound_lanes_are_counted(shorter, 0, shorter[0]);
            }
        }
    }
}

} // verus!
