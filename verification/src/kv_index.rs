//! The index of cached blocks: the exact tree, the local projection of it, and the approximate
//! index of other regions.
//!
//! Events of local backends go to the tree and to the projection. Local queries are answered from
//! the projection, and from the tree for a backend that has no lane.

use vstd::prelude::*;

use crate::ckf_consumer;
use crate::ckf_consumer::{CkfConsumer, LaneState};
use crate::cuckoo_filter;
use crate::cuckoo_filter::{Fp, PackedBucket, BUCKETS_PER_LANE};
use crate::ids::{BackendId, BackendView, RegionId};
use crate::kv_event::{KvCacheEvent, KvChange};
use crate::lane;
use crate::lane_grid;
use crate::local_ckf;
use crate::local_ckf::{LocalCkf, LocalLane, LOCAL_LANE_COUNT};
use crate::metrics::RealBits;
use crate::radix_tree;
use crate::radix_tree::{RadixTree, RadixView};

verus! {

/// What the index holds.
pub struct KvIndexView {
    /// The exact tree.
    pub radix: RadixView,
    /// The local projection.
    pub local: Seq<LocalLane>,
    /// The lanes of other regions.
    pub regions: Seq<LaneState>,
}

/// An index that knows of no block: its tree is a root without holders, and no lane is bound,
/// active or filled.
pub open spec fn empty_index() -> KvIndexView {
    KvIndexView {
        radix: radix_tree::empty_radix(),
        local: Seq::new(
            LOCAL_LANE_COUNT as nat,
            |l: int| LocalLane { buckets: lane_grid::empty_lane(), backend: None, active: false },
        ),
        regions: Seq::new(
            ckf_consumer::LANE_COUNT as nat,
            |l: int| LaneState { buckets: lane_grid::empty_lane(), region: None, active: false },
        ),
    }
}

/// The buckets of a lane after storing some blocks, one after the other; a block for which there
/// is no room is left out.
pub open spec fn buckets_with(buckets: Seq<PackedBucket>, hashes: Seq<u64>) -> Seq<PackedBucket>
    decreases hashes.len(),
{
    if hashes.len() == 0 {
        buckets
    } else {
        let before = buckets_with(buckets, hashes.drop_last());
        match local_ckf::stored_in(before, hashes.last()) {
            Some(after) => after,
            None => before,
        }
    }
}

/// The buckets of a lane after deleting some blocks, one after the other.
pub open spec fn buckets_without(buckets: Seq<PackedBucket>, hashes: Seq<u64>) -> Seq<PackedBucket>
    decreases hashes.len(),
{
    if hashes.len() == 0 {
        buckets
    } else {
        lane::lane_delete(buckets_without(buckets, hashes.drop_last()), hashes.last())
    }
}

/// A lane after a change to its backend's blocks; a lane that is not active takes only clearing.
pub open spec fn lane_after(lane: LocalLane, change: KvChange) -> LocalLane {
    match change {
        KvChange::Store(hashes) => if lane.active {
            LocalLane { buckets: buckets_with(lane.buckets, hashes), ..lane }
        } else {
            lane
        },
        KvChange::Remove(hashes) => if lane.active {
            LocalLane { buckets: buckets_without(lane.buckets, hashes), ..lane }
        } else {
            lane
        },
        _ => LocalLane { buckets: lane_grid::empty_lane(), active: true, ..lane },
    }
}

/// A lane that a backend has just got.
pub open spec fn fresh_lane(backend: BackendView) -> LocalLane {
    LocalLane { buckets: lane_grid::empty_lane(), backend: Some(backend), active: true }
}

/// The projection after a change to a backend's blocks: the backend's lane takes the change, a new
/// one if it has none and one is free.
pub open spec fn projected(
    before: Seq<LocalLane>,
    after: Seq<LocalLane>,
    backend: BackendView,
    change: KvChange,
) -> bool {
    &&& forall|lane: int| #[trigger]
        local_ckf::is_lane_of(before, backend, lane) ==> after == before.update(
            lane,
            lane_after(before[lane], change),
        )
    &&& !local_ckf::has_lane(before, backend) ==> forall|lane: int| #[trigger]
        local_ckf::is_first_free(before, lane) ==> after == before.update(
            lane,
            lane_after(fresh_lane(backend), change),
        )
    &&& !local_ckf::has_lane(before, backend) && (forall|lane: int|
        0 <= lane < before.len() ==> (#[trigger] before[lane]).backend is Some) ==> after == before
}

/// The local overlap of a backend: that of its lane, or of the tree when it has none.
pub open spec fn local_overlap(
    index: KvIndexView,
    hashes: Seq<u64>,
    backend: BackendView,
    lane: Option<int>,
) -> nat {
    match lane {
        Some(l) => local_ckf::lane_overlap(index.local[l], hashes),
        None => radix_tree::tree_overlap(index.radix.tree, hashes, backend),
    }
}

/// Whether the local overlap of a backend fits its counter.
pub open spec fn local_countable(index: KvIndexView, hashes: Seq<u64>, backend: BackendView) -> bool {
    &&& forall|lane: int| #[trigger]
        local_ckf::is_lane_of(index.local, backend, lane) ==> lane_grid::countable(
            hashes,
            local_overlap(index, hashes, backend, Some(lane)),
        )
    &&& !local_ckf::has_lane(index.local, backend) ==> lane_grid::countable(
        hashes,
        local_overlap(index, hashes, backend, None),
    )
}

/// The answers of a batch query: each backend with an active lane, in the order of the lanes, with
/// its prefix overlap.
pub open spec fn backend_overlaps(lanes: Seq<LocalLane>, hashes: Seq<u64>) -> Seq<(BackendView, u32)>
    decreases lanes.len(),
{
    if lanes.len() == 0 {
        Seq::empty()
    } else {
        let before = backend_overlaps(lanes.drop_last(), hashes);
        let last = lanes.last();
        if last.active && last.backend is Some {
            before.push((last.backend->0, local_ckf::lane_overlap(last, hashes) as u32))
        } else {
            before
        }
    }
}

/// Backends and overlaps by their names.
pub open spec fn named_overlaps(found: Seq<(BackendId, u32)>) -> Seq<(BackendView, u32)> {
    found.map_values(|entry: (BackendId, u32)| (entry.0@, entry.1))
}

/// The index of cached blocks.
pub struct KvIndex {
    radix: RadixTree,
    local_ckf: LocalCkf,
    consumer: CkfConsumer,
}

impl View for KvIndex {
    type V = KvIndexView;

    closed spec fn view(&self) -> KvIndexView {
        KvIndexView { radix: self.radix@, local: self.local_ckf@, regions: self.consumer@ }
    }
}

impl KvIndex {
    /// All parts are well-formed.
    pub closed spec fn wf(&self) -> bool {
        &&& self.radix.wf()
        &&& self.local_ckf.wf()
        &&& self.consumer.wf()
    }

    /// No backend has two lanes.
    pub proof fn no_backend_has_two_lanes(&self)
        requires
            self.wf(),
        ensures
            local_ckf::lanes_distinct(self@.local),
            self@.local.len() == LOCAL_LANE_COUNT,
    {
        self.local_ckf.lemma_shape();
    }

    /// An empty index.
    pub fn new() -> (index: Self)
        ensures
            index.wf(),
            index@ == empty_index(),
    {
        KvIndex { radix: RadixTree::new(), local_ckf: LocalCkf::new(), consumer: CkfConsumer::new() }
    }

    /// The exact tree.
    pub fn radix(&self) -> (radix: &RadixTree)
        requires
            self.wf(),
        ensures
            radix.wf(),
            radix@ == self@.radix,
    {
        &self.radix
    }

    /// The exact tree, to be changed in place.
    pub fn radix_mut(&mut self) -> (radix: &mut RadixTree)
        requires
            old(self).wf(),
        ensures
            radix.wf(),
            radix@ == old(self)@.radix,
            final(radix).wf() ==> final(self).wf(),
            final(self)@ == (KvIndexView { radix: final(radix)@, ..old(self)@ }),
    {
        &mut self.radix
    }

    /// The local projection.
    pub fn local_ckf(&self) -> (ckf: &LocalCkf)
        requires
            self.wf(),
        ensures
            ckf.wf(),
            ckf@ == self@.local,
    {
        &self.local_ckf
    }

    /// The lanes of other regions.
    pub fn consumer(&self) -> (consumer: &CkfConsumer)
        requires
            self.wf(),
        ensures
            consumer.wf(),
            consumer@ == self@.regions,
    {
        &self.consumer
    }

    /// The lanes of other regions, to be changed in place.
    pub fn consumer_mut(&mut self) -> (consumer: &mut CkfConsumer)
        requires
            old(self).wf(),
        ensures
            consumer.wf(),
            consumer@ == old(self)@.regions,
            final(consumer).wf() ==> final(self).wf(),
            final(self)@ == (KvIndexView { regions: final(consumer)@, ..old(self)@ }),
    {
        &mut self.consumer
    }

    /// The prefix overlap of a hash sequence with what a local backend has cached.
    pub fn kv_find_local_overlap(&self, hashes: &[u64], backend: &BackendId) -> (n: u32)
        requires
            self.wf(),
            local_countable(self@, hashes@, backend@),
        ensures
            forall|lane: int| #[trigger]
                local_ckf::is_lane_of(self@.local, backend@, lane) ==> n == local_overlap(
                    self@,
                    hashes@,
                    backend@,
                    Some(lane),
                ),
            !local_ckf::has_lane(self@.local, backend@) ==> n == local_overlap(
                self@,
                hashes@,
                backend@,
                None,
            ),
    {
        match self.local_ckf.lane_of(backend) {
            Some(lane) => {
                proof {
                    self.lemma_one_lane(backend@, lane as int);
                }
                self.local_ckf.estimate_overlap(hashes, lane)
            },
            None => self.radix.find_matches(hashes, backend),
        }
    }

    proof fn lemma_one_lane(&self, backend: BackendView, lane: int)
        requires
            self.wf(),
            local_ckf::is_lane_of(self@.local, backend, lane),
        ensures
            local_ckf::has_lane(self@.local, backend),
            forall|other: int| #[trigger]
                local_ckf::is_lane_of(self@.local, backend, other) ==> other == lane,
    {
        self.local_ckf.lemma_shape();
        let lanes = self@.local;
        assert forall|other: int| #[trigger]
            local_ckf::is_lane_of(lanes, backend, other) implies other == lane by {
            if other < lane {
                assert(lanes[other].backend != lanes[lane].backend);
            } else if lane < other {
                assert(lanes[lane].backend != lanes[other].backend);
            }
        }
    }

    /// The prefix overlaps of a hash sequence with all backends that have a lane.
    pub fn kv_find_all_local_overlap(&self, hashes: &[u64]) -> (found: Vec<(BackendId, u32)>)
        requires
            self.wf(),
            local_ckf::all_countable(self@.local, hashes@),
        ensures
            named_overlaps(found@) == backend_overlaps(self@.local, hashes@),
    {
        let answers: Vec<(usize, u32)> = self.local_ckf.estimate_all_overlaps(hashes);
        let ghost lanes = self@.local;
        let mut found: Vec<(BackendId, u32)> = Vec::new();
        let mut i: usize = 0;
        proof {
            self.local_ckf.lemma_shape();
            local_ckf::batch_answers_are_single_answers(lanes, hashes@);
            assert(named_overlaps(found@) =~= Seq::empty());
            assert(bound_answers(lanes, answers@.take(0)) =~= Seq::empty());
        }
        while i < answers.len()
            invariant
                i <= answers@.len(),
                self.wf(),
                lanes == self@.local,
                lanes.len() == LOCAL_LANE_COUNT,
                answers@ == local_ckf::active_overlaps(lanes, hashes@),
                forall|j: int| 0 <= j < answers@.len() ==> (#[trigger] answers@[j]).0 < lanes.len(),
                named_overlaps(found@) == bound_answers(lanes, answers@.take(i as int)),
            decreases answers@.len() - i,
        {
            let (lane, overlap): (usize, u32) = answers[i];
            let ghost listed = found@;
            proof {
                assert(answers@.take(i + 1).drop_last() =~= answers@.take(i as int));
                assert(answers@.take(i + 1).last() == (lane, overlap));
            }
            match self.local_ckf.backend_of_lane(lane) {
                Some(backend) => {
                    found.push((backend, overlap));
                    assert(named_overlaps(found@) =~= named_overlaps(listed).push(
                        (backend@, overlap),
                    ));
                },
                None => {},
            }
            i = i + 1;
        }
        proof {
            assert(answers@.take(i as int) =~= answers@);
            lemma_bound_answers(lanes, lanes, hashes@);
        }
        found
    }

    /// The prefix overlap of a hash sequence with what a region has cached, approximately.
    pub fn kv_find_global_overlap(&self, hashes: &[u64], region: &RegionId) -> (n: u32)
        requires
            self.wf(),
            lane_grid::countable(
                hashes@,
                ckf_consumer::region_overlap(self@.regions, region@, hashes@),
            ),
        ensures
            n == ckf_consumer::region_overlap(self@.regions, region@, hashes@),
    {
        self.consumer.estimate_overlap(hashes, region)
    }

    /// Applies an event of a local backend to the tree and to the projection. A reset to an earlier
    /// generation than is known is passed over.
    pub fn kv_apply_event(&mut self, event: &KvCacheEvent, backend: &BackendId)
        requires
            old(self).wf(),
        ensures
            final(self).wf(),
            final(self)@.radix == old(self)@.radix.apply(event@, backend@),
            if old(self)@.radix.ignores(event@, backend@) {
                final(self)@.local == old(self)@.local
            } else {
                projected(old(self)@.local, final(self)@.local, backend@, event@)
            },
            final(self)@.regions == old(self)@.regions,
    {
        let ghost start = self@.local;
        if self.radix.ignores(backend, event) {
            return ;
        }
        let assigned: Option<usize> = self.local_ckf.assign_lane(backend);
        self.radix.apply_event(backend, event);
        match assigned {
            Some(lane) => {
                let ghost got = self.local_ckf@;
                proof {
                    old(self).local_ckf.lemma_shape();
                    if local_ckf::has_lane(start, backend@) {
                        old(self).lemma_one_lane(backend@, lane as int);
                    }
                }
                match event {
                    KvCacheEvent::Stored { block_hashes, .. } => {
                        self.store_all(block_hashes, lane);
                    },
                    KvCacheEvent::Removed { block_hashes, .. } => {
                        self.delete_all(block_hashes, lane);
                    },
                    KvCacheEvent::Clear { .. } => {
                        self.local_ckf.clear_lane(lane);
                    },
                    KvCacheEvent::Reset { .. } => {
                        self.local_ckf.clear_lane(lane);
                    },
                }
                proof {
                    let l = lane as int;
                    assert(self.local_ckf@ == got.update(l, lane_after(got[l], event@)));
                    if local_ckf::has_lane(start, backend@) {
                        assert(self.local_ckf@ == start.update(l, lane_after(start[l], event@)));
                    } else {
                        assert(self.local_ckf@ =~= start.update(
                            l,
                            lane_after(fresh_lane(backend@), event@),
                        ));
                        assert forall|other: int| #[trigger]
                            local_ckf::is_first_free(start, other) implies other == l by {
                            if other < l {
                                assert(start[other].backend is Some);
                            } else if l < other {
                                assert(start[l].backend is Some);
                            }
                        }
                        assert(!(forall|i: int|
                            0 <= i < start.len() ==> (#[trigger] start[i]).backend is Some)) by {
                            assert(start[l].backend is None);
                        }
                    }
                }
            },
            None => {
                proof {
                    old(self).local_ckf.lemma_shape();
                    assert forall|other: int| !local_ckf::is_first_free(start, other) by {
                        if 0 <= other < start.len() {
                            assert(start[other].backend is Some);
                        }
                    }
                }
            },
        }
    }

    fn store_all(&mut self, hashes: &Vec<u64>, lane: usize)
        requires
            old(self).wf(),
            lane < LOCAL_LANE_COUNT,
        ensures
            final(self).wf(),
            final(self).radix == old(self).radix,
            final(self).consumer == old(self).consumer,
            final(self).local_ckf@ == old(self).local_ckf@.update(
                lane as int,
                lane_after(old(self).local_ckf@[lane as int], KvChange::Store(hashes@)),
            ),
    {
        let ghost start = self.local_ckf@;
        let ghost l = lane as int;
        let mut i: usize = 0;
        proof {
            self.local_ckf.lemma_shape();
            assert(hashes@.take(0) =~= Seq::empty());
            assert(start =~= start.update(
                l,
                lane_after(start[l], KvChange::Store(hashes@.take(0))),
            ));
        }
        while i < hashes.len()
            invariant
                i <= hashes@.len(),
                l == lane,
                lane < LOCAL_LANE_COUNT,
                start.len() == LOCAL_LANE_COUNT,
                self.wf(),
                self.radix == old(self).radix,
                self.consumer == old(self).consumer,
                self.local_ckf@ == start.update(
                    l,
                    lane_after(start[l], KvChange::Store(hashes@.take(i as int))),
                ),
            decreases hashes@.len() - i,
        {
            self.local_ckf.insert(hashes[i], lane);
            proof {
                assert(hashes@.take(i + 1).drop_last() =~= hashes@.take(i as int));
                assert(self.local_ckf@ =~= start.update(
                    l,
                    lane_after(start[l], KvChange::Store(hashes@.take(i + 1))),
                ));
            }
            i = i + 1;
        }
        assert(hashes@.take(i as int) =~= hashes@);
    }

    fn delete_all(&mut self, hashes: &Vec<u64>, lane: usize)
        requires
            old(self).wf(),
            lane < LOCAL_LANE_COUNT,
        ensures
            final(self).wf(),
            final(self).radix == old(self).radix,
            final(self).consumer == old(self).consumer,
            final(self).local_ckf@ == old(self).local_ckf@.update(
                lane as int,
                lane_after(old(self).local_ckf@[lane as int], KvChange::Remove(hashes@)),
            ),
    {
        let ghost start = self.local_ckf@;
        let ghost l = lane as int;
        let mut i: usize = 0;
        proof {
            self.local_ckf.lemma_shape();
            assert(hashes@.take(0) =~= Seq::empty());
            assert(start =~= start.update(
                l,
                lane_after(start[l], KvChange::Remove(hashes@.take(0))),
            ));
        }
        while i < hashes.len()
            invariant
                i <= hashes@.len(),
                l == lane,
                lane < LOCAL_LANE_COUNT,
                start.len() == LOCAL_LANE_COUNT,
                self.wf(),
                self.radix == old(self).radix,
                self.consumer == old(self).consumer,
                self.local_ckf@ == start.update(
                    l,
                    lane_after(start[l], KvChange::Remove(hashes@.take(i as int))),
                ),
            decreases hashes@.len() - i,
        {
            self.local_ckf.delete(hashes[i], lane);
            proof {
                assert(hashes@.take(i + 1).drop_last() =~= hashes@.take(i as int));
                assert(self.local_ckf@ =~= start.update(
                    l,
                    lane_after(start[l], KvChange::Remove(hashes@.take(i + 1))),
                ));
            }
            i = i + 1;
        }
        assert(hashes@.take(i as int) =~= hashes@);
    }

    /// How far an answer of the filters can be relied on: 1 less the rate of false positives, which
    /// is `8 * ln 2 / 65536` with four slots of 16 bits in a bucket. The value is the double that is
    /// nearest to it.
    pub fn kv_confidence(&self) -> (confidence: RealBits)
        ensures
            confidence == RealBits(0x3FEF_FF4E_8DE8_082E),
    {
        RealBits(0x3FEF_FF4E_8DE8_082E)
    }

    /// Takes a backend out of the projection and out of the tree.
    pub fn kv_remove_backend(&mut self, backend: &BackendId)
        requires
            old(self).wf(),
        ensures
            final(self).wf(),
            final(self)@.radix == old(self)@.radix.without(backend@),
            forall|lane: int| #[trigger]
                local_ckf::is_lane_of(old(self)@.local, backend@, lane) ==> final(self)@.local
                    == old(self)@.local.update(
                    lane,
                    LocalLane { buckets: lane_grid::empty_lane(), backend: None, active: false },
                ),
            !local_ckf::has_lane(old(self)@.local, backend@) ==> final(self)@.local == old(
                self,
            )@.local,
            !local_ckf::has_lane(final(self)@.local, backend@),
            final(self)@.regions == old(self)@.regions,
            freed(old(self)@.local, final(self)@.local, backend@),
    {
        self.local_ckf.unassign_lane(backend);
        self.radix.remove_backend(backend);
    }
}

impl Default for KvIndex {
    fn default() -> (index: Self)
        ensures
            index.wf(),
            index@ == empty_index(),
    {
        KvIndex::new()
    }
}

/// The answers for lanes that are bound, by their backends.
spec fn bound_answers(lanes: Seq<LocalLane>, answers: Seq<(usize, u32)>) -> Seq<(BackendView, u32)>
    decreases answers.len(),
{
    if answers.len() == 0 {
        Seq::empty()
    } else {
        let before = bound_answers(lanes, answers.drop_last());
        match lanes[answers.last().0 as int].backend {
            Some(backend) => before.push((backend, answers.last().1)),
            None => before,
        }
    }
}

proof fn lemma_bound_answers(lanes: Seq<LocalLane>, shown: Seq<LocalLane>, hashes: Seq<u64>)
    requires
        shown.is_prefix_of(lanes),
        lanes.len() <= LOCAL_LANE_COUNT,
    ensures
        bound_answers(lanes, local_ckf::active_overlaps(shown, hashes)) == backend_overlaps(
            shown,
            hashes,
        ),
    decreases shown.len(),
{
    if shown.len() > 0 {
        let shorter = shown.drop_last();
        assert(shorter =~= lanes.take(shorter.len() as int)) by {
            assert(shown =~= lanes.take(shown.len() as int));
        }
        lemma_bound_answers(lanes, shorter, hashes);
        let before = local_ckf::active_overlaps(shorter, hashes);
        let answers = local_ckf::active_overlaps(shown, hashes);
        assert(shown.last() == lanes[shown.len() - 1]);
        if shown.last().active {
            assert(answers.drop_last() =~= before);
            assert(answers.last().0 == shown.len() - 1);
        }
    }
}

/// A backend whose event was projected, when it had a lane or one was free, has a lane.
pub proof fn an_event_gives_its_backend_a_lane(
    before: Seq<LocalLane>,
    after: Seq<LocalLane>,
    backend: BackendView,
    change: KvChange,
    free: int,
)
    requires
        projected(before, after, backend, change),
        local_ckf::has_lane(before, backend) || local_ckf::is_first_free(before, free),
    ensures
        local_ckf::has_lane(after, backend),
{
    if local_ckf::has_lane(before, backend) {
        let lane = choose|lane: int| local_ckf::is_lane_of(before, backend, lane);
        assert(local_ckf::is_lane_of(after, backend, lane));
    } else {
        assert(local_ckf::is_lane_of(after, backend, free));
    }
}

/// How many of some blocks have the fingerprint `fp` and one of whose candidate buckets is `at`.
pub open spec fn blocks_of_class(hashes: Seq<u64>, fp: Fp, at: u64) -> nat {
    hashes.filter(
        |hash: u64|
            cuckoo_filter::fp_of(hash) == fp && lane::same_class(
                cuckoo_filter::bucket_of(hash),
                at,
                fp,
            ),
    ).len()
}

proof fn lemma_blocks_of_class(hashes: Seq<u64>, fp: Fp, at: u64)
    ensures
        hashes.len() == 0 ==> blocks_of_class(hashes, fp, at) == 0,
        hashes.len() > 0 ==> blocks_of_class(hashes, fp, at) == blocks_of_class(
            hashes.drop_last(),
            fp,
            at,
        ) + if cuckoo_filter::fp_of(hashes.last()) == fp && lane::same_class(
            cuckoo_filter::bucket_of(hashes.last()),
            at,
            fp,
        ) {
            1nat
        } else {
            0
        },
{
    reveal(Seq::filter);
}

proof fn lemma_buckets_without(buckets: Seq<PackedBucket>, hashes: Seq<u64>, fp: Fp, at: u64)
    requires
        lane::lane_shape(buckets),
        fp != 0,
        at < BUCKETS_PER_LANE,
    ensures
        lane::lane_shape(buckets_without(buckets, hashes)),
        lane::class_count(buckets_without(buckets, hashes), fp, at) == if blocks_of_class(
            hashes,
            fp,
            at,
        ) <= lane::class_count(buckets, fp, at) {
            lane::class_count(buckets, fp, at) - blocks_of_class(hashes, fp, at)
        } else {
            0
        },
    decreases hashes.len(),
{
    lemma_blocks_of_class(hashes, fp, at);
    if hashes.len() > 0 {
        let shorter = hashes.drop_last();
        let hash = hashes.last();
        let before = buckets_without(buckets, shorter);
        lemma_buckets_without(buckets, shorter, fp, at);
        lane::delete_takes_one_fingerprint(before, hash, fp, at);
        lemma_class_of(before, hash, fp, at);
    }
}

/// The two candidate buckets of a fingerprint name one class.
proof fn lemma_class_of(buckets: Seq<PackedBucket>, hash: u64, fp: Fp, at: u64)
    requires
        at < BUCKETS_PER_LANE,
    ensures
        cuckoo_filter::fp_of(hash) == fp && lane::same_class(
            cuckoo_filter::bucket_of(hash),
            at,
            fp,
        ) ==> lane::class_count(buckets, fp, at) == lane::class_count(
            buckets,
            cuckoo_filter::fp_of(hash),
            cuckoo_filter::bucket_of(hash),
        ),
{
    cuckoo_filter::probe_is_in_range(hash);
    cuckoo_filter::alt_index_is_an_involution(cuckoo_filter::bucket_of(hash), fp);
}

/// A removal of blocks takes the fingerprint of each of them out of their backend's active lane:
/// of every fingerprint there are as many fewer, in its two buckets, as removed blocks have it, down
/// to none. Nothing else of the lane changes.
pub proof fn removed_blocks_leave_the_lane(
    before: Seq<LocalLane>,
    after: Seq<LocalLane>,
    backend: BackendView,
    event: KvCacheEvent,
    lane: int,
    fp: Fp,
    at: u64,
)
    requires
        event is Removed,
        projected(before, after, backend, event@),
        local_ckf::is_lane_of(before, backend, lane),
        before[lane].active,
        before[lane].buckets.len() == BUCKETS_PER_LANE,
        fp != 0,
        at < BUCKETS_PER_LANE,
    ensures
        ({
            let held = lane::class_count(before[lane].buckets, fp, at);
            let removed = blocks_of_class(event->Removed_block_hashes@, fp, at);
            &&& after[lane].backend == Some(backend)
            &&& after[lane].active
            &&& after[lane].buckets.len() == BUCKETS_PER_LANE
            &&& lane::class_count(after[lane].buckets, fp, at) == if removed <= held {
                held - removed
            } else {
                0
            }
        }),
{
    lemma_buckets_without(before[lane].buckets, event->Removed_block_hashes@, fp, at);
}

proof fn lemma_no_fingerprints(buckets: Seq<PackedBucket>)
    requires
        lane::lane_shape(buckets),
        forall|fp: Fp, at: u64|
            fp != 0 && at < BUCKETS_PER_LANE ==> #[trigger] lane::class_count(buckets, fp, at) == 0,
    ensures
        buckets == lane_grid::empty_lane(),
{
    assert forall|i: int| 0 <= i < buckets.len() implies buckets[i] == 0 by {
        let bucket = buckets[i];
        assert forall|j: int| 0 <= j < 4 implies #[trigger] cuckoo_filter::slots(bucket)[j] == 0 by {
            let fp = cuckoo_filter::slots(bucket)[j];
            if fp != 0 {
                assert(lane::class_count(buckets, fp, i as u64) == 0);
                cuckoo_filter::lemma_first_slot(bucket, fp);
                assert(cuckoo_filter::slots(bucket).contains(fp));
            }
        }
        lemma_empty_slots(bucket);
    }
    assert(buckets =~= lane_grid::empty_lane());
}

proof fn lemma_empty_slots(bucket: PackedBucket)
    requires
        forall|j: int| 0 <= j < 4 ==> #[trigger] cuckoo_filter::slots(bucket)[j] == 0,
    ensures
        bucket == 0,
{
    assert(cuckoo_filter::slots(bucket)[0] == 0);
    assert(cuckoo_filter::slots(bucket)[1] == 0);
    assert(cuckoo_filter::slots(bucket)[2] == 0);
    assert(cuckoo_filter::slots(bucket)[3] == 0);
    let a = (bucket >> 0u64) & 0xffff;
    let b = (bucket >> 16u64) & 0xffff;
    let c = (bucket >> 32u64) & 0xffff;
    let d = (bucket >> 48u64) & 0xffff;
    assert(a <= 0xffff && b <= 0xffff && c <= 0xffff && d <= 0xffff) by (bit_vector)
        requires
            a == (bucket >> 0u64) & 0xffff,
            b == (bucket >> 16u64) & 0xffff,
            c == (bucket >> 32u64) & 0xffff,
            d == (bucket >> 48u64) & 0xffff,
    ;
    assert(a == 0 && b == 0 && c == 0 && d == 0);
    assert(bucket == 0) by (bit_vector)
        requires
            (bucket >> 0u64) & 0xffff == 0,
            (bucket >> 16u64) & 0xffff == 0,
            (bucket >> 32u64) & 0xffff == 0,
            (bucket >> 48u64) & 0xffff == 0,
    ;
}

/// A lane that held the fingerprints of some blocks and no others is empty once these blocks are
/// removed, in whatever order.
pub proof fn removing_all_blocks_empties_the_lane(
    before: Seq<LocalLane>,
    after: Seq<LocalLane>,
    backend: BackendView,
    event: KvCacheEvent,
    lane: int,
)
    requires
        event is Removed,
        projected(before, after, backend, event@),
        local_ckf::is_lane_of(before, backend, lane),
        before[lane].active,
        before[lane].buckets.len() == BUCKETS_PER_LANE,
        forall|fp: Fp, at: u64|
            fp != 0 && at < BUCKETS_PER_LANE ==> #[trigger] lane::class_count(
                before[lane].buckets,
                fp,
                at,
            ) <= blocks_of_class(event->Removed_block_hashes@, fp, at),
    ensures
        after[lane].buckets == lane_grid::empty_lane(),
{
    assert forall|fp: Fp, at: u64|
        fp != 0 && at < BUCKETS_PER_LANE implies #[trigger] lane::class_count(
        after[lane].buckets,
        fp,
        at,
    ) == 0 by {
        removed_blocks_leave_the_lane(before, after, backend, event, lane, fp, at);
        assert(lane::class_count(before[lane].buckets, fp, at) <= blocks_of_class(
            event->Removed_block_hashes@,
            fp,
            at,
        ));
    }
    cuckoo_filter::probe_is_in_range(0);
    removed_blocks_leave_the_lane(before, after, backend, event, lane, 1, 0);
    lemma_no_fingerprints(after[lane].buckets);
}

/// A removal ends a query's overlap at the first block of which it took the last fingerprint.
pub proof fn an_evicted_block_ends_the_overlap(
    before: Seq<LocalLane>,
    after: Seq<LocalLane>,
    backend: BackendView,
    event: KvCacheEvent,
    lane: int,
    wanted: Seq<u64>,
    k: int,
)
    requires
        event is Removed,
        projected(before, after, backend, event@),
        local_ckf::is_lane_of(before, backend, lane),
        before[lane].active,
        before[lane].buckets.len() == BUCKETS_PER_LANE,
        0 <= k < wanted.len(),
        lane::class_count(
            before[lane].buckets,
            cuckoo_filter::fp_of(wanted[k]),
            cuckoo_filter::bucket_of(wanted[k]),
        ) <= blocks_of_class(
            event->Removed_block_hashes@,
            cuckoo_filter::fp_of(wanted[k]),
            cuckoo_filter::bucket_of(wanted[k]),
        ),
    ensures
        local_ckf::lane_overlap(after[lane], wanted) <= k,
{
    let fp = cuckoo_filter::fp_of(wanted[k]);
    let at = cuckoo_filter::bucket_of(wanted[k]);
    cuckoo_filter::probe_is_in_range(wanted[k]);
    removed_blocks_leave_the_lane(before, after, backend, event, lane, fp, at);
    cuckoo_filter::lemma_first_slot(after[lane].buckets[at as int], fp);
    lane_grid::overlap_stops_at_the_first_miss(after[lane].buckets, wanted);
    assert(!lane_grid::hits(after[lane].buckets, wanted[k]));
}

proof fn lemma_stored_in(buckets: Seq<PackedBucket>, hash: u64, fp: Fp, at: u64)
    requires
        lane::lane_shape(buckets),
        fp != 0,
        at < BUCKETS_PER_LANE,
    ensures
        ({
            let a = cuckoo_filter::bucket_of(hash);
            let b = cuckoo_filter::alt_of(a, cuckoo_filter::fp_of(hash));
            match local_ckf::stored_in(buckets, hash) {
                Some(after) => {
                    &&& lane::lane_shape(after)
                    &&& lane::class_count(after, fp, at) == lane::class_count(buckets, fp, at) + (
                    if cuckoo_filter::fp_of(hash) == fp && lane::same_class(a, at, fp) {
                        1nat
                    } else {
                        0
                    })
                    &&& lane::occupied(after) == lane::occupied(buckets) + 1
                    &&& forall|i: int|
                        0 <= i < buckets.len() && i != a && i != b ==> #[trigger] after[i]
                            == buckets[i]
                    &&& cuckoo_filter::slots(buckets[a as int]).contains(0) || cuckoo_filter::slots(
                        buckets[b as int],
                    ).contains(0)
                    &&& cuckoo_filter::slots(buckets[a as int]).contains(0) ==> lane_grid::hits(
                        after,
                        hash,
                    )
                },
                None => !cuckoo_filter::slots(buckets[a as int]).contains(0)
                    && !cuckoo_filter::slots(buckets[b as int]).contains(0),
            }
        }),
{
    let own = cuckoo_filter::fp_of(hash);
    let a = cuckoo_filter::bucket_of(hash);
    let b = cuckoo_filter::alt_of(a, own);
    cuckoo_filter::probe_is_in_range(hash);
    cuckoo_filter::alt_index_is_an_involution(a, own);
    cuckoo_filter::lemma_first_slot(buckets[a as int], 0);
    cuckoo_filter::lemma_first_slot(buckets[b as int], 0);
    match local_ckf::stored_in(buckets, hash) {
        Some(after) => {
            lane::insert_adds_one_fingerprint(buckets, 0, hash, fp, at);
            if cuckoo_filter::slots(buckets[a as int]).contains(0) {
                local_ckf::a_stored_block_is_found(buckets, hash);
            }
        },
        None => {},
    }
}

proof fn lemma_buckets_with(buckets: Seq<PackedBucket>, hashes: Seq<u64>, fp: Fp, at: u64)
    requires
        lane::lane_shape(buckets),
        fp != 0,
        at < BUCKETS_PER_LANE,
    ensures
        ({
            let after = buckets_with(buckets, hashes);
            &&& lane::lane_shape(after)
            &&& lane::occupied(after) <= lane::occupied(buckets) + hashes.len()
            &&& lane::class_count(buckets, fp, at) <= lane::class_count(after, fp, at)
                <= lane::class_count(buckets, fp, at) + blocks_of_class(hashes, fp, at)
            &&& lane::occupied(after) == lane::occupied(buckets) + hashes.len()
                ==> lane::class_count(after, fp, at) == lane::class_count(buckets, fp, at)
                + blocks_of_class(hashes, fp, at)
        }),
    decreases hashes.len(),
{
    lemma_blocks_of_class(hashes, fp, at);
    if hashes.len() > 0 {
        lemma_buckets_with(buckets, hashes.drop_last(), fp, at);
        lemma_stored_in(buckets_with(buckets, hashes.drop_last()), hashes.last(), fp, at);
    }
}

/// Blocks that are stored add their fingerprints to their backend's active lane, and take none out:
/// of every fingerprint there are no more than as many more, in its two buckets, as stored blocks
/// have it, and just as many if a slot was filled for each block.
pub proof fn stored_blocks_enter_the_lane(
    before: Seq<LocalLane>,
    after: Seq<LocalLane>,
    backend: BackendView,
    event: KvCacheEvent,
    lane: int,
    fp: Fp,
    at: u64,
)
    requires
        event is Stored,
        projected(before, after, backend, event@),
        local_ckf::is_lane_of(before, backend, lane),
        before[lane].active,
        before[lane].buckets.len() == BUCKETS_PER_LANE,
        fp != 0,
        at < BUCKETS_PER_LANE,
    ensures
        ({
            let hashes = event->Stored_block_hashes@;
            let held = lane::class_count(before[lane].buckets, fp, at);
            let holds = lane::class_count(after[lane].buckets, fp, at);
            &&& after[lane].backend == Some(backend)
            &&& after[lane].active
            &&& after[lane].buckets.len() == BUCKETS_PER_LANE
            &&& held <= holds <= held + blocks_of_class(hashes, fp, at)
            &&& lane::occupied(after[lane].buckets) <= lane::occupied(before[lane].buckets)
                + hashes.len()
            &&& lane::occupied(after[lane].buckets) == lane::occupied(before[lane].buckets)
                + hashes.len() ==> holds == held + blocks_of_class(hashes, fp, at)
        }),
{
    lemma_buckets_with(before[lane].buckets, event->Stored_block_hashes@, fp, at);
}

/// One more block at the end of those that are stored fills one more slot with its fingerprint, in
/// its primary bucket if that has an empty slot, where queries find it, else in its alternate one.
/// Only when neither has one is it left out.
pub proof fn a_block_is_stored_where_there_is_room(
    before: Seq<LocalLane>,
    without: Seq<LocalLane>,
    with: Seq<LocalLane>,
    backend: BackendView,
    shorter: KvCacheEvent,
    longer: KvCacheEvent,
    hash: u64,
    lane: int,
    fp: Fp,
    at: u64,
)
    requires
        shorter is Stored,
        longer is Stored,
        longer->Stored_block_hashes@ == shorter->Stored_block_hashes@.push(hash),
        projected(before, without, backend, shorter@),
        projected(before, with, backend, longer@),
        local_ckf::is_lane_of(before, backend, lane),
        before[lane].active,
        before[lane].buckets.len() == BUCKETS_PER_LANE,
        fp != 0,
        at < BUCKETS_PER_LANE,
    ensures
        ({
            let own = cuckoo_filter::fp_of(hash);
            let a = cuckoo_filter::bucket_of(hash);
            let b = cuckoo_filter::alt_of(a, own);
            let old = without[lane].buckets;
            let new = with[lane].buckets;
            let room = cuckoo_filter::slots(old[a as int]).contains(0) || cuckoo_filter::slots(
                old[b as int],
            ).contains(0);
            &&& shorter->Stored_block_hashes@.len() == 0 ==> old == before[lane].buckets
            &&& room ==> lane::occupied(new) == lane::occupied(old) + 1
            &&& room ==> lane::class_count(new, fp, at) == lane::class_count(old, fp, at) + if own
                == fp && lane::same_class(a, at, fp) {
                1nat
            } else {
                0
            }
            &&& cuckoo_filter::slots(old[a as int]).contains(0) ==> lane_grid::hits(new, hash)
            &&& !room ==> new == old
            &&& forall|i: int|
                0 <= i < old.len() && i != a && i != b ==> #[trigger] new[i] == old[i]
        }),
{
    let hashes = longer->Stored_block_hashes@;
    assert(hashes.drop_last() =~= shorter->Stored_block_hashes@);
    lemma_buckets_with(before[lane].buckets, shorter->Stored_block_hashes@, fp, at);
    lemma_stored_in(without[lane].buckets, hash, fp, at);
}

/// Blocks for each of which a slot was filled are all taken out again when they are removed in one
/// event: of every fingerprint there are as many as before they were stored.
pub proof fn storing_and_removing_gives_the_lane_back(
    before: Seq<LocalLane>,
    between: Seq<LocalLane>,
    after: Seq<LocalLane>,
    backend: BackendView,
    stored: KvCacheEvent,
    removed: KvCacheEvent,
    lane: int,
    fp: Fp,
    at: u64,
)
    requires
        stored is Stored,
        removed is Removed,
        forall|f: Fp, i: u64|
            #[trigger] blocks_of_class(stored->Stored_block_hashes@, f, i) == blocks_of_class(
                removed->Removed_block_hashes@,
                f,
                i,
            ),
        projected(before, between, backend, stored@),
        projected(between, after, backend, removed@),
        local_ckf::is_lane_of(before, backend, lane),
        before[lane].active,
        before[lane].buckets.len() == BUCKETS_PER_LANE,
        lane::occupied(between[lane].buckets) == lane::occupied(before[lane].buckets)
            + stored->Stored_block_hashes@.len(),
        fp != 0,
        at < BUCKETS_PER_LANE,
    ensures
        lane::class_count(after[lane].buckets, fp, at) == lane::class_count(
            before[lane].buckets,
            fp,
            at,
        ),
        before[lane].buckets == lane_grid::empty_lane() ==> after[lane].buckets
            == lane_grid::empty_lane(),
{
    assert(local_ckf::is_lane_of(between, backend, lane));
    assert forall|f: Fp, i: u64|
        f != 0 && i < BUCKETS_PER_LANE implies #[trigger] lane::class_count(
        after[lane].buckets,
        f,
        i,
    ) == lane::class_count(before[lane].buckets, f, i) && after[lane].buckets.len()
        == BUCKETS_PER_LANE by {
        stored_blocks_enter_the_lane(before, between, backend, stored, lane, f, i);
        removed_blocks_leave_the_lane(between, after, backend, removed, lane, f, i);
        assert(blocks_of_class(stored->Stored_block_hashes@, f, i) == blocks_of_class(
            removed->Removed_block_hashes@,
            f,
            i,
        ));
    }
    assert(lane::class_count(after[lane].buckets, 1, 0) == lane::class_count(
        before[lane].buckets,
        1,
        0,
    ));
    if before[lane].buckets == lane_grid::empty_lane() {
        assert forall|f: Fp, i: u64|
            f != 0 && i < BUCKETS_PER_LANE implies #[trigger] lane::class_count(
            after[lane].buckets,
            f,
            i,
        ) == 0 by {
            lane::lemma_empty_bucket();
            cuckoo_filter::alt_index_is_an_involution(i, f);
        }
        lemma_no_fingerprints(after[lane].buckets);
    }
}

/// A clearing, and a reset that is not passed over, leaves a backend's lane empty and active, so
/// that no block is found in it.
pub proof fn a_cleared_lane_answers_nothing(
    before: Seq<LocalLane>,
    after: Seq<LocalLane>,
    backend: BackendView,
    event: KvCacheEvent,
    lane: int,
    wanted: Seq<u64>,
)
    requires
        event is Clear || event is Reset,
        projected(before, after, backend, event@),
        local_ckf::is_lane_of(before, backend, lane),
    ensures
        after[lane].active,
        after[lane].backend == Some(backend),
        forall|i: int| 0 <= i < BUCKETS_PER_LANE ==> #[trigger] after[lane].buckets[i] == 0,
        after[lane].buckets.len() == BUCKETS_PER_LANE,
        local_ckf::lane_overlap(after[lane], wanted) == 0,
{
    lane_grid::empty_lane_hits_nothing(wanted);
}

proof fn lemma_first_free(lanes: Seq<LocalLane>, n: int)
    requires
        0 <= n <= lanes.len(),
    ensures
        (exists|l: int| local_ckf::is_first_free(lanes, l)) || forall|l: int|
            0 <= l < n ==> (#[trigger] lanes[l]).backend is Some,
    decreases n,
{
    if n > 0 {
        lemma_first_free(lanes, n - 1);
        if lanes[n - 1].backend is None && !(exists|l: int| local_ckf::is_first_free(lanes, l)) {
            assert(local_ckf::is_first_free(lanes, n - 1));
        }
    }
}

/// An event of a backend leaves the lanes of all others as they are. A lane that takes no part in
/// queries takes no blocks. A backend without a lane gets the first free one, and nothing changes if
/// there is none.
pub proof fn an_event_leaves_other_lanes_alone(
    before: Seq<LocalLane>,
    after: Seq<LocalLane>,
    backend: BackendView,
    event: KvCacheEvent,
    lane: int,
)
    requires
        projected(before, after, backend, event@),
        0 <= lane < before.len(),
    ensures
        after.len() == before.len(),
        before[lane].backend is Some && before[lane].backend != Some(backend) ==> after[lane]
            == before[lane],
        before[lane].backend == Some(backend) && !before[lane].active && (event is Stored
            || event is Removed) ==> after == before,
        before[lane].backend == Some(backend) ==> after[lane].backend == Some(backend),
        before[lane].backend is None && after[lane].backend is Some ==> after[lane].backend == Some(
            backend,
        ) && local_ckf::is_first_free(before, lane) && !local_ckf::has_lane(before, backend),
        (forall|l: int| 0 <= l < before.len() ==> (#[trigger] before[l]).backend is Some)
            && !local_ckf::has_lane(before, backend) ==> after == before,
{
    lemma_first_free(before, before.len() as int);
    if before[lane].backend == Some(backend) {
        assert(local_ckf::is_lane_of(before, backend, lane));
        assert(before.update(lane, before[lane]) =~= before);
    } else if local_ckf::has_lane(before, backend) {
        let own = choose|own: int| local_ckf::is_lane_of(before, backend, own);
        assert(local_ckf::is_lane_of(before, backend, own));
    } else if exists|l: int| local_ckf::is_first_free(before, l) {
        let free = choose|l: int| local_ckf::is_first_free(before, l);
        assert(local_ckf::is_first_free(before, free));
    }
}

/// The local overlap of a backend with an active lane counts the leading blocks whose fingerprint is
/// in their primary bucket of the lane, with an inactive lane it is 0, and without a lane it counts
/// the leading blocks that the tree says it holds.
pub proof fn a_local_overlap_counts_leading_blocks(
    index: KvIndexView,
    wanted: Seq<u64>,
    backend: BackendView,
    lane: int,
)
    requires
        0 <= lane < index.local.len(),
    ensures
        ({
            let n = local_overlap(index, wanted, backend, Some(lane));
            let buckets = index.local[lane].buckets;
            &&& !index.local[lane].active ==> n == 0
            &&& index.local[lane].active ==> n <= wanted.len()
            &&& index.local[lane].active ==> forall|i: int|
                0 <= i < n ==> cuckoo_filter::slots(
                    buckets[cuckoo_filter::bucket_of(#[trigger] wanted[i]) as int],
                ).contains(cuckoo_filter::fp_of(wanted[i]))
            &&& index.local[lane].active && n < wanted.len() ==> !cuckoo_filter::slots(
                buckets[cuckoo_filter::bucket_of(wanted[n as int]) as int],
            ).contains(cuckoo_filter::fp_of(wanted[n as int]))
        }),
        ({
            let n = local_overlap(index, wanted, backend, None);
            &&& n <= wanted.len()
            &&& forall|k: int|
                0 < k <= n ==> radix_tree::holds_path(
                    index.radix.tree,
                    #[trigger] wanted.take(k),
                    backend,
                )
            &&& n < wanted.len() ==> !radix_tree::holds_path(
                index.radix.tree,
                wanted.take(n as int + 1),
                backend,
            )
        }),
{
    lane_grid::overlap_stops_at_the_first_miss(index.local[lane].buckets, wanted);
    radix_tree::tree_overlap_stops_at_the_first_miss(index.radix.tree, wanted, backend);
    let n = local_overlap(index, wanted, backend, Some(lane));
    if index.local[lane].active {
        assert forall|i: int| 0 <= i < n implies cuckoo_filter::slots(
            index.local[lane].buckets[cuckoo_filter::bucket_of(#[trigger] wanted[i]) as int],
        ).contains(cuckoo_filter::fp_of(wanted[i])) by {
            assert(lane_grid::hits(index.local[lane].buckets, wanted[i]));
        }
    }
}

/// Whether an answer is that of a lane: the lane's backend, if it is bound and active, with the
/// overlap that a query for the lane alone gives.
pub open spec fn answers_for(lane: LocalLane, answer: (BackendView, u32), wanted: Seq<u64>) -> bool {
    lane.active && lane.backend == Some(answer.0) && answer.1 == local_ckf::lane_overlap(lane, wanted)
}

/// The batch query answers for each backend with an active lane, once, with the overlap that a query
/// for it alone gives, and for no other backend.
#[verifier::spinoff_prover]
#[verifier::rlimit(50)]
pub proof fn a_batch_query_answers_as_single_queries(lanes: Seq<LocalLane>, wanted: Seq<u64>)
    requires
        local_ckf::lanes_distinct(lanes),
        local_ckf::all_countable(lanes, wanted),
    ensures
        ({
            let found = backend_overlaps(lanes, wanted);
            &&& forall|i: int|
                0 <= i < found.len() ==> exists|l: int|
                    0 <= l < lanes.len() && answers_for(
                        #[trigger] lanes[l],
                        #[trigger] found[i],
                        wanted,
                    )
            &&& forall|l: int|
                0 <= l < lanes.len() && (#[trigger] lanes[l]).active && lanes[l].backend is Some
                    ==> exists|i: int|
                    0 <= i < found.len() && answers_for(lanes[l], #[trigger] found[i], wanted)
            &&& forall|i: int, j: int|
                #![trigger found[i], found[j]]
                0 <= i < j < found.len() ==> found[i].0 != found[j].0
        }),
    decreases lanes.len(),
{
    if lanes.len() > 0 {
        let shorter = lanes.drop_last();
        let k = lanes.len() - 1;
        assert(local_ckf::lanes_distinct(shorter)) by {
            assert forall|i: int, j: int|
                #![trigger shorter[i], shorter[j]]
                0 <= i < j < shorter.len() && shorter[i].backend is Some implies shorter[i].backend
                != shorter[j].backend by {
                assert(lanes[i].backend != lanes[j].backend);
            }
        }
        assert(local_ckf::all_countable(shorter, wanted)) by {
            assert forall|l: int| 0 <= l < shorter.len() implies lane_grid::countable(
                wanted,
                local_ckf::lane_overlap(#[trigger] shorter[l], wanted),
            ) by {
                assert(shorter[l] == lanes[l]);
            }
        }
        a_batch_query_answers_as_single_queries(shorter, wanted);
        let before = backend_overlaps(shorter, wanted);
        let found = backend_overlaps(lanes, wanted);
        let last = lanes[k];
        assert(lane_grid::countable(wanted, local_ckf::lane_overlap(lanes[k], wanted)));
        lane_grid::overlap_stops_at_the_first_miss(last.buckets, wanted);
        if last.active && last.backend is Some {
            assert(answers_for(last, found[before.len() as int], wanted));
        }
        assert forall|i: int| 0 <= i < found.len() implies exists|l: int|
            0 <= l < lanes.len() && answers_for(
                #[trigger] lanes[l],
                #[trigger] found[i],
                wanted,
            ) by {
            if i < before.len() {
                assert(found[i] == before[i]);
                let l = choose|l: int|
                    0 <= l < shorter.len() && answers_for(#[trigger] shorter[l], before[i], wanted);
                assert(answers_for(lanes[l], found[i], wanted));
            } else {
                assert(answers_for(lanes[k], found[i], wanted));
            }
        }
        assert forall|l: int|
            0 <= l < lanes.len() && (#[trigger] lanes[l]).active
                && lanes[l].backend is Some implies exists|i: int|
            0 <= i < found.len() && answers_for(lanes[l], #[trigger] found[i], wanted) by {
            if l < k {
                assert(shorter[l] == lanes[l]);
                let i = choose|i: int|
                    0 <= i < before.len() && answers_for(shorter[l], #[trigger] before[i], wanted);
                assert(found[i] == before[i]);
            } else {
                assert(answers_for(lanes[l], found[before.len() as int], wanted));
            }
        }
        assert forall|i: int, j: int|
            #![trigger found[i], found[j]]
            0 <= i < j < found.len() implies found[i].0 != found[j].0 by {
            assert(found[i] == before[i]);
            if j < before.len() {
                assert(found[j] == before[j]);
            } else {
                let l = choose|l: int|
                    0 <= l < shorter.len() && answers_for(#[trigger] shorter[l], before[i], wanted);
                assert(lanes[l].backend != lanes[k].backend);
            }
        }
    }
}

/// The first event of a backend without a lane does to the first free lane what it would do to an
/// empty, active lane of the backend.
pub proof fn a_first_event_finds_an_empty_lane(
    before: Seq<LocalLane>,
    after: Seq<LocalLane>,
    backend: BackendView,
    event: KvCacheEvent,
    free: int,
)
    requires
        projected(before, after, backend, event@),
        !local_ckf::has_lane(before, backend),
        local_ckf::is_first_free(before, free),
    ensures
        projected(
            before.update(
                free,
                LocalLane {
                    buckets: Seq::new(BUCKETS_PER_LANE as nat, |i: int| 0u64),
                    backend: Some(backend),
                    active: true,
                },
            ),
            after,
            backend,
            event@,
        ),
{
    let fresh = LocalLane {
        buckets: Seq::new(BUCKETS_PER_LANE as nat, |i: int| 0u64),
        backend: Some(backend),
        active: true,
    };
    let given = before.update(free, fresh);
    assert(fresh =~= fresh_lane(backend));
    assert(local_ckf::is_lane_of(given, backend, free));
    assert forall|lane: int| #[trigger] local_ckf::is_lane_of(given, backend, lane) implies after
        == given.update(lane, lane_after(given[lane], event@)) by {
        if lane != free {
            assert(local_ckf::is_lane_of(before, backend, lane));
        }
        assert(before.update(free, lane_after(fresh, event@)) =~= given.update(
            free,
            lane_after(fresh, event@),
        ));
    }
}

/// A new index answers nothing: no backend and no region has a block.
pub proof fn a_new_index_answers_nothing(
    wanted: Seq<u64>,
    backend: BackendView,
    region: Seq<char>,
    lane: int,
)
    ensures
        local_overlap(empty_index(), wanted, backend, None) == 0,
        !local_ckf::has_lane(empty_index().local, backend),
        ckf_consumer::region_overlap(empty_index().regions, region, wanted) == 0,
        0 <= lane < LOCAL_LANE_COUNT ==> local_overlap(empty_index(), wanted, backend, Some(lane)) == 0,
{
    ckf_consumer::a_region_overlap_counts_leading_blocks(empty_index().regions, region, wanted, 0);
    radix_tree::tree_overlap_stops_at_the_first_miss(empty_index().radix.tree, wanted, backend);
    let n = local_overlap(empty_index(), wanted, backend, None);
    if n > 0 {
        assert(radix_tree::holds_path(empty_index().radix.tree, wanted.take(1), backend));
    }
}

/// Whether lanes are as before but for that of a backend, which is free.
pub open spec fn freed(
    before: Seq<LocalLane>,
    after: Seq<LocalLane>,
    backend: BackendView,
) -> bool {
    &&& forall|lane: int| #[trigger]
        local_ckf::is_lane_of(before, backend, lane) ==> after == before.update(
            lane,
            LocalLane { buckets: lane_grid::empty_lane(), backend: None, active: false },
        )
    &&& !local_ckf::has_lane(before, backend) ==> after == before
}

/// A backend that is removed gives its lane back, empty and for anybody to take, and other lanes stay as
/// they were.
pub proof fn a_removed_backend_gives_its_lane_back(
    before: Seq<LocalLane>,
    after: Seq<LocalLane>,
    backend: BackendView,
    lane: int,
)
    requires
        freed(before, after, backend),
        local_ckf::lanes_distinct(before),
        0 <= lane < before.len(),
    ensures
        after.len() == before.len(),
        !local_ckf::has_lane(after, backend),
        before[lane].backend == Some(backend) ==> after[lane].backend is None && !after[lane].active
            && forall|i: int| 0 <= i < BUCKETS_PER_LANE ==> #[trigger] after[lane].buckets[i] == 0,
        before[lane].backend != Some(backend) ==> after[lane] == before[lane],
{
    if local_ckf::has_lane(before, backend) {
        let own = choose|own: int| local_ckf::is_lane_of(before, backend, own);
        assert(local_ckf::is_lane_of(before, backend, own));
        assert forall|l: int| !local_ckf::is_lane_of(after, backend, l) by {
            if local_ckf::is_lane_of(after, backend, l) && l != own {
                assert(before[l].backend == Some(backend));
                if l < own {
                    assert(before[l].backend != before[own].backend);
                } else {
                    assert(before[own].backend != before[l].backend);
                }
            }
        }
        if before[lane].backend == Some(backend) && lane != own {
            if lane < own {
                assert(before[lane].backend != before[own].backend);
            } else {
                assert(before[own].backend != before[lane].backend);
            }
        }
    } else if before[lane].backend == Some(backend) {
        assert(local_ckf::is_lane_of(before, backend, lane));
    }
}

} // verus!
