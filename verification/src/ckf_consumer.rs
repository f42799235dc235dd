//! The consumer of other regions' filter lanes: an approximate index of what they have cached.

use vstd::prelude::*;

use crate::ckf_producer;
use crate::cuckoo_filter;
use crate::cuckoo_filter::{CkfDelta, CkfSnapshot, PackedBucket, BUCKETS_PER_LANE};
use crate::ids::RegionId;
use crate::lane_grid;
use crate::lane_grid::{LaneGrid, GRID_LANES};

verus! {

/// Number of lanes of a consumer, which is the number of regions it can follow at a time.
pub const LANE_COUNT: usize = 16;

/// What a consumer knows of one lane.
#[verifier::ext_equal]
pub struct LaneState {
    /// Buckets of the lane.
    pub buckets: Seq<PackedBucket>,
    /// Region bound to the lane.
    pub region: Option<Seq<char>>,
    /// Whether the lane takes part in queries.
    pub active: bool,
}

/// The first lane bound to a region.
pub open spec fn region_lane(lanes: Seq<LaneState>, region: Seq<char>) -> Option<int>
    decreases lanes.len(),
{
    if lanes.len() == 0 {
        None
    } else {
        match region_lane(lanes.drop_last(), region) {
            Some(lane) => Some(lane),
            None => if lanes.last().region == Some(region) {
                Some(lanes.len() - 1)
            } else {
                None
            },
        }
    }
}

/// The overlap of a region: that of its first lane, if it has one and the lane is active.
pub open spec fn region_overlap(
    lanes: Seq<LaneState>,
    region: Seq<char>,
    hashes: Seq<u64>,
) -> nat {
    match region_lane(lanes, region) {
        Some(lane) => if lanes[lane].active {
            lane_grid::prefix_overlap(lanes[lane].buckets, hashes)
        } else {
            0
        },
        None => 0,
    }
}

/// A lane that is found is bound to the region, and no lane before it is.
pub proof fn lemma_region_lane(lanes: Seq<LaneState>, region: Seq<char>)
    ensures
        match region_lane(lanes, region) {
            Some(lane) => 0 <= lane < lanes.len() && lanes[lane].region == Some(region)
                && forall|i: int| 0 <= i < lane ==> (#[trigger] lanes[i]).region != Some(region),
            None => forall|i: int|
                0 <= i < lanes.len() ==> (#[trigger] lanes[i]).region != Some(region),
        },
    decreases lanes.len(),
{
    if lanes.len() > 0 {
        let shorter = lanes.drop_last();
        lemma_region_lane(shorter, region);
        assert forall|i: int| 0 <= i < shorter.len() implies #[trigger] lanes[i] == shorter[i] by {}
    }
}

proof fn lemma_region_lane_is(lanes: Seq<LaneState>, region: Seq<char>, lane: int)
    requires
        0 <= lane < lanes.len(),
        lanes[lane].region == Some(region),
        forall|i: int| 0 <= i < lane ==> (#[trigger] lanes[i]).region != Some(region),
    ensures
        region_lane(lanes, region) == Some(lane),
{
    lemma_region_lane(lanes, region);
}

/// Consumer of filter lanes.
pub struct CkfConsumer {
    grid: LaneGrid,
    regions: Vec<Option<RegionId>>,
    active: Vec<bool>,
}

/// The text of an optional region.
pub open spec fn region_view(region: Option<RegionId>) -> Option<Seq<char>> {
    match region {
        Some(r) => Some(r@),
        None => None,
    }
}

impl View for CkfConsumer {
    type V = Seq<LaneState>;

    closed spec fn view(&self) -> Seq<LaneState> {
        Seq::new(
            LANE_COUNT as nat,
            |l: int|
                LaneState {
                    buckets: self.grid.lane(l),
                    region: region_view(self.regions@[l]),
                    active: self.active@[l],
                },
        )
    }
}

impl CkfConsumer {
    /// The consumer has all its lanes.
    pub closed spec fn wf(&self) -> bool {
        &&& self.grid.wf()
        &&& self.regions@.len() == LANE_COUNT
        &&& self.active@.len() == LANE_COUNT
    }

    /// A consumer has sixteen lanes, each with its full number of buckets.
    pub proof fn lemma_shape(&self)
        ensures
            self@.len() == LANE_COUNT,
            forall|l: int|
                0 <= l < LANE_COUNT ==> (#[trigger] self@[l]).buckets.len() == BUCKETS_PER_LANE,
    {
        assert forall|l: int| 0 <= l < LANE_COUNT implies (#[trigger] self@[l]).buckets.len()
            == BUCKETS_PER_LANE by {
            self.grid.lemma_lane(l);
        }
    }

    /// A consumer of empty lanes, none bound and none active.
    pub fn new() -> (consumer: Self)
        ensures
            consumer.wf(),
            consumer@ == Seq::new(
                LANE_COUNT as nat,
                |l: int|
                    LaneState { buckets: lane_grid::empty_lane(), region: None, active: false },
            ),
    {
        let mut regions: Vec<Option<RegionId>> = Vec::new();
        let mut active: Vec<bool> = Vec::new();
        while active.len() < LANE_COUNT
            invariant
                active@.len() <= LANE_COUNT,
                regions@.len() == active@.len(),
                forall|l: int| 0 <= l < active@.len() ==> !#[trigger] active@[l],
                forall|l: int| 0 <= l < regions@.len() ==> #[trigger] regions@[l] is None,
            decreases LANE_COUNT - active@.len(),
        {
            regions.push(None);
            active.push(false);
        }
        let consumer = CkfConsumer { grid: LaneGrid::new(), regions, active };
        proof {
            assert forall|l: int| 0 <= l < LANE_COUNT implies #[trigger] consumer@[l] == (LaneState {
                buckets: lane_grid::empty_lane(),
                region: None,
                active: false,
            }) by {
                assert(consumer.grid.lane(l) == lane_grid::empty_lane());
            }
            assert(consumer@ =~= Seq::new(
                LANE_COUNT as nat,
                |l: int|
                    LaneState { buckets: lane_grid::empty_lane(), region: None, active: false },
            ));
        }
        consumer
    }

    /// The prefix overlap of a hash sequence with what a region has cached, as its lane tells.
    pub fn estimate_overlap(&self, hashes: &[u64], region: &RegionId) -> (n: u32)
        requires
            self.wf(),
            lane_grid::countable(hashes@, region_overlap(self@, region@, hashes@)),
        ensures
            n == region_overlap(self@, region@, hashes@),
    {
        match self.lane_of(region) {
            Some(lane) => {
                proof {
                    lemma_region_lane(self@, region@);
                }
                if !self.active[lane] {
                    return 0;
                }
                self.grid.overlap(hashes, lane)
            },
            None => 0,
        }
    }

    /// Installs a full snapshot in a lane, and activates it.
    pub fn install_snapshot(&mut self, lane: usize, snapshot: &CkfSnapshot)
        requires
            old(self).wf(),
            lane < LANE_COUNT,
            snapshot.buckets@.len() == BUCKETS_PER_LANE,
        ensures
            final(self).wf(),
            final(self)@ == old(self)@.update(
                lane as int,
                LaneState {
                    buckets: snapshot.buckets@,
                    active: true,
                    region: old(self)@[lane as int].region,
                },
            ),
            final(self)@ == installed(old(self)@, lane as int, snapshot.buckets@),
    {
        let mut i: usize = 0;
        while i < snapshot.buckets.len()
            invariant
                i <= snapshot.buckets@.len(),
                snapshot.buckets@.len() == BUCKETS_PER_LANE,
                lane < LANE_COUNT,
                self.wf(),
                self.regions == old(self).regions,
                self.active == old(self).active,
                forall|b: int|
                    0 <= b < i ==> #[trigger] self.grid.lane(lane as int)[b]
                        == snapshot.buckets@[b],
                forall|l: int|
                    0 <= l < GRID_LANES && l != lane ==> #[trigger] self.grid.lane(l) == old(
                        self,
                    ).grid.lane(l),
            decreases snapshot.buckets@.len() - i,
        {
            proof {
                self.grid.lemma_lane(lane as int);
            }
            self.grid.set(i, lane, snapshot.buckets[i]);
            i = i + 1;
        }
        self.active.set(lane, true);
        proof {
            self.grid.lemma_lane(lane as int);
            assert(self.grid.lane(lane as int) =~= snapshot.buckets@);
            assert(self@ =~= old(self)@.update(
                lane as int,
                LaneState {
                    buckets: snapshot.buckets@,
                    active: true,
                    region: old(self)@[lane as int].region,
                },
            ));
        }
    }

    /// Writes the buckets of a delta into a lane; indices beyond the lane are ignored.
    pub fn apply_delta(&mut self, lane: usize, delta: &CkfDelta)
        requires
            old(self).wf(),
            lane < LANE_COUNT,
        ensures
            final(self).wf(),
            final(self)@ == old(self)@.update(
                lane as int,
                LaneState {
                    buckets: ckf_producer::patched(
                        old(self)@[lane as int].buckets,
                        delta.buckets@,
                    ),
                    ..old(self)@[lane as int]
                },
            ),
            final(self)@ == renewed(old(self)@, lane as int, delta.buckets@),
    {
        let ghost before = self.grid.lane(lane as int);
        let mut i: usize = 0;
        assert(delta.buckets@.take(0) =~= Seq::empty());
        while i < delta.buckets.len()
            invariant
                i <= delta.buckets@.len(),
                lane < LANE_COUNT,
                self.wf(),
                self.regions == old(self).regions,
                self.active == old(self).active,
                self.grid.lane(lane as int) == ckf_producer::patched(
                    before,
                    delta.buckets@.take(i as int),
                ),
                forall|l: int|
                    0 <= l < GRID_LANES && l != lane ==> #[trigger] self.grid.lane(l) == old(
                        self,
                    ).grid.lane(l),
            decreases delta.buckets@.len() - i,
        {
            let (index, value): (usize, PackedBucket) = delta.buckets[i];
            proof {
                let longer = delta.buckets@.take(i + 1);
                assert(longer.drop_last() =~= delta.buckets@.take(i as int));
                assert(longer.last() == (index, value));
                self.grid.lemma_lane(lane as int);
            }
            if index < BUCKETS_PER_LANE {
                self.grid.set(index, lane, value);
            }
            i = i + 1;
        }
        proof {
            assert(delta.buckets@.take(i as int) =~= delta.buckets@);
            assert(self@ =~= old(self)@.update(
                lane as int,
                LaneState {
                    buckets: ckf_producer::patched(before, delta.buckets@),
                    ..old(self)@[lane as int]
                },
            ));
        }
    }

    /// Takes a lane out of queries.
    pub fn retire_lane(&mut self, lane: usize)
        requires
            old(self).wf(),
            lane < LANE_COUNT,
        ensures
            final(self).wf(),
            final(self)@ == old(self)@.update(
                lane as int,
                LaneState { active: false, ..old(self)@[lane as int] },
            ),
    {
        self.active.set(lane, false);
        proof {
            assert(self@ =~= old(self)@.update(
                lane as int,
                LaneState { active: false, ..old(self)@[lane as int] },
            ));
        }
    }

    /// Takes a lane back into queries.
    pub fn activate_lane(&mut self, lane: usize)
        requires
            old(self).wf(),
            lane < LANE_COUNT,
        ensures
            final(self).wf(),
            final(self)@ == old(self)@.update(
                lane as int,
                LaneState { active: true, ..old(self)@[lane as int] },
            ),
    {
        self.active.set(lane, true);
        proof {
            assert(self@ =~= old(self)@.update(
                lane as int,
                LaneState { active: true, ..old(self)@[lane as int] },
            ));
        }
    }

    /// Binds a lane to a region.
    pub fn assign_lane(&mut self, lane: usize, region: RegionId)
        requires
            old(self).wf(),
            lane < LANE_COUNT,
        ensures
            final(self).wf(),
            final(self)@ == old(self)@.update(
                lane as int,
                LaneState { region: Some(region@), ..old(self)@[lane as int] },
            ),
    {
        let ghost name = region@;
        self.regions.set(lane, Some(region));
        proof {
            assert(self@ =~= old(self)@.update(
                lane as int,
                LaneState { region: Some(name), ..old(self)@[lane as int] },
            ));
        }
    }

    /// Unbinds a lane.
    pub fn unassign_lane(&mut self, lane: usize)
        requires
            old(self).wf(),
            lane < LANE_COUNT,
        ensures
            final(self).wf(),
            final(self)@ == old(self)@.update(
                lane as int,
                LaneState { region: None, ..old(self)@[lane as int] },
            ),
    {
        self.regions.set(lane, None);
        proof {
            assert(self@ =~= old(self)@.update(
                lane as int,
                LaneState { region: None, ..old(self)@[lane as int] },
            ));
        }
    }

    /// The lane bound to a region; the first one, if there are several.
    pub fn lane_of(&self, region: &RegionId) -> (lane: Option<usize>)
        requires
            self.wf(),
        ensures
            match lane {
                Some(l) => l < LANE_COUNT && region_lane(self@, region@) == Some(l as int),
                None => region_lane(self@, region@) is None,
            },
    {
        let mut l: usize = 0;
        while l < LANE_COUNT
            invariant
                l <= LANE_COUNT,
                self.wf(),
                forall|i: int| 0 <= i < l ==> (#[trigger] self@[i]).region != Some(region@),
            decreases LANE_COUNT - l,
        {
            match &self.regions[l] {
                Some(bound) => {
                    if bound.same(region) {
                        proof {
                            assert(self@[l as int].region == Some(region@));
                            lemma_region_lane_is(self@, region@, l as int);
                        }
                        return Some(l);
                    }
                },
                None => {},
            }
            assert(self@[l as int].region != Some(region@));
            l = l + 1;
        }
        proof {
            lemma_region_lane(self@, region@);
        }
        None
    }

    /// Whether a lane takes part in queries.
    pub fn is_lane_active(&self, lane: usize) -> (active: bool)
        requires
            self.wf(),
            lane < LANE_COUNT,
        ensures
            active == self@[lane as int].active,
    {
        self.active[lane]
    }
}

impl Default for CkfConsumer {
    fn default() -> (consumer: Self)
        ensures
            consumer.wf(),
            consumer@ == Seq::new(
                LANE_COUNT as nat,
                |l: int|
                    LaneState { buckets: lane_grid::empty_lane(), region: None, active: false },
            ),
    {
        CkfConsumer::new()
    }
}

/// A lane on which a snapshot was installed and which is bound to a region before any other
/// answers for it as the snapshot's buckets do.
pub proof fn installed_snapshot_answers_queries(
    lanes: Seq<LaneState>,
    lane: int,
    region: Seq<char>,
    buckets: Seq<PackedBucket>,
    hashes: Seq<u64>,
)
    requires
        0 <= lane < lanes.len(),
        lanes[lane] == (LaneState { buckets, region: Some(region), active: true }),
        forall|i: int| 0 <= i < lane ==> (#[trigger] lanes[i]).region != Some(region),
    ensures
        region_overlap(lanes, region, hashes) == lane_grid::prefix_overlap(buckets, hashes),
{
    lemma_region_lane_is(lanes, region, lane);
}

/// The overlap of a region counts the leading blocks whose fingerprint is in their primary bucket of
/// the region's lane, the first that is assigned to it. It is 0 if that lane is not active, or if no
/// lane is assigned to the region.
pub proof fn a_region_overlap_counts_leading_blocks(
    lanes: Seq<LaneState>,
    region: Seq<char>,
    hashes: Seq<u64>,
    lane: int,
)
    ensures
        ({
            let n = region_overlap(lanes, region, hashes);
            let buckets = lanes[lane].buckets;
            let first = 0 <= lane < lanes.len() && lanes[lane].region == Some(region) && forall|
                i: int,
            |
                0 <= i < lane ==> (#[trigger] lanes[i]).region != Some(region);
            &&& n <= hashes.len()
            &&& first && !lanes[lane].active ==> n == 0
            &&& first && lanes[lane].active ==> forall|i: int|
                0 <= i < n ==> cuckoo_filter::slots(
                    buckets[cuckoo_filter::bucket_of(#[trigger] hashes[i]) as int],
                ).contains(cuckoo_filter::fp_of(hashes[i]))
            &&& first && lanes[lane].active && n < hashes.len() ==> !cuckoo_filter::slots(
                buckets[cuckoo_filter::bucket_of(hashes[n as int]) as int],
            ).contains(cuckoo_filter::fp_of(hashes[n as int]))
            &&& (forall|i: int| 0 <= i < lanes.len() ==> (#[trigger] lanes[i]).region != Some(region))
                ==> n == 0
        }),
{
    lemma_region_lane(lanes, region);
    let first = 0 <= lane < lanes.len() && lanes[lane].region == Some(region) && forall|i: int|
        0 <= i < lane ==> (#[trigger] lanes[i]).region != Some(region);
    if first {
        lemma_region_lane_is(lanes, region, lane);
    }
    let n = region_overlap(lanes, region, hashes);
    match region_lane(lanes, region) {
        Some(own) => {
            lane_grid::overlap_stops_at_the_first_miss(lanes[own].buckets, hashes);
            if lanes[own].active {
                assert forall|i: int| 0 <= i < n implies cuckoo_filter::slots(
                    lanes[own].buckets[cuckoo_filter::bucket_of(#[trigger] hashes[i]) as int],
                ).contains(cuckoo_filter::fp_of(hashes[i])) by {
                    assert(lane_grid::hits(lanes[own].buckets, hashes[i]));
                }
            }
        },
        None => {},
    }
}

/// Lanes after a snapshot was installed in one of them.
pub open spec fn installed(
    lanes: Seq<LaneState>,
    lane: int,
    buckets: Seq<PackedBucket>,
) -> Seq<LaneState> {
    lanes.update(lane, LaneState { buckets, active: true, region: lanes[lane].region })
}

/// Lanes after the listed buckets were written to one of them.
pub open spec fn renewed(
    lanes: Seq<LaneState>,
    lane: int,
    listed: Seq<(usize, PackedBucket)>,
) -> Seq<LaneState> {
    lanes.update(
        lane,
        LaneState {
            buckets: ckf_producer::patched(lanes[lane].buckets, listed),
            ..lanes[lane]
        },
    )
}

/// A snapshot activates its lane and replaces all that was in it; a delta writes the buckets that it
/// lists and leaves the lane active or not. Neither changes whose lane it is, nor another lane.
pub proof fn publications_change_their_lane_alone(
    lanes: Seq<LaneState>,
    lane: int,
    buckets: Seq<PackedBucket>,
    listed: Seq<(usize, PackedBucket)>,
    other: int,
    i: int,
    j: int,
)
    requires
        0 <= lane < lanes.len(),
        0 <= other < lanes.len(),
        other != lane,
    ensures
        installed(lanes, lane, buckets).len() == lanes.len(),
        installed(lanes, lane, buckets)[lane].buckets == buckets,
        installed(lanes, lane, buckets)[lane].active,
        installed(lanes, lane, buckets)[lane].region == lanes[lane].region,
        installed(lanes, lane, buckets)[other] == lanes[other],
        renewed(lanes, lane, listed).len() == lanes.len(),
        renewed(lanes, lane, listed)[lane].active == lanes[lane].active,
        renewed(lanes, lane, listed)[lane].region == lanes[lane].region,
        renewed(lanes, lane, listed)[other] == lanes[other],
        0 <= i < lanes[lane].buckets.len() && (forall|k: int|
            0 <= k < listed.len() ==> (#[trigger] listed[k]).0 != i) ==> renewed(
            lanes,
            lane,
            listed,
        )[lane].buckets[i] == lanes[lane].buckets[i],
        0 <= i < lanes[lane].buckets.len() && 0 <= j < listed.len() && listed[j].0 == i && (forall|
            k: int,
        |
            j < k < listed.len() ==> (#[trigger] listed[k]).0 != i) ==> renewed(
            lanes,
            lane,
            listed,
        )[lane].buckets[i] == listed[j].1,
{
    if 0 <= i < lanes[lane].buckets.len() {
        ckf_producer::a_copy_takes_the_listed_buckets(lanes[lane].buckets, listed, i, j);
    }
}

} // verus!
