//! Sixteen lanes of buckets side by side.
//!
//! The layout is bucket-major: the sixteen values of one bucket index lie next to each other, so
//! that all lanes are probed for a hash within one stretch of memory.

use vstd::prelude::*;

use crate::cuckoo_filter;
use crate::cuckoo_filter::{bucket_contains, probe, Fp, PackedBucket, BUCKETS_PER_LANE};

verus! {

/// Number of lanes of a grid.
pub const GRID_LANES: usize = 16;

/// Number of cells of a grid.
pub const GRID_CELLS: usize = 1_048_576;

/// Whether the primary bucket of `hash` holds its fingerprint.
pub open spec fn hits(buckets: Seq<PackedBucket>, hash: u64) -> bool {
    cuckoo_filter::slots(buckets[cuckoo_filter::bucket_of(hash) as int]).contains(
        cuckoo_filter::fp_of(hash),
    )
}

/// Number of leading hashes whose primary bucket holds their fingerprint.
pub open spec fn prefix_overlap(buckets: Seq<PackedBucket>, hashes: Seq<u64>) -> nat
    decreases hashes.len(),
{
    if hashes.len() == 0 {
        0
    } else {
        let before = prefix_overlap(buckets, hashes.drop_last());
        if before == hashes.len() - 1 && hits(buckets, hashes.last()) {
            before + 1
        } else {
            before
        }
    }
}

/// Whether an overlap of `hashes` fits its counter, as it always does when the hashes are no more
/// than that.
pub open spec fn countable(hashes: Seq<u64>, overlap: nat) -> bool {
    hashes.len() <= u32::MAX || overlap <= u32::MAX
}

/// The overlap counts hits from the front: every hash before it hits, and the one at it, if there
/// is one, does not.
pub proof fn overlap_stops_at_the_first_miss(buckets: Seq<PackedBucket>, hashes: Seq<u64>)
    ensures
        prefix_overlap(buckets, hashes) <= hashes.len(),
        forall|i: int|
            0 <= i < prefix_overlap(buckets, hashes) ==> hits(buckets, #[trigger] hashes[i]),
        prefix_overlap(buckets, hashes) < hashes.len() ==> !hits(
            buckets,
            hashes[prefix_overlap(buckets, hashes) as int],
        ),
    decreases hashes.len(),
{
    if hashes.len() > 0 {
        let shorter = hashes.drop_last();
        overlap_stops_at_the_first_miss(buckets, shorter);
        assert forall|i: int| 0 <= i < prefix_overlap(buckets, hashes) implies hits(
            buckets,
            #[trigger] hashes[i],
        ) by {
            if i < prefix_overlap(buckets, shorter) {
                assert(shorter[i] == hashes[i]);
            }
        }
        if prefix_overlap(buckets, hashes) < hashes.len() - 1 {
            let at = prefix_overlap(buckets, shorter) as int;
            assert(shorter[at] == hashes[at]);
        }
    }
}

/// The overlap with a prefix of the hashes is the overlap with all of them, cut to the prefix.
pub proof fn overlap_of_a_prefix(buckets: Seq<PackedBucket>, hashes: Seq<u64>, n: nat)
    requires
        n <= hashes.len(),
    ensures
        prefix_overlap(buckets, hashes.take(n as int)) == if prefix_overlap(buckets, hashes) <= n {
            prefix_overlap(buckets, hashes)
        } else {
            n
        },
    decreases hashes.len() - n,
{
    if n < hashes.len() {
        overlap_of_a_prefix(buckets, hashes, n + 1);
        let longer = hashes.take(n as int + 1);
        assert(longer.drop_last() =~= hashes.take(n as int));
        overlap_stops_at_the_first_miss(buckets, hashes.take(n as int));
    } else {
        assert(hashes.take(n as int) =~= hashes);
        overlap_stops_at_the_first_miss(buckets, hashes);
    }
}

/// Lanes of buckets side by side.
pub struct LaneGrid {
    cells: Vec<PackedBucket>,
}

impl LaneGrid {
    /// The grid has all its cells.
    pub closed spec fn wf(&self) -> bool {
        self.cells@.len() == GRID_CELLS
    }

    /// The buckets of one lane, in order.
    pub closed spec fn lane(&self, lane: int) -> Seq<PackedBucket> {
        Seq::new(BUCKETS_PER_LANE as nat, |bucket: int| self.cells@[bucket * 16 + lane])
    }

    /// Every lane has its full number of buckets.
    pub proof fn lemma_lane(&self, lane: int)
        ensures
            self.lane(lane).len() == BUCKETS_PER_LANE,
    {
    }

    /// A grid of empty lanes.
    pub fn new() -> (grid: Self)
        ensures
            grid.wf(),
            forall|l: int| 0 <= l < GRID_LANES ==> #[trigger] grid.lane(l) == empty_lane(),
    {
        let grid = LaneGrid { cells: vec![0u64; GRID_CELLS] };
        proof {
            assert forall|l: int| 0 <= l < GRID_LANES implies #[trigger] grid.lane(l)
                == empty_lane() by {
                assert(grid.lane(l) =~= empty_lane());
            }
        }
        grid
    }

    /// The value of a bucket in a lane.
    pub fn get(&self, bucket: usize, lane: usize) -> (value: PackedBucket)
        requires
            self.wf(),
            bucket < BUCKETS_PER_LANE,
            lane < GRID_LANES,
        ensures
            value == self.lane(lane as int)[bucket as int],
    {
        self.cells[bucket * 16 + lane]
    }

    /// Writes a bucket of a lane; the other lanes keep theirs.
    pub fn set(&mut self, bucket: usize, lane: usize, value: PackedBucket)
        requires
            old(self).wf(),
            bucket < BUCKETS_PER_LANE,
            lane < GRID_LANES,
        ensures
            final(self).wf(),
            final(self).lane(lane as int) == old(self).lane(lane as int).update(
                bucket as int,
                value,
            ),
            forall|l: int|
                0 <= l < GRID_LANES && l != lane ==> #[trigger] final(self).lane(l) == old(
                    self,
                ).lane(l),
    {
        self.cells.set(bucket * 16 + lane, value);
        proof {
            assert(self.lane(lane as int) =~= old(self).lane(lane as int).update(
                bucket as int,
                value,
            ));
            assert forall|l: int| 0 <= l < GRID_LANES && l != lane implies #[trigger] self.lane(l)
                == old(self).lane(l) by {
                assert(self.lane(l) =~= old(self).lane(l));
            }
        }
    }

    /// Empties a lane; the other lanes keep their buckets.
    pub fn clear(&mut self, lane: usize)
        requires
            old(self).wf(),
            lane < GRID_LANES,
        ensures
            final(self).wf(),
            final(self).lane(lane as int) == empty_lane(),
            forall|l: int|
                0 <= l < GRID_LANES && l != lane ==> #[trigger] final(self).lane(l) == old(
                    self,
                ).lane(l),
    {
        let mut bucket: usize = 0;
        while bucket < BUCKETS_PER_LANE
            invariant
                bucket <= BUCKETS_PER_LANE,
                lane < GRID_LANES,
                self.wf(),
                forall|b: int| 0 <= b < bucket ==> #[trigger] self.lane(lane as int)[b] == 0,
                forall|l: int|
                    0 <= l < GRID_LANES && l != lane ==> #[trigger] self.lane(l) == old(self).lane(
                        l,
                    ),
            decreases BUCKETS_PER_LANE - bucket,
        {
            self.set(bucket, lane, 0);
            bucket = bucket + 1;
        }
        proof {
            assert(self.lane(lane as int) =~= empty_lane());
        }
    }

    /// Number of leading hashes whose fingerprint is in their primary bucket of a lane.
    pub fn overlap(&self, hashes: &[u64], lane: usize) -> (n: u32)
        requires
            self.wf(),
            lane < GRID_LANES,
            countable(hashes@, prefix_overlap(self.lane(lane as int), hashes@)),
        ensures
            n == prefix_overlap(self.lane(lane as int), hashes@),
    {
        let ghost buckets = self.lane(lane as int);
        let mut n: usize = 0;
        proof {
            overlap_stops_at_the_first_miss(buckets, hashes@);
            assert(hashes@.take(0) =~= Seq::empty());
        }
        while n < hashes.len()
            invariant
                n <= hashes@.len(),
                self.wf(),
                lane < GRID_LANES,
                prefix_overlap(buckets, hashes@) <= u32::MAX,
                buckets == self.lane(lane as int),
                prefix_overlap(buckets, hashes@.take(n as int)) == n,
            decreases hashes@.len() - n,
        {
            let (fp, bucket): (Fp, usize) = probe(hashes[n]);
            let found: bool = bucket_contains(self.get(bucket, lane), fp);
            proof {
                let longer = hashes@.take(n + 1);
                assert(longer.drop_last() =~= hashes@.take(n as int));
                assert(longer.last() == hashes@[n as int]);
                overlap_of_a_prefix(buckets, hashes@, (n + 1) as nat);
                overlap_of_a_prefix(buckets, hashes@, n as nat);
            }
            if !found {
                return n as u32;
            }
            n = n + 1;
        }
        assert(hashes@.take(n as int) =~= hashes@);
        n as u32
    }
}

/// A lane without fingerprints.
pub open spec fn empty_lane() -> Seq<PackedBucket> {
    Seq::new(BUCKETS_PER_LANE as nat, |bucket: int| 0u64)
}

/// Nothing is found in an empty lane.
pub proof fn empty_lane_hits_nothing(hashes: Seq<u64>)
    ensures
        prefix_overlap(empty_lane(), hashes) == 0,
    decreases hashes.len(),
{
    if hashes.len() > 0 {
        empty_lane_hits_nothing(hashes.drop_last());
        let hash = hashes.last();
        cuckoo_filter::probe_is_in_range(hash);
        crate::lane::lemma_empty_bucket();
        assert(!hits(empty_lane(), hash));
    }
}

} // verus!
