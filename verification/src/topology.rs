//! Regions, and the latencies between them.

use vstd::prelude::*;
use vstd::string::*;

use crate::ids::{RegionId, RegionTier};
use crate::metrics::RealBits;
use crate::table::{KeyView, Table, TableKey};

verus! {

/// Geographic coordinates in degrees.
#[derive(Clone, Copy, Debug, PartialEq, Eq, Structural)]
pub struct GeoCoord {
    /// Latitude.
    pub lat: RealBits,
    /// Longitude.
    pub lon: RealBits,
}

/// What is known of a region.
#[derive(Debug)]
pub struct RegionInfo {
    /// The region.
    pub id: RegionId,
    /// Its tier.
    pub tier: RegionTier,
    /// Its coordinates, if given.
    pub geo: Option<GeoCoord>,
    /// Label of its network zone.
    pub network_zone: String,
    /// Endpoints that it exposes.
    pub endpoints: Vec<String>,
}

/// Whether two descriptions of a region say the same.
pub open spec fn same_region(a: RegionInfo, b: RegionInfo) -> bool {
    &&& a.id == b.id
    &&& a.tier == b.tier
    &&& a.geo == b.geo
    &&& a.network_zone == b.network_zone
    &&& a.endpoints@ == b.endpoints@
}

impl Clone for RegionInfo {
    fn clone(&self) -> (copy: Self)
        ensures
            same_region(copy, *self),
    {
        let mut endpoints: Vec<String> = Vec::new();
        let mut i: usize = 0;
        while i < self.endpoints.len()
            invariant
                i <= self.endpoints@.len(),
                endpoints@ == self.endpoints@.take(i as int),
            decreases self.endpoints@.len() - i,
        {
            endpoints.push(self.endpoints[i].clone());
            assert(endpoints@ =~= self.endpoints@.take(i + 1));
            i = i + 1;
        }
        assert(self.endpoints@.take(i as int) =~= self.endpoints@);
        RegionInfo {
            id: self.id.clone(),
            tier: self.tier,
            geo: self.geo,
            network_zone: self.network_zone.clone(),
            endpoints,
        }
    }
}

/// Latency between two regions.
#[derive(Clone, Copy, Debug, PartialEq, Eq, Structural)]
pub struct LatencyEstimate {
    /// Median round trip in milliseconds.
    pub rtt_p50_ms: RealBits,
    /// 99th percentile of the round trip in milliseconds.
    pub rtt_p99_ms: RealBits,
    /// Bandwidth in megabits per second.
    pub bandwidth_mbps: RealBits,
    /// When the estimate was made, in Unix seconds.
    pub last_updated_unix: i64,
}

/// Where a round-trip time comes from.
#[derive(Clone, Copy, Debug, PartialEq, Eq, Structural)]
pub enum RttSource {
    /// Both ends are one region; the time is zero.
    SameRegion,
    /// A recorded estimate, whose median is given.
    Recorded(RealBits),
    /// The distance between these coordinates.
    Distance(GeoCoord, GeoCoord),
    /// Nothing is known.
    Unknown,
}

/// The key of the estimate from one region to another.
pub open spec fn link_key(from: Seq<char>, to: Seq<char>) -> KeyView {
    (0u64, from, to)
}

fn table_link_key(from: &RegionId, to: &RegionId) -> (key: TableKey)
    ensures
        key@ == link_key(from@, to@),
{
    TableKey { number: 0, first: from.0.clone(), second: to.0.clone() }
}

/// The recorded median between two regions, in either direction; the given one comes first.
pub open spec fn recorded(
    entries: Map<KeyView, LatencyEstimate>,
    a: Seq<char>,
    b: Seq<char>,
) -> Option<RealBits> {
    if entries.contains_key(link_key(a, b)) {
        Some(entries[link_key(a, b)].rtt_p50_ms)
    } else if entries.contains_key(link_key(b, a)) {
        Some(entries[link_key(b, a)].rtt_p50_ms)
    } else {
        None
    }
}

/// Where the round-trip time between two regions comes from: nowhere to go within one region,
/// then the record, then the distance if both coordinates are given.
pub open spec fn rtt_source(
    entries: Map<KeyView, LatencyEstimate>,
    a: Seq<char>,
    b: Seq<char>,
    geo_a: Option<GeoCoord>,
    geo_b: Option<GeoCoord>,
) -> RttSource {
    if a == b {
        RttSource::SameRegion
    } else {
        match recorded(entries, a, b) {
            Some(rtt) => RttSource::Recorded(rtt),
            None => if geo_a is Some && geo_b is Some {
                RttSource::Distance(geo_a->0, geo_b->0)
            } else {
                RttSource::Unknown
            },
        }
    }
}

/// Recorded latencies between pairs of regions.
pub struct LatencyMatrix {
    entries: Table<LatencyEstimate>,
}

impl View for LatencyMatrix {
    type V = Map<KeyView, LatencyEstimate>;

    closed spec fn view(&self) -> Map<KeyView, LatencyEstimate> {
        self.entries@
    }
}

/// What is left of the estimates when those from or to a region are dropped.
pub open spec fn without_region(
    entries: Map<KeyView, LatencyEstimate>,
    region: Seq<char>,
) -> Map<KeyView, LatencyEstimate> {
    entries.remove_keys(
        entries.dom().filter(|key: KeyView| key.1 == region || key.2 == region),
    )
}

impl LatencyMatrix {
    /// The matrix files each pair once.
    pub closed spec fn wf(&self) -> bool {
        self.entries.wf()
    }

    /// A matrix without records.
    pub fn new() -> (matrix: Self)
        ensures
            matrix.wf(),
            matrix@ == Map::<KeyView, LatencyEstimate>::empty(),
    {
        LatencyMatrix { entries: Table::new() }
    }

    /// Records the latency from one region to another.
    pub fn record(&mut self, from: &RegionId, to: &RegionId, estimate: LatencyEstimate)
        requires
            old(self).wf(),
        ensures
            final(self).wf(),
            final(self)@ == old(self)@.insert(link_key(from@, to@), estimate),
    {
        self.entries.insert(table_link_key(from, to), estimate);
    }

    /// The record from one region to another.
    pub fn get(&self, from: &RegionId, to: &RegionId) -> (estimate: Option<LatencyEstimate>)
        requires
            self.wf(),
        ensures
            estimate == (if self@.contains_key(link_key(from@, to@)) {
                Some(self@[link_key(from@, to@)])
            } else {
                None
            }),
    {
        match self.entries.get(&table_link_key(from, to)) {
            Some(estimate) => Some(*estimate),
            None => None,
        }
    }

    /// The recorded median between two regions, in either direction.
    pub fn recorded_rtt(&self, a: &RegionId, b: &RegionId) -> (rtt: Option<RealBits>)
        requires
            self.wf(),
        ensures
            rtt == recorded(self@, a@, b@),
    {
        match self.get(a, b) {
            Some(estimate) => Some(estimate.rtt_p50_ms),
            None => match self.get(b, a) {
                Some(estimate) => Some(estimate.rtt_p50_ms),
                None => None,
            },
        }
    }

    /// Where the round-trip time between two regions comes from.
    pub fn rtt_ms(
        &self,
        a: &RegionId,
        b: &RegionId,
        geo_a: Option<GeoCoord>,
        geo_b: Option<GeoCoord>,
    ) -> (source: RttSource)
        requires
            self.wf(),
        ensures
            source == rtt_source(self@, a@, b@, geo_a, geo_b),
    {
        if a.same(b) {
            return RttSource::SameRegion;
        }
        match self.recorded_rtt(a, b) {
            Some(rtt) => RttSource::Recorded(rtt),
            None => match (geo_a, geo_b) {
                (Some(from), Some(to)) => RttSource::Distance(from, to),
                _ => RttSource::Unknown,
            },
        }
    }

    /// Drops every record from or to a region.
    pub fn forget(&mut self, region: &RegionId)
        requires
            old(self).wf(),
        ensures
            final(self).wf(),
            final(self)@ == without_region(old(self)@, region@),
    {
        let mut keep: Vec<bool> = Vec::new();
        let mut i: usize = 0;
        let n: usize = self.entries.len();
        let ghost rows = self.entries.rows();
        while i < n
            invariant
                i <= n,
                n == rows.len(),
                self.wf(),
                rows == self.entries.rows(),
                keep@.len() == i,
                forall|j: int|
                    0 <= j < i ==> #[trigger] keep@[j] == !(rows[j].0.1 == region@ || rows[j].0.2
                        == region@),
            decreases n - i,
        {
            let key: &TableKey = self.entries.key_at(i);
            keep.push(!(key.first == region.0 || key.second == region.0));
            i = i + 1;
        }
        proof {
            self.entries.lemma_rows();
        }
        self.entries.retain_rows(&keep);
        proof {
            let expected = without_region(old(self)@, region@);
            assert forall|k: KeyView| self@.contains_key(k) == expected.contains_key(k) by {
                if old(self)@.contains_key(k) {
                    let j = choose|j: int| 0 <= j < rows.len() && (#[trigger] rows[j]).0 == k;
                    assert(keep@[j] == !(k.1 == region@ || k.2 == region@));
                }
                if crate::table::unmarked(rows, keep@).contains(k) {
                    let j = choose|j: int|
                        0 <= j < rows.len() && !keep@[j] && (#[trigger] rows[j]).0 == k;
                    assert(!keep@[j]);
                }
            }
            assert(self@ =~= expected);
        }
    }
}

impl Default for LatencyMatrix {
    fn default() -> (matrix: Self)
        ensures
            matrix.wf(),
            matrix@ == Map::<KeyView, LatencyEstimate>::empty(),
    {
        LatencyMatrix::new()
    }
}

/// The time between a region and itself is that of one region. Between two, the recorded time
/// counts, that of the direction asked for before that of the other; without one, the distance, if
/// both places are known; and otherwise it is unknown.
pub proof fn a_round_trip_time_comes_from_the_best_source(
    entries: Map<KeyView, LatencyEstimate>,
    a: Seq<char>,
    b: Seq<char>,
    geo_a: Option<GeoCoord>,
    geo_b: Option<GeoCoord>,
)
    ensures
        ({
            let source = rtt_source(entries, a, b, geo_a, geo_b);
            let there = (0u64, a, b);
            let back = (0u64, b, a);
            &&& source == RttSource::SameRegion <==> a == b
            &&& a != b && entries.contains_key(there) ==> source == RttSource::Recorded(
                entries[there].rtt_p50_ms,
            )
            &&& a != b && !entries.contains_key(there) && entries.contains_key(back) ==> source
                == RttSource::Recorded(entries[back].rtt_p50_ms)
            &&& a != b && !entries.contains_key(there) && !entries.contains_key(back)
                && geo_a is Some && geo_b is Some ==> source == RttSource::Distance(
                geo_a->0,
                geo_b->0,
            )
            &&& a != b && !entries.contains_key(there) && !entries.contains_key(back) && (
            geo_a is None || geo_b is None) ==> source == RttSource::Unknown
        }),
{
}

/// Forgetting a region takes out the times to and from it, and no others.
pub proof fn forgetting_a_region_leaves_others(
    entries: Map<KeyView, LatencyEstimate>,
    region: Seq<char>,
    a: Seq<char>,
    b: Seq<char>,
)
    ensures
        ({
            let after = without_region(entries, region);
            &&& a == region || b == region ==> !after.contains_key(link_key(a, b))
            &&& a != region && b != region ==> after.contains_key(link_key(a, b))
                == entries.contains_key(link_key(a, b))
            &&& a != region && b != region && entries.contains_key(link_key(a, b))
                ==> after[link_key(a, b)] == entries[link_key(a, b)]
        }),
{
}

} // verus!
