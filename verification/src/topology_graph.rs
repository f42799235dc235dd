//! The regions of the cluster, and the latencies between them.

use vstd::prelude::*;

use crate::ids::RegionId;
use crate::table::{KeyView, Table, TableKey};
use crate::topology;
use crate::topology::{LatencyEstimate, LatencyMatrix, RegionInfo, RttSource};

verus! {

/// What the graph holds.
#[verifier::ext_equal]
pub struct GraphView {
    /// Regions by their keys.
    pub regions: Map<KeyView, RegionInfo>,
    /// Latency records.
    pub latencies: Map<KeyView, LatencyEstimate>,
}

/// Whether every latency is recorded in both directions alike.
pub open spec fn both_ways(latencies: Map<KeyView, LatencyEstimate>) -> bool {
    forall|a: Seq<char>, b: Seq<char>|
        #![trigger topology::link_key(a, b)]
        latencies.contains_key(topology::link_key(a, b)) ==> latencies.contains_key(
            topology::link_key(b, a),
        ) && latencies[topology::link_key(b, a)] == latencies[topology::link_key(a, b)]
}

/// Regions, and the latencies between them.
pub struct TopologyGraph {
    regions: Table<RegionInfo>,
    latency_matrix: LatencyMatrix,
}

impl View for TopologyGraph {
    type V = GraphView;

    closed spec fn view(&self) -> GraphView {
        GraphView { regions: self.regions@, latencies: self.latency_matrix@ }
    }
}

impl TopologyGraph {
    /// Every region is filed under its own key, and every latency is recorded in both directions.
    pub closed spec fn wf(&self) -> bool {
        &&& self.regions.wf()
        &&& self.latency_matrix.wf()
        &&& both_ways(self.latency_matrix@)
        &&& forall|key: KeyView| #[trigger]
            self.regions@.contains_key(key) ==> key == self.regions@[key].id.key()
    }

    /// The round-trip time from one region to another is that of the way back.
    pub proof fn round_trip_times_are_symmetric(&self, a: Seq<char>, b: Seq<char>)
        requires
            self.wf(),
        ensures
            topology::rtt_source(self@.latencies, a, b, None, None) == topology::rtt_source(
                self@.latencies,
                b,
                a,
                None,
                None,
            ),
    {
        assert(both_ways(self@.latencies));
    }

    /// A graph without regions.
    pub fn new() -> (graph: Self)
        ensures
            graph.wf(),
            graph@ == (GraphView { regions: Map::empty(), latencies: Map::empty() }),
    {
        TopologyGraph { regions: Table::new(), latency_matrix: LatencyMatrix::new() }
    }

    /// Where the round-trip time between two regions comes from; without a record nothing is known.
    pub fn rtt_ms(&self, from: &RegionId, to: &RegionId) -> (source: RttSource)
        requires
            self.wf(),
        ensures
            source == topology::rtt_source(self@.latencies, from@, to@, None, None),
    {
        self.latency_matrix.rtt_ms(from, to, None, None)
    }

    /// What is known of a region.
    pub fn get_region(&self, region: &RegionId) -> (info: Option<RegionInfo>)
        requires
            self.wf(),
        ensures
            match info {
                Some(found) => self@.regions.contains_key(region.key()) && topology::same_region(
                    found,
                    self@.regions[region.key()],
                ),
                None => !self@.regions.contains_key(region.key()),
            },
    {
        match self.regions.get(&region.table_key()) {
            Some(info) => Some(info.clone()),
            None => None,
        }
    }

    /// Records the latency between two regions, in both directions; within one region there is
    /// nothing to record.
    pub fn update_latency(&mut self, a: &RegionId, b: &RegionId, estimate: LatencyEstimate)
        requires
            old(self).wf(),
        ensures
            final(self).wf(),
            final(self)@.regions == old(self)@.regions,
            final(self)@.latencies == (if a@ == b@ {
                old(self)@.latencies
            } else {
                old(self)@.latencies.insert(topology::link_key(a@, b@), estimate).insert(
                    topology::link_key(b@, a@),
                    estimate,
                )
            }),
            final(self)@.latencies == linked(old(self)@.latencies, a@, b@, estimate),
    {
        if a.same(b) {
            return ;
        }
        self.latency_matrix.record(a, b, estimate);
        self.latency_matrix.record(b, a, estimate);
    }

    /// Adds a region, in place of what was known of it.
    pub fn add_region(&mut self, info: RegionInfo)
        requires
            old(self).wf(),
        ensures
            final(self).wf(),
            final(self)@ == (GraphView {
                regions: old(self)@.regions.insert(info.id.key(), info),
                ..old(self)@
            }),
    {
        self.regions.insert(info.id.table_key(), info);
    }

    /// Takes a region out of the graph, with all latencies from and to it.
    pub fn remove_region(&mut self, region: &RegionId)
        requires
            old(self).wf(),
        ensures
            final(self).wf(),
            final(self)@ == (GraphView {
                regions: old(self)@.regions.remove(region.key()),
                latencies: topology::without_region(old(self)@.latencies, region@),
            }),
    {
        self.regions.remove(&region.table_key());
        self.latency_matrix.forget(region);
    }

    /// All regions, each once.
    pub fn all_regions(&self) -> (regions: Vec<RegionId>)
        requires
            self.wf(),
        ensures
            forall|i: int|
                0 <= i < regions@.len() ==> self@.regions.contains_key(
                    (#[trigger] regions@[i]).key(),
                ),
            forall|i: int, j: int|
                #![trigger regions@[i], regions@[j]]
                0 <= i < j < regions@.len() ==> regions@[i]@ != regions@[j]@,
            regions@.len() == self@.regions.dom().len(),
    {
        let mut regions: Vec<RegionId> = Vec::new();
        let n: usize = self.regions.len();
        let ghost rows = self.regions.rows();
        proof {
            self.regions.lemma_rows();
        }
        let mut i: usize = 0;
        while i < n
            invariant
                i <= n,
                n == rows.len(),
                self.wf(),
                rows == self.regions.rows(),
                crate::table::rows_hold(rows, self.regions@),
                regions@.len() == i,
                forall|j: int| 0 <= j < i ==> (#[trigger] regions@[j]).key() == rows[j].0,
            decreases n - i,
        {
            let key: &TableKey = self.regions.key_at(i);
            proof {
                assert(self.regions@.contains_key(rows[i as int].0));
            }
            regions.push(RegionId(key.first.clone()));
            i = i + 1;
        }
        proof {
            assert forall|i: int, j: int|
                #![trigger regions@[i], regions@[j]]
                0 <= i < j < regions@.len() implies regions@[i]@ != regions@[j]@ by {
                assert(rows[i].0 != rows[j].0);
            }
        }
        regions
    }
}

impl Default for TopologyGraph {
    fn default() -> (graph: Self)
        ensures
            graph.wf(),
            graph@ == (GraphView { regions: Map::empty(), latencies: Map::empty() }),
    {
        TopologyGraph::new()
    }
}

/// After a latency between two different regions is recorded, both directions read it.
pub proof fn a_recorded_latency_reads_both_ways(
    latencies: Map<KeyView, LatencyEstimate>,
    a: Seq<char>,
    b: Seq<char>,
    estimate: LatencyEstimate,
)
    requires
        a != b,
    ensures
        ({
            let after = latencies.insert(topology::link_key(a, b), estimate).insert(
                topology::link_key(b, a),
                estimate,
            );
            &&& topology::rtt_source(after, a, b, None, None) == RttSource::Recorded(
                estimate.rtt_p50_ms,
            )
            &&& topology::rtt_source(after, b, a, None, None) == RttSource::Recorded(
                estimate.rtt_p50_ms,
            )
        }),
{
}

/// After a region is removed, no latency from or to it is known.
pub proof fn a_removed_region_has_no_latencies(
    latencies: Map<KeyView, LatencyEstimate>,
    region: Seq<char>,
    other: Seq<char>,
)
    requires
        other != region,
    ensures
        topology::rtt_source(
            topology::without_region(latencies, region),
            region,
            other,
            None,
            None,
        ) == RttSource::Unknown,
        topology::rtt_source(
            topology::without_region(latencies, region),
            other,
            region,
            None,
            None,
        ) == RttSource::Unknown,
{
}

/// Latencies after one between two regions has come in.
pub open spec fn linked(
    latencies: Map<KeyView, LatencyEstimate>,
    a: Seq<char>,
    b: Seq<char>,
    estimate: LatencyEstimate,
) -> Map<KeyView, LatencyEstimate> {
    if a == b {
        latencies
    } else {
        latencies.insert(topology::link_key(a, b), estimate).insert(
            topology::link_key(b, a),
            estimate,
        )
    }
}

/// A latency between two regions is read from either to the other, in place of what was known; those
/// between others, or within one region, stay as they were.
pub proof fn a_latency_counts_both_ways(
    latencies: Map<KeyView, LatencyEstimate>,
    a: Seq<char>,
    b: Seq<char>,
    estimate: LatencyEstimate,
    c: Seq<char>,
    d: Seq<char>,
)
    ensures
        ({
            let after = linked(latencies, a, b, estimate);
            &&& a != b ==> topology::rtt_source(after, a, b, None, None) == RttSource::Recorded(
                estimate.rtt_p50_ms,
            )
            &&& a != b ==> topology::rtt_source(after, b, a, None, None) == RttSource::Recorded(
                estimate.rtt_p50_ms,
            )
            &&& a == b ==> after == latencies
            &&& !((c == a && d == b) || (c == b && d == a)) ==> topology::rtt_source(
                after,
                c,
                d,
                None,
                None,
            ) == topology::rtt_source(latencies, c, d, None, None)
        }),
{
}

} // verus!
