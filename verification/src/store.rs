//! The metadata store: one entry point to the indexes, statistics and registries of a gateway.

use vstd::prelude::*;

use crate::backend;
use crate::backend::{copy_models, BackendInfo, ModelInstance};
use crate::ckf_consumer;
use crate::ckf_consumer::CkfConsumer;
use crate::ids;
use crate::ids::{BackendId, BackendView, IndexerDomainId, RegionId, SessionId};
use crate::kv_event::KvCacheEvent;
use crate::kv_index;
use crate::kv_index::{KvIndex, KvIndexView};
use crate::lane_grid;
use crate::load_stats;
use crate::load_stats::{LoadStats, LoadView};
use crate::local_ckf;
use crate::metrics::{BackendMetrics, RealBits};
use crate::model_registry;
use crate::model_registry::{ModelMatch, ModelRegistry, ModelsView};
use crate::radix_tree::RadixTree;
use crate::routing_history;
use crate::routing_history::{RoutingHistory, SessionAffinity};
use crate::table::{KeyView, Table, TableKey};
use crate::topology;
use crate::topology::{LatencyEstimate, RegionInfo, RttSource};
use crate::topology_graph::{GraphView, TopologyGraph};

verus! {

/// Backends filed under a region or a domain, in the order in which they were registered.
pub type ListsView = Map<KeyView, Seq<BackendView>>;

/// Names of a list of backends.
pub open spec fn names_of(list: Seq<BackendId>) -> Seq<BackendView> {
    list.map_values(|backend: BackendId| backend@)
}

/// The list under a key.
pub open spec fn list_at(lists: ListsView, key: KeyView) -> Seq<BackendView> {
    if lists.contains_key(key) {
        lists[key]
    } else {
        Seq::empty()
    }
}

/// The lists with a backend added at the end of one.
pub open spec fn listed(lists: ListsView, key: KeyView, backend: BackendView) -> ListsView {
    lists.insert(key, list_at(lists, key).push(backend))
}

/// Whether a name is that of another backend.
pub open spec fn other_than(backend: BackendView) -> spec_fn(BackendView) -> bool {
    |name: BackendView| name != backend
}

/// The lists with a backend taken out of one, wherever it stands there; a list that is empty then
/// is dropped.
pub open spec fn unlisted(lists: ListsView, key: KeyView, backend: BackendView) -> ListsView {
    if lists.contains_key(key) {
        let left = lists[key].filter(other_than(backend));
        if left.len() == 0 {
            lists.remove(key)
        } else {
            lists.insert(key, left)
        }
    } else {
        lists
    }
}

/// What the store holds.
pub struct StoreView {
    /// Index of cached blocks.
    pub kv: KvIndexView,
    /// Models of the backends.
    pub models: ModelsView,
    /// Load statistics.
    pub load: LoadView,
    /// Regions and latencies.
    pub topology: GraphView,
    /// Session affinity.
    pub history: Map<KeyView, SessionAffinity>,
    /// Registered backends.
    pub backends: Map<KeyView, BackendInfo>,
    /// Backends of each region.
    pub by_region: ListsView,
    /// Backends of each indexer domain.
    pub by_domain: ListsView,
}

/// A store that holds nothing.
pub open spec fn empty_store() -> StoreView {
    StoreView {
        kv: kv_index::empty_index(),
        models: Map::empty(),
        load: LoadView { latest: Map::empty(), history: Map::empty() },
        topology: GraphView { regions: Map::empty(), latencies: Map::empty() },
        history: Map::empty(),
        backends: Map::empty(),
        by_region: Map::empty(),
        by_domain: Map::empty(),
    }
}

/// Lists of backends under keys.
struct BackendLists {
    lists: Table<Vec<BackendId>>,
}

impl View for BackendLists {
    type V = ListsView;

    closed spec fn view(&self) -> ListsView {
        self.lists@.map_values(|list: Vec<BackendId>| names_of(list@))
    }
}

impl BackendLists {
    spec fn wf(&self) -> bool {
        self.lists.wf()
    }

    fn new() -> (lists: Self)
        ensures
            lists.wf(),
            lists@ == Map::<KeyView, Seq<BackendView>>::empty(),
    {
        let lists = BackendLists { lists: Table::new() };
        assert(lists@ =~= Map::empty());
        lists
    }

    fn push(&mut self, key: TableKey, backend: &BackendId)
        requires
            old(self).wf(),
        ensures
            final(self).wf(),
            final(self)@ == listed(old(self)@, key@, backend@),
    {
        let ghost filed = key@;
        let mut list: Vec<BackendId> = match self.lists.remove(&key) {
            Some(list) => list,
            None => Vec::new(),
        };
        let ghost before = list@;
        assert(names_of(before) =~= list_at(old(self)@, filed));
        list.push(backend.clone());
        assert(names_of(list@) =~= names_of(before).push(backend@));
        self.lists.insert(key, list);
        assert(self@ =~= listed(old(self)@, filed, backend@));
    }

    fn drop_backend(&mut self, key: &TableKey, backend: &BackendId)
        requires
            old(self).wf(),
        ensures
            final(self).wf(),
            final(self)@ == unlisted(old(self)@, key@, backend@),
    {
        let list: Vec<BackendId> = match self.lists.remove(key) {
            Some(list) => list,
            None => {
                assert(self@ =~= old(self)@);
                return ;
            },
        };
        let ghost keep = other_than(backend@);
        let mut left: Vec<BackendId> = Vec::new();
        let mut i: usize = 0;
        proof {
            assert(names_of(list@).take(0) =~= Seq::empty());
            assert(names_of(left@) =~= Seq::empty());
            assert(names_of(list@).take(0).filter(keep) =~= Seq::empty()) by {
                reveal(Seq::filter);
            }
        }
        while i < list.len()
            invariant
                i <= list@.len(),
                keep == other_than(backend@),
                names_of(left@) == names_of(list@).take(i as int).filter(keep),
            decreases list@.len() - i,
        {
            let ghost shown = left@;
            if !list[i].same(backend) {
                left.push(list[i].clone());
            }
            proof {
                let longer = names_of(list@).take(i + 1);
                assert(longer.drop_last() =~= names_of(list@).take(i as int));
                assert(longer.last() == list@[i as int]@);
                assert(longer.filter(keep) == if keep(longer.last()) {
                    longer.drop_last().filter(keep).push(longer.last())
                } else {
                    longer.drop_last().filter(keep)
                }) by {
                    reveal(Seq::filter);
                }
                if list@[i as int]@ != backend@ {
                    assert(names_of(left@) =~= names_of(shown).push(longer.last()));
                }
            }
            i = i + 1;
        }
        proof {
            assert(names_of(list@).take(i as int) =~= names_of(list@));
        }
        if left.len() > 0 {
            self.lists.insert(key.clone(), left);
        }
        proof {
            assert(self@ =~= unlisted(old(self)@, key@, backend@));
        }
    }

    fn get(&self, key: &TableKey) -> (list: Vec<BackendId>)
        requires
            self.wf(),
        ensures
            names_of(list@) == list_at(self@, key@),
    {
        match self.lists.get(key) {
            Some(list) => {
                let copy: Vec<BackendId> = list.clone();
                assert(names_of(copy@) =~= names_of(list@));
                copy
            },
            None => {
                let empty: Vec<BackendId> = Vec::new();
                assert(names_of(empty@) =~= Seq::empty());
                empty
            },
        }
    }
}

/// The metadata of a gateway.
pub struct MetadataStore {
    kv_index: KvIndex,
    models: ModelRegistry,
    load: LoadStats,
    topology: TopologyGraph,
    history: RoutingHistory,
    backends: Table<BackendInfo>,
    by_region: BackendLists,
    by_domain: BackendLists,
}

impl View for MetadataStore {
    type V = StoreView;

    closed spec fn view(&self) -> StoreView {
        StoreView {
            kv: self.kv_index@,
            models: self.models@,
            load: self.load@,
            topology: self.topology@,
            history: self.history@,
            backends: self.backends@,
            by_region: self.by_region@,
            by_domain: self.by_domain@,
        }
    }
}

/// The lists with a backend taken out of the one that it is filed in, if it is registered.
pub open spec fn lists_without(
    lists: ListsView,
    backends: Map<KeyView, BackendInfo>,
    filed: spec_fn(BackendInfo) -> KeyView,
    backend: BackendView,
) -> ListsView {
    let key = ids::backend_key(backend);
    if backends.contains_key(key) {
        unlisted(lists, filed(backends[key]), backend)
    } else {
        lists
    }
}

/// Whether each list holds exactly the registered backends that are filed in it, once each.
pub open spec fn list_registered(
    lists: ListsView,
    backends: Map<KeyView, BackendInfo>,
    filed: spec_fn(BackendInfo) -> KeyView,
) -> bool {
    &&& forall|key: KeyView| (#[trigger] list_at(lists, key)).no_duplicates()
    &&& forall|key: KeyView, backend: BackendView|
        #![trigger list_at(lists, key).contains(backend)]
        list_at(lists, key).contains(backend) == (backends.contains_key(ids::backend_key(backend))
            && filed(backends[ids::backend_key(backend)]) == key)
}

/// The key of a backend's region.
pub open spec fn region_key() -> spec_fn(BackendInfo) -> KeyView {
    |info: BackendInfo| info.region.key()
}

/// The key of a backend's indexer domain.
pub open spec fn domain_key() -> spec_fn(BackendInfo) -> KeyView {
    |info: BackendInfo| info.indexer_domain.key()
}

impl StoreView {
    /// Whether the lists of each region and each domain hold exactly its registered backends, once
    /// each.
    pub open spec fn lists_valid(self) -> bool {
        &&& list_registered(self.by_region, self.backends, region_key())
        &&& list_registered(self.by_domain, self.backends, domain_key())
    }

    /// The store after a backend was registered. What was known of it before is replaced.
    pub open spec fn register(self, info: BackendInfo) -> StoreView {
        let key = ids::backend_key(info.id@);
        StoreView {
            backends: self.backends.insert(key, info),
            models: self.models.insert(key, info.models@),
            by_region: listed(
                lists_without(self.by_region, self.backends, region_key(), info.id@),
                info.region.key(),
                info.id@,
            ),
            by_domain: listed(
                lists_without(self.by_domain, self.backends, domain_key(), info.id@),
                info.indexer_domain.key(),
                info.id@,
            ),
            ..self
        }
    }

    /// The store after a backend was unregistered. Its blocks stay in the index until they are
    /// removed there.
    pub open spec fn unregister(self, backend: BackendView) -> StoreView {
        let key = ids::backend_key(backend);
        StoreView {
            backends: self.backends.remove(key),
            models: self.models.remove(key),
            load: LoadView {
                latest: self.load.latest.remove(key),
                history: self.load.history.remove(key),
            },
            by_region: lists_without(self.by_region, self.backends, region_key(), backend),
            by_domain: lists_without(self.by_domain, self.backends, domain_key(), backend),
            ..self
        }
    }
}

impl MetadataStore {
    /// All parts are well-formed, every backend is filed under its own key, and the lists hold the
    /// registered backends.
    pub closed spec fn wf(&self) -> bool {
        &&& self.kv_index.wf()
        &&& self.models.wf()
        &&& self.load.wf()
        &&& self.topology.wf()
        &&& self.history.wf()
        &&& self.backends.wf()
        &&& self.by_region.wf()
        &&& self.by_domain.wf()
        &&& forall|key: KeyView| #[trigger]
            self.backends@.contains_key(key) ==> key == ids::backend_key(self.backends@[key].id@)
        &&& self@.lists_valid()
    }

    /// The lists of each region and each domain hold exactly its registered backends, once each.
    pub proof fn lists_hold_the_registered_backends(&self)
        requires
            self.wf(),
        ensures
            self@.lists_valid(),
    {
    }

    /// An empty store.
    pub fn new() -> (store: Self)
        ensures
            store.wf(),
            store@ == empty_store(),
    {
        MetadataStore {
            kv_index: KvIndex::new(),
            models: ModelRegistry::new(),
            load: LoadStats::new(),
            topology: TopologyGraph::new(),
            history: RoutingHistory::new(),
            backends: Table::new(),
            by_region: BackendLists::new(),
            by_domain: BackendLists::new(),
        }
    }

    /// The prefix overlap of a hash sequence with what a local backend has cached.
    pub fn kv_find_local_overlap(&self, hashes: &[u64], backend: &BackendId) -> (n: u32)
        requires
            self.wf(),
            kv_index::local_countable(self@.kv, hashes@, backend@),
        ensures
            forall|lane: int| #[trigger]
                local_ckf::is_lane_of(self@.kv.local, backend@, lane) ==> n
                    == kv_index::local_overlap(self@.kv, hashes@, backend@, Some(lane)),
            !local_ckf::has_lane(self@.kv.local, backend@) ==> n == kv_index::local_overlap(
                self@.kv,
                hashes@,
                backend@,
                None,
            ),
    {
        self.kv_index.kv_find_local_overlap(hashes, backend)
    }

    /// The prefix overlap of a hash sequence with what a region has cached, approximately.
    pub fn kv_find_global_overlap(&self, hashes: &[u64], region: &RegionId) -> (n: u32)
        requires
            self.wf(),
            lane_grid::countable(
                hashes@,
                ckf_consumer::region_overlap(self@.kv.regions, region@, hashes@),
            ),
        ensures
            n == ckf_consumer::region_overlap(self@.kv.regions, region@, hashes@),
    {
        self.kv_index.kv_find_global_overlap(hashes, region)
    }

    /// How far an answer of the filters can be relied on.
    pub fn kv_confidence(&self) -> (confidence: RealBits)
        ensures
            confidence == RealBits(0x3FEF_FF4E_8DE8_082E),
    {
        self.kv_index.kv_confidence()
    }

    /// Applies an event of a local backend to the index. A reset to an earlier generation than is
    /// known is passed over.
    pub fn kv_apply_event(&mut self, event: &KvCacheEvent, backend: &BackendId)
        requires
            old(self).wf(),
        ensures
            final(self).wf(),
            final(self)@ == (StoreView { kv: final(self)@.kv, ..old(self)@ }),
            final(self)@.kv.radix == old(self)@.kv.radix.apply(event@, backend@),
            if old(self)@.kv.radix.ignores(event@, backend@) {
                final(self)@.kv.local == old(self)@.kv.local
            } else {
                kv_index::projected(
                    old(self)@.kv.local,
                    final(self)@.kv.local,
                    backend@,
                    event@,
                )
            },
            final(self)@.kv.regions == old(self)@.kv.regions,
    {
        self.kv_index.kv_apply_event(event, backend);
    }

    /// How well a backend matches a model name.
    pub fn model_match_score(&self, backend: &BackendId, model_name: &str) -> (best: ModelMatch)
        requires
            self.wf(),
        ensures
            best == model_registry::backend_match(
                self@.models,
                ids::backend_key(backend@),
                model_name@,
            ),
    {
        self.models.model_match_score(backend, model_name)
    }

    /// The backends with a model that matches a name, each once.
    pub fn model_find_backends(&self, model_name: &str) -> (found: Vec<BackendId>)
        requires
            self.wf(),
        ensures
            forall|i: int|
                0 <= i < found@.len() ==> model_registry::backend_match(
                    self@.models,
                    ids::backend_key((#[trigger] found@[i])@),
                    model_name@,
                ) != ModelMatch::Unrelated,
            forall|i: int, j: int|
                #![trigger found@[i], found@[j]]
                0 <= i < j < found@.len() ==> found@[i]@ != found@[j]@,
            forall|key: KeyView|
                #![trigger model_registry::backend_match(self@.models, key, model_name@)]
                model_registry::backend_match(self@.models, key, model_name@)
                    != ModelMatch::Unrelated ==> exists|i: int|
                    0 <= i < found@.len() && ids::backend_key((#[trigger] found@[i])@) == key,
    {
        self.models.model_find_backends(model_name)
    }

    /// The models of a backend.
    pub fn model_get_instances(&self, backend: &BackendId) -> (models: Vec<ModelInstance>)
        requires
            self.wf(),
        ensures
            models@ == (if self@.models.contains_key(ids::backend_key(backend@)) {
                self@.models[ids::backend_key(backend@)]
            } else {
                Seq::empty()
            }),
    {
        self.models.get_instances(backend)
    }

    /// The latest metrics of a backend.
    pub fn load_get_metrics(&self, backend: &BackendId) -> (metrics: Option<BackendMetrics>)
        requires
            self.wf(),
        ensures
            metrics == (if self@.load.latest.contains_key(ids::backend_key(backend@)) {
                Some(self@.load.latest[ids::backend_key(backend@)])
            } else {
                None
            }),
    {
        self.load.get(backend)
    }

    /// Notes new metrics of a backend.
    pub fn load_update(&mut self, backend: &BackendId, metrics: BackendMetrics)
        requires
            old(self).wf(),
        ensures
            final(self).wf(),
            final(self)@ == (StoreView {
                load: old(self)@.load.update(ids::backend_key(backend@), metrics),
                ..old(self)@
            }),
    {
        self.load.update(backend, metrics);
    }

    /// How old the latest metrics of a backend are at `now_unix`, in seconds.
    pub fn load_freshness(&self, backend: &BackendId, now_unix: u64) -> (age: Option<u64>)
        requires
            self.wf(),
        ensures
            match age {
                Some(secs) => self@.load.latest.contains_key(ids::backend_key(backend@)) && secs
                    == (if now_unix >= load_stats::time_of(
                    self@.load.latest[ids::backend_key(backend@)],
                ) {
                    now_unix - load_stats::time_of(
                        self@.load.latest[ids::backend_key(backend@)],
                    )
                } else {
                    0
                }),
                None => !self@.load.latest.contains_key(ids::backend_key(backend@)),
            },
    {
        self.load.freshness(backend, now_unix)
    }

    /// Where the round-trip time between two regions comes from.
    pub fn topo_rtt_ms(&self, from: &RegionId, to: &RegionId) -> (source: RttSource)
        requires
            self.wf(),
        ensures
            source == topology::rtt_source(self@.topology.latencies, from@, to@, None, None),
    {
        self.topology.rtt_ms(from, to)
    }

    /// What is known of a region.
    pub fn topo_get_region(&self, region: &RegionId) -> (info: Option<RegionInfo>)
        requires
            self.wf(),
        ensures
            match info {
                Some(found) => self@.topology.regions.contains_key(region.key())
                    && topology::same_region(found, self@.topology.regions[region.key()]),
                None => !self@.topology.regions.contains_key(region.key()),
            },
    {
        self.topology.get_region(region)
    }

    /// Records the latency between two regions, in both directions.
    pub fn topo_update_latency(&mut self, a: &RegionId, b: &RegionId, estimate: LatencyEstimate)
        requires
            old(self).wf(),
        ensures
            final(self).wf(),
            final(self)@ == (StoreView { topology: final(self)@.topology, ..old(self)@ }),
            final(self)@.topology.regions == old(self)@.topology.regions,
            final(self)@.topology.latencies == (if a@ == b@ {
                old(self)@.topology.latencies
            } else {
                old(self)@.topology.latencies.insert(
                    topology::link_key(a@, b@),
                    estimate,
                ).insert(topology::link_key(b@, a@), estimate)
            }),
    {
        self.topology.update_latency(a, b, estimate);
    }

    /// Adds a region.
    pub fn topo_add_region(&mut self, info: RegionInfo)
        requires
            old(self).wf(),
        ensures
            final(self).wf(),
            final(self)@ == (StoreView {
                topology: GraphView {
                    regions: old(self)@.topology.regions.insert(info.id.key(), info),
                    ..old(self)@.topology
                },
                ..old(self)@
            }),
    {
        self.topology.add_region(info);
    }

    /// The affinity record of a session.
    pub fn session_get(&self, session: &SessionId) -> (affinity: Option<SessionAffinity>)
        requires
            self.wf(),
        ensures
            affinity == (if self@.history.contains_key(session.key()) {
                Some(self@.history[session.key()])
            } else {
                None
            }),
    {
        self.history.get(session)
    }

    /// Notes that a session was routed to a backend at time `now_unix`.
    pub fn session_set(
        &mut self,
        session: &SessionId,
        backend: BackendId,
        kv_overlap_at_route: u32,
        now_unix: u64,
    )
        requires
            old(self).wf(),
        ensures
            final(self).wf(),
            final(self)@ == (StoreView {
                history: old(self)@.history.insert(
                    session.key(),
                    SessionAffinity { backend, last_used_unix: now_unix, kv_overlap_at_route },
                ),
                ..old(self)@
            }),
    {
        self.history.set(session, backend, kv_overlap_at_route, now_unix);
    }

    /// Drops the affinity records that are older than `ttl_secs` at time `now_unix`, and tells how
    /// many they were.
    pub fn session_evict_expired(&mut self, ttl_secs: u64, now_unix: u64) -> (removed: usize)
        requires
            old(self).wf(),
        ensures
            final(self).wf(),
            final(self)@ == (StoreView {
                history: routing_history::unexpired(old(self)@.history, ttl_secs, now_unix),
                ..old(self)@
            }),
            removed == old(self)@.history.dom().len() - final(self)@.history.dom().len(),
    {
        self.history.evict_expired(ttl_secs, now_unix)
    }

    /// Registers a backend: notes what is known of it and its models, and lists it under its region
    /// and its domain, in place of what was known of it before.
    pub fn register_backend(&mut self, info: BackendInfo)
        requires
            old(self).wf(),
        ensures
            final(self).wf(),
            final(self)@ == old(self)@.register(info),
    {
        let id: BackendId = info.id.clone();
        let region_key: TableKey = info.region.table_key();
        let domain_key: TableKey = info.indexer_domain.table_key();
        proof {
            registering_keeps_the_lists_valid(self@, info);
        }
        self.models.register(&id, copy_models(&info.models));
        match self.backends.insert(id.table_key(), info) {
            Some(known) => {
                self.by_region.drop_backend(&known.region.table_key(), &id);
                self.by_domain.drop_backend(&known.indexer_domain.table_key(), &id);
            },
            None => {},
        }
        self.by_region.push(region_key, &id);
        self.by_domain.push(domain_key, &id);
    }

    /// Unregisters a backend: drops what is known of it, its models and its load statistics, and
    /// takes it out of the lists of its region and its domain.
    pub fn unregister_backend(&mut self, backend_id: &BackendId)
        requires
            old(self).wf(),
        ensures
            final(self).wf(),
            final(self)@ == old(self)@.unregister(backend_id@),
    {
        let key: TableKey = backend_id.table_key();
        proof {
            unregistering_keeps_the_lists_valid(self@, backend_id@);
        }
        match self.backends.remove(&key) {
            Some(info) => {
                self.by_region.drop_backend(&info.region.table_key(), backend_id);
                self.by_domain.drop_backend(&info.indexer_domain.table_key(), backend_id);
            },
            None => {},
        }
        self.models.unregister(backend_id);
        self.load.remove(backend_id);
    }

    /// All registered backends, each once.
    pub fn backends_all(&self) -> (all: Vec<BackendInfo>)
        requires
            self.wf(),
        ensures
            all@.len() == self@.backends.dom().len(),
            forall|i: int|
                0 <= i < all@.len() ==> ({
                    let key = ids::backend_key((#[trigger] all@[i]).id@);
                    &&& self@.backends.contains_key(key)
                    &&& backend::same_info(all@[i], self@.backends[key])
                }),
            forall|i: int, j: int|
                #![trigger all@[i], all@[j]]
                0 <= i < j < all@.len() ==> all@[i].id@ != all@[j].id@,
    {
        let mut all: Vec<BackendInfo> = Vec::new();
        let n: usize = self.backends.len();
        let ghost rows = self.backends.rows();
        proof {
            self.backends.lemma_rows();
        }
        let mut i: usize = 0;
        while i < n
            invariant
                i <= n,
                n == rows.len(),
                self.wf(),
                rows == self.backends.rows(),
                crate::table::rows_hold(rows, self.backends@),
                all@.len() == i,
                forall|j: int| 0 <= j < i ==> backend::same_info(#[trigger] all@[j], rows[j].1),
            decreases n - i,
        {
            all.push(self.backends.value_at(i).clone());
            i = i + 1;
        }
        proof {
            assert forall|j: int| 0 <= j < all@.len() implies ({
                let key = ids::backend_key((#[trigger] all@[j]).id@);
                &&& self@.backends.contains_key(key)
                &&& backend::same_info(all@[j], self@.backends[key])
            }) by {
                assert(self.backends@.contains_key(rows[j].0));
            }
            assert forall|i: int, j: int|
                #![trigger all@[i], all@[j]]
                0 <= i < j < all@.len() implies all@[i].id@ != all@[j].id@ by {
                assert(self.backends@.contains_key(rows[i].0));
                assert(self.backends@.contains_key(rows[j].0));
                assert(rows[i].0 != rows[j].0);
            }
        }
        all
    }

    /// The registered backends of a region, each once.
    pub fn backends_by_region(&self, region: &RegionId) -> (list: Vec<BackendId>)
        requires
            self.wf(),
        ensures
            names_of(list@) == list_at(self@.by_region, region.key()),
            names_of(list@).no_duplicates(),
            forall|backend: BackendView|
                #![trigger names_of(list@).contains(backend)]
                names_of(list@).contains(backend) == (self@.backends.contains_key(
                    ids::backend_key(backend),
                ) && region_key()(self@.backends[ids::backend_key(backend)]) == region.key()),
    {
        self.by_region.get(&region.table_key())
    }

    /// The registered backends of an indexer domain, each once.
    pub fn backends_by_domain(&self, domain: &IndexerDomainId) -> (list: Vec<BackendId>)
        requires
            self.wf(),
        ensures
            names_of(list@) == list_at(self@.by_domain, domain.key()),
            names_of(list@).no_duplicates(),
            forall|backend: BackendView|
                #![trigger names_of(list@).contains(backend)]
                names_of(list@).contains(backend) == (self@.backends.contains_key(
                    ids::backend_key(backend),
                ) && domain_key()(self@.backends[ids::backend_key(backend)]) == domain.key()),
    {
        self.by_domain.get(&domain.table_key())
    }

    /// What is known of a backend.
    pub fn backend_get(&self, backend: &BackendId) -> (info: Option<BackendInfo>)
        requires
            self.wf(),
        ensures
            match info {
                Some(found) => self@.backends.contains_key(ids::backend_key(backend@))
                    && backend::same_info(found, self@.backends[ids::backend_key(backend@)]),
                None => !self@.backends.contains_key(ids::backend_key(backend@)),
            },
    {
        match self.backends.get(&backend.table_key()) {
            Some(info) => Some(info.clone()),
            None => None,
        }
    }

    /// Number of registered backends.
    pub fn backends_len(&self) -> (n: usize)
        requires
            self.wf(),
        ensures
            n == self@.backends.dom().len(),
    {
        self.backends.len()
    }

    /// Takes everything of a backend out of the exact tree.
    pub fn kv_remove_backend(&mut self, backend: &BackendId)
        requires
            old(self).wf(),
        ensures
            final(self).wf(),
            final(self)@ == (StoreView {
                kv: KvIndexView {
                    radix: old(self)@.kv.radix.without(backend@),
                    ..old(self)@.kv
                },
                ..old(self)@
            }),
    {
        self.kv_index.radix_mut().remove_backend(backend);
    }

    /// The index of cached blocks.
    pub fn kv_index(&self) -> (index: &KvIndex)
        requires
            self.wf(),
        ensures
            index.wf(),
            index@ == self@.kv,
    {
        &self.kv_index
    }

    /// The lanes of other regions.
    pub fn ckf_consumer(&self) -> (consumer: &CkfConsumer)
        requires
            self.wf(),
        ensures
            consumer.wf(),
            consumer@ == self@.kv.regions,
    {
        self.kv_index.consumer()
    }

    /// The index of cached blocks, to be changed in place.
    pub fn kv_index_mut(&mut self) -> (index: &mut KvIndex)
        requires
            old(self).wf(),
        ensures
            index.wf(),
            index@ == old(self)@.kv,
            final(index).wf() ==> final(self).wf(),
            final(self)@ == (StoreView { kv: final(index)@, ..old(self)@ }),
    {
        &mut self.kv_index
    }

    /// The exact tree.
    pub fn radix_tree(&self) -> (radix: &RadixTree)
        requires
            self.wf(),
        ensures
            radix.wf(),
            radix@ == self@.kv.radix,
    {
        self.kv_index.radix()
    }

    /// The model registry.
    pub fn models(&self) -> (models: &ModelRegistry)
        requires
            self.wf(),
        ensures
            models.wf(),
            models@ == self@.models,
    {
        &self.models
    }

    /// The load statistics.
    pub fn load(&self) -> (load: &LoadStats)
        requires
            self.wf(),
        ensures
            load.wf(),
            load@ == self@.load,
    {
        &self.load
    }

    /// The topology graph.
    pub fn topology(&self) -> (topology: &TopologyGraph)
        requires
            self.wf(),
        ensures
            topology.wf(),
            topology@ == self@.topology,
    {
        &self.topology
    }

    /// The session affinity records.
    pub fn history(&self) -> (history: &RoutingHistory)
        requires
            self.wf(),
        ensures
            history.wf(),
            history@ == self@.history,
    {
        &self.history
    }
}

impl Default for MetadataStore {
    fn default() -> (store: Self)
        ensures
            store.wf(),
            store@ == empty_store(),
    {
        MetadataStore::new()
    }
}

/// A registered backend is known, and listed last under its region and its domain.
pub proof fn a_registered_backend_is_listed(store: StoreView, info: BackendInfo)
    ensures
        store.register(info).backends[ids::backend_key(info.id@)] == info,
        store.register(info).models[ids::backend_key(info.id@)] == info.models@,
        list_at(store.register(info).by_region, info.region.key()).last() == info.id@,
        list_at(store.register(info).by_domain, info.indexer_domain.key()).last() == info.id@,
{
}

/// An unregistered backend is not known, not listed under any region or domain, and has no models
/// and no metrics.
pub proof fn an_unregistered_backend_is_gone(
    store: StoreView,
    backend: BackendView,
    listed_in: KeyView,
)
    requires
        store.lists_valid(),
    ensures
        ({
            let key = ids::backend_key(backend);
            let after = store.unregister(backend);
            &&& !after.backends.contains_key(key)
            &&& !after.models.contains_key(key)
            &&& !after.load.latest.contains_key(key)
            &&& !list_at(after.by_region, listed_in).contains(backend)
            &&& !list_at(after.by_domain, listed_in).contains(backend)
        }),
{
    unregistering_keeps_the_lists_valid(store, backend);
}

/// Registering a backend, for the first time or again, keeps the lists of each region and each
/// domain those of its registered backends.
pub proof fn registering_keeps_the_lists_valid(store: StoreView, info: BackendInfo)
    requires
        store.lists_valid(),
    ensures
        store.register(info).lists_valid(),
{
    lemma_register(store.by_region, store.backends, region_key(), info);
    lemma_register(store.by_domain, store.backends, domain_key(), info);
}

/// Unregistering a backend keeps the lists of each region and each domain those of its registered
/// backends.
pub proof fn unregistering_keeps_the_lists_valid(store: StoreView, backend: BackendView)
    requires
        store.lists_valid(),
    ensures
        store.unregister(backend).lists_valid(),
{
    lemma_without(store.by_region, store.backends, region_key(), backend);
    lemma_without(store.by_domain, store.backends, domain_key(), backend);
}

proof fn lemma_without(
    lists: ListsView,
    backends: Map<KeyView, BackendInfo>,
    filed: spec_fn(BackendInfo) -> KeyView,
    backend: BackendView,
)
    requires
        list_registered(lists, backends, filed),
    ensures
        list_registered(
            lists_without(lists, backends, filed, backend),
            backends.remove(ids::backend_key(backend)),
            filed,
        ),
{
    let own = ids::backend_key(backend);
    let left = lists_without(lists, backends, filed, backend);
    let rest = backends.remove(own);
    assert forall|key: KeyView| (#[trigger] list_at(left, key)).no_duplicates() by {
        assert(list_at(lists, key).no_duplicates());
        lemma_unlisted(lists, filed(backends[own]), backend, key);
    }
    assert forall|key: KeyView, other: BackendView|
        #![trigger list_at(left, key).contains(other)]
        list_at(left, key).contains(other) == (rest.contains_key(ids::backend_key(other)) && filed(
            rest[ids::backend_key(other)],
        ) == key) by {
        assert(list_at(lists, key).contains(other) == (backends.contains_key(
            ids::backend_key(other),
        ) && filed(backends[ids::backend_key(other)]) == key));
        assert(list_at(lists, key).no_duplicates());
        lemma_unlisted(lists, filed(backends[own]), backend, key);
    }
}

proof fn lemma_register(
    lists: ListsView,
    backends: Map<KeyView, BackendInfo>,
    filed: spec_fn(BackendInfo) -> KeyView,
    info: BackendInfo,
)
    requires
        list_registered(lists, backends, filed),
    ensures
        list_registered(
            listed(lists_without(lists, backends, filed, info.id@), filed(info), info.id@),
            backends.insert(ids::backend_key(info.id@), info),
            filed,
        ),
{
    let own = ids::backend_key(info.id@);
    let left = lists_without(lists, backends, filed, info.id@);
    let rest = backends.remove(own);
    lemma_without(lists, backends, filed, info.id@);
    let after = listed(left, filed(info), info.id@);
    let all = backends.insert(own, info);
    assert forall|key: KeyView| (#[trigger] list_at(after, key)).no_duplicates() by {
        assert(list_at(left, key).no_duplicates());
        assert(!list_at(left, key).contains(info.id@));
    }
    assert forall|key: KeyView, other: BackendView|
        #![trigger list_at(after, key).contains(other)]
        list_at(after, key).contains(other) == (all.contains_key(ids::backend_key(other)) && filed(
            all[ids::backend_key(other)],
        ) == key) by {
        let before = list_at(left, key);
        assert(before.contains(other) == (rest.contains_key(ids::backend_key(other)) && filed(
            rest[ids::backend_key(other)],
        ) == key));
        if key == filed(info) {
            let longer = before.push(info.id@);
            assert(longer[before.len() as int] == info.id@);
            if before.contains(other) {
                let i = before.index_of(other);
                assert(longer[i] == other);
            }
            if longer.contains(other) && other != info.id@ {
                let i = longer.index_of(other);
                assert(before[i] == other);
            }
        }
    }
}

proof fn lemma_unlisted(lists: ListsView, key: KeyView, backend: BackendView, at: KeyView)
    requires
        list_at(lists, at).no_duplicates(),
    ensures
        list_at(unlisted(lists, key, backend), at).no_duplicates(),
        forall|other: BackendView|
            #![trigger list_at(unlisted(lists, key, backend), at).contains(other)]
            list_at(unlisted(lists, key, backend), at).contains(other) == (list_at(
                lists,
                at,
            ).contains(other) && !(at == key && other == backend)),
{
    if lists.contains_key(key) && at == key {
        lemma_filtered(lists[key], other_than(backend));
        assert(list_at(unlisted(lists, key, backend), at) =~= lists[key].filter(
            other_than(backend),
        ));
    }
}

proof fn lemma_filtered(list: Seq<BackendView>, keep: spec_fn(BackendView) -> bool)
    requires
        list.no_duplicates(),
    ensures
        list.filter(keep).no_duplicates(),
        forall|name: BackendView|
            #![trigger list.filter(keep).contains(name)]
            list.filter(keep).contains(name) == (list.contains(name) && keep(name)),
    decreases list.len(),
{
    reveal(Seq::filter);
    if list.len() > 0 {
        let shorter = list.drop_last();
        lemma_filtered(shorter, keep);
        let before = shorter.filter(keep);
        let after = list.filter(keep);
        assert(!shorter.contains(list.last())) by {
            if shorter.contains(list.last()) {
                let i = shorter.index_of(list.last());
                assert(list[i] == list[list.len() - 1]);
            }
        }
        assert(!before.contains(list.last()));
        assert forall|name: BackendView|
            #![trigger after.contains(name)]
            after.contains(name) == (list.contains(name) && keep(name)) by {
            assert(before.contains(name) == (shorter.contains(name) && keep(name)));
            if list.contains(name) && name != list.last() {
                let i = list.index_of(name);
                assert(shorter[i] == name);
            }
            if shorter.contains(name) {
                let i = shorter.index_of(name);
                assert(list[i] == name);
            }
            assert(list[list.len() - 1] == list.last());
            if keep(list.last()) {
                assert(after == before.push(list.last()));
                assert(after[before.len() as int] == list.last());
                if before.contains(name) {
                    let i = before.index_of(name);
                    assert(after[i] == name);
                }
                if after.contains(name) && name != list.last() {
                    let i = after.index_of(name);
                    assert(before[i] == name);
                }
            }
        }
    }
}

proof fn lemma_nothing_filtered(list: Seq<BackendView>, backend: BackendView)
    requires
        !list.contains(backend),
    ensures
        list.filter(other_than(backend)) == list,
    decreases list.len(),
{
    reveal(Seq::filter);
    if list.len() > 0 {
        let shorter = list.drop_last();
        assert(list[list.len() - 1] != backend);
        if shorter.contains(backend) {
            let i = shorter.index_of(backend);
            assert(list[i] == backend);
        }
        lemma_nothing_filtered(shorter, backend);
        assert(shorter.push(list.last()) =~= list);
    }
}

proof fn lemma_list_without(
    lists: ListsView,
    backends: Map<KeyView, BackendInfo>,
    filed: spec_fn(BackendInfo) -> KeyView,
    backend: BackendView,
    at: KeyView,
)
    requires
        list_registered(lists, backends, filed),
    ensures
        list_at(lists_without(lists, backends, filed, backend), at) == list_at(lists, at).filter(
            other_than(backend),
        ),
{
    let key = ids::backend_key(backend);
    if !list_at(lists, at).contains(backend) {
        lemma_nothing_filtered(list_at(lists, at), backend);
    }
}

/// Registering a backend puts it at the end of the list of its region and of its domain, and takes it
/// out of the list in which it stood; other backends keep their places. Nothing is changed but what is
/// known of this backend and its models.
pub proof fn registering_concerns_one_backend(
    store: StoreView,
    info: BackendInfo,
    other: KeyView,
    at: KeyView,
)
    requires
        store.lists_valid(),
        other != ids::backend_key(info.id@),
    ensures
        ({
            let after = store.register(info);
            let id = info.id@;
            &&& after.kv == store.kv && after.load == store.load && after.topology
                == store.topology && after.history == store.history
            &&& after.backends.contains_key(other) == store.backends.contains_key(other)
            &&& after.backends[other] == store.backends[other]
            &&& after.models.contains_key(other) == store.models.contains_key(other)
            &&& after.models[other] == store.models[other]
            &&& list_at(after.by_region, at) == if at == info.region.key() {
                list_at(store.by_region, at).filter(|name: BackendView| name != id).push(id)
            } else {
                list_at(store.by_region, at).filter(|name: BackendView| name != id)
            }
            &&& list_at(after.by_domain, at) == if at == info.indexer_domain.key() {
                list_at(store.by_domain, at).filter(|name: BackendView| name != id).push(id)
            } else {
                list_at(store.by_domain, at).filter(|name: BackendView| name != id)
            }
        }),
{
    let id = info.id@;
    assert(other_than(id) =~= (|name: BackendView| name != id));
    lemma_list_without(store.by_region, store.backends, region_key(), id, at);
    lemma_list_without(store.by_domain, store.backends, domain_key(), id, at);
}

/// Unregistering a backend takes it, its models and its load out, and out of the lists; other backends
/// keep theirs and their places. What is known of cached blocks, regions and sessions stays.
pub proof fn unregistering_concerns_one_backend(
    store: StoreView,
    backend: BackendView,
    other: KeyView,
    at: KeyView,
)
    requires
        store.lists_valid(),
        other != ids::backend_key(backend),
    ensures
        ({
            let after = store.unregister(backend);
            let key = ids::backend_key(backend);
            &&& after.kv == store.kv && after.topology == store.topology && after.history
                == store.history
            &&& !after.backends.contains_key(key) && !after.models.contains_key(key)
                && !after.load.latest.contains_key(key) && !after.load.history.contains_key(key)
            &&& after.backends.contains_key(other) == store.backends.contains_key(other)
            &&& after.backends[other] == store.backends[other]
            &&& after.models.contains_key(other) == store.models.contains_key(other)
            &&& after.models[other] == store.models[other]
            &&& after.load.latest.contains_key(other) == store.load.latest.contains_key(other)
            &&& after.load.latest[other] == store.load.latest[other]
            &&& after.load.history_of(other) == store.load.history_of(other)
            &&& list_at(after.by_region, at) == list_at(store.by_region, at).filter(
                |name: BackendView| name != backend,
            )
            &&& list_at(after.by_domain, at) == list_at(store.by_domain, at).filter(
                |name: BackendView| name != backend,
            )
        }),
{
    assert(other_than(backend) =~= (|name: BackendView| name != backend));
    lemma_list_without(store.by_region, store.backends, region_key(), backend, at);
    lemma_list_without(store.by_domain, store.backends, domain_key(), backend, at);
}

/// A backend is listed under the region and the domain of its registration, once, and nowhere else.
pub proof fn a_backend_is_listed_where_it_is(
    store: StoreView,
    backend: BackendView,
    region: RegionId,
    domain: IndexerDomainId,
)
    requires
        store.lists_valid(),
    ensures
        ({
            let key = ids::backend_key(backend);
            let known = store.backends.contains_key(key);
            &&& list_at(store.by_region, region.key()).contains(backend) <==> known
                && store.backends[key].region@ == region@
            &&& list_at(store.by_domain, domain.key()).contains(backend) <==> known
                && store.backends[key].indexer_domain == domain
            &&& list_at(store.by_region, region.key()).no_duplicates()
            &&& list_at(store.by_domain, domain.key()).no_duplicates()
        }),
{
    let key = ids::backend_key(backend);
    assert(list_at(store.by_region, region.key()).contains(backend) == (store.backends.contains_key(
        key,
    ) && region_key()(store.backends[key]) == region.key()));
    assert(list_at(store.by_domain, domain.key()).contains(backend) == (store.backends.contains_key(
        key,
    ) && domain_key()(store.backends[key]) == domain.key()));
}

} // verus!
