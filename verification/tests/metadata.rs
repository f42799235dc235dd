//! Load, sessions, latencies and the store over them.

use hier_kv_gateway::backend::{
    BackendCapabilities, BackendInfo, BackendStatus, BackendType, Endpoint, KvConfig,
    ModelInstance, Protocol, Quantization,
};
use hier_kv_gateway::ckf_producer::CkfProducer;
use hier_kv_gateway::ids::{
    BackendId, IndexerDomainId, RegionId, RegionTier, SessionId, WorkerWithRank,
};
use hier_kv_gateway::kv_event::KvCacheEvent;
use hier_kv_gateway::load_stats::{LoadStats, RingBuffer, RING_CAPACITY};
use hier_kv_gateway::metrics::{BackendMetrics, RealBits};
use hier_kv_gateway::model_registry::ModelMatch;
use hier_kv_gateway::radix_tree::RadixTree;
use hier_kv_gateway::routing_history::RoutingHistory;
use hier_kv_gateway::store::MetadataStore;
use hier_kv_gateway::topology::{LatencyEstimate, RegionInfo, RttSource};
use hier_kv_gateway::topology_graph::TopologyGraph;

fn bits(value: f64) -> RealBits {
    RealBits(value.to_bits())
}

fn metrics(timestamp: i64) -> BackendMetrics {
    BackendMetrics {
        timestamp,
        ..BackendMetrics::default()
    }
}

fn backend(n: u8) -> BackendId {
    BackendId::new(&format!("r{n}"), &format!("i{n}"))
}

fn stored(hashes: Vec<u64>) -> KvCacheEvent {
    KvCacheEvent::Stored {
        worker: WorkerWithRank::from_worker_id(1),
        block_hashes: hashes,
        parent_hash: None,
        num_block_tokens: Vec::new(),
    }
}

#[test]
fn ring_buffer_overwrites_oldest() {
    let mut rb: RingBuffer<u32> = RingBuffer::new(3);
    rb.push(1);
    rb.push(2);
    rb.push(3);
    rb.push(4);
    assert_eq!(rb.snapshot(), vec![2, 3, 4]);
}

#[test]
fn update_and_get() {
    let mut stats = LoadStats::new();
    let b = backend(1);
    stats.update(&b, metrics(100));
    let m = stats.get(&b).expect("metrics should exist");
    assert_eq!(m.timestamp, 100);
}

#[test]
fn history_keeps_last_n() {
    let mut stats = LoadStats::new();
    let b = backend(1);
    for i in 0..(RING_CAPACITY as i64 + 5) {
        stats.update(&b, metrics(i));
    }
    let h = stats.history(&b);
    assert_eq!(h.len(), RING_CAPACITY);
    // The oldest entry should be 5
    assert_eq!(h[0].timestamp, 5);
}

#[test]
fn set_and_get() {
    let mut h = RoutingHistory::new();
    let s = SessionId::new("sess-1");
    let b = backend(7);
    h.set(&s, b.clone(), 5, 1_700_000_000);
    let aff = h.get(&s).expect("should exist");
    assert_eq!(aff.backend, b);
    assert_eq!(aff.kv_overlap_at_route, 5);
}

#[test]
fn evict_expired_removes_old_entries() {
    let mut h = RoutingHistory::new();
    let s = SessionId::new("sess-1");
    // An old entry, last used at time 0
    h.set(&s, backend(1), 0, 0);
    let removed = h.evict_expired(1, 1_700_000_000);
    assert!(removed >= 1);
    assert!(h.get(&s).is_none());
}

#[test]
fn rtt_symmetric_after_update() {
    let mut graph = TopologyGraph::new();
    let a = RegionId::new("r1");
    let b = RegionId::new("r2");
    let estimate = LatencyEstimate {
        rtt_p50_ms: bits(12.5),
        rtt_p99_ms: bits(20.0),
        bandwidth_mbps: bits(1000.0),
        last_updated_unix: 1,
    };
    graph.update_latency(&a, &b, estimate);
    assert_eq!(graph.rtt_ms(&a, &b), RttSource::Recorded(bits(12.5)));
    assert_eq!(graph.rtt_ms(&b, &a), RttSource::Recorded(bits(12.5)));
    assert_eq!(graph.rtt_ms(&a, &a), RttSource::SameRegion);
}

#[test]
fn end_to_end_register_and_query() {
    let mut store = MetadataStore::new();
    let b = backend(1);

    // Apply a KV event
    store
        .kv_apply_event(&stored(vec![1, 2, 3]), &b);
    let overlap = store.kv_find_local_overlap(&[1, 2, 3], &b);
    assert_eq!(overlap, 3);

    // KV confidence
    assert!(f64::from_bits(store.kv_confidence().0) > 0.99);
}

fn info_of(b: &BackendId, region: &RegionId) -> BackendInfo {
    BackendInfo {
        id: b.clone(),
        backend_type: BackendType::VllmEngine,
        endpoint: Endpoint {
            url: "http://10.0.0.1:8080".to_string(),
            protocol: Protocol::Http,
        },
        models: vec![ModelInstance {
            model_name: "llama-7b".to_string(),
            model_architecture: "llama".to_string(),
            quantization: Quantization::Fp16,
            max_context_len: 4096,
            supports_tool_calling: false,
            supports_streaming: true,
        }],
        region: region.clone(),
        indexer_domain: IndexerDomainId::new(1),
        capabilities: BackendCapabilities {
            supports_kv_events: true,
            supports_batching: true,
            max_batch_size: 32,
            gpu_count: 1,
            gpu_memory_gb: 24,
        },
        kv_config: KvConfig {
            block_size: 16,
            cache_namespace: "default".to_string(),
            max_kv_blocks: 1024,
        },
        status: BackendStatus::Healthy,
    }
}

#[test]
fn model_match_score_for_registered_backend() {
    let mut store = MetadataStore::new();
    let b = backend(1);
    let region = RegionId::new("r1");
    let info = info_of(&b, &region);
    store.register_backend(info);

    let score = store.model_match_score(&b, "llama-7b");
    assert_eq!(score, ModelMatch::Exact);
    assert_eq!(f64::from_bits(score.score().0), 1.0);
    assert!(!store.model_find_backends("llama-7b").is_empty());
    assert!(store.backends_by_region(&region).contains(&b));
}

#[test]
fn a_region_that_is_added_can_be_read() {
    let mut store = MetadataStore::new();
    let region = RegionId::new("r1");
    assert!(store.topo_get_region(&region).is_none());
    store.topo_add_region(RegionInfo {
        id: region.clone(),
        tier: RegionTier::Edge,
        geo: None,
        network_zone: "zone".to_string(),
        endpoints: vec![],
    });
    let info = store.topo_get_region(&region).unwrap();
    assert_eq!(info.id, region);
    assert_eq!(info.tier, RegionTier::Edge);
    assert_eq!(info.network_zone, "zone");
}

#[test]
fn a_region_answers_once_its_snapshot_is_installed() {
    let mut store = MetadataStore::new();
    let region = RegionId::new("far");
    let mut producer = CkfProducer::new();
    producer.apply_event(&stored(vec![7, 8, 9]), &backend(1));
    let snapshot = producer.snapshot();
    assert_eq!(store.kv_find_global_overlap(&[7, 8, 9], &region), 0);
    let consumer = store.kv_index_mut().consumer_mut();
    consumer.assign_lane(3, region.clone());
    consumer.install_snapshot(3, &snapshot);
    assert_eq!(store.kv_find_global_overlap(&[7, 8, 9], &region), 3);
    assert_eq!(store.ckf_consumer().lane_of(&region), Some(3));
}

#[test]
fn the_latest_metrics_are_the_last_of_the_history() {
    let mut stats = LoadStats::new();
    let b = backend(1);
    for timestamp in 0..70 {
        stats.update(&b, metrics(timestamp));
        assert_eq!(stats.get(&b), stats.history(&b).last().copied());
    }
    assert_eq!(stats.history(&b).len(), RING_CAPACITY);
    stats.remove(&b);
    assert!(stats.get(&b).is_none());
    assert!(stats.history(&b).is_empty());
}

#[test]
fn a_backend_that_holds_blocks_is_counted() {
    let mut tree = RadixTree::new();
    tree.apply_event(&backend(1), &stored(vec![1, 2]));
    tree.apply_event(&backend(2), &stored(vec![1]));
    assert_eq!(tree.stats().backends, 2);
    tree.remove_backend(&backend(1));
    assert_eq!(tree.stats().backends, 1);
    assert_eq!(tree.find_matches(&[1, 2], &backend(2)), 1);
}

#[test]
fn round_trip_times_do_not_depend_on_the_direction() {
    let mut graph = TopologyGraph::new();
    let (a, b) = (RegionId::new("a"), RegionId::new("b"));
    let estimate = |rtt: f64| LatencyEstimate {
        rtt_p50_ms: bits(rtt),
        rtt_p99_ms: bits(rtt),
        bandwidth_mbps: bits(0.0),
        last_updated_unix: 0,
    };
    graph.update_latency(&a, &b, estimate(5.0));
    graph.update_latency(&b, &a, estimate(9.0));
    assert_eq!(graph.rtt_ms(&a, &b), RttSource::Recorded(bits(9.0)));
    assert_eq!(graph.rtt_ms(&b, &a), RttSource::Recorded(bits(9.0)));
}

#[test]
fn a_backend_that_registers_again_is_listed_once() {
    let mut store = MetadataStore::new();
    let b = backend(1);
    let region = RegionId::new("r1");
    store.register_backend(info_of(&b, &region));
    store.register_backend(info_of(&b, &region));
    assert_eq!(store.backends_by_region(&region), vec![b.clone()]);
    assert_eq!(
        store.backends_by_domain(&IndexerDomainId::new(1)),
        vec![b.clone()]
    );
    store.unregister_backend(&b);
    assert!(store.backends_by_region(&region).is_empty());
    assert!(store.backends_by_domain(&IndexerDomainId::new(1)).is_empty());
}

#[test]
fn a_backend_that_moves_leaves_its_old_lists() {
    let mut store = MetadataStore::new();
    let (b, other) = (backend(1), backend(2));
    let (before, after) = (RegionId::new("r1"), RegionId::new("r2"));
    store.register_backend(info_of(&b, &before));
    store.register_backend(info_of(&other, &before));
    let mut moved = info_of(&b, &after);
    moved.indexer_domain = IndexerDomainId::new(9);
    store.register_backend(moved);
    assert_eq!(store.backends_by_region(&before), vec![other.clone()]);
    assert_eq!(store.backends_by_region(&after), vec![b.clone()]);
    assert_eq!(store.backends_by_domain(&IndexerDomainId::new(1)), vec![other.clone()]);
    assert_eq!(store.backends_by_domain(&IndexerDomainId::new(9)), vec![b.clone()]);
    store.unregister_backend(&b);
    assert!(store.backends_by_region(&after).is_empty());
    assert!(store.backends_by_domain(&IndexerDomainId::new(9)).is_empty());
    assert_eq!(store.backends_by_region(&before), vec![other]);
}

#[test]
fn an_outdated_reset_leaves_the_store_alone() {
    let mut store = MetadataStore::new();
    let b = backend(1);
    let reset = |generation: u64| KvCacheEvent::Reset {
        worker: WorkerWithRank::from_worker_id(1),
        generation,
    };
    store.kv_apply_event(&reset(3), &b);
    store.kv_apply_event(&stored(vec![1, 2, 3]), &b);
    store.kv_apply_event(&reset(2), &b);
    assert_eq!(store.kv_find_local_overlap(&[1, 2, 3], &b), 3);
    store.kv_apply_event(&reset(4), &b);
    assert_eq!(store.kv_find_local_overlap(&[1, 2, 3], &b), 0);
}
