//! Properties that hold over several calls.

use hier_kv_gateway::backend::{
    BackendCapabilities, BackendInfo, BackendStatus, BackendType, Endpoint, KvConfig,
    ModelInstance, Protocol, Quantization,
};
use hier_kv_gateway::ckf_consumer::CkfConsumer;
use hier_kv_gateway::ckf_producer::CkfProducer;
use hier_kv_gateway::ckf_relay::KvRelay;
use hier_kv_gateway::config::{
    default_gossip_fanout, default_probe_interval_ms, ClusterConfig, ResilienceConfig,
};
use hier_kv_gateway::cost::{CostConfig, CostModel, ModelPrice, PriceEntry, StaticCostModel};
use hier_kv_gateway::cuckoo_filter::{
    alt_index, bucket_contains, probe, slot, try_delete, try_insert, with_slot, CkfDelta,
    BUCKETS_PER_LANE,
};
use hier_kv_gateway::error::HierKvGatewayError;
use hier_kv_gateway::estimate::{estimate_kv, EstimateInput};
use hier_kv_gateway::gossip::{message_sender_is_self, GossipAction, GossipEngine};
use hier_kv_gateway::ids::{
    BackendId, IndexerDomainId, InstanceId, PoolId, RegionId, SessionId, WorkerWithRank,
};
use hier_kv_gateway::kv_event::{compute_block_hashes, compute_seed, BlockHashInput, KvCacheEvent};
use hier_kv_gateway::kv_index::KvIndex;
use hier_kv_gateway::lane::insert_fingerprint;
use hier_kv_gateway::load_stats::{metrics_timestamp, LoadStats, RingBuffer};
use hier_kv_gateway::local_ckf::{LocalCkf, LOCAL_LANE_COUNT};
use hier_kv_gateway::member::{random_order, ClusterMember, MemberList, MemberStatus};
use hier_kv_gateway::messages::{ClusterMessage, LoadPayload, MetaDigest};
use hier_kv_gateway::metrics::{BackendMetrics, RealBits};
use hier_kv_gateway::model_registry::{ModelMatch, ModelRegistry};
use hier_kv_gateway::model_tier::{ModelTier, ModelTierConfig, TierEntry};
use hier_kv_gateway::radix_tree::RadixTree;
use hier_kv_gateway::region_view::RegionMemberView;
use hier_kv_gateway::resilience::{CircuitBreakerRegistry, CircuitState, RetryPolicy};
use hier_kv_gateway::routing_history::RoutingHistory;
use hier_kv_gateway::shared_state::{
    instance_key, instance_pattern, lock_key, metrics_key, metrics_pattern, prefix_key, session_key,
    stored_ttl_secs, LocalSharedState,
};
use hier_kv_gateway::spec::{KvDtype, ModelSpec};
use hier_kv_gateway::sse::{marks_end, SseBuffer};
use hier_kv_gateway::store::MetadataStore;
use hier_kv_gateway::table::Table;
use hier_kv_gateway::tenant::{TenantPriority, TenantQuota, TenantState};
use hier_kv_gateway::topology::{GeoCoord, LatencyEstimate, LatencyMatrix, RegionInfo, RttSource};
use hier_kv_gateway::topology_graph::TopologyGraph;

const NOW_MS: u64 = 1_700_000_000_000;

fn bits(value: f64) -> RealBits {
    RealBits(value.to_bits())
}

fn backend(n: u64) -> BackendId {
    BackendId::new(&format!("r{n}"), &format!("i{n}"))
}

fn worker() -> WorkerWithRank {
    WorkerWithRank::from_worker_id(1)
}

fn stored(hashes: Vec<u64>) -> KvCacheEvent {
    KvCacheEvent::Stored {
        worker: worker(),
        block_hashes: hashes,
        parent_hash: None,
        num_block_tokens: Vec::new(),
    }
}

fn removed(hashes: Vec<u64>) -> KvCacheEvent {
    KvCacheEvent::Removed {
        worker: worker(),
        block_hashes: hashes,
    }
}

fn clear() -> KvCacheEvent {
    KvCacheEvent::Clear { worker: worker() }
}

fn reset_to(generation: u64) -> KvCacheEvent {
    KvCacheEvent::Reset {
        worker: worker(),
        generation,
    }
}

fn reset() -> KvCacheEvent {
    reset_to(2)
}

// ---- Identifiers ----

#[test]
fn what_is_read_of_a_backend_is_written_again() {
    for text in ["r/i", "us-east-1/worker-0", "r1/a/b", "ä/ö"] {
        assert_eq!(BackendId::parse(text).unwrap().to_text(), text);
    }
    let error = "a\"b".parse::<BackendId>().unwrap_err();
    assert_eq!(
        error,
        "invalid backend id \"a\\\"b\", expected '<region>/<instance>'"
    );
}

#[test]
fn identifiers_come_from_texts_and_numbers() {
    assert_eq!(SessionId::from("s"), SessionId::new("s"));
    assert_eq!(InstanceId::from("i".to_string()), InstanceId::new("i"));
    assert_eq!(IndexerDomainId::from(7), IndexerDomainId::new(7));
    assert_eq!(WorkerWithRank::from_worker_id(3), WorkerWithRank::new(3, 0));
}

// ---- Block hashes ----

#[test]
fn hashes_are_those_of_xxh3() {
    let tokens: Vec<u32> = vec![1, 2, 3, 4, 5];
    let hashes = compute_block_hashes(&BlockHashInput {
        tokens: &tokens,
        kv_block_size: 2,
        cache_namespace: None,
        lora_name: None,
    });
    let of = |a: u32, b: u32| {
        let mut bytes = a.to_le_bytes().to_vec();
        bytes.extend(b.to_le_bytes());
        xxhash_rust::xxh3::xxh3_64_with_seed(&bytes, 1337)
    };
    assert_eq!(hashes, vec![of(1, 2), of(3, 4)]);
    assert_eq!(compute_seed(None, None), 1337);
    assert_eq!(compute_seed(Some(""), Some("")), 1337);
    assert_ne!(compute_seed(Some("a"), None), 1337);
}

#[test]
fn hashes_of_a_prefix_are_a_prefix() {
    let tokens: Vec<u32> = (0..64).collect();
    let hashes = |n: usize| {
        compute_block_hashes(&BlockHashInput {
            tokens: &tokens[..n],
            kv_block_size: 16,
            cache_namespace: Some("ns"),
            lora_name: None,
        })
    };
    assert_eq!(hashes(40), hashes(64)[..2]);
    assert_eq!(hashes(15), Vec::<u64>::new());
}

// ---- Buckets and filters ----

#[test]
fn writing_a_slot_leaves_the_others() {
    let mut bucket = 0u64;
    for i in 0..4usize {
        bucket = with_slot(bucket, i, 0x1000 + i as u16);
    }
    bucket = with_slot(bucket, 2, 0xbeef);
    assert_eq!(slot(bucket, 0), 0x1000);
    assert_eq!(slot(bucket, 1), 0x1001);
    assert_eq!(slot(bucket, 2), 0xbeef);
    assert_eq!(slot(bucket, 3), 0x1003);
}

#[test]
fn deleting_undoes_inserting() {
    let mut bucket = 0u64;
    assert!(try_insert(&mut bucket, 9));
    let before = bucket;
    assert!(try_insert(&mut bucket, 7));
    assert!(bucket_contains(bucket, 7));
    assert!(try_delete(&mut bucket, 7));
    assert_eq!(bucket, before);
}

#[test]
fn candidate_buckets_lie_in_the_lane() {
    for hash in [0u64, 1, 42, u64::MAX, 0x1234_5678_9abc_def0] {
        let (fp, primary) = probe(hash);
        assert_ne!(fp, 0);
        assert!(primary < BUCKETS_PER_LANE);
        let other = alt_index(primary, fp);
        assert!(other < BUCKETS_PER_LANE);
        assert_ne!(other, primary);
        assert_eq!(alt_index(other, fp), primary);
    }
}

#[test]
fn a_crowded_lane_keeps_every_fingerprint() {
    let mut buckets = vec![0u64; BUCKETS_PER_LANE];
    let mut random = 5u64;
    let mut dirty = Vec::new();
    for hash in 0..200_000u64 {
        assert!(insert_fingerprint(&mut buckets, &mut random, &mut dirty, hash));
    }
    for hash in 0..200_000u64 {
        let (fp, primary) = probe(hash);
        assert!(
            bucket_contains(buckets[primary], fp)
                || bucket_contains(buckets[alt_index(primary, fp)], fp)
        );
    }
    assert!(dirty.windows(2).all(|pair| pair[0] < pair[1]));
}

#[test]
fn a_delta_brings_a_copy_up_to_date_in_a_test() {
    let mut producer = CkfProducer::with_seed(3);
    producer.apply_event(&stored(vec![1, 2, 3]), &backend(1));
    let mut copy = producer.snapshot().buckets;
    producer.apply_event(&stored(vec![4, 5]), &backend(2));
    producer.apply_event(&removed(vec![1]), &backend(1));
    let delta = producer.delta().unwrap();
    assert_eq!(delta.prev_sequence + 1, delta.sequence);
    for (index, value) in &delta.buckets {
        copy[*index] = *value;
    }
    assert_eq!(copy, producer.snapshot().buckets);
    assert!(producer.delta().is_none());
}

#[test]
fn clearing_a_backend_leaves_the_others() {
    let mut producer = CkfProducer::new();
    producer.apply_event(&stored(vec![1, 2]), &backend(1));
    producer.apply_event(&stored(vec![2, 3]), &backend(2));
    producer.apply_event(&clear(), &backend(1));
    assert_eq!(producer.tracked_hashes(), 2);
    assert_eq!(producer.num_items(), 2);
    producer.apply_event(&reset(), &backend(2));
    assert_eq!(producer.tracked_hashes(), 0);
    assert_eq!(producer.num_items(), 0);
}

#[test]
fn a_reset_is_published() {
    let b = BackendId::new("r1", "i1");
    let mut producer = CkfProducer::with_seed(1);
    producer.apply_event(&stored(vec![1]), &b);
    let mut copy = producer.snapshot().buckets;
    producer.apply_event(&reset_to(1), &b);
    let delta = producer.delta().unwrap();
    assert_eq!(delta.sequence, 2);
    assert_eq!(delta.prev_sequence, 1);
    assert_eq!(delta.buckets, vec![(probe(1).1, 0)]);
    for (index, value) in &delta.buckets {
        copy[*index] = *value;
    }
    assert_eq!(copy, producer.snapshot().buckets);
    assert!(producer.delta().is_none());
}

#[test]
fn a_reset_keeps_what_was_to_be_published() {
    let b = backend(1);
    let mut producer = CkfProducer::new();
    producer.apply_event(&stored(vec![1, 2]), &b);
    let mut copy = producer.snapshot().buckets;
    producer.apply_event(&removed(vec![1]), &b);
    producer.apply_event(&stored(vec![3]), &b);
    producer.apply_event(&reset(), &b);
    producer.apply_event(&stored(vec![4]), &b);
    for (index, value) in &producer.delta().unwrap().buckets {
        copy[*index] = *value;
    }
    assert_eq!(copy, producer.snapshot().buckets);
    assert!(producer.num_items() <= producer.tracked_hashes() as u64);
}

#[test]
fn a_reset_to_an_earlier_generation_is_passed_over() {
    let (b, other) = (backend(1), backend(2));
    let mut producer = CkfProducer::new();
    producer.apply_event(&reset_to(5), &b);
    producer.apply_event(&stored(vec![1, 2]), &b);
    producer.apply_event(&reset_to(4), &b);
    assert_eq!(producer.tracked_hashes(), 2);
    assert_eq!(producer.num_items(), 2);
    producer.apply_event(&reset_to(5), &b);
    assert_eq!(producer.tracked_hashes(), 0);

    let mut index = KvIndex::new();
    index.kv_apply_event(&reset_to(5), &b);
    index.kv_apply_event(&stored(vec![1, 2]), &b);
    index.kv_apply_event(&stored(vec![1]), &other);
    index.kv_apply_event(&reset_to(4), &b);
    assert_eq!(index.kv_find_local_overlap(&[1, 2], &b), 2);
    assert_eq!(index.radix().find_matches(&[1, 2], &b), 2);
    assert!(index.radix().ignores(&b, &reset_to(4)));
    assert!(!index.radix().ignores(&other, &reset_to(4)));
    index.kv_apply_event(&reset_to(6), &b);
    assert_eq!(index.kv_find_local_overlap(&[1, 2], &b), 0);
    assert_eq!(index.radix().find_matches(&[1, 2], &b), 0);
    assert_eq!(index.kv_find_local_overlap(&[1], &other), 1);
}

#[test]
fn lanes_of_regions_come_and_go() {
    let mut producer = CkfProducer::with_seed(1);
    producer.apply_event(&stored(vec![10, 11]), &backend(1));
    let snapshot = producer.snapshot();

    let mut consumer = CkfConsumer::new();
    let region = RegionId::new("far");
    assert_eq!(consumer.lane_of(&region), None);
    assert_eq!(consumer.estimate_overlap(&[10], &region), 0);
    consumer.assign_lane(3, region.clone());
    consumer.install_snapshot(3, &snapshot);
    assert_eq!(consumer.lane_of(&region), Some(3));
    assert!(consumer.is_lane_active(3));
    assert_eq!(consumer.estimate_overlap(&[10, 11], &region), 2);

    producer.apply_event(&stored(vec![12]), &backend(1));
    let delta = producer.delta().unwrap();
    consumer.apply_delta(3, &delta);
    assert_eq!(consumer.estimate_overlap(&[10, 11, 12], &region), 3);

    consumer.retire_lane(3);
    assert!(!consumer.is_lane_active(3));
    assert_eq!(consumer.estimate_overlap(&[10, 11], &region), 0);
    consumer.activate_lane(3);
    consumer.unassign_lane(3);
    assert_eq!(consumer.lane_of(&region), None);
}

#[test]
fn a_delta_is_applied_whatever_its_number() {
    let mut producer = CkfProducer::with_seed(1);
    producer.apply_event(&stored(vec![10]), &backend(1));
    let snapshot = producer.snapshot();
    let mut consumer = CkfConsumer::new();
    let region = RegionId::new("far");
    consumer.assign_lane(0, region.clone());
    consumer.install_snapshot(0, &snapshot);
    let (_, primary) = probe(10);
    consumer.apply_delta(
        0,
        &CkfDelta {
            sequence: 9,
            prev_sequence: 8,
            // The second bucket lies outside the lane and is passed over
            buckets: vec![(primary, 0), (BUCKETS_PER_LANE, 7)],
        },
    );
    assert_eq!(consumer.estimate_overlap(&[10], &region), 0);
}

#[test]
fn there_are_as_many_lanes_as_there_are() {
    let mut ckf = LocalCkf::new();
    for n in 0..LOCAL_LANE_COUNT as u64 {
        assert!(ckf.assign_lane(&backend(n)).is_some());
    }
    assert_eq!(ckf.assigned_count(), LOCAL_LANE_COUNT);
    assert_eq!(ckf.assign_lane(&backend(99)), None);
    assert_eq!(ckf.lane_of(&backend(99)), None);
    ckf.unassign_lane(&backend(3));
    let lane = ckf.assign_lane(&backend(99)).unwrap();
    assert_eq!(ckf.backend_of_lane(lane), Some(backend(99)));
    assert_eq!(ckf.backend_of_lane(1000), None);
}

#[test]
fn an_event_gives_its_backend_a_lane_in_a_test() {
    let mut index = KvIndex::new();
    index.kv_apply_event(&stored(vec![1]), &backend(1));
    assert!(index.local_ckf().lane_of(&backend(1)).is_some());
    assert_eq!(index.radix().find_matches(&[1], &backend(1)), 1);
    index.kv_apply_event(&clear(), &backend(1));
    assert_eq!(index.kv_find_local_overlap(&[1], &backend(1)), 0);
}

// ---- The tree ----

#[test]
fn holdings_of_a_tree_are_kept_apart() {
    let mut tree = RadixTree::new();
    let (a, b) = (backend(1), backend(2));
    tree.apply_event(&a, &stored(vec![1, 2, 3, 4]));
    tree.apply_event(&b, &stored(vec![1, 2, 9]));
    assert_eq!(tree.find_matches(&[1, 2, 3, 4], &a), 4);
    assert_eq!(tree.find_matches(&[1, 2, 3, 4], &b), 2);
    // The overlap stops before the first block that was removed
    tree.apply_event(&a, &removed(vec![2]));
    assert_eq!(tree.find_matches(&[1, 2, 3, 4], &a), 1);
    assert_eq!(tree.find_matches(&[1, 2, 9], &b), 3);
    let mut all = tree.find_all_matches(&[1, 2, 9]);
    all.sort();
    assert_eq!(all, vec![(a.clone(), 1), (b.clone(), 3)]);

    tree.apply_event(&a, &clear());
    assert_eq!(tree.find_matches(&[1], &a), 0);
    // Nodes that lead to no held block are gone: 1, 2 and 9 are left
    let stats = tree.stats();
    assert_eq!(stats.total_nodes, 3);
    assert_eq!(stats.total_blocks, 3);
    assert_eq!(stats.depth, 3);
    assert_eq!(stats.backends, 1);
    tree.remove_backend(&b);
    assert_eq!(tree.stats().total_nodes, 0);
}

#[test]
fn the_index_counts_paths_holdings_and_levels() {
    let (a, b) = (backend(1), backend(2));
    let mut tree = RadixTree::new();
    let counts = |tree: &RadixTree| {
        let stats = tree.stats();
        (stats.total_nodes, stats.total_blocks, stats.depth, stats.backends)
    };
    assert_eq!(counts(&tree), (0, 0, 0, 0));
    tree.apply_event(&a, &stored(vec![1, 2, 3]));
    assert_eq!(counts(&tree), (3, 3, 3, 1));
    // What is there already is not added again
    tree.apply_event(&a, &stored(vec![1, 2]));
    assert_eq!(counts(&tree), (3, 3, 3, 1));
    tree.apply_event(&b, &stored(vec![1, 4]));
    assert_eq!(counts(&tree), (4, 5, 3, 2));
    tree.apply_event(&a, &removed(vec![3]));
    assert_eq!(counts(&tree), (3, 4, 2, 2));
    tree.remove_backend(&a);
    assert_eq!(counts(&tree), (2, 2, 2, 1));
}

#[test]
fn overlaps_of_all_backends_are_those_of_each() {
    let mut tree = RadixTree::new();
    for n in 1..=4 {
        tree.apply_event(&backend(n), &stored((1..=n).collect()));
    }
    let hashes = [1, 2, 3, 9];
    let all = tree.find_all_matches(&hashes);
    for n in 1..=5 {
        let listed = all
            .iter()
            .find(|(found, _)| *found == backend(n))
            .map_or(0, |(_, overlap)| *overlap);
        assert_eq!(listed, tree.find_matches(&hashes, &backend(n)));
    }
}

// ---- Load, sessions, models and topology ----

#[test]
fn a_ring_keeps_the_last_items_in_a_test() {
    let mut ring: RingBuffer<u32> = RingBuffer::new(2);
    assert!(ring.is_empty());
    ring.push(1);
    assert_eq!(ring.snapshot(), vec![1]);
    ring.push(2);
    ring.push(3);
    assert_eq!(ring.len(), 2);
    assert_eq!(ring.snapshot(), vec![2, 3]);
}

#[test]
fn the_age_of_metrics() {
    let mut stats = LoadStats::new();
    let id = backend(1);
    assert_eq!(stats.freshness(&id, 100), None);
    stats.update(
        &id,
        BackendMetrics {
            timestamp: 90,
            ..BackendMetrics::default()
        },
    );
    assert_eq!(stats.freshness(&id, 100), Some(10));
    assert_eq!(stats.freshness(&id, 80), Some(0));
    stats.remove(&id);
    assert!(stats.get(&id).is_none());
    assert!(stats.history(&id).is_empty());
    let negative = BackendMetrics {
        timestamp: -5,
        ..BackendMetrics::default()
    };
    assert_eq!(metrics_timestamp(&negative), 0);
}

#[test]
fn fresh_sessions_outlive_eviction() {
    let mut history = RoutingHistory::new();
    history.set(&SessionId::new("old"), backend(1), 0, 100);
    history.set(&SessionId::new("new"), backend(2), 0, 200);
    assert_eq!(history.evict_expired(50, 200), 1);
    assert!(history.get(&SessionId::new("old")).is_none());
    assert_eq!(history.get(&SessionId::new("new")).unwrap().last_used_unix, 200);
    assert_eq!(history.len(), 1);
    history.remove(&SessionId::new("new"));
    assert!(history.is_empty());
}

fn instance(name: &str, architecture: &str) -> ModelInstance {
    ModelInstance {
        model_name: name.to_string(),
        model_architecture: architecture.to_string(),
        quantization: Quantization::Fp16,
        max_context_len: 4096,
        supports_tool_calling: false,
        supports_streaming: true,
    }
}

#[test]
fn models_match_by_name_or_architecture() {
    let mut registry = ModelRegistry::new();
    registry.register(&backend(1), vec![instance("llama-7b", "llama")]);
    registry.register(&backend(2), vec![instance("other", "")]);
    assert_eq!(registry.model_match_score(&backend(1), "llama-7b"), ModelMatch::Exact);
    let by_architecture = registry.model_match_score(&backend(1), "llama");
    assert_eq!(by_architecture, ModelMatch::Architecture);
    assert_eq!(f64::from_bits(by_architecture.score().0), 0.7);
    assert_eq!(registry.model_match_score(&backend(2), ""), ModelMatch::Unrelated);
    assert_eq!(registry.model_match_score(&backend(9), "llama"), ModelMatch::Unrelated);
    assert_eq!(registry.model_find_backends("other"), vec![backend(2)]);
    registry.unregister(&backend(1));
    assert_eq!(registry.len(), 1);
    assert!(registry.get_instances(&backend(1)).is_empty());
}

fn latency(p50: f64) -> LatencyEstimate {
    LatencyEstimate {
        rtt_p50_ms: bits(p50),
        rtt_p99_ms: bits(20.0),
        bandwidth_mbps: bits(1000.0),
        last_updated_unix: 1,
    }
}

#[test]
fn a_removed_region_has_no_latencies_in_a_test() {
    let mut graph = TopologyGraph::new();
    let (a, b, c) = (RegionId::new("a"), RegionId::new("b"), RegionId::new("c"));
    graph.add_region(RegionInfo {
        id: a.clone(),
        tier: hier_kv_gateway::ids::RegionTier::Cloud,
        geo: None,
        network_zone: String::new(),
        endpoints: vec![],
    });
    graph.update_latency(&a, &b, latency(5.0));
    graph.update_latency(&c, &b, latency(7.0));
    assert_eq!(graph.all_regions(), vec![a.clone()]);
    graph.remove_region(&a);
    assert_eq!(graph.rtt_ms(&a, &b), RttSource::Unknown);
    assert_eq!(graph.rtt_ms(&b, &a), RttSource::Unknown);
    assert_eq!(graph.rtt_ms(&b, &c), RttSource::Recorded(bits(7.0)));
    assert!(graph.get_region(&a).is_none());
}

#[test]
fn distances_are_used_where_nothing_is_recorded() {
    let matrix = LatencyMatrix::new();
    let (a, b) = (RegionId::new("a"), RegionId::new("b"));
    let here = GeoCoord {
        lat: bits(0.0),
        lon: bits(0.0),
    };
    let there = GeoCoord {
        lat: bits(0.0),
        lon: bits(1.0),
    };
    assert_eq!(
        matrix.rtt_ms(&a, &b, Some(here), Some(there)),
        RttSource::Distance(here, there)
    );
    assert_eq!(matrix.rtt_ms(&a, &b, Some(here), None), RttSource::Unknown);
}

fn backend_info(id: &BackendId, domain: u64) -> BackendInfo {
    BackendInfo {
        id: id.clone(),
        backend_type: BackendType::VllmEngine,
        endpoint: Endpoint {
            url: "http://h:1".to_string(),
            protocol: Protocol::Http,
        },
        models: vec![instance("m", "arch")],
        region: id.region.clone(),
        indexer_domain: IndexerDomainId::new(domain),
        capabilities: BackendCapabilities {
            supports_kv_events: true,
            supports_batching: true,
            max_batch_size: 32,
            gpu_count: 1,
            gpu_memory_gb: 24,
        },
        kv_config: KvConfig {
            block_size: 16,
            cache_namespace: "default".to_string(),
            max_kv_blocks: 1024,
        },
        status: BackendStatus::Healthy,
    }
}

#[test]
fn backends_are_registered_and_unregistered() {
    let mut store = MetadataStore::new();
    let id = backend(1);
    let other = backend(2);
    store.register_backend(backend_info(&id, 7));
    store.register_backend(backend_info(&other, 7));
    store.load_update(&id, BackendMetrics::default());
    assert_eq!(store.backends_len(), 2);
    assert_eq!(
        store.backends_by_domain(&IndexerDomainId::new(7)),
        vec![id.clone(), other.clone()]
    );
    assert_eq!(store.backends_all().len(), 2);
    assert_eq!(store.model_get_instances(&id).len(), 1);

    store.unregister_backend(&id);
    assert!(store.backend_get(&id).is_none());
    assert_eq!(
        store.backends_by_domain(&IndexerDomainId::new(7)),
        vec![other.clone()]
    );
    assert!(store.backends_by_region(&id.region).is_empty());
    assert!(store.load_get_metrics(&id).is_none());
    assert!(store.model_get_instances(&id).is_empty());
    assert_eq!(store.model_find_backends("m"), vec![other]);
}

#[test]
fn sessions_and_latencies_of_a_store() {
    let mut store = MetadataStore::new();
    let session = SessionId::new("s");
    store.session_set(&session, backend(1), 3, 10);
    assert_eq!(store.session_get(&session).unwrap().kv_overlap_at_route, 3);
    assert_eq!(store.session_evict_expired(5, 100), 1);
    assert!(store.session_get(&session).is_none());
    store.topo_update_latency(&RegionId::new("a"), &RegionId::new("b"), latency(2.0));
    assert_eq!(
        store.topo_rtt_ms(&RegionId::new("b"), &RegionId::new("a")),
        RttSource::Recorded(bits(2.0))
    );
    assert!(store.topo_get_region(&RegionId::new("a")).is_none());
    assert_eq!(store.load_freshness(&backend(1), 5), None);
    assert_eq!(
        store.kv_find_global_overlap(&[1, 2], &RegionId::new("far")),
        0
    );
}

// ---- Estimation ----

#[test]
fn estimates_grow_as_they_should() {
    let spec = ModelSpec::standard(32, 8, 128, KvDtype::Bf16);
    let one = estimate_kv(&spec, &EstimateInput::new(100, 0).with_block_size(16));
    let plain = estimate_kv(&spec, &EstimateInput::new(100, 0));
    // Room for every token, and for less than one block more
    assert!(one.bytes >= plain.bytes);
    assert!(one.bytes < plain.bytes + 16 * one.per_token_bytes);
    // The blocks hold the bytes
    assert_eq!(one.blocks * 16 * one.per_token_bytes, one.bytes);
    let three = estimate_kv(
        &spec,
        &EstimateInput::new(100, 0).with_block_size(16).with_batch(3),
    );
    assert_eq!(three.bytes, 3 * one.bytes);
    assert_eq!(three.blocks, 3 * one.blocks);
}

// ---- Prices, tiers and tenants ----

#[test]
fn a_later_price_counts() {
    let entry = |model: &str, price: f64| PriceEntry {
        model: model.to_string(),
        input_per_1m: bits(price),
        output_per_1m: bits(price),
    };
    let model = StaticCostModel::from_entries(&[entry("m", 1.0), entry("m", 2.0)]);
    assert_eq!(model.len(), 1);
    assert_eq!(model.price_for("m").unwrap().input_per_1m, bits(2.0));
    assert!(model.price_for("n").is_none());
    assert!(StaticCostModel::default().is_empty());
    let config = CostConfig {
        prices: vec![entry("m", 3.0)],
        ..CostConfig::default()
    };
    assert_eq!(config.build_model().len(), 1);
    assert!(CostConfig::default().build_model().is_empty());
    assert_eq!(ModelPrice::free().input_per_1m, bits(0.0));
}

#[test]
fn tiers_are_found_by_name() {
    let entry = |model: &str, tier| TierEntry {
        model: model.to_string(),
        tier,
    };
    let config = ModelTierConfig {
        tiers: vec![entry("small-m", ModelTier::Small), entry("big-m", ModelTier::Large)],
        ..ModelTierConfig::default()
    };
    assert_eq!(config.tier_for("big-m"), Some(ModelTier::Large));
    assert_eq!(config.tier_for("small-m"), Some(ModelTier::Small));
    assert_eq!(config.tier_for("none"), None);
}

#[test]
fn windows_are_reset_only_when_they_are_over() {
    let mut state = TenantState::new("t".into(), TenantPriority::Normal, 1_000);
    state.input_tokens_this_minute = 5;
    state.output_tokens_this_minute = 6;
    state.requests_this_second = 7;
    state.maybe_reset_tpm_window(60_999);
    state.maybe_reset_rps_window(1_999);
    assert_eq!(state.input_tokens_this_minute, 5);
    assert_eq!(state.requests_this_second, 7);
    state.maybe_reset_tpm_window(61_000);
    state.maybe_reset_rps_window(2_000);
    assert_eq!(state.input_tokens_this_minute, 0);
    assert_eq!(state.output_tokens_this_minute, 0);
    assert_eq!(state.requests_this_second, 0);
    assert_eq!(state.tpm_window_start_ms, 61_000);
    let premium = TenantQuota::premium("p".into(), bits(0.3));
    assert_eq!(premium.priority, TenantPriority::Premium);
    assert_eq!(premium.reserved_capacity_fraction, bits(0.3));
}

// ---- The cluster ----

fn member(name: &str, region: &str, addr: &str, last_pong_unix: u64) -> ClusterMember {
    ClusterMember {
        instance_id: InstanceId::new(name),
        region: RegionId::new(region),
        addr: addr.to_string(),
        last_pong_unix,
        status: MemberStatus::Alive,
        meta_digest: MetaDigest::default(),
    }
}

#[test]
fn a_silent_member_dies_in_a_test() {
    let mut list = MemberList::new();
    list.upsert(member("own", "r", "a:1", 0));
    list.upsert(member("quiet", "r", "b:1", NOW_MS - 20_000));
    list.upsert(member("loud", "r", "c:1", NOW_MS));
    let own = InstanceId::new("own");
    let mut suspicions: Table<u64> = Table::new();
    list.probe(&mut suspicions, &own, NOW_MS, 5_000, 5_000);
    let status = |list: &MemberList, name: &str| list.get(&InstanceId::new(name)).unwrap().status;
    assert_eq!(status(&list, "quiet"), MemberStatus::Suspect);
    assert_eq!(status(&list, "loud"), MemberStatus::Alive);
    assert_eq!(status(&list, "own"), MemberStatus::Alive);
    assert_eq!(suspicions.len(), 1);
    // It has been suspected for no longer than the timeout
    list.probe(&mut suspicions, &own, NOW_MS + 5_000, 20_000, 5_000);
    assert_eq!(status(&list, "quiet"), MemberStatus::Suspect);
    list.probe(&mut suspicions, &own, NOW_MS + 5_001, 20_000, 5_000);
    assert_eq!(status(&list, "quiet"), MemberStatus::Dead);
    assert_eq!(suspicions.len(), 0);
    // It is alive again when it is heard of
    list.update_pong(&InstanceId::new("quiet"), MetaDigest::default(), NOW_MS + 5_500);
    list.probe(&mut suspicions, &own, NOW_MS + 6_000, 20_000, 5_000);
    assert_eq!(status(&list, "quiet"), MemberStatus::Alive);
}

#[test]
fn an_order_names_every_position_once() {
    let order = random_order(1000);
    let mut sorted = order.clone();
    sorted.sort();
    assert_eq!(sorted, (0..1000).collect::<Vec<usize>>());
    // A thousand positions are practically never left in place
    assert_ne!(order, sorted);
}

#[test]
fn members_are_inside_a_region_or_outside() {
    let mut list = MemberList::new();
    list.upsert(member("a", "r1", "a:1", 0));
    list.upsert(member("b", "r2", "b:1", 0));
    list.upsert(member("c", "r2", "c:1", 0));
    let view = RegionMemberView::new(&list);
    let r2 = RegionId::new("r2");
    assert_eq!(
        view.local_alive(&r2).len() + view.foreign_alive(&r2).len(),
        view.alive_count()
    );
}

fn engine(name: &str) -> GossipEngine {
    GossipEngine::new(
        InstanceId::new(name),
        RegionId::new(&format!("region-of-{name}")),
        format!("{name}:1"),
        MemberList::new(),
        ClusterConfig {
            bind_addr: "0.0.0.0:7946".to_string(),
            seed_peers: vec![],
            gossip_interval_ms: 1000,
            probe_timeout_ms: 5000,
            suspect_timeout_secs: 5,
            gossip_fanout: default_gossip_fanout(),
            probe_interval_ms: default_probe_interval_ms(),
        },
    )
}

fn digest(kv_version: u64) -> MetaDigest {
    MetaDigest {
        kv_version,
        ..MetaDigest::default()
    }
}

#[test]
fn two_members_come_to_know_each_other() {
    let mut a = engine("a");
    let mut b = engine("b");
    assert!(a.start());
    assert!(!a.start());
    a.started(digest(1), NOW_MS);
    // a introduces itself to b
    let actions = a.join_cluster(&["b:1".to_string()]);
    assert_eq!(actions.len(), 1);
    let meet = match &actions[0] {
        GossipAction::Send { addr, message } => {
            assert_eq!(addr, "b:1");
            message.clone()
        }
        other => panic!("expected a message, got {:?}", other),
    };
    let replies = b.receive(meet, digest(2), NOW_MS);
    assert_eq!(
        b.members().get(&InstanceId::new("a")).unwrap().addr,
        "a:1"
    );
    // b's answer tells a of b
    for reply in replies {
        if let GossipAction::Send { message, .. } = reply {
            a.receive(message, digest(1), NOW_MS);
        }
    }
    let known = a.members().get(&InstanceId::new("b")).unwrap();
    assert_eq!(known.status, MemberStatus::Alive);
    assert_eq!(known.region.as_str(), "region-of-b");
    assert_eq!(known.meta_digest, digest(2));

    // Heartbeats go to others, never to itself, and keep addresses
    b.started(digest(2), NOW_MS);
    let targets = b.gossip_targets();
    assert_eq!(targets.len(), 1);
    let round = b.gossip_round(&targets, digest(3), NOW_MS + 1);
    assert_eq!(round.len(), 1);
    if let GossipAction::Send { addr, message } = &round[0] {
        assert_eq!(addr, "a:1");
        assert!(message_sender_is_self(message, &InstanceId::new("b")));
        let answer = a.receive(message.clone(), digest(1), NOW_MS + 2);
        assert!(!answer.is_empty());
        assert_eq!(a.members().get(&InstanceId::new("b")).unwrap().meta_digest, digest(3));
        // A member passes over what it said itself
        let members_before = b.members().len();
        assert!(b.receive(message.clone(), digest(9), NOW_MS + 3).is_empty());
        assert_eq!(b.members().len(), members_before);
    } else {
        panic!("expected a heartbeat");
    }
    b.probe(NOW_MS + 100_000);
    assert_eq!(
        b.members().get(&InstanceId::new("a")).unwrap().status,
        MemberStatus::Suspect
    );
    b.probe(NOW_MS + 100_001);
    assert_eq!(
        b.members().get(&InstanceId::new("a")).unwrap().status,
        MemberStatus::Suspect
    );
    b.probe(NOW_MS + 200_000);
    assert_eq!(
        b.members().get(&InstanceId::new("a")).unwrap().status,
        MemberStatus::Dead
    );
    assert!(a.is_running());
    assert!(a.stop());
    assert!(!a.stop());
    assert_eq!(a.gossip_interval_ms(), 1000);
    assert_eq!(a.probe_interval_ms(), default_probe_interval_ms());
}

#[test]
fn payloads_are_unpacked_or_passed_over() {
    let payload = LoadPayload::encode_full(b"hello");
    assert_eq!(payload.v, 1);
    assert_eq!(payload.data, "aGVsbG8=");
    assert_eq!(payload.decode(), Some(b"hello".to_vec()));
    let later = LoadPayload {
        v: 2,
        data: payload.data.clone(),
    };
    assert_eq!(later.decode(), None);
    let broken = LoadPayload {
        v: 1,
        data: "%%%".to_string(),
    };
    assert_eq!(broken.decode(), None);
    assert_eq!(LoadPayload::of_version(1, Some(vec![1])), Some(vec![1]));
    assert_eq!(LoadPayload::of_version(3, Some(vec![1])), None);
}

#[test]
fn published_changes_bring_a_copy_up_to_date_in_a_test() {
    let pool = PoolId {
        domain: IndexerDomainId::new(1),
        region: RegionId::new("r"),
    };
    let mut relay = KvRelay::with_params(RegionId::new("r"), 100, 5);
    assert!(relay.publish_barrier(&pool).is_none());
    relay.apply_event(&pool, &stored(vec![1, 2]), &backend(1));
    let mut copy = match relay.publish_barrier(&pool).unwrap() {
        ClusterMessage::CkfBarrierSnapshot {
            buckets,
            num_buckets,
            ..
        } => {
            assert_eq!(buckets.len(), num_buckets);
            buckets
        }
        other => panic!("expected a snapshot, got {:?}", other),
    };
    relay.apply_event(&pool, &stored(vec![3]), &backend(1));
    for message in relay.flush() {
        if let ClusterMessage::CkfDelta { dirty_buckets, .. } = message {
            for (index, value) in dirty_buckets {
                copy[index] = value;
            }
        }
    }
    match relay.publish_barrier(&pool).unwrap() {
        ClusterMessage::CkfBarrierSnapshot { buckets, .. } => assert_eq!(copy, buckets),
        other => panic!("expected a snapshot, got {:?}", other),
    }
    assert!(relay.tick().is_empty());
    assert_eq!(relay.self_region().as_str(), "r");
}

// ---- Shared state ----

#[test]
fn values_expire_and_leave_others_alone() {
    let mut store = LocalSharedState::default();
    store.session_set(&SessionId::new("a"), &backend(1), 10, 100);
    store.session_set(&SessionId::new("b"), &backend(2), 50, 100);
    assert_eq!(store.session_get(&SessionId::new("a"), 109), Some(backend(1)));
    assert_eq!(store.session_get(&SessionId::new("a"), 110), None);
    assert_eq!(store.session_get(&SessionId::new("b"), 110), Some(backend(2)));
    assert_eq!(store.backend_name(), "local");
}

#[test]
fn expired_locks_can_be_taken() {
    let mut store = LocalSharedState::new();
    assert!(store.try_lock("k", "a", 10, 100));
    assert!(!store.try_lock("k", "b", 10, 109));
    assert!(store.try_lock("k", "b", 10, 110));
    store.unlock("k", "a");
    assert!(!store.try_lock("k", "a", 10, 111));
}

#[test]
fn keys_of_shared_values() {
    assert_eq!(instance_key(&InstanceId::new("i")), "hier_kv_gateway:instance:i");
    assert_eq!(session_key(&SessionId::new("s")), "hier_kv_gateway:session:s");
    assert_eq!(prefix_key(42), "hier_kv_gateway:prefix:42");
    assert_eq!(prefix_key(0), "hier_kv_gateway:prefix:0");
    assert_eq!(lock_key("l"), "hier_kv_gateway:lock:l");
    assert_eq!(metrics_key(&BackendId::new("r", "i")), "hier_kv_gateway:metrics:r/i");
    assert_eq!(instance_pattern(), "hier_kv_gateway:instance:*");
    assert_eq!(metrics_pattern(), "hier_kv_gateway:metrics:*");
    assert_eq!(stored_ttl_secs(0), 1);
    assert_eq!(stored_ttl_secs(7), 7);
}

// ---- Connectors ----

#[test]
fn waiting_times_grow_to_the_maximum_in_a_test() {
    let policy = RetryPolicy::new(3, 100);
    let mut before = 0;
    for attempt in 0..80 {
        let delay = policy.backoff(attempt);
        assert!(before <= delay && delay <= 100);
        before = delay;
    }
    assert_eq!(before, 100);
}

#[test]
fn an_open_circuit_cools_down_in_a_test() {
    let mut registry = CircuitBreakerRegistry::new(&ResilienceConfig {
        retry_backoff_ms: 50,
        retry_max_backoff_ms: 1_000,
        circuit_breaker_failure_threshold: 2,
        circuit_breaker_cooldown_secs: 10,
        half_open_success_threshold: 2,
    });
    let id = backend(1);
    registry.on_failure(&id, NOW_MS);
    registry.on_failure(&id, NOW_MS);
    assert!(!registry.allow(&id, NOW_MS + 9_999));
    assert_eq!(registry.state(&id, NOW_MS + 10_000), CircuitState::HalfOpen);
    assert!(registry.allow(&id, NOW_MS + 10_000));
    registry.on_success(&id);
    assert_eq!(registry.state(&id, NOW_MS + 10_000), CircuitState::HalfOpen);
    registry.on_failure(&id, NOW_MS + 11_000);
    assert_eq!(registry.state(&id, NOW_MS + 11_000), CircuitState::Open);
    assert!(registry.allow(&id, NOW_MS + 21_000));
    registry.on_success(&id);
    registry.on_success(&id);
    assert_eq!(registry.state(&id, NOW_MS + 21_000), CircuitState::Closed);
}

#[test]
fn pieces_of_a_stream_read_as_a_whole() {
    let text = "event: x\ndata: one\n\ndata:two\r\ndata: [DONE]\n";
    let mut whole = SseBuffer::new();
    whole.push_text(text);
    let mut expected = Vec::new();
    while let Some(data) = whole.take_data() {
        expected.push(data);
    }
    assert!(whole.is_empty());
    for cut in 0..text.len() {
        let mut buffer = SseBuffer::new();
        let mut found = Vec::new();
        for piece in [&text[..cut], &text[cut..]] {
            buffer.push_bytes(piece.as_bytes());
            while let Some(data) = buffer.take_data() {
                found.push(data);
            }
        }
        assert_eq!(found, expected);
        assert!(buffer.is_empty());
    }
    assert_eq!(expected[0], "one");
    assert!(marks_end(expected.last().unwrap()));
    assert!(!marks_end("one"));
}

// ---- Errors ----

#[test]
fn texts_of_errors() {
    let detail = || "x".to_string();
    let cases = [
        (HierKvGatewayError::BackendUnavailable, "No available backend instance"),
        (HierKvGatewayError::RoutingFailed(detail()), "Routing failed: x"),
        (HierKvGatewayError::ConnectorError(detail()), "Connector error: x"),
        (HierKvGatewayError::MetricsError(detail()), "Metrics error: x"),
        (HierKvGatewayError::ConfigError(detail()), "Configuration error: x"),
        (HierKvGatewayError::ClusterError(detail()), "Cluster error: x"),
        (HierKvGatewayError::NotFound(detail()), "Not found: x"),
        (HierKvGatewayError::RateLimited, "Rate limited"),
        (HierKvGatewayError::Internal(detail()), "Internal error: x"),
    ];
    for (error, text) in cases {
        assert_eq!(error.to_text(), text);
    }
}
