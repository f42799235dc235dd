//! State that instances share.

use std::collections::HashMap;

use hier_kv_gateway::ids::{BackendId, InstanceId, RegionId, SessionId};
use hier_kv_gateway::metrics::{BackendMetrics, LatencyStats, RealBits};
use hier_kv_gateway::shared_state::{InstanceEntry, LocalSharedState, PrefixDispatchEntry};

const NOW: u64 = 1_700_000_000;

fn bits(value: f64) -> RealBits {
    RealBits(value.to_bits())
}

fn sample_instance(id: &str) -> InstanceEntry {
    InstanceEntry {
        instance_id: InstanceId::new(id),
        region: RegionId::new("us-east-1"),
        addr: format!("127.0.0.1:7000"),
        last_heartbeat_unix: 0,
    }
}

fn sample_backend() -> BackendId {
    BackendId::new("us-east-1", "worker-0")
}

fn sample_metrics() -> BackendMetrics {
    BackendMetrics {
        active_requests: 4,
        queue_depth: 2,
        active_decode_blocks: 8,
        active_prefill_tokens: 128,
        kv_used_blocks: 40,
        kv_total_blocks: 100,
        gpu_utilization: bits(0.5),
        gpu_memory_used_mb: 20_000,
        gpu_memory_total_mb: 40_000,
        latency: LatencyStats {
            p50_ms: bits(10.0),
            p99_ms: bits(50.0),
            p999_ms: bits(80.0),
            sample_count: 1_000,
        },
        timestamp: 1_700_000_000,
    }
}

#[test]
fn test_instance_register_and_list() {
    let mut store = LocalSharedState::new();
    let entry = sample_instance("inst-1");
    store.register_instance(&entry, 60, NOW);
    let list = store.list_instances(NOW);
    assert_eq!(list.len(), 1);
    assert_eq!(list[0].instance_id, entry.instance_id);
    // Heartbeat timestamp should have been set on register.
    assert!(list[0].last_heartbeat_unix > 0);
}

#[test]
fn test_instance_ttl_expiry() {
    let mut store = LocalSharedState::new();
    let entry = sample_instance("inst-ttl");
    store.register_instance(&entry, 0, NOW);
    // A TTL of less than a second counts as zero, so the entry has expired at once. One of a
    // second expires a second later.
    let entry2 = sample_instance("inst-ttl-2");
    store.register_instance(&entry2, 1, NOW);
    let list = store.list_instances(NOW + 1);
    assert!(
        list.iter().all(|e| e.instance_id != entry2.instance_id),
        "instance should have expired"
    );
}

#[test]
fn test_session_set_get() {
    let mut store = LocalSharedState::new();
    let session = SessionId::new("sess-1");
    let backend = sample_backend();
    store.session_set(&session, &backend, 60, NOW);
    let got = store.session_get(&session, NOW);
    assert_eq!(got, Some(backend.clone()));
    // Unknown session returns None.
    let got = store.session_get(&SessionId::new("nope"), NOW);
    assert_eq!(got, None);
}

#[test]
fn test_prefix_history() {
    let mut store = LocalSharedState::new();
    let entry = PrefixDispatchEntry {
        backend: sample_backend(),
        dispatch_count: 7,
        last_dispatched_unix: 1234,
    };
    store.prefix_history_set(42, &entry, 60, NOW);
    let got = store.prefix_history_get(42, NOW);
    assert_eq!(got.as_ref().unwrap().dispatch_count, 7);
    assert_eq!(got.as_ref().unwrap().backend, sample_backend());
    // Unknown prefix returns None.
    let got = store.prefix_history_get(999, NOW);
    assert_eq!(got, None);
}

#[test]
fn test_lock_acquire_and_release() {
    let mut store = LocalSharedState::new();
    // Acquire.
    let acquired = store.try_lock("leader", "node-a", 60, NOW);
    assert!(acquired);
    // Second acquire by a different holder fails.
    let acquired2 = store.try_lock("leader", "node-b", 60, NOW);
    assert!(!acquired2);
    // Release by the wrong holder does nothing.
    store.unlock("leader", "node-b");
    let acquired3 = store.try_lock("leader", "node-c", 60, NOW);
    assert!(!acquired3);
    // Release by the correct holder.
    store.unlock("leader", "node-a");
    // Now another holder can acquire.
    let acquired4 = store.try_lock("leader", "node-c", 60, NOW);
    assert!(acquired4);
}

#[test]
fn test_metrics_set_get() {
    let mut store = LocalSharedState::new();
    let backend = sample_backend();
    let metrics = sample_metrics();
    store.metrics_set(&backend, &metrics, 60, NOW);
    let got = store.metrics_get(&backend, NOW);
    assert_eq!(got.as_ref().unwrap(), &metrics);
    // metrics_get_all should include the entry.
    let all: HashMap<BackendId, BackendMetrics> =
        store.metrics_get_all(NOW).into_iter().collect();
    assert_eq!(all.len(), 1);
    assert_eq!(all.get(&backend), Some(&metrics));
}

#[test]
fn test_deregister_instance() {
    let mut store = LocalSharedState::new();
    let entry = sample_instance("inst-del");
    store.register_instance(&entry, 60, NOW);
    assert_eq!(store.list_instances(NOW).len(), 1);
    store.deregister_instance(&entry.instance_id);
    assert_eq!(store.list_instances(NOW).len(), 0);
}

#[test]
fn test_heartbeat_refreshes_ttl() {
    let mut store = LocalSharedState::new();
    let entry = sample_instance("inst-hb");
    store.register_instance(&entry, 1, NOW);
    // A heartbeat within the TTL refreshes it.
    store.heartbeat(&entry.instance_id, 5, NOW);
    // Past the original TTL the entry is still alive.
    let list = store.list_instances(NOW + 2);
    assert!(list.iter().any(|e| e.instance_id == entry.instance_id));
}
