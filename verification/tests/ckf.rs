//! Cuckoo filters of cached blocks, and copies of them.

use hier_kv_gateway::ckf_consumer::CkfConsumer;
use hier_kv_gateway::ckf_producer::CkfProducer;
use hier_kv_gateway::cuckoo_filter::{
    probe, try_insert, CkfSnapshot, PackedBucket, BUCKETS_PER_LANE,
};
use hier_kv_gateway::ids::{BackendId, RegionId, WorkerWithRank};
use hier_kv_gateway::kv_event::KvCacheEvent;

fn backend(n: u8) -> BackendId {
    BackendId::new(&format!("r{n}"), &format!("i{n}"))
}

fn stored(hashes: Vec<u64>) -> KvCacheEvent {
    KvCacheEvent::Stored {
        worker: WorkerWithRank::from_worker_id(1),
        block_hashes: hashes,
        parent_hash: None,
        num_block_tokens: Vec::new(),
    }
}

fn removed(hashes: Vec<u64>) -> KvCacheEvent {
    KvCacheEvent::Removed {
        worker: WorkerWithRank::from_worker_id(1),
        block_hashes: hashes,
    }
}

#[test]
fn install_snapshot_then_estimate_overlap() {
    let mut producer = CkfProducer::with_seed(99);
    let backend = backend(1);
    producer.apply_event(&stored(vec![1, 2, 3, 4, 5]), &backend);
    let snapshot = producer.snapshot();

    let mut consumer = CkfConsumer::new();
    let region = RegionId::new("r7");
    consumer.assign_lane(0, region.clone());
    consumer.install_snapshot(0, &snapshot);

    let overlap = consumer.estimate_overlap(&[1, 2, 3, 4, 5, 6], &region);
    assert!(overlap >= 5, "expected overlap of 5, got {}", overlap);
}

#[test]
fn prefix_break_stops_at_first_miss() {
    // Build a snapshot containing only some of the hashes
    let mut buckets = vec![0u64; BUCKETS_PER_LANE];
    let (fp1, b1) = probe(100);
    let mut packed: PackedBucket = 0;
    try_insert(&mut packed, fp1);
    buckets[b1] = packed;
    let snapshot = CkfSnapshot { sequence: 1, buckets };

    let mut consumer = CkfConsumer::new();
    let region = RegionId::new("r1");
    consumer.assign_lane(0, region.clone());
    consumer.install_snapshot(0, &snapshot);

    // hash 100 hits, hash 101 misses → should break at 101
    let overlap = consumer.estimate_overlap(&[100, 101], &region);
    assert_eq!(overlap, 1);
}

#[test]
fn stored_inserts_fingerprint_once_for_multiple_owners() {
    let mut producer = CkfProducer::with_seed(42);
    let b1 = backend(1);
    let b2 = backend(2);

    // Simulate first owner
    producer.apply_event(&stored(vec![100]), &b1);
    assert_eq!(producer.num_items(), 1);
    assert_eq!(producer.tracked_hashes(), 1);

    // Simulate second owner: should not insert another fingerprint
    producer.apply_event(&stored(vec![100]), &b2);
    assert_eq!(producer.num_items(), 1);
    assert_eq!(producer.tracked_hashes(), 1);
}

#[test]
fn removed_deletes_only_when_last_owner() {
    let mut producer = CkfProducer::with_seed(7);
    let b1 = backend(1);
    let b2 = backend(2);
    producer.apply_event(&stored(vec![100]), &b1);
    producer.apply_event(&stored(vec![100]), &b2);
    // First owner removes: should not delete the fingerprint
    producer.apply_event(&removed(vec![100]), &b1);
    assert_eq!(producer.num_items(), 1);
    // Last owner removes: should delete the fingerprint
    producer.apply_event(&removed(vec![100]), &b2);
    assert_eq!(producer.num_items(), 0);
}

#[test]
fn snapshot_clears_dirty_and_delta_returns_none() {
    let mut producer = CkfProducer::with_seed(11);
    let b = backend(1);
    producer.apply_event(&stored(vec![1, 2, 3]), &b);
    let snap = producer.snapshot();
    assert_eq!(snap.sequence, 1);
    assert!(producer.delta().is_none());
}
