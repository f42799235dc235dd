//! Publication of changes to the filters.

use hier_kv_gateway::ckf_relay::KvRelay;
use hier_kv_gateway::ids::{BackendId, IndexerDomainId, PoolId, RegionId, WorkerWithRank};
use hier_kv_gateway::kv_event::KvCacheEvent;
use hier_kv_gateway::messages::ClusterMessage;

fn pool(domain: u64, region: &str) -> PoolId {
    PoolId {
        domain: IndexerDomainId::new(domain),
        region: RegionId::new(region),
    }
}

fn stored_event(hashes: Vec<u64>) -> KvCacheEvent {
    KvCacheEvent::Stored {
        worker: WorkerWithRank::from_worker_id(1),
        block_hashes: hashes,
        parent_hash: None,
        num_block_tokens: Vec::new(),
    }
}

fn backend(name: &str) -> BackendId {
    BackendId::new("r1", name)
}

#[test]
fn apply_event_creates_producer_and_tracks_pending() {
    let mut relay = KvRelay::new(RegionId::new("r1"));

    let pool = pool(1, "r1");
    relay.apply_event(&pool, &stored_event(vec![1, 2, 3]), &backend("b1"));
    assert_eq!(relay.pending_count(), 1);
    assert_eq!(relay.pool_count(), 1);
    assert_eq!(relay.producer_snapshot(&pool).unwrap(), 3);
}

#[test]
fn flush_clears_pending_and_broadcasts_delta() {
    let mut relay = KvRelay::new(RegionId::new("r1"));

    let pool = pool(1, "r1");
    relay.apply_event(&pool, &stored_event(vec![10, 20]), &backend("b1"));
    relay.apply_event(&pool, &stored_event(vec![30]), &backend("b2"));
    assert_eq!(relay.pending_count(), 2);

    let msgs = relay.flush();
    assert_eq!(relay.pending_count(), 0);

    assert!(!msgs.is_empty(), "There should be at least one CkfDelta broadcast");
    // The first one should be CkfDelta
    match &msgs[0] {
        ClusterMessage::CkfDelta {
            pool: p,
            dirty_buckets,
            ..
        } => {
            assert_eq!(p.domain.0, 1);
            assert!(!dirty_buckets.is_empty());
        }
        other => panic!("Expected CkfDelta, got {:?}", other),
    }
}

#[test]
fn threshold_triggers_auto_flush() {
    let mut relay = KvRelay::with_params(RegionId::new("r1"), 3, 1000);

    let pool = pool(1, "r1");
    // The 1st and 2nd events do not trigger a flush
    relay.apply_event(&pool, &stored_event(vec![1]), &backend("b1"));
    relay.apply_event(&pool, &stored_event(vec![2]), &backend("b1"));
    assert_eq!(relay.pending_count(), 2);

    // The 3rd event triggers an auto flush, pending_count goes to zero
    let msgs = relay.apply_event(&pool, &stored_event(vec![3]), &backend("b1"));
    assert_eq!(relay.pending_count(), 0);
    assert!(!msgs.is_empty());
}

#[test]
fn publish_barrier_broadcasts_snapshot() {
    let mut relay = KvRelay::new(RegionId::new("r1"));

    let pool = pool(7, "r1");
    relay.apply_event(&pool, &stored_event(vec![1, 2]), &backend("b1"));

    let msgs = relay.publish_barrier(&pool);
    assert!(
        msgs.iter().any(|m| matches!(
            m,
            ClusterMessage::CkfBarrierSnapshot { pool: p, .. } if p.domain.0 == 7
        )),
        "Should broadcast CkfBarrierSnapshot"
    );
}

#[test]
fn flush_without_changes_does_not_broadcast() {
    let mut relay = KvRelay::new(RegionId::new("r1"));

    // With no producer, flush should not broadcast any messages
    assert!(relay.flush().is_empty());

    let pool = pool(1, "r1");
    relay.apply_event(&pool, &stored_event(vec![1]), &backend("b1"));
    // The first flush should broadcast a delta
    let n_after_first = relay.flush().len();
    assert!(n_after_first >= 1, "The first flush should broadcast a delta");

    // Flush again; dirty is already cleared, so nothing should be broadcast
    let n_after_second = n_after_first + relay.flush().len();
    assert_eq!(
        n_after_second,
        n_after_first,
        "Nothing should be broadcast when there is no dirty"
    );
}

#[test]
fn start_and_stop_background_loop() {
    let mut relay = KvRelay::with_params(RegionId::new("r1"), 100, 5);
    assert_eq!(relay.tick_interval_ms(), 5);

    let pool = pool(1, "r1");
    relay.apply_event(&pool, &stored_event(vec![1, 2]), &backend("b1"));
    // Not flushed by hand, but by the timer
    let msgs = relay.tick();
    assert_eq!(relay.pending_count(), 0, "The timer should have flushed");
    assert!(!msgs.is_empty());
}

#[test]
fn a_reset_is_broadcast() {
    let mut relay = KvRelay::new(RegionId::new("r1"));
    let pool = pool(1, "r1");
    relay.apply_event(&pool, &stored_event(vec![10]), &backend("b1"));
    let stored = relay.flush();
    let reset = KvCacheEvent::Reset {
        worker: WorkerWithRank::from_worker_id(1),
        generation: 1,
    };
    relay.apply_event(&pool, &reset, &backend("b1"));
    let emptied = relay.flush();
    match (&stored[0], &emptied[0]) {
        (
            ClusterMessage::CkfDelta { dirty_buckets: before, .. },
            ClusterMessage::CkfDelta { dirty_buckets: after, .. },
        ) => {
            assert_eq!(before.len(), 1);
            assert_eq!(after, &vec![(before[0].0, 0)]);
        }
        other => panic!("Expected two CkfDelta, got {:?}", other),
    }
    assert_eq!(relay.producer_snapshot(&pool).unwrap(), 0);
    assert!(relay.flush().is_empty());
}
