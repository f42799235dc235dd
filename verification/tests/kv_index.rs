//! The index of cached blocks.

use std::collections::HashMap;

use hier_kv_gateway::ids::{BackendId, WorkerWithRank};
use hier_kv_gateway::kv_event::KvCacheEvent;
use hier_kv_gateway::kv_index::KvIndex;

fn backend(n: u8) -> BackendId {
    BackendId::new(&format!("r{n}"), &format!("i{n}"))
}

fn stored(hashes: Vec<u64>) -> KvCacheEvent {
    KvCacheEvent::Stored {
        worker: WorkerWithRank::from_worker_id(1),
        block_hashes: hashes,
        parent_hash: None,
        num_block_tokens: Vec::new(),
    }
}

fn removed(hashes: Vec<u64>) -> KvCacheEvent {
    KvCacheEvent::Removed {
        worker: WorkerWithRank::from_worker_id(1),
        block_hashes: hashes,
    }
}

#[test]
fn local_overlap_via_ckf() {
    let mut idx = KvIndex::new();
    let b = backend(1);
    idx.kv_apply_event(&stored(vec![1, 2, 3]), &b);
    let overlap = idx.kv_find_local_overlap(&[1, 2, 3, 4], &b);
    assert_eq!(overlap, 3);
}

#[test]
fn batched_query_via_ckf() {
    let mut idx = KvIndex::new();
    let b1 = backend(1);
    let b2 = backend(2);
    idx.kv_apply_event(&stored(vec![1, 2, 3]), &b1);
    idx.kv_apply_event(&stored(vec![1, 2, 3, 4, 5]), &b2);

    let results: HashMap<BackendId, u32> = idx
        .kv_find_all_local_overlap(&[1, 2, 3, 4, 5, 6])
        .into_iter()
        .collect();
    assert_eq!(results.len(), 2);
    assert_eq!(results.get(&b1), Some(&3));
    assert_eq!(results.get(&b2), Some(&5));
}

#[test]
fn removed_decreases_overlap() {
    let mut idx = KvIndex::new();
    let b = backend(1);
    idx.kv_apply_event(&stored(vec![1, 2, 3]), &b);
    idx.kv_apply_event(&removed(vec![3]), &b);
    let overlap = idx.kv_find_local_overlap(&[1, 2, 3], &b);
    assert_eq!(overlap, 2);
}

#[test]
fn remove_backend_clears_lane() {
    let mut idx = KvIndex::new();
    let b = backend(1);
    idx.kv_apply_event(&stored(vec![1, 2, 3]), &b);
    idx.kv_remove_backend(&b);
    let results = idx.kv_find_all_local_overlap(&[1, 2, 3]);
    assert!(results.is_empty());
}

#[test]
fn confidence_is_close_to_one() {
    let idx = KvIndex::new();
    let c = f64::from_bits(idx.kv_confidence().0);
    assert!(c > 0.99, "confidence should be > 0.99, got {}", c);
    assert_eq!(c, 1.0 - (2.0 * 4.0 * std::f64::consts::LN_2) / 2f64.powf(16.0));
}
