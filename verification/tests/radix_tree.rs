//! The tree of cached prefixes.

use hier_kv_gateway::ids::{BackendId, WorkerWithRank};
use hier_kv_gateway::kv_event::KvCacheEvent;
use hier_kv_gateway::radix_tree::RadixTree;

fn backend(n: u8) -> BackendId {
    BackendId::new(&format!("r{n}"), &format!("i{n}"))
}

fn stored(hashes: Vec<u64>) -> KvCacheEvent {
    KvCacheEvent::Stored {
        worker: WorkerWithRank::from_worker_id(1),
        block_hashes: hashes,
        parent_hash: None,
        num_block_tokens: Vec::new(),
    }
}

fn removed(hashes: Vec<u64>) -> KvCacheEvent {
    KvCacheEvent::Removed {
        worker: WorkerWithRank::from_worker_id(1),
        block_hashes: hashes,
    }
}

fn clear() -> KvCacheEvent {
    KvCacheEvent::Clear {
        worker: WorkerWithRank::from_worker_id(1),
    }
}

#[test]
fn stored_and_find_matches() {
    let mut tree = RadixTree::new();
    let backend = backend(1);
    tree.apply_event(&backend, &stored(vec![10, 20, 30]));
    let overlap = tree.find_matches(&[10, 20, 30, 40], &backend);
    assert_eq!(overlap, 3);
}

#[test]
fn removed_decrements_overlap() {
    let mut tree = RadixTree::new();
    let backend = backend(1);
    tree.apply_event(&backend, &stored(vec![1, 2, 3]));
    tree.apply_event(&backend, &removed(vec![3]));
    let overlap = tree.find_matches(&[1, 2, 3], &backend);
    assert_eq!(overlap, 2);
}

#[test]
fn clear_removes_all_ownership() {
    let mut tree = RadixTree::new();
    let backend = backend(1);
    tree.apply_event(&backend, &stored(vec![1, 2, 3]));
    tree.apply_event(&backend, &clear());
    let overlap = tree.find_matches(&[1, 2, 3], &backend);
    assert_eq!(overlap, 0);
}
