//! Filters of local backends.

use std::collections::HashMap;

use hier_kv_gateway::ids::BackendId;
use hier_kv_gateway::local_ckf::LocalCkf;

fn backend(n: u8) -> BackendId {
    BackendId::new(&format!("r{n}"), &format!("i{n}"))
}

#[test]
fn assign_and_query_overlap() {
    let mut ckf = LocalCkf::new();
    let b = backend(1);
    let lane = ckf.assign_lane(&b).expect("lane should be assigned");

    // Insert hashes 1..5
    for h in 1..=5u64 {
        assert!(ckf.insert(h, lane), "insert hash {h} should succeed");
    }

    // Query: overlap should be 5 for hashes 1..5, then break at 6
    let overlap = ckf.estimate_overlap(&[1, 2, 3, 4, 5, 6], lane);
    assert_eq!(overlap, 5);

    // Batch query
    let results = ckf.estimate_all_overlaps(&[1, 2, 3, 4, 5, 6]);
    assert_eq!(results.len(), 1);
    assert_eq!(results[0].0, lane);
    assert_eq!(results[0].1, 5);
}

#[test]
fn delete_reduces_overlap() {
    let mut ckf = LocalCkf::new();
    let b = backend(1);
    let lane = ckf.assign_lane(&b).unwrap();

    for h in 1..=5u64 {
        ckf.insert(h, lane);
    }
    // Delete hash 3
    assert!(ckf.delete(3, lane));

    // Overlap for [1,2,3,4,5] should be 2 (breaks at 3)
    let overlap = ckf.estimate_overlap(&[1, 2, 3, 4, 5], lane);
    assert_eq!(overlap, 2);
}

#[test]
fn multiple_lanes_batch_query() {
    let mut ckf = LocalCkf::new();
    let b1 = backend(1);
    let b2 = backend(2);
    let l1 = ckf.assign_lane(&b1).unwrap();
    let l2 = ckf.assign_lane(&b2).unwrap();

    // b1 has hashes 1,2,3
    for h in 1..=3u64 {
        ckf.insert(h, l1);
    }
    // b2 has hashes 1,2,3,4,5
    for h in 1..=5u64 {
        ckf.insert(h, l2);
    }

    let results = ckf.estimate_all_overlaps(&[1, 2, 3, 4, 5, 6]);
    assert_eq!(results.len(), 2);

    let mut by_lane: HashMap<usize, u32> = results.into_iter().collect();
    assert_eq!(by_lane.remove(&l1), Some(3));
    assert_eq!(by_lane.remove(&l2), Some(5));
}

#[test]
fn unassign_clears_lane() {
    let mut ckf = LocalCkf::new();
    let b = backend(1);
    let lane = ckf.assign_lane(&b).unwrap();
    for h in 1..=5u64 {
        ckf.insert(h, lane);
    }
    ckf.unassign_lane(&b);

    let results = ckf.estimate_all_overlaps(&[1, 2, 3]);
    assert!(results.is_empty(), "no active lanes after unassign");
}

#[test]
fn assign_returns_existing_lane() {
    let mut ckf = LocalCkf::new();
    let b = backend(1);
    let lane1 = ckf.assign_lane(&b).unwrap();
    let lane2 = ckf.assign_lane(&b).unwrap();
    assert_eq!(lane1, lane2, "assigning twice should return the same lane");
}
