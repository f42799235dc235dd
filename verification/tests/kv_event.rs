//! Block hashes.

use hier_kv_gateway::kv_event::{compute_block_hashes, BlockHashInput};

#[test]
fn block_count_matches_stride() {
    let tokens: Vec<u32> = (0..11).collect();
    let hashes = compute_block_hashes(&BlockHashInput {
        tokens: &tokens,
        kv_block_size: 4,
        cache_namespace: None,
        lora_name: None,
    });
    // 11 / 4 = 2 complete blocks
    assert_eq!(hashes.len(), 2);
}

#[test]
fn block_count_exact_multiple() {
    let tokens: Vec<u32> = (0..8).collect();
    let hashes = compute_block_hashes(&BlockHashInput {
        tokens: &tokens,
        kv_block_size: 4,
        cache_namespace: None,
        lora_name: None,
    });
    assert_eq!(hashes.len(), 2);
}

#[test]
fn zero_block_size_returns_empty() {
    let tokens: Vec<u32> = (0..4).collect();
    let hashes = compute_block_hashes(&BlockHashInput {
        tokens: &tokens,
        kv_block_size: 0,
        cache_namespace: None,
        lora_name: None,
    });
    assert!(hashes.is_empty());
}

#[test]
fn identical_inputs_produce_identical_hashes() {
    let tokens: Vec<u32> = (0..4).collect();
    let a = compute_block_hashes(&BlockHashInput {
        tokens: &tokens,
        kv_block_size: 4,
        cache_namespace: Some("tenant-a"),
        lora_name: Some("adapter-a"),
    });
    let b = compute_block_hashes(&BlockHashInput {
        tokens: &tokens,
        kv_block_size: 4,
        cache_namespace: Some("tenant-a"),
        lora_name: Some("adapter-a"),
    });
    assert_eq!(a, b);
}

#[test]
fn different_lora_produces_different_hashes() {
    let tokens: Vec<u32> = (0..4).collect();
    let a = compute_block_hashes(&BlockHashInput {
        tokens: &tokens,
        kv_block_size: 4,
        cache_namespace: None,
        lora_name: Some("adapter-a"),
    });
    let b = compute_block_hashes(&BlockHashInput {
        tokens: &tokens,
        kv_block_size: 4,
        cache_namespace: None,
        lora_name: Some("adapter-b"),
    });
    assert_ne!(a, b);
}

#[test]
fn different_namespace_produces_different_hashes() {
    let tokens: Vec<u32> = (0..4).collect();
    let a = compute_block_hashes(&BlockHashInput {
        tokens: &tokens,
        kv_block_size: 4,
        cache_namespace: Some("tenant-a"),
        lora_name: None,
    });
    let b = compute_block_hashes(&BlockHashInput {
        tokens: &tokens,
        kv_block_size: 4,
        cache_namespace: Some("tenant-b"),
        lora_name: None,
    });
    assert_ne!(a, b);
}

#[test]
fn empty_namespace_normalized_to_none() {
    let tokens: Vec<u32> = (0..4).collect();
    let base = compute_block_hashes(&BlockHashInput {
        tokens: &tokens,
        kv_block_size: 4,
        cache_namespace: None,
        lora_name: None,
    });
    let empty_ns = compute_block_hashes(&BlockHashInput {
        tokens: &tokens,
        kv_block_size: 4,
        cache_namespace: Some(""),
        lora_name: None,
    });
    let empty_lora = compute_block_hashes(&BlockHashInput {
        tokens: &tokens,
        kv_block_size: 4,
        cache_namespace: None,
        lora_name: Some(""),
    });
    assert_eq!(base, empty_ns, "an empty cache_namespace should be treated as not provided");
    assert_eq!(base, empty_lora, "an empty lora_name should be treated as not provided");
}

#[test]
fn namespace_and_lora_independent() {
    let tokens: Vec<u32> = (0..4).collect();
    let ns = compute_block_hashes(&BlockHashInput {
        tokens: &tokens,
        kv_block_size: 4,
        cache_namespace: Some("foo"),
        lora_name: None,
    });
    let lora = compute_block_hashes(&BlockHashInput {
        tokens: &tokens,
        kv_block_size: 4,
        cache_namespace: None,
        lora_name: Some("foo"),
    });
    assert_ne!(
        ns, lora,
        "namespace and lora_name with the same value should still produce independent hashes"
    );
}
