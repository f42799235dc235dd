//! Packed buckets of fingerprints.

use hier_kv_gateway::cuckoo_filter::{alt_index, bucket_contains, try_delete, try_insert};

#[test]
fn alt_index_is_involution() {
    let fp = 0x1234u16;
    for idx in [0usize, 1, 100, 65535] {
        let alt = alt_index(idx, fp);
        assert_eq!(alt_index(alt, fp), idx, "alt_index must be an involution");
        assert_ne!(alt, idx, "alt_index must differ from idx");
    }
}

#[test]
fn try_insert_and_contains() {
    let mut bucket = 0u64;
    assert!(try_insert(&mut bucket, 0x1111));
    assert!(try_insert(&mut bucket, 0x2222));
    assert!(bucket_contains(bucket, 0x1111));
    assert!(bucket_contains(bucket, 0x2222));
    assert!(!bucket_contains(bucket, 0x3333));
}

#[test]
fn try_insert_fails_when_full() {
    let mut bucket = 0u64;
    assert!(try_insert(&mut bucket, 1));
    assert!(try_insert(&mut bucket, 2));
    assert!(try_insert(&mut bucket, 3));
    assert!(try_insert(&mut bucket, 4));
    assert!(!try_insert(&mut bucket, 5));
}

#[test]
fn try_delete_removes_fingerprint() {
    let mut bucket = 0u64;
    assert!(try_insert(&mut bucket, 0xabcd));
    assert!(try_delete(&mut bucket, 0xabcd));
    assert!(!bucket_contains(bucket, 0xabcd));
    assert!(!try_delete(&mut bucket, 0xabcd));
}
