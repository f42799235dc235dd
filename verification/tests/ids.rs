//! Identifiers.

use hier_kv_gateway::ids::{BackendId, RegionId, WorkerWithRank};

#[test]
fn region_id_eq_ignores_arc_pointer() {
    // Two identifiers with the same content are equal
    let a = RegionId::new("us-east-1");
    let b = RegionId::new("us-east-1");
    // A third one, from an owned text
    let c = RegionId::from(String::from("us-east-1"));
    assert_eq!(a, b);
    assert_eq!(a, c);
}

#[test]
fn region_id_hash_consistent_with_eq() {
    let mut set = std::collections::HashSet::new();
    set.insert(RegionId::new("eu-west-1"));
    // Another identifier with the same content is found
    assert!(set.contains(&RegionId::from(String::from("eu-west-1"))));
}

#[test]
fn region_id_ord_lexicographic() {
    let a = RegionId::new("a");
    let b = RegionId::new("b");
    assert!(a < b);
}

#[test]
fn backend_id_ord_compound() {
    // Compare by region first, then by instance
    let a = BackendId::new("r1", "i1");
    let b = BackendId::new("r1", "i2");
    let c = BackendId::new("r2", "i1");
    assert!(a < b);
    assert!(b < c);
}

#[test]
fn worker_with_rank_order() {
    let a = WorkerWithRank::new(1, 0);
    let b = WorkerWithRank::new(1, 1);
    let c = WorkerWithRank::new(2, 0);
    assert!(a < b);
    assert!(b < c);
}

#[test]
fn backend_id_parse_round_trip() {
    let id = BackendId::new("us-east-1", "worker-0");
    let parsed = BackendId::parse(&id.to_text()).unwrap();
    assert_eq!(id, parsed);
    assert_eq!(parsed.region.as_str(), "us-east-1");
    assert_eq!(parsed.instance.as_str(), "worker-0");
    // FromStr agrees with parse
    let via_from_str: BackendId = "us-east-1/worker-0".parse().unwrap();
    assert_eq!(id, via_from_str);
}

#[test]
fn backend_id_parse_rejects_malformed() {
    assert!(BackendId::parse("no-slash").is_none());
    assert!(BackendId::parse("/empty-region").is_none());
    assert!(BackendId::parse("empty-instance/").is_none());
    assert!(BackendId::parse("").is_none());
    assert!("no-slash".parse::<BackendId>().is_err());
    // Splits on the first slash only
    let multi = BackendId::parse("r1/a/b").unwrap();
    assert_eq!(multi.instance.as_str(), "a/b");
}
