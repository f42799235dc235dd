//! Members of a cluster.

use hier_kv_gateway::ids::{InstanceId, RegionId};
use hier_kv_gateway::member::{ClusterMember, MemberList, MemberStatus};
use hier_kv_gateway::messages::MetaDigest;

const NOW_MS: u64 = 1_700_000_000_000;

fn member(name: &str, region: &str) -> ClusterMember {
    ClusterMember::new(
        InstanceId::new(name),
        RegionId::new(region),
        format!("127.0.0.1:{}", 7000 + name.len()),
        MetaDigest::default(),
        NOW_MS,
    )
}

#[test]
fn upsert_and_get() {
    let mut list = MemberList::new();
    let m = member("g1", "r1");
    list.upsert(m.clone());
    assert_eq!(list.len(), 1);
    let got = list.get(&InstanceId::new("g1")).unwrap();
    assert_eq!(got.instance_id.as_str(), "g1");
    assert_eq!(got.status, MemberStatus::Alive);
}

#[test]
fn update_pong_refreshes_status_and_digest() {
    let mut list = MemberList::new();
    let m = member("g1", "r1");
    list.upsert(m.clone());
    list.mark_suspect(&InstanceId::new("g1"));

    let digest = MetaDigest {
        kv_version: 9,
        ..MetaDigest::default()
    };
    list.update_pong(&InstanceId::new("g1"), digest, NOW_MS);

    let got = list.get(&InstanceId::new("g1")).unwrap();
    assert_eq!(got.status, MemberStatus::Alive);
    assert_eq!(got.meta_digest.kv_version, 9);
}

#[test]
fn mark_suspect_and_dead_transitions() {
    let mut list = MemberList::new();
    list.upsert(member("g1", "r1"));
    list.mark_suspect(&InstanceId::new("g1"));
    assert_eq!(
        list.get(&InstanceId::new("g1")).unwrap().status,
        MemberStatus::Suspect
    );
    list.mark_dead(&InstanceId::new("g1"));
    assert_eq!(
        list.get(&InstanceId::new("g1")).unwrap().status,
        MemberStatus::Dead
    );
}

#[test]
fn alive_members_excludes_suspect_and_dead() {
    let mut list = MemberList::new();
    list.upsert(member("g1", "r1"));
    list.upsert(member("g2", "r1"));
    list.upsert(member("g3", "r1"));
    list.mark_suspect(&InstanceId::new("g2"));
    list.mark_dead(&InstanceId::new("g3"));

    let alive = list.alive_members();
    assert_eq!(alive.len(), 1);
    assert_eq!(alive[0].instance_id.as_str(), "g1");
}

#[test]
fn random_members_returns_at_most_n() {
    let mut list = MemberList::new();
    for i in 0..10 {
        list.upsert(member(&format!("g{i}"), "r1"));
    }
    let picked = list.random_members(3);
    assert!(picked.len() <= 3);
    assert!(!picked.is_empty());

    // Returns empty when n is 0
    assert!(list.random_members(0).is_empty());

    // When n exceeds the total alive count, returns only the total alive count
    let picked_all = list.random_members(100);
    assert_eq!(picked_all.len(), 10);
}

#[test]
fn random_members_empty_list_returns_empty() {
    let list = MemberList::new();
    assert!(list.random_members(3).is_empty());
}

#[test]
fn remove_drops_member() {
    let mut list = MemberList::new();
    list.upsert(member("g1", "r1"));
    let removed = list.remove(&InstanceId::new("g1"));
    assert!(removed.is_some());
    assert!(list.is_empty());
    assert!(list.get(&InstanceId::new("g1")).is_none());
}
