//! Members by region.

use std::collections::HashMap;

use hier_kv_gateway::ids::{InstanceId, RegionId};
use hier_kv_gateway::member::{ClusterMember, MemberList};
use hier_kv_gateway::messages::MetaDigest;
use hier_kv_gateway::region_view::RegionMemberView;

const NOW_MS: u64 = 1_700_000_000_000;

fn member(name: &str, region: &str) -> ClusterMember {
    ClusterMember::new(
        InstanceId::new(name),
        RegionId::new(region),
        format!("127.0.0.1:{}", 7000 + name.len()),
        MetaDigest::default(),
        NOW_MS,
    )
}

fn list_of(members: &[ClusterMember]) -> MemberList {
    let mut list = MemberList::new();
    for m in members {
        list.upsert(m.clone());
    }
    list
}

#[test]
fn alive_in_region_filters_correctly() {
    let list = list_of(&[
        member("g1", "cloud"),
        member("g2", "cloud"),
        member("g3", "edge"),
        member("g4", "edge"),
        member("g5", "device"),
    ]);
    let v = RegionMemberView::new(&list);
    let cloud = v.alive_in_region(&RegionId::new("cloud"));
    assert_eq!(cloud.len(), 2);
    assert!(cloud.iter().all(|m| m.region.as_str() == "cloud"));

    let edge = v.alive_in_region(&RegionId::new("edge"));
    assert_eq!(edge.len(), 2);

    let none = v.alive_in_region(&RegionId::new("nonexistent"));
    assert!(none.is_empty());
}

#[test]
fn foreign_alive_excludes_self_region() {
    let list = list_of(&[
        member("g1", "cloud"),
        member("g2", "cloud"),
        member("g3", "edge"),
        member("g4", "device"),
    ]);
    let v = RegionMemberView::new(&list);
    let foreign = v.foreign_alive(&RegionId::new("cloud"));
    assert_eq!(foreign.len(), 2);
    assert!(foreign.iter().all(|m| m.region.as_str() != "cloud"));
}

#[test]
fn local_alive_returns_self_region_only() {
    let list = list_of(&[
        member("g1", "cloud"),
        member("g2", "edge"),
    ]);
    let v = RegionMemberView::new(&list);
    let local = v.local_alive(&RegionId::new("cloud"));
    assert_eq!(local.len(), 1);
    assert_eq!(local[0].instance_id.as_str(), "g1");
}

#[test]
fn foreign_alive_per_region_caps_per_region() {
    let list = list_of(&[
        member("g1", "cloud"),
        member("g2", "edge"),
        member("g3", "edge"),
        member("g4", "edge"),
        member("g5", "device"),
        member("g6", "device"),
    ]);
    let v = RegionMemberView::new(&list);
    let per_region: HashMap<RegionId, Vec<ClusterMember>> = v
        .foreign_alive_per_region(&RegionId::new("cloud"), 2)
        .into_iter()
        .collect();
    // cloud is self, should not appear
    assert!(!per_region.contains_key(&RegionId::new("cloud")));
    // edge has 3 members, should be capped at 2
    assert_eq!(per_region.get(&RegionId::new("edge")).unwrap().len(), 2);
    // device has 2 members, within cap
    assert_eq!(per_region.get(&RegionId::new("device")).unwrap().len(), 2);
}

#[test]
fn known_regions_are_sorted_and_deduped() {
    let list = list_of(&[
        member("g1", "device"),
        member("g2", "cloud"),
        member("g3", "edge"),
        member("g4", "cloud"),
    ]);
    let v = RegionMemberView::new(&list);
    let regions = v.known_regions();
    assert_eq!(regions.len(), 3);
    // Sorted alphabetically
    assert_eq!(regions[0].as_str(), "cloud");
    assert_eq!(regions[1].as_str(), "device");
    assert_eq!(regions[2].as_str(), "edge");
}

#[test]
fn foreign_regions_excludes_self() {
    let list = list_of(&[
        member("g1", "cloud"),
        member("g2", "edge"),
        member("g3", "device"),
    ]);
    let v = RegionMemberView::new(&list);
    let foreign = v.foreign_regions(&RegionId::new("cloud"));
    assert_eq!(foreign.len(), 2);
    assert!(!foreign.contains(&RegionId::new("cloud")));
}

#[test]
fn region_counts_aggregates_correctly() {
    let list = list_of(&[
        member("g1", "cloud"),
        member("g2", "cloud"),
        member("g3", "edge"),
    ]);
    let v = RegionMemberView::new(&list);
    let counts: HashMap<RegionId, usize> = v.region_counts().into_iter().collect();
    assert_eq!(counts.get(&RegionId::new("cloud")), Some(&2));
    assert_eq!(counts.get(&RegionId::new("edge")), Some(&1));
    assert_eq!(counts.len(), 2);
}

#[test]
fn dead_members_are_excluded_from_views() {
    let mut list = MemberList::new();
    list.upsert(member("g1", "cloud"));
    list.upsert(member("g2", "cloud"));
    list.mark_dead(&InstanceId::new("g2"));

    let v = RegionMemberView::new(&list);
    let cloud = v.alive_in_region(&RegionId::new("cloud"));
    assert_eq!(cloud.len(), 1);
    assert_eq!(cloud[0].instance_id.as_str(), "g1");
}

#[test]
fn empty_member_list_yields_empty_views() {
    let list = list_of(&[]);
    let v = RegionMemberView::new(&list);
    assert!(v.alive_in_region(&RegionId::new("cloud")).is_empty());
    assert!(v.foreign_alive(&RegionId::new("cloud")).is_empty());
    assert!(v.known_regions().is_empty());
    assert_eq!(v.alive_count(), 0);
}
