//! Messages between members, and what is done about them.

use hier_kv_gateway::config::{
    default_gossip_fanout, default_probe_interval_ms, ClusterConfig,
};
use hier_kv_gateway::gossip::{ensure_member, GossipAction, GossipEngine};
use hier_kv_gateway::ids::{BackendInstanceId, InstanceId, RegionId, SessionId};
use hier_kv_gateway::member::{MemberList, MemberStatus};
use hier_kv_gateway::messages::{ClusterMessage, LoadPayload, MetaDigest, MetaEntry, MetaKey};

const NOW_MS: u64 = 1_700_000_000_000;

fn engine() -> GossipEngine {
    GossipEngine::new(
        InstanceId::new("self"),
        RegionId::new("r-self"),
        "0.0.0.0:1".to_string(),
        MemberList::new(),
        ClusterConfig {
            bind_addr: "0.0.0.0:7946".to_string(),
            seed_peers: vec![],
            gossip_interval_ms: 1000,
            probe_timeout_ms: 5000,
            suspect_timeout_secs: 5,
            gossip_fanout: default_gossip_fanout(),
            probe_interval_ms: default_probe_interval_ms(),
        },
    )
}

fn handle(engine: &mut GossipEngine, message: ClusterMessage) -> Vec<GossipAction> {
    engine.handle_message(message, MetaDigest::default(), NOW_MS)
}

#[test]
fn meta_key_as_str_matches_serde_name() {
    assert_eq!(MetaKey::KvState.as_str(), "kv_state");
    assert_eq!(MetaKey::ModelState.as_str(), "model_state");
    assert_eq!(MetaKey::LoadState.as_str(), "load_state");
    assert_eq!(MetaKey::TopologyState.as_str(), "topology_state");
    assert_eq!(MetaKey::Members.as_str(), "members");
}

#[test]
fn meta_digest_default() {
    let d = MetaDigest::default();
    assert_eq!(d.kv_version, 0);
    assert_eq!(d.model_version, 0);
    assert_eq!(d.load_version, 0);
    assert_eq!(d.topology_version, 0);
    assert_eq!(d.members_version, 0);
}

#[test]
fn ensure_member_inserts_and_updates() {
    let mut members = MemberList::new();
    let id = InstanceId::new("g1");
    let region = RegionId::new("r1");
    let digest = MetaDigest {
        kv_version: 5,
        ..MetaDigest::default()
    };
    ensure_member(
        &mut members,
        &id,
        &region,
        Some("1.1.1.1:1".to_string()),
        digest,
        NOW_MS,
    );
    assert_eq!(members.len(), 1);
    let m = members.get(&id).unwrap();
    assert_eq!(m.meta_digest.kv_version, 5);

    // Update the digest
    let digest2 = MetaDigest {
        kv_version: 9,
        ..MetaDigest::default()
    };
    ensure_member(&mut members, &id, &region, None, digest2, NOW_MS);
    let m = members.get(&id).unwrap();
    assert_eq!(m.meta_digest.kv_version, 9);
    // addr should not be cleared
    assert_eq!(m.addr, "1.1.1.1:1");
}

#[test]
fn handle_pong_updates_member_digest() {
    let mut engine = engine();
    let pong = ClusterMessage::Pong {
        sender: InstanceId::new("g2"),
        region: RegionId::new("r2"),
        meta_digest: MetaDigest {
            kv_version: 7,
            ..MetaDigest::default()
        },
        timestamp: 0,
    };
    handle(&mut engine, pong);
    let m = engine.members().get(&InstanceId::new("g2")).unwrap();
    assert_eq!(m.meta_digest.kv_version, 7);
    assert_eq!(m.status, MemberStatus::Alive);
}

#[test]
fn handle_metrics_broadcast_invokes_handler() {
    let mut engine = engine();
    let msg = ClusterMessage::MetricsBroadcast {
        region: RegionId::new("r1"),
        payload: LoadPayload::encode_full(&[1, 2, 3]),
    };
    let actions = handle(&mut engine, msg);
    assert_eq!(actions.len(), 1);
    match &actions[0] {
        GossipAction::StoreMetrics { region, payload } => {
            assert_eq!(region.as_str(), "r1");
            assert_eq!(payload.decode(), Some(vec![1, 2, 3]));
        }
        other => panic!("expected StoreMetrics, got {:?}", other),
    }
}

#[test]
fn handle_sync_request_returns_entries() {
    let mut engine = engine();
    let keys: Vec<String> = vec![MetaKey::KvState.into(), MetaKey::Members.into()];
    assert_eq!(keys[0], "kv_state");
    assert_eq!(keys[1], "members");

    let req = ClusterMessage::SyncRequest {
        sender: InstanceId::new("g-other"),
        keys: keys.clone(),
    };
    let actions = handle(&mut engine, req);
    assert_eq!(actions.len(), 1);
    match &actions[0] {
        GossipAction::AnswerSync { sender, keys: asked } => {
            assert_eq!(sender.as_str(), "g-other");
            assert_eq!(asked, &keys);
        }
        other => panic!("expected AnswerSync, got {:?}", other),
    }

    // The peer is not in the member list, so the answer is broadcast
    let entries: Vec<MetaEntry> = keys
        .iter()
        .map(|k| MetaEntry {
            key: k.clone(),
            value: "null".to_string(),
            version: 1,
        })
        .collect();
    match engine.sync_reply(&InstanceId::new("g-other"), entries) {
        GossipAction::Broadcast {
            message: ClusterMessage::SyncResponse { entries },
        } => {
            assert_eq!(entries.len(), 2);
            assert_eq!(entries[0].key, "kv_state");
            assert_eq!(entries[1].key, "members");
        }
        other => panic!("expected a broadcast SyncResponse, got {:?}", other),
    }
}

#[test]
fn noop_handler_does_not_panic() {
    let mut engine = engine();
    // All kinds of messages can be handled
    handle(
        &mut engine,
        ClusterMessage::MetricsBroadcast {
            region: RegionId::new("r"),
            payload: LoadPayload::encode_full(&[]),
        },
    );
    handle(&mut engine, ClusterMessage::SyncResponse { entries: vec![] });
    handle(
        &mut engine,
        ClusterMessage::SessionAffinityBroadcast {
            session: SessionId::new("s"),
            backend_region: RegionId::new("r"),
            backend_instance: BackendInstanceId::new("i").as_str().to_string(),
        },
    );
}

#[test]
fn handle_meet_adds_member_and_replies_pong() {
    let mut engine = engine();
    let meet = ClusterMessage::Meet {
        sender: InstanceId::new("g-new"),
        region: RegionId::new("r-new"),
        addr: "10.0.0.2:7946".to_string(),
    };
    let actions = handle(&mut engine, meet);

    // The new member should be added
    assert!(engine.members().get(&InstanceId::new("g-new")).is_some());

    // There should be one send (Pong) and one broadcast (Ping)
    assert!(actions.iter().any(|action| matches!(
        action,
        GossipAction::Send { addr, message: ClusterMessage::Pong { .. } } if addr == "10.0.0.2:7946"
    )));
    assert!(actions.iter().any(|action| matches!(
        action,
        GossipAction::Broadcast { message: ClusterMessage::Ping { .. } }
    )));
}
