//! Framing of messages.

use hier_kv_gateway::error::HierKvGatewayError;
use hier_kv_gateway::ids::{InstanceId, RegionId};
use hier_kv_gateway::member::{ClusterMember, MemberList, MemberStatus};
use hier_kv_gateway::transport::{broadcast_targets, encode_frame, frame_length, MAX_FRAME_SIZE};

#[test]
fn send_and_receive_round_trip() {
    let payload = b"{\"type\":\"ping\",\"timestamp\":42}".to_vec();
    let frame = encode_frame(&payload).unwrap();
    assert_eq!(frame[..4], (payload.len() as u32).to_be_bytes());
    let len = frame_length(&frame[..4]).unwrap();
    assert_eq!(&frame[4..4 + len], payload.as_slice());
    assert_eq!(frame.len(), 4 + len);
}

#[test]
fn invalid_frame_length_is_rejected() {
    assert!(frame_length(&0u32.to_be_bytes()).is_err());
    assert!(frame_length(&(MAX_FRAME_SIZE as u32 + 1).to_be_bytes()).is_err());
    assert_eq!(
        frame_length(&(MAX_FRAME_SIZE as u32).to_be_bytes()).unwrap(),
        MAX_FRAME_SIZE
    );
}

#[test]
fn long_payloads_are_not_framed() {
    assert!(encode_frame(&vec![0; MAX_FRAME_SIZE]).is_ok());
    let error = encode_frame(&vec![0; MAX_FRAME_SIZE + 1]).unwrap_err();
    assert_eq!(
        error.to_text(),
        "Internal error: TcpClusterTransport: frame too large (4194305 > 4194304)"
    );
    let error = frame_length(&[0, 0, 0, 0]).unwrap_err();
    assert!(matches!(error, HierKvGatewayError::Internal(_)));
    assert_eq!(
        error.to_text(),
        "Internal error: TcpClusterTransport: invalid frame length 0 (max 4194304)"
    );
}

#[test]
fn broadcasts_go_to_the_others_that_are_alive() {
    let mut members = MemberList::new();
    for (name, status) in [
        ("self", MemberStatus::Alive),
        ("g1", MemberStatus::Alive),
        ("g2", MemberStatus::Dead),
        ("g3", MemberStatus::Suspect),
    ] {
        members.upsert(ClusterMember {
            instance_id: InstanceId::new(name),
            region: RegionId::new("r1"),
            addr: format!("{name}:1"),
            last_pong_unix: 0,
            status,
            meta_digest: Default::default(),
        });
    }
    let targets = broadcast_targets(&members, Some(&InstanceId::new("self")));
    assert_eq!(targets.len(), 1);
    assert_eq!(targets[0].addr, "g1:1");
    assert_eq!(broadcast_targets(&members, None).len(), 2);
}
