//! Messages between the members of a cluster.

use base64::Engine as _;
use vstd::prelude::*;

use crate::ids::{InstanceId, PoolId, RegionId, SessionId};
use crate::topology::LatencyEstimate;

verus! {

/// The text that standard base64, with padding, gives for some bytes.
pub uninterp spec fn base64_text(bytes: Seq<u8>) -> Seq<char>;

/// The bytes that a text stands for in standard base64, with padding; none if it is malformed.
pub uninterp spec fn base64_bytes(text: Seq<char>) -> Option<Seq<u8>>;

/// `encode` of `base64`'s `STANDARD` engine. The text is a function of the bytes, and decoding it
/// gives the bytes back.
#[verifier::external_body]
fn encode_base64(bytes: &[u8]) -> (text: String)
    requires
        bytes@.len() / 3 * 4 + 4 <= isize::MAX,
    ensures
        text@ == base64_text(bytes@),
        base64_bytes(text@) == Some(bytes@),
{
    base64::engine::general_purpose::STANDARD.encode(bytes)
}

/// `decode` of `base64`'s `STANDARD` engine. Whether the text is well-formed, and the bytes that it
/// stands for, are a function of the text.
#[verifier::external_body]
fn decode_base64(text: &str) -> (bytes: Option<Vec<u8>>)
    ensures
        match bytes {
            Some(decoded) => base64_bytes(text@) == Some(decoded@),
            None => base64_bytes(text@) is None,
        },
{
    base64::engine::general_purpose::STANDARD.decode(text).ok()
}

/// Encoding version of a complete list of backends with their metrics.
pub const VERSION_FULL: u8 = 1;

/// Metrics of backends, packed for the wire: bytes as base64 text, with the version of their
/// encoding.
#[derive(Debug, PartialEq, Eq)]
pub struct LoadPayload {
    /// Version of the encoding.
    pub v: u8,
    /// The bytes as base64 text.
    pub data: String,
}

impl Clone for LoadPayload {
    fn clone(&self) -> (copy: Self)
        ensures
            copy == *self,
    {
        LoadPayload { v: self.v, data: self.data.clone() }
    }
}

/// The bytes in a payload; none if its version is not known or its text is malformed.
pub open spec fn payload_bytes(v: u8, data: Seq<char>) -> Option<Seq<u8>> {
    if v == VERSION_FULL {
        base64_bytes(data)
    } else {
        None
    }
}

impl LoadPayload {
    /// Packs the bytes of a complete list.
    pub fn encode_full(bytes: &[u8]) -> (payload: Self)
        requires
            bytes@.len() / 3 * 4 + 4 <= isize::MAX,
        ensures
            payload.v == VERSION_FULL,
            payload.data@ == base64_text(bytes@),
            payload_bytes(payload.v, payload.data@) == Some(bytes@),
    {
        LoadPayload { v: VERSION_FULL, data: encode_base64(bytes) }
    }

    /// Unpacks the bytes; none if the version is not known or the text is malformed, so that the
    /// payload can be passed over.
    pub fn decode(&self) -> (bytes: Option<Vec<u8>>)
        ensures
            match bytes {
                Some(decoded) => payload_bytes(self.v, self.data@) == Some(decoded@),
                None => payload_bytes(self.v, self.data@) is None,
            },
    {
        let decoded: Option<Vec<u8>> = decode_base64(self.data.as_str());
        LoadPayload::of_version(self.v, decoded)
    }

    /// What is unpacked of a payload of version `v` whose text decodes to `decoded`.
    pub fn of_version(v: u8, decoded: Option<Vec<u8>>) -> (bytes: Option<Vec<u8>>)
        ensures
            bytes == (if v == VERSION_FULL {
                decoded
            } else {
                None
            }),
    {
        if v == VERSION_FULL {
            decoded
        } else {
            None
        }
    }
}

/// Versions of the parts of a member's metadata.
#[derive(Clone, Copy, Debug, PartialEq, Eq, Structural)]
pub struct MetaDigest {
    /// Version of the index of cached blocks.
    pub kv_version: u64,
    /// Version of the model registry.
    pub model_version: u64,
    /// Version of the load statistics.
    pub load_version: u64,
    /// Version of the topology.
    pub topology_version: u64,
    /// Version of the member list.
    pub members_version: u64,
}

impl Default for MetaDigest {
    fn default() -> (digest: Self)
        ensures
            digest == (MetaDigest {
                kv_version: 0,
                model_version: 0,
                load_version: 0,
                topology_version: 0,
                members_version: 0,
            }),
    {
        MetaDigest {
            kv_version: 0,
            model_version: 0,
            load_version: 0,
            topology_version: 0,
            members_version: 0,
        }
    }
}

/// A piece of metadata.
#[derive(Debug, PartialEq, Eq)]
pub struct MetaEntry {
    /// Name of its key.
    pub key: String,
    /// Its value, as JSON text.
    pub value: String,
    /// Its version.
    pub version: u64,
}

impl Clone for MetaEntry {
    fn clone(&self) -> (copy: Self)
        ensures
            copy == *self,
    {
        MetaEntry { key: self.key.clone(), value: self.value.clone(), version: self.version }
    }
}

/// Keys of metadata.
#[derive(Clone, Copy, Debug, PartialEq, Eq, Hash, Structural)]
pub enum MetaKey {
    /// The index of cached blocks.
    KvState,
    /// The model registry.
    ModelState,
    /// The load statistics.
    LoadState,
    /// The topology.
    TopologyState,
    /// The member list.
    Members,
}

impl MetaKey {
    /// Name of the key.
    pub open spec fn name(self) -> Seq<char> {
        match self {
            MetaKey::KvState => "kv_state"@,
            MetaKey::ModelState => "model_state"@,
            MetaKey::LoadState => "load_state"@,
            MetaKey::TopologyState => "topology_state"@,
            MetaKey::Members => "members"@,
        }
    }

    /// Name of the key.
    pub fn as_str(&self) -> (name: &'static str)
        ensures
            name@ == self.name(),
    {
        match self {
            MetaKey::KvState => "kv_state",
            MetaKey::ModelState => "model_state",
            MetaKey::LoadState => "load_state",
            MetaKey::TopologyState => "topology_state",
            MetaKey::Members => "members",
        }
    }
}

impl From<MetaKey> for String {
    fn from(key: MetaKey) -> (name: String)
        ensures
            name@ == key.name(),
    {
        key.as_str().to_owned()
    }
}

impl vstd::std_specs::convert::FromSpecImpl<MetaKey> for String {
    open spec fn obeys_from_spec() -> bool {
        false
    }

    open spec fn from_spec(key: MetaKey) -> String {
        arbitrary()
    }
}

/// A message between members of a cluster.
#[derive(Clone, Debug)]
pub enum ClusterMessage {
    /// A heartbeat.
    Ping {
        /// Who sends it.
        sender: InstanceId,
        /// Region of the sender.
        region: RegionId,
        /// Versions of the sender's metadata.
        meta_digest: MetaDigest,
        /// When it was sent, in Unix milliseconds.
        timestamp: u64,
    },
    /// The answer to a heartbeat.
    Pong {
        /// Who sends it.
        sender: InstanceId,
        /// Region of the sender.
        region: RegionId,
        /// Versions of the sender's metadata.
        meta_digest: MetaDigest,
        /// When it was sent, in Unix milliseconds.
        timestamp: u64,
    },
    /// A new member introduces itself.
    Meet {
        /// Who sends it.
        sender: InstanceId,
        /// Region of the sender.
        region: RegionId,
        /// Where the sender is reached.
        addr: String,
    },
    /// A request for metadata.
    SyncRequest {
        /// Who sends it.
        sender: InstanceId,
        /// Names of the keys that are asked for.
        keys: Vec<String>,
    },
    /// The answer to a request for metadata.
    SyncResponse {
        /// The metadata.
        entries: Vec<MetaEntry>,
    },
    /// A complete lane of cached blocks.
    CkfBarrierSnapshot {
        /// Pool of the lane.
        pool: PoolId,
        /// Sequence number of the publication.
        sequence: u64,
        /// Buckets of the lane.
        buckets: Vec<u64>,
        /// Number of buckets in a lane.
        num_buckets: usize,
    },
    /// The buckets of a lane that changed.
    CkfDelta {
        /// Pool of the lane.
        pool: PoolId,
        /// Sequence number of the publication.
        sequence: u64,
        /// Sequence number of the publication that it builds on.
        prev_sequence: u64,
        /// Positions of the changed buckets, with their new values.
        dirty_buckets: Vec<(usize, u64)>,
    },
    /// Metrics of a region's backends.
    MetricsBroadcast {
        /// The region.
        region: RegionId,
        /// The metrics.
        payload: LoadPayload,
    },
    /// A new latency between regions.
    TopologyUpdate {
        /// One region.
        from: RegionId,
        /// The other region.
        to: RegionId,
        /// The latency.
        estimate: LatencyEstimate,
    },
    /// Where a session was routed.
    SessionAffinityBroadcast {
        /// The session.
        session: SessionId,
        /// Region of its backend.
        backend_region: RegionId,
        /// Instance of its backend.
        backend_instance: String,
    },
}

/// A payload is read if and only if it is a full one and its data is well formed; a full payload of some
/// bytes is read as those bytes.
pub proof fn only_full_payloads_are_read(v: u8, data: Seq<char>)
    ensures
        v == 1 ==> payload_bytes(v, data) == base64_bytes(data),
        v != 1 ==> payload_bytes(v, data) is None,
{
}

/// The kinds of metadata have names of their own.
pub proof fn kinds_of_metadata_have_their_own_names(a: MetaKey, b: MetaKey)
    ensures
        a.name() == b.name() <==> a == b,
        a.name().len() > 0,
{
    reveal_strlit("kv_state");
    reveal_strlit("model_state");
    reveal_strlit("load_state");
    reveal_strlit("topology_state");
    reveal_strlit("members");
    assert("kv_state"@.len() == 8);
    assert("model_state"@.len() == 11);
    assert("load_state"@.len() == 10);
    assert("topology_state"@.len() == 14);
    assert("members"@.len() == 7);
}

} // verus!
