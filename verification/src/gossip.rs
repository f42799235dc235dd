//! Gossip: what a member of a cluster does about the messages that it gets, and when.
//!
//! The engine decides; sending and receiving, and storing what a message brings, is left to whoever
//! runs it. Each message that comes in gives a list of actions.

use vstd::prelude::*;

use crate::ckf_producer;
use crate::ckf_producer::ProducerState;
use crate::ckf_relay;
use crate::config::ClusterConfig;
use crate::ids::{InstanceId, PoolId, RegionId, SessionId};
use crate::member;
use crate::member::{
    choose_members, ClusterMember, MemberList, MemberStatus, MemberView, MembersView, Sieve,
    SuspicionsView,
};
use crate::messages::{ClusterMessage, LoadPayload, MetaDigest, MetaEntry};
use crate::table::{KeyView, Table};
use crate::topology::LatencyEstimate;

verus! {

/// What is to be done about a message.
#[derive(Debug)]
pub enum GossipAction {
    /// Send a message to an address.
    Send {
        /// The address.
        addr: String,
        /// The message.
        message: ClusterMessage,
    },
    /// Send a message to all members that are alive.
    Broadcast {
        /// The message.
        message: ClusterMessage,
    },
    /// Look up metadata, and send it with [`GossipEngine::sync_reply`].
    AnswerSync {
        /// Who asks.
        sender: InstanceId,
        /// Names of the keys.
        keys: Vec<String>,
    },
    /// Store metadata.
    ApplySync {
        /// The metadata.
        entries: Vec<MetaEntry>,
    },
    /// Store metrics of a region's backends.
    StoreMetrics {
        /// The region.
        region: RegionId,
        /// The metrics.
        payload: LoadPayload,
    },
    /// Install a complete lane.
    InstallSnapshot {
        /// Pool of the lane.
        pool: PoolId,
        /// Sequence number of the publication.
        sequence: u64,
        /// Buckets of the lane.
        buckets: Vec<u64>,
        /// Number of buckets in a lane.
        num_buckets: usize,
    },
    /// Apply changes to a lane.
    ApplyDelta {
        /// Pool of the lane.
        pool: PoolId,
        /// Sequence number of the publication.
        sequence: u64,
        /// Sequence number of the publication that it builds on.
        prev_sequence: u64,
        /// Positions of the changed buckets, with their new values.
        dirty_buckets: Vec<(usize, u64)>,
    },
    /// Store a latency between regions.
    StoreLatency {
        /// One region.
        from: RegionId,
        /// The other region.
        to: RegionId,
        /// The latency.
        estimate: LatencyEstimate,
    },
    /// Store where a session was routed.
    StoreAffinity {
        /// The session.
        session: SessionId,
        /// Region of its backend.
        backend_region: RegionId,
        /// Instance of its backend.
        backend_instance: String,
    },
}

/// The state of an engine.
pub struct GossipView {
    /// The member that it runs for.
    pub self_id: InstanceId,
    /// Region of that member.
    pub self_region: RegionId,
    /// Address of that member.
    pub self_addr: String,
    /// Known members.
    pub members: MembersView,
    /// Since when members are suspected.
    pub suspicions: SuspicionsView,
    /// Configuration.
    pub config: ClusterConfig,
    /// Whether it runs.
    pub running: bool,
}

/// The members after one of them was heard of at `now_ms`. Its address stays the same if no other
/// is given; that of a new member is empty then.
pub open spec fn with_member(
    members: MembersView,
    instance_id: Seq<char>,
    region: Seq<char>,
    addr: Option<Seq<char>>,
    digest: MetaDigest,
    now_ms: u64,
) -> MembersView {
    let key = member::member_key(instance_id);
    members.insert(
        key,
        MemberView {
            instance_id,
            region,
            addr: match addr {
                Some(given) => given,
                None => if members.contains_key(key) {
                    members[key].addr
                } else {
                    Seq::empty()
                },
            },
            last_pong_unix: now_ms,
            status: MemberStatus::Alive,
            meta_digest: digest,
        },
    )
}

/// Whether an action is to send `message` to `addr`.
pub open spec fn sends(action: GossipAction, addr: Seq<char>, message: ClusterMessage) -> bool {
    match action {
        GossipAction::Send { addr: to, message: sent } => to@ == addr && sent == message,
        _ => false,
    }
}

impl GossipView {
    /// The heartbeat that the member sends.
    pub open spec fn ping(self, digest: MetaDigest, now_ms: u64) -> ClusterMessage {
        ClusterMessage::Ping {
            sender: self.self_id,
            region: self.self_region,
            meta_digest: digest,
            timestamp: now_ms,
        }
    }

    /// The answer to heartbeats that the member sends.
    pub open spec fn pong(self, digest: MetaDigest, now_ms: u64) -> ClusterMessage {
        ClusterMessage::Pong {
            sender: self.self_id,
            region: self.self_region,
            meta_digest: digest,
            timestamp: now_ms,
        }
    }

    /// The members that are known after a message. A member that introduces itself gets the
    /// receiver's digest until it sends its own.
    pub open spec fn members_after(
        self,
        message: ClusterMessage,
        digest: MetaDigest,
        now_ms: u64,
    ) -> MembersView {
        match message {
            ClusterMessage::Ping { sender, region, meta_digest, .. } => with_member(
                self.members,
                sender@,
                region@,
                None,
                meta_digest,
                now_ms,
            ),
            ClusterMessage::Pong { sender, region, meta_digest, .. } => with_member(
                self.members,
                sender@,
                region@,
                None,
                meta_digest,
                now_ms,
            ),
            ClusterMessage::Meet { sender, region, addr } => with_member(
                self.members,
                sender@,
                region@,
                Some(addr@),
                digest,
                now_ms,
            ),
            _ => self.members,
        }
    }

    /// Whether `actions` are what is to be done about a message.
    pub open spec fn reacts(
        self,
        message: ClusterMessage,
        digest: MetaDigest,
        now_ms: u64,
        actions: Seq<GossipAction>,
    ) -> bool {
        match message {
            ClusterMessage::Ping { sender, .. } => {
                &&& actions.len() == 1
                &&& sends(
                    actions[0],
                    self.members_after(message, digest, now_ms)[member::member_key(sender@)].addr,
                    self.pong(digest, now_ms),
                )
            },
            ClusterMessage::Pong { .. } => actions.len() == 0,
            ClusterMessage::Meet { addr, .. } => {
                &&& actions.len() == 2
                &&& sends(actions[0], addr@, self.pong(digest, now_ms))
                &&& actions[1] == (GossipAction::Broadcast { message: self.ping(digest, now_ms) })
            },
            ClusterMessage::SyncRequest { sender, keys } => actions == seq![
                GossipAction::AnswerSync { sender, keys },
            ],
            ClusterMessage::SyncResponse { entries } => actions == seq![
                GossipAction::ApplySync { entries },
            ],
            ClusterMessage::MetricsBroadcast { region, payload } => actions == seq![
                GossipAction::StoreMetrics { region, payload },
            ],
            ClusterMessage::CkfBarrierSnapshot { pool, sequence, buckets, num_buckets } => actions
                == seq![GossipAction::InstallSnapshot { pool, sequence, buckets, num_buckets }],
            ClusterMessage::CkfDelta { pool, sequence, prev_sequence, dirty_buckets } => actions
                == seq![GossipAction::ApplyDelta { pool, sequence, prev_sequence, dirty_buckets }],
            ClusterMessage::TopologyUpdate { from, to, estimate } => actions == seq![
                GossipAction::StoreLatency { from, to, estimate },
            ],
            ClusterMessage::SessionAffinityBroadcast {
                session,
                backend_region,
                backend_instance,
            } => actions == seq![
                GossipAction::StoreAffinity { session, backend_region, backend_instance },
            ],
        }
    }

    /// The members that a heartbeat may go to: those that are alive, other than the member itself.
    pub open spec fn peers(self) -> MembersView {
        member::those(
            member::those(self.members, member::alive()),
            member::other_than(self.self_id@),
        )
    }

    /// How long a member is suspected before it is dead, in milliseconds.
    pub open spec fn suspect_timeout_ms(self) -> u64 {
        if self.config.suspect_timeout_secs * 1000 > u64::MAX {
            u64::MAX
        } else {
            (self.config.suspect_timeout_secs * 1000) as u64
        }
    }
}

/// Who sent a message, if it tells.
pub open spec fn sender_of(message: ClusterMessage) -> Option<Seq<char>> {
    match message {
        ClusterMessage::Ping { sender, .. } => Some(sender@),
        ClusterMessage::Pong { sender, .. } => Some(sender@),
        ClusterMessage::Meet { sender, .. } => Some(sender@),
        ClusterMessage::SyncRequest { sender, .. } => Some(sender@),
        _ => None,
    }
}

/// Whether a message tells that `self_id` sent it.
pub fn message_sender_is_self(message: &ClusterMessage, self_id: &InstanceId) -> (own: bool)
    ensures
        own == (sender_of(*message) == Some(self_id@)),
{
    match message {
        ClusterMessage::Ping { sender, .. } => sender.same(self_id),
        ClusterMessage::Pong { sender, .. } => sender.same(self_id),
        ClusterMessage::Meet { sender, .. } => sender.same(self_id),
        ClusterMessage::SyncRequest { sender, .. } => sender.same(self_id),
        _ => false,
    }
}

/// Notes that a member was heard of at `now_ms`: adds it, or renews what is known of it.
pub fn ensure_member(
    members: &mut MemberList,
    instance_id: &InstanceId,
    region: &RegionId,
    addr: Option<String>,
    digest: MetaDigest,
    now_ms: u64,
)
    requires
        old(members).wf(),
    ensures
        final(members).wf(),
        final(members)@ == with_member(
            old(members)@,
            instance_id@,
            region@,
            match addr {
                Some(given) => Some(given@),
                None => None,
            },
            digest,
            now_ms,
        ),
{
    let known: Option<ClusterMember> = members.get(instance_id);
    let addr: String = match addr {
        Some(given) => given,
        None => match known {
            Some(existing) => existing.addr,
            None => String::new(),
        },
    };
    members.upsert(
        ClusterMember::new(instance_id.clone(), region.clone(), addr, digest, now_ms),
    );
}

/// A member's part in gossip.
pub struct GossipEngine {
    self_id: InstanceId,
    self_region: RegionId,
    self_addr: String,
    members: MemberList,
    suspicions: Table<u64>,
    config: ClusterConfig,
    running: bool,
}

impl View for GossipEngine {
    type V = GossipView;

    closed spec fn view(&self) -> GossipView {
        GossipView {
            self_id: self.self_id,
            self_region: self.self_region,
            self_addr: self.self_addr,
            members: self.members@,
            suspicions: self.suspicions@,
            config: self.config,
            running: self.running,
        }
    }
}

impl GossipEngine {
    /// The member list and the suspicions are well-formed.
    pub closed spec fn wf(&self) -> bool {
        &&& self.members.wf()
        &&& self.suspicions.wf()
    }

    /// An engine that does not run yet.
    pub fn new(
        self_id: InstanceId,
        self_region: RegionId,
        self_addr: String,
        members: MemberList,
        config: ClusterConfig,
    ) -> (engine: Self)
        requires
            members.wf(),
        ensures
            engine.wf(),
            engine@ == (GossipView {
                self_id,
                self_region,
                self_addr,
                members: members@,
                suspicions: Map::empty(),
                config,
                running: false,
            }),
    {
        GossipEngine {
            self_id,
            self_region,
            self_addr,
            members,
            suspicions: Table::new(),
            config,
            running: false,
        }
    }

    /// The members.
    pub fn members(&self) -> (members: &MemberList)
        requires
            self.wf(),
        ensures
            members.wf(),
            members@ == self@.members,
    {
        &self.members
    }

    /// Begins to run; tells whether the transport is to be started, which it is not if the engine
    /// runs already.
    pub fn start(&mut self) -> (begins: bool)
        requires
            old(self).wf(),
        ensures
            final(self).wf(),
            final(self)@ == (GossipView { running: true, ..old(self)@ }),
            begins == !old(self)@.running,
    {
        let begins: bool = !self.running;
        self.running = true;
        begins
    }

    /// Adds the member itself, once the transport is started.
    pub fn started(&mut self, digest: MetaDigest, now_ms: u64)
        requires
            old(self).wf(),
        ensures
            final(self).wf(),
            final(self)@ == (GossipView {
                members: with_member(
                    old(self)@.members,
                    old(self)@.self_id@,
                    old(self)@.self_region@,
                    Some(old(self)@.self_addr@),
                    digest,
                    now_ms,
                ),
                ..old(self)@
            }),
    {
        let member: ClusterMember = ClusterMember::new(
            self.self_id.clone(),
            self.self_region.clone(),
            self.self_addr.clone(),
            digest,
            now_ms,
        );
        self.members.upsert(member);
    }

    /// Ceases to run; tells whether the transport is to be stopped, which it is not if the engine
    /// does not run.
    pub fn stop(&mut self) -> (ends: bool)
        requires
            old(self).wf(),
        ensures
            final(self).wf(),
            final(self)@ == (GossipView { running: false, ..old(self)@ }),
            ends == old(self)@.running,
    {
        let ends: bool = self.running;
        self.running = false;
        ends
    }

    /// Whether the engine runs.
    pub fn is_running(&self) -> (running: bool)
        ensures
            running == self@.running,
    {
        self.running
    }

    /// The messages that introduce the member to the seeds.
    pub fn join_cluster(&self, seed_peers: &[String]) -> (actions: Vec<GossipAction>)
        ensures
            actions@.len() == seed_peers@.len(),
            forall|i: int|
                0 <= i < actions@.len() ==> sends(
                    #[trigger] actions@[i],
                    seed_peers@[i]@,
                    ClusterMessage::Meet {
                        sender: self@.self_id,
                        region: self@.self_region,
                        addr: self@.self_addr,
                    },
                ),
    {
        let mut actions: Vec<GossipAction> = Vec::new();
        let mut i: usize = 0;
        while i < seed_peers.len()
            invariant
                i <= seed_peers@.len(),
                actions@.len() == i,
                forall|k: int|
                    0 <= k < i ==> sends(
                        #[trigger] actions@[k],
                        seed_peers@[k]@,
                        ClusterMessage::Meet {
                            sender: self@.self_id,
                            region: self@.self_region,
                            addr: self@.self_addr,
                        },
                    ),
            decreases seed_peers@.len() - i,
        {
            let message: ClusterMessage = ClusterMessage::Meet {
                sender: self.self_id.clone(),
                region: self.self_region.clone(),
                addr: self.self_addr.clone(),
            };
            actions.push(GossipAction::Send { addr: seed_peers[i].clone(), message });
            i = i + 1;
        }
        actions
    }

    fn ping(&self, digest: MetaDigest, now_ms: u64) -> (message: ClusterMessage)
        ensures
            message == self@.ping(digest, now_ms),
    {
        ClusterMessage::Ping {
            sender: self.self_id.clone(),
            region: self.self_region.clone(),
            meta_digest: digest,
            timestamp: now_ms,
        }
    }

    fn pong(&self, digest: MetaDigest, now_ms: u64) -> (message: ClusterMessage)
        ensures
            message == self@.pong(digest, now_ms),
    {
        ClusterMessage::Pong {
            sender: self.self_id.clone(),
            region: self.self_region.clone(),
            meta_digest: digest,
            timestamp: now_ms,
        }
    }

    /// Takes in a message at `now_ms`; `digest` holds the versions of the member's own metadata.
    /// Tells what is to be done.
    pub fn handle_message(
        &mut self,
        message: ClusterMessage,
        digest: MetaDigest,
        now_ms: u64,
    ) -> (actions: Vec<GossipAction>)
        requires
            old(self).wf(),
        ensures
            final(self).wf(),
            final(self)@ == (GossipView {
                members: old(self)@.members_after(message, digest, now_ms),
                ..old(self)@
            }),
            old(self)@.reacts(message, digest, now_ms, actions@),
    {
        let ghost received = message;
        let mut actions: Vec<GossipAction> = Vec::new();
        match message {
            ClusterMessage::Ping { sender, region, meta_digest, timestamp: _ } => {
                ensure_member(&mut self.members, &sender, &region, None, meta_digest, now_ms);
                let message: ClusterMessage = self.pong(digest, now_ms);
                match self.members.get(&sender) {
                    Some(member) => {
                        actions.push(GossipAction::Send { addr: member.addr, message });
                    },
                    None => {
                        assert(false);
                    },
                }
            },
            ClusterMessage::Pong { sender, region, meta_digest, timestamp: _ } => {
                ensure_member(&mut self.members, &sender, &region, None, meta_digest, now_ms);
            },
            ClusterMessage::Meet { sender, region, addr } => {
                ensure_member(
                    &mut self.members,
                    &sender,
                    &region,
                    Some(addr.clone()),
                    digest,
                    now_ms,
                );
                actions.push(GossipAction::Send { addr, message: self.pong(digest, now_ms) });
                actions.push(GossipAction::Broadcast { message: self.ping(digest, now_ms) });
            },
            ClusterMessage::SyncRequest { sender, keys } => {
                actions.push(GossipAction::AnswerSync { sender, keys });
            },
            ClusterMessage::SyncResponse { entries } => {
                actions.push(GossipAction::ApplySync { entries });
            },
            ClusterMessage::MetricsBroadcast { region, payload } => {
                actions.push(GossipAction::StoreMetrics { region, payload });
            },
            ClusterMessage::CkfBarrierSnapshot { pool, sequence, buckets, num_buckets } => {
                actions.push(GossipAction::InstallSnapshot { pool, sequence, buckets, num_buckets });
            },
            ClusterMessage::CkfDelta { pool, sequence, prev_sequence, dirty_buckets } => {
                actions.push(
                    GossipAction::ApplyDelta { pool, sequence, prev_sequence, dirty_buckets },
                );
            },
            ClusterMessage::TopologyUpdate { from, to, estimate } => {
                actions.push(GossipAction::StoreLatency { from, to, estimate });
            },
            ClusterMessage::SessionAffinityBroadcast {
                session,
                backend_region,
                backend_instance,
            } => {
                actions.push(
                    GossipAction::StoreAffinity { session, backend_region, backend_instance },
                );
            },
        }
        actions
    }

    /// Takes in a message that the transport brought: one that the member sent itself is passed
    /// over.
    pub fn receive(&mut self, message: ClusterMessage, digest: MetaDigest, now_ms: u64) -> (actions:
        Vec<GossipAction>)
        requires
            old(self).wf(),
        ensures
            final(self).wf(),
            sender_of(message) == Some(old(self)@.self_id@) ==> final(self)@ == old(self)@
                && actions@.len() == 0,
            sender_of(message) != Some(old(self)@.self_id@) ==> final(self)@ == (GossipView {
                members: old(self)@.members_after(message, digest, now_ms),
                ..old(self)@
            }) && old(self)@.reacts(message, digest, now_ms, actions@),
    {
        if message_sender_is_self(&message, &self.self_id) {
            Vec::new()
        } else {
            self.handle_message(message, digest, now_ms)
        }
    }

    /// Where metadata that was asked for goes: to the member that asked, or to all if it is not
    /// known.
    pub fn sync_reply(&self, sender: &InstanceId, entries: Vec<MetaEntry>) -> (action: GossipAction)
        requires
            self.wf(),
        ensures
            ({
                let key = member::member_key(sender@);
                let message = ClusterMessage::SyncResponse { entries };
                if self@.members.contains_key(key) {
                    sends(action, self@.members[key].addr, message)
                } else {
                    action == GossipAction::Broadcast { message }
                }
            }),
    {
        let message: ClusterMessage = ClusterMessage::SyncResponse { entries };
        match self.members.get(sender) {
            Some(member) => GossipAction::Send { addr: member.addr, message },
            None => GossipAction::Broadcast { message },
        }
    }

    /// The members that get a heartbeat in this round, chosen by chance from those that are alive.
    pub fn gossip_targets(&self) -> (targets: Vec<ClusterMember>)
        requires
            self.wf(),
        ensures
            member::chosen_from(targets@, self@.peers(), self@.config.gossip_fanout as nat),
    {
        let alive: Vec<ClusterMember> = self.members.alive_members();
        assert(member::lists(alive@, member::those(self@.members, member::alive())));
        let sieve: Sieve = Sieve::OtherThan(self.self_id.clone());
        let peers: Vec<ClusterMember> = sieve.sift(&alive);
        assert(member::lists(peers@, self@.peers()));
        choose_members(&peers, self.config.gossip_fanout)
    }

    /// The heartbeats of a round.
    pub fn gossip_round(&self, targets: &Vec<ClusterMember>, digest: MetaDigest, now_ms: u64) -> (
        actions: Vec<GossipAction>)
        ensures
            actions@.len() == targets@.len(),
            forall|i: int|
                0 <= i < actions@.len() ==> sends(
                    #[trigger] actions@[i],
                    targets@[i]@.addr,
                    self@.ping(digest, now_ms),
                ),
    {
        let mut actions: Vec<GossipAction> = Vec::new();
        let mut i: usize = 0;
        while i < targets.len()
            invariant
                i <= targets@.len(),
                actions@.len() == i,
                forall|k: int|
                    0 <= k < i ==> sends(
                        #[trigger] actions@[k],
                        targets@[k]@.addr,
                        self@.ping(digest, now_ms),
                    ),
            decreases targets@.len() - i,
        {
            actions.push(
                GossipAction::Send {
                    addr: targets[i].addr.clone(),
                    message: self.ping(digest, now_ms),
                },
            );
            i = i + 1;
        }
        actions
    }

    /// Scans for silent members.
    pub fn probe(&mut self, now_ms: u64)
        requires
            old(self).wf(),
        ensures
            final(self).wf(),
            final(self)@ == (GossipView {
                members: member::scanned(
                    old(self)@.members,
                    old(self)@.suspicions,
                    old(self)@.self_id@,
                    now_ms,
                    old(self)@.config.probe_timeout_ms,
                    old(self)@.suspect_timeout_ms(),
                ),
                suspicions: member::suspicions_after(
                    old(self)@.members,
                    old(self)@.suspicions,
                    old(self)@.self_id@,
                    now_ms,
                    old(self)@.config.probe_timeout_ms,
                    old(self)@.suspect_timeout_ms(),
                ),
                ..old(self)@
            }),
    {
        let suspect_timeout_ms: u64 = match self.config.suspect_timeout_secs.checked_mul(1000) {
            Some(timeout) => timeout,
            None => u64::MAX,
        };
        self.members.probe(
            &mut self.suspicions,
            &self.self_id,
            now_ms,
            self.config.probe_timeout_ms,
            suspect_timeout_ms,
        );
    }

    /// Time between rounds of heartbeats in milliseconds, at least one.
    pub fn gossip_interval_ms(&self) -> (interval: u64)
        ensures
            interval == (if self@.config.gossip_interval_ms == 0 {
                1
            } else {
                self@.config.gossip_interval_ms
            }),
    {
        if self.config.gossip_interval_ms == 0 {
            1
        } else {
            self.config.gossip_interval_ms
        }
    }

    /// Time between scans for silent members in milliseconds, at least one.
    pub fn probe_interval_ms(&self) -> (interval: u64)
        ensures
            interval == (if self@.config.probe_interval_ms == 0 {
                1
            } else {
                self@.config.probe_interval_ms
            }),
    {
        if self.config.probe_interval_ms == 0 {
            1
        } else {
            self.config.probe_interval_ms
        }
    }
}

/// A member that tells who it is in a heartbeat, an answer to one or an introduction is alive, and
/// what is known of others stays as it was.
pub proof fn whoever_speaks_is_alive(
    engine: GossipView,
    message: ClusterMessage,
    digest: MetaDigest,
    now_ms: u64,
    other: Seq<char>,
)
    requires
        sender_of(message) is Some,
        !(message is SyncRequest),
    ensures
        ({
            let after = engine.members_after(message, digest, now_ms);
            let key = member::member_key(sender_of(message)->0);
            let other_key = member::member_key(other);
            &&& after.contains_key(key)
            &&& after[key].status == MemberStatus::Alive
            &&& after[key].last_pong_unix == now_ms
            &&& other != sender_of(message)->0 ==> after.contains_key(other_key)
                == engine.members.contains_key(other_key) && after[other_key]
                == engine.members[other_key]
        }),
{
}

/// Heartbeats and their answers leave the address of a known member as it was.
pub proof fn heartbeats_keep_addresses(
    engine: GossipView,
    message: ClusterMessage,
    digest: MetaDigest,
    now_ms: u64,
    id: Seq<char>,
)
    requires
        message is Ping || message is Pong,
        engine.members.contains_key(member::member_key(id)),
    ensures
        engine.members_after(message, digest, now_ms)[member::member_key(id)].addr
            == engine.members[member::member_key(id)].addr,
{
}

/// A heartbeat tells each of two members of the other: the one that gets it learns the digest of
/// the one that sends it, and the answer brings back its own.
pub proof fn a_heartbeat_goes_both_ways(
    from: GossipView,
    to: GossipView,
    from_digest: MetaDigest,
    to_digest: MetaDigest,
    sent_ms: u64,
    answered_ms: u64,
    heard_ms: u64,
)
    ensures
        ({
            let ping = from.ping(from_digest, sent_ms);
            let pong = to.pong(to_digest, answered_ms);
            let there = to.members_after(ping, to_digest, answered_ms);
            let here = from.members_after(pong, from_digest, heard_ms);
            let from_key = member::member_key(from.self_id@);
            let to_key = member::member_key(to.self_id@);
            &&& there[from_key].status == MemberStatus::Alive
            &&& there[from_key].meta_digest == from_digest
            &&& there[from_key].region == from.self_region@
            &&& here[to_key].status == MemberStatus::Alive
            &&& here[to_key].meta_digest == to_digest
            &&& here[to_key].region == to.self_region@
        }),
{
}

/// The message that brings what an action is to store or look up, if it is such an action.
pub open spec fn brought_by(action: GossipAction) -> Option<ClusterMessage> {
    match action {
        GossipAction::Send { .. } => None,
        GossipAction::Broadcast { .. } => None,
        GossipAction::AnswerSync { sender, keys } => Some(
            ClusterMessage::SyncRequest { sender, keys },
        ),
        GossipAction::ApplySync { entries } => Some(ClusterMessage::SyncResponse { entries }),
        GossipAction::StoreMetrics { region, payload } => Some(
            ClusterMessage::MetricsBroadcast { region, payload },
        ),
        GossipAction::InstallSnapshot { pool, sequence, buckets, num_buckets } => Some(
            ClusterMessage::CkfBarrierSnapshot { pool, sequence, buckets, num_buckets },
        ),
        GossipAction::ApplyDelta { pool, sequence, prev_sequence, dirty_buckets } => Some(
            ClusterMessage::CkfDelta { pool, sequence, prev_sequence, dirty_buckets },
        ),
        GossipAction::StoreLatency { from, to, estimate } => Some(
            ClusterMessage::TopologyUpdate { from, to, estimate },
        ),
        GossipAction::StoreAffinity { session, backend_region, backend_instance } => Some(
            ClusterMessage::SessionAffinityBroadcast { session, backend_region, backend_instance },
        ),
    }
}

/// Nothing that a message brings is lost: every message that is no heartbeat, answer to one or
/// introduction gives one action, and that action hands on all that the message holds. Nothing is
/// stored on account of the others, and none but them change what is known of members.
pub proof fn what_a_message_brings_is_handed_on(
    engine: GossipView,
    message: ClusterMessage,
    digest: MetaDigest,
    now_ms: u64,
    actions: Seq<GossipAction>,
)
    requires
        engine.reacts(message, digest, now_ms, actions),
    ensures
        !(message is Ping || message is Pong || message is Meet) ==> actions.len() == 1
            && brought_by(actions[0]) == Some(message) && engine.members_after(
            message,
            digest,
            now_ms,
        ) == engine.members,
        message is Ping || message is Pong || message is Meet ==> forall|i: int|
            0 <= i < actions.len() ==> brought_by(#[trigger] actions[i]) is None,
{
}

/// A heartbeat is answered, once, at the address that is known of its sender, or at the empty one if
/// none is; the answer names the member itself, its region and its digest. An answer is not answered.
pub proof fn a_heartbeat_is_answered(
    engine: GossipView,
    message: ClusterMessage,
    digest: MetaDigest,
    now_ms: u64,
    actions: Seq<GossipAction>,
)
    requires
        engine.reacts(message, digest, now_ms, actions),
    ensures
        message is Pong ==> actions.len() == 0,
        message matches ClusterMessage::Ping { sender: from, .. } ==> {
            &&& actions.len() == 1
            &&& actions[0] matches GossipAction::Send { addr, message: answer }
            &&& engine.members.contains_key(member::member_key(from@)) ==> addr@
                == engine.members[member::member_key(from@)].addr
            &&& !engine.members.contains_key(member::member_key(from@)) ==> addr@.len() == 0
            &&& answer matches ClusterMessage::Pong { sender, region, meta_digest, timestamp }
            &&& sender == engine.self_id
            &&& region == engine.self_region
            &&& meta_digest == digest
            &&& timestamp == now_ms
        },
{
}

/// An introduction is answered at the address that it gives, and a heartbeat of the member goes to
/// all that are alive. The newcomer is known from then on, alive, with the region and the address
/// that it gave.
pub proof fn an_introduction_is_answered_and_spread(
    engine: GossipView,
    message: ClusterMessage,
    digest: MetaDigest,
    now_ms: u64,
    actions: Seq<GossipAction>,
)
    requires
        message is Meet,
        engine.reacts(message, digest, now_ms, actions),
    ensures
        actions.len() == 2,
        ({
            let key = member::member_key(message->Meet_sender@);
            let after = engine.members_after(message, digest, now_ms);
            &&& actions[0] matches GossipAction::Send { addr, message: answer }
            &&& addr@ == message->Meet_addr@
            &&& answer matches ClusterMessage::Pong {
                sender,
                region,
                meta_digest,
                timestamp,
            }
            &&& sender == engine.self_id
            &&& region == engine.self_region
            &&& meta_digest == digest
            &&& timestamp == now_ms
            &&& after.contains_key(key)
            &&& after[key].addr == message->Meet_addr@
            &&& after[key].region == message->Meet_region@
            &&& after[key].instance_id == message->Meet_sender@
            &&& after[key].status == MemberStatus::Alive
            &&& after[key].last_pong_unix == now_ms
        }),
        actions[1] matches GossipAction::Broadcast { message: heartbeat } && (heartbeat matches
            ClusterMessage::Ping { sender, region, meta_digest, timestamp } && sender
            == engine.self_id && region == engine.self_region && meta_digest == digest && timestamp
            == now_ms),
{
}

/// A heartbeat, and an answer to one, renews what is known of its sender: the region and the digest
/// that it tells, and that it is alive now.
pub proof fn a_heartbeat_renews_its_sender(
    engine: GossipView,
    message: ClusterMessage,
    digest: MetaDigest,
    now_ms: u64,
)
    ensures
        message matches ClusterMessage::Ping { sender, region, meta_digest, .. } ==> {
            let after = engine.members_after(message, digest, now_ms)[member::member_key(sender@)];
            &&& after.instance_id == sender@
            &&& after.region == region@
            &&& after.meta_digest == meta_digest
            &&& after.status == MemberStatus::Alive
            &&& after.last_pong_unix == now_ms
        },
        message matches ClusterMessage::Pong { sender, region, meta_digest, .. } ==> {
            let after = engine.members_after(message, digest, now_ms)[member::member_key(sender@)];
            &&& after.instance_id == sender@
            &&& after.region == region@
            &&& after.meta_digest == meta_digest
            &&& after.status == MemberStatus::Alive
            &&& after.last_pong_unix == now_ms
        },
{
}

/// A lane of a pool after an action is performed on it: a snapshot replaces it, a delta writes the
/// buckets that it lists, and actions on other pools, or of other kinds, leave it alone.
pub open spec fn lane_performed(lane: Seq<u64>, pool: KeyView, action: GossipAction) -> Seq<u64> {
    match action {
        GossipAction::InstallSnapshot { pool: of, buckets, .. } => if of.key() == pool {
            buckets@
        } else {
            lane
        },
        GossipAction::ApplyDelta { pool: of, dirty_buckets, .. } => if of.key() == pool {
            ckf_producer::patched(lane, dirty_buckets@)
        } else {
            lane
        },
        _ => lane,
    }
}

/// A lane of a pool after actions are performed on it, one after the other.
pub open spec fn lane_after_all(lane: Seq<u64>, pool: KeyView, actions: Seq<GossipAction>) -> Seq<
    u64,
>
    decreases actions.len(),
{
    if actions.len() == 0 {
        lane
    } else {
        lane_performed(
            lane_after_all(lane, pool, actions.drop_last()),
            pool,
            actions.last(),
        )
    }
}

/// A lane of a pool after a member took in messages and performed the actions that came of them:
/// `answers[i]` are those of the message at `i`.
pub open spec fn lane_after_messages(
    lane: Seq<u64>,
    pool: KeyView,
    answers: Seq<Seq<GossipAction>>,
) -> Seq<u64>
    decreases answers.len(),
{
    if answers.len() == 0 {
        lane
    } else {
        lane_after_all(
            lane_after_messages(lane, pool, answers.drop_last()),
            pool,
            answers.last(),
        )
    }
}

proof fn lemma_published_lane(
    engine: GossipView,
    digest: MetaDigest,
    now_ms: u64,
    pools: Map<KeyView, ProducerState>,
    pool: KeyView,
    messages: Seq<ClusterMessage>,
    answers: Seq<Seq<GossipAction>>,
    copy: Seq<u64>,
    n: int,
)
    requires
        ckf_relay::publish_all(messages, pools),
        answers.len() == messages.len(),
        forall|i: int|
            0 <= i < messages.len() ==> engine.reacts(
                #[trigger] messages[i],
                digest,
                now_ms,
                answers[i],
            ),
        pools.contains_key(pool),
        pools[pool].valid(),
        ckf_producer::differs_where_noted(copy, pools[pool]),
        0 <= n <= messages.len(),
    ensures
        lane_after_messages(copy, pool, answers.take(n)) == if exists|i: int|
            0 <= i < n && ckf_relay::pool_of(#[trigger] messages[i]) == pool {
            pools[pool].buckets
        } else {
            copy
        },
    decreases n,
{
    if n > 0 {
        lemma_published_lane(
            engine,
            digest,
            now_ms,
            pools,
            pool,
            messages,
            answers,
            copy,
            n - 1,
        );
        let message = messages[n - 1];
        let actions = answers[n - 1];
        let before = lane_after_messages(copy, pool, answers.take(n - 1));
        assert(answers.take(n).drop_last() =~= answers.take(n - 1));
        assert(answers.take(n).last() == actions);
        assert(engine.reacts(message, digest, now_ms, actions));
        what_a_message_brings_is_handed_on(engine, message, digest, now_ms, actions);
        assert(actions.drop_last() =~= Seq::empty());
        assert(lane_after_all(before, pool, actions.drop_last()) == before);
        assert(lane_after_all(before, pool, actions) == lane_performed(before, pool, actions[0]));
        if ckf_relay::pool_of(message) == pool {
            assert forall|i: int| 0 <= i < n - 1 implies ckf_relay::pool_of(#[trigger] messages[i])
                != pool by {
                assert(ckf_relay::pool_of(messages[i]) != ckf_relay::pool_of(messages[n - 1]));
            }
            ckf_relay::published_changes_bring_a_copy_up_to_date(
                message,
                pools[pool],
                pool,
                copy,
            );
        }
    }
}

/// What a relay publishes brings every other member up to date: a copy of a pool's lane that differs
/// from it only where the producer notes changes, as one does that was taken at the last
/// publication, equals it once a member has taken in the messages of a publication, and has performed
/// the actions that came of them.
pub proof fn a_publication_brings_other_members_up_to_date(
    engine: GossipView,
    digest: MetaDigest,
    now_ms: u64,
    pools: Map<KeyView, ProducerState>,
    pool: KeyView,
    messages: Seq<ClusterMessage>,
    answers: Seq<Seq<GossipAction>>,
    copy: Seq<u64>,
)
    requires
        ckf_relay::publish_all(messages, pools),
        answers.len() == messages.len(),
        forall|i: int|
            0 <= i < messages.len() ==> engine.reacts(
                #[trigger] messages[i],
                digest,
                now_ms,
                answers[i],
            ),
        pools.contains_key(pool),
        pools[pool].valid(),
        ckf_producer::differs_where_noted(copy, pools[pool]),
    ensures
        lane_after_messages(copy, pool, answers) == pools[pool].buckets,
{
    lemma_published_lane(
        engine,
        digest,
        now_ms,
        pools,
        pool,
        messages,
        answers,
        copy,
        messages.len() as int,
    );
    assert(answers.take(messages.len() as int) =~= answers);
    let state = pools[pool];
    if state.dirty == Set::<usize>::empty() {
        assert(copy =~= state.buckets) by {
            assert forall|i: int| 0 <= i < copy.len() implies copy[i] == state.buckets[i] by {
                assert(!state.dirty.contains(i as usize));
            }
        }
    } else {
        assert(pools.contains_key(pool) && pools[pool].dirty != Set::<usize>::empty());
        let i = choose|i: int|
            0 <= i < messages.len() && ckf_relay::pool_of(#[trigger] messages[i]) == pool;
        assert(ckf_relay::pool_of(messages[i]) == pool);
    }
}

/// A snapshot that a member takes in replaces its copy of the pool's lane, whatever it was.
pub proof fn a_snapshot_replaces_a_copy(
    engine: GossipView,
    digest: MetaDigest,
    now_ms: u64,
    message: ClusterMessage,
    actions: Seq<GossipAction>,
    copy: Seq<u64>,
)
    requires
        message is CkfBarrierSnapshot,
        engine.reacts(message, digest, now_ms, actions),
    ensures
        lane_after_all(copy, message->CkfBarrierSnapshot_pool.key(), actions)
            == message->CkfBarrierSnapshot_buckets@,
{
    what_a_message_brings_is_handed_on(engine, message, digest, now_ms, actions);
    assert(actions.drop_last() =~= Seq::empty());
}

/// A heartbeat may go to a member if and only if it is known, alive, and not the member itself.
pub proof fn peers_are_alive_and_others(engine: GossipView, key: KeyView)
    ensures
        engine.peers().contains_key(key) <==> engine.members.contains_key(key)
            && engine.members[key].status == MemberStatus::Alive
            && engine.members[key].instance_id != engine.self_id@,
        engine.peers().contains_key(key) ==> engine.peers()[key] == engine.members[key],
{
}

/// The time that a member is suspected is the configured number of seconds, as far as milliseconds
/// in 64 bits go.
pub proof fn suspicion_lasts_as_configured(engine: GossipView)
    ensures
        engine.suspect_timeout_ms() <= engine.config.suspect_timeout_secs * 1000,
        engine.config.suspect_timeout_secs * 1000 <= u64::MAX ==> engine.suspect_timeout_ms()
            == engine.config.suspect_timeout_secs * 1000,
        engine.config.suspect_timeout_secs * 1000 > u64::MAX ==> engine.suspect_timeout_ms()
            == u64::MAX,
{
}

/// Heartbeats, introductions and requests name whoever sends them, and other messages name nobody; so an
/// engine takes its own heartbeat for its own, and nobody else's.
pub proof fn messages_name_their_sender(
    engine: GossipView,
    other: GossipView,
    message: ClusterMessage,
    digest: MetaDigest,
    now_ms: u64,
)
    ensures
        sender_of(engine.ping(digest, now_ms)) == Some(engine.self_id@),
        sender_of(engine.pong(digest, now_ms)) == Some(engine.self_id@),
        sender_of(engine.ping(digest, now_ms)) == Some(other.self_id@) <==> engine.self_id@
            == other.self_id@,
        message matches ClusterMessage::Meet { sender, .. } ==> sender_of(message) == Some(sender@),
        message matches ClusterMessage::SyncRequest { sender, .. } ==> sender_of(message) == Some(
            sender@,
        ),
        sender_of(message) is Some <==> message is Ping || message is Pong || message is Meet
            || message is SyncRequest,
{
}

/// A heartbeat tells where it comes from and when it was sent.
pub proof fn a_heartbeat_tells_its_time(engine: GossipView, digest: MetaDigest, now_ms: u64)
    ensures
        engine.ping(digest, now_ms) matches ClusterMessage::Ping {
            region,
            meta_digest,
            timestamp,
            ..
        } && region == engine.self_region && meta_digest == digest && timestamp == now_ms,
        engine.pong(digest, now_ms) matches ClusterMessage::Pong {
            region,
            meta_digest,
            timestamp,
            ..
        } && region == engine.self_region && meta_digest == digest && timestamp == now_ms,
{
}

/// A member is listed as it says, alive and heard of now, in place of what was known of it; without an
/// address it keeps the known one, and has none if it was not known. Others stay as they were.
pub proof fn a_member_is_listed_as_it_says(
    members: MembersView,
    instance_id: Seq<char>,
    region: Seq<char>,
    addr: Option<Seq<char>>,
    digest: MetaDigest,
    now_ms: u64,
    other: KeyView,
)
    requires
        other != member::member_key(instance_id),
    ensures
        ({
            let key = member::member_key(instance_id);
            let after = with_member(members, instance_id, region, addr, digest, now_ms);
            &&& after.contains_key(key)
            &&& after[key].instance_id == instance_id && after[key].region == region
                && after[key].meta_digest == digest && after[key].last_pong_unix == now_ms
                && after[key].status == MemberStatus::Alive
            &&& addr is Some ==> after[key].addr == addr->0
            &&& addr is None && members.contains_key(key) ==> after[key].addr == members[key].addr
            &&& addr is None && !members.contains_key(key) ==> after[key].addr.len() == 0
            &&& after.contains_key(other) == members.contains_key(other)
            &&& after[other] == members[other]
        }),
{
}

} // verus!
