//! Publishing the lanes of a region's pools to other regions.
//!
//! Each pool has a producer that takes its events. When enough events have come in, or from time
//! to time, the changes of all producers are published. A pool's whole lane can be published too.

use vstd::prelude::*;

use crate::ckf_producer;
use crate::ckf_producer::{CkfProducer, ProducerState, CKF_PRODUCER_DEFAULT_SEED};
use crate::cuckoo_filter::{CkfDelta, CkfSnapshot, BUCKETS_PER_LANE};
use crate::ids;
use crate::ids::{BackendId, PoolId, RegionId};
use crate::kv_event::{KvCacheEvent, KvChange};
use crate::messages::ClusterMessage;
use crate::table;
use crate::table::{KeyView, Table};

verus! {

/// Number of events after which changes are published, unless another is given.
pub const DEFAULT_PUBLICATION_THRESHOLD: usize = 16;

/// Time between looks at pending events in milliseconds, unless another is given.
pub const DEFAULT_PUBLICATION_DELAY_MS: u64 = 1;

/// A pool with its producer.
struct PoolProducer {
    pool: PoolId,
    producer: CkfProducer,
}

/// The state of a relay.
#[verifier::ext_equal]
pub struct RelayView {
    /// Producers of the pools.
    pub pools: Map<KeyView, ProducerState>,
    /// Events since the last publication.
    pub pending: nat,
    /// Number of events after which changes are published.
    pub threshold: usize,
    /// Time between looks at pending events, in milliseconds.
    pub delay_ms: u64,
}

/// A producer after its changes were published.
pub open spec fn published(state: ProducerState) -> ProducerState {
    if state.dirty == Set::<usize>::empty() {
        state
    } else {
        ProducerState { pub_seq: state.pub_seq.wrapping_add(1), dirty: Set::empty(), ..state }
    }
}

/// Whether a message publishes the changes of a pool.
pub open spec fn publishes(message: ClusterMessage, key: KeyView, state: ProducerState) -> bool {
    match message {
        ClusterMessage::CkfDelta { pool, sequence, prev_sequence, dirty_buckets } => {
            &&& pool.key() == key
            &&& prev_sequence == state.pub_seq
            &&& sequence == state.pub_seq.wrapping_add(1)
            &&& ckf_producer::lists_buckets(dirty_buckets@, state.dirty, state.buckets)
        },
        _ => false,
    }
}

/// The pool of a message that publishes changes.
pub open spec fn pool_of(message: ClusterMessage) -> KeyView {
    match message {
        ClusterMessage::CkfDelta { pool, .. } => pool.key(),
        _ => (0u64, Seq::empty(), Seq::empty()),
    }
}

/// Whether messages publish the changes of all pools: those of each pool that has some, once.
pub open spec fn publish_all(
    messages: Seq<ClusterMessage>,
    pools: Map<KeyView, ProducerState>,
) -> bool {
    &&& forall|i: int|
        0 <= i < messages.len() ==> pools.contains_key(pool_of(#[trigger] messages[i]))
            && pools[pool_of(messages[i])].dirty != Set::<usize>::empty() && publishes(
            messages[i],
            pool_of(messages[i]),
            pools[pool_of(messages[i])],
        )
    &&& forall|i: int, j: int|
        #![trigger messages[i], messages[j]]
        0 <= i < j < messages.len() ==> pool_of(messages[i]) != pool_of(messages[j])
    &&& forall|key: KeyView| #[trigger]
        pools.contains_key(key) && pools[key].dirty != Set::<usize>::empty() ==> exists|i: int|
            0 <= i < messages.len() && pool_of(#[trigger] messages[i]) == key
}

impl RelayView {
    /// The producer of a pool, or the one that it gets.
    pub open spec fn producer_of(self, key: KeyView) -> ProducerState {
        if self.pools.contains_key(key) {
            self.pools[key]
        } else {
            ProducerState::empty(CKF_PRODUCER_DEFAULT_SEED)
        }
    }

    /// The relay after an event, before anything is published.
    pub open spec fn noted(self, pool: KeyView, change: KvChange, backend: KeyView) -> RelayView {
        RelayView {
            pools: self.pools.insert(pool, self.producer_of(pool).apply(change, backend)),
            pending: self.pending + 1,
            ..self
        }
    }

    /// The relay after the changes of all pools were published.
    pub open spec fn flushed(self) -> RelayView {
        RelayView {
            pools: self.pools.map_values(|state: ProducerState| published(state)),
            pending: 0,
            ..self
        }
    }

    /// After an event of a pool: with as many events as it takes, all changes are published.
    pub open spec fn after_event(self, pool: KeyView, change: KvChange, backend: KeyView) -> RelayView {
        let noted = self.noted(pool, change, backend);
        if noted.pending >= noted.threshold {
            noted.flushed()
        } else {
            noted
        }
    }

    /// After the periodic look at pending events.
    pub open spec fn after_tick(self) -> RelayView {
        if self.pending > 0 {
            self.flushed()
        } else {
            self
        }
    }

    /// After a pool's lane was published as a whole.
    pub open spec fn after_barrier(self, pool: KeyView) -> RelayView {
        if self.pools.contains_key(pool) {
            RelayView {
                pools: self.pools.insert(
                    pool,
                    ProducerState {
                        pub_seq: self.pools[pool].pub_seq.wrapping_add(1),
                        dirty: Set::empty(),
                        ..self.pools[pool]
                    },
                ),
                ..self
            }
        } else {
            self
        }
    }
}

/// Takes the events of a region's pools, and publishes their lanes.
pub struct KvRelay {
    self_region: RegionId,
    producers: Table<PoolProducer>,
    publication_threshold: usize,
    publication_delay_ms: u64,
    pending: usize,
}

impl View for KvRelay {
    type V = RelayView;

    closed spec fn view(&self) -> RelayView {
        RelayView {
            pools: self.producers@.map_values(|entry: PoolProducer| entry.producer@),
            pending: self.pending as nat,
            threshold: self.publication_threshold,
            delay_ms: self.publication_delay_ms,
        }
    }
}

impl KvRelay {
    /// Every pool is filed under its own key, all producers are well-formed, and fewer events are
    /// pending than it takes to publish.
    pub closed spec fn wf(&self) -> bool {
        &&& self.producers.wf()
        &&& forall|key: KeyView| #[trigger]
            self.producers@.contains_key(key) ==> self.producers@[key].producer.wf()
                && self.producers@[key].pool.key() == key
        &&& self.pending == 0 || self.pending < self.publication_threshold
    }

    /// Fewer events are pending than it takes to publish.
    pub proof fn fewer_are_pending_than_it_takes(&self)
        requires
            self.wf(),
        ensures
            self@.pending == 0 || self@.pending < self@.threshold,
    {
    }

    /// A relay without pools.
    pub fn new(self_region: RegionId) -> (relay: Self)
        ensures
            relay.wf(),
            relay@ == (RelayView {
                pools: Map::empty(),
                pending: 0,
                threshold: DEFAULT_PUBLICATION_THRESHOLD,
                delay_ms: DEFAULT_PUBLICATION_DELAY_MS,
            }),
            relay.region() == self_region@,
    {
        KvRelay::with_params(
            self_region,
            DEFAULT_PUBLICATION_THRESHOLD,
            DEFAULT_PUBLICATION_DELAY_MS,
        )
    }

    /// A relay without pools, with its own threshold and delay.
    pub fn with_params(
        self_region: RegionId,
        publication_threshold: usize,
        publication_delay_ms: u64,
    ) -> (relay: Self)
        ensures
            relay.wf(),
            relay@ == (RelayView {
                pools: Map::empty(),
                pending: 0,
                threshold: publication_threshold,
                delay_ms: publication_delay_ms,
            }),
            relay.region() == self_region@,
    {
        let relay = KvRelay {
            self_region,
            producers: Table::new(),
            publication_threshold,
            publication_delay_ms,
            pending: 0,
        };
        assert(relay@.pools =~= Map::empty());
        relay
    }

    /// The relay's region.
    pub closed spec fn region(&self) -> Seq<char> {
        self.self_region@
    }

    /// Takes an event of a pool's backend. When enough events have come in, publishes the changes
    /// of all pools: the messages are to be sent to all members.
    pub fn apply_event(&mut self, pool: &PoolId, event: &KvCacheEvent, backend: &BackendId) -> (
        messages: Vec<ClusterMessage>)
        requires
            old(self).wf(),
        ensures
            final(self).wf(),
            final(self).region() == old(self).region(),
            ({
                let noted = old(self)@.noted(pool.key(), event@, ids::backend_key(backend@));
                if noted.pending >= noted.threshold {
                    &&& final(self)@ == noted.flushed()
                    &&& publish_all(messages@, noted.pools)
                } else {
                    &&& final(self)@ == noted
                    &&& messages@.len() == 0
                }
            }),
            final(self)@ == old(self)@.after_event(
                pool.key(),
                event@,
                ids::backend_key(backend@),
            ),
    {
        let ghost start = self@;
        let ghost noted = start.noted(pool.key(), event@, ids::backend_key(backend@));
        match self.producers.find(&pool.table_key()) {
            Some(at) => {
                proof {
                    self.producers.lemma_rows();
                    assert(self.producers@.contains_key(self.producers.rows()[at as int].0));
                }
                let entry: &mut PoolProducer = self.producers.value_mut(at);
                entry.producer.apply_event(event, backend);
            },
            None => {
                let mut producer: CkfProducer = CkfProducer::new();
                producer.apply_event(event, backend);
                self.producers.insert(
                    pool.table_key(),
                    PoolProducer { pool: pool.clone(), producer },
                );
            },
        }
        proof {
            assert(self@.pools =~= noted.pools);
        }
        self.pending = self.pending + 1;
        if self.pending >= self.publication_threshold {
            self.publish_changes()
        } else {
            Vec::new()
        }
    }

    /// Publishes the changes of all pools: the messages are to be sent to all members. A pool
    /// without changes is passed over.
    pub fn flush(&mut self) -> (messages: Vec<ClusterMessage>)
        requires
            old(self).wf(),
        ensures
            final(self).wf(),
            final(self).region() == old(self).region(),
            final(self)@ == old(self)@.flushed(),
            publish_all(messages@, old(self)@.pools),
    {
        self.publish_changes()
    }

    fn publish_changes(&mut self) -> (messages: Vec<ClusterMessage>)
        requires
            old(self).producers.wf(),
            forall|key: KeyView| #[trigger]
                old(self).producers@.contains_key(key) ==> old(
                    self,
                ).producers@[key].producer.wf() && old(self).producers@[key].pool.key() == key,
        ensures
            final(self).wf(),
            final(self).region() == old(self).region(),
            final(self)@ == old(self)@.flushed(),
            publish_all(messages@, old(self)@.pools),
    {
        self.pending = 0;
        let n: usize = self.producers.len();
        let ghost start = self.producers@;
        let ghost rows = self.producers.rows();
        let ghost pools = old(self)@.pools;
        proof {
            self.producers.lemma_rows();
        }
        let mut messages: Vec<ClusterMessage> = Vec::new();
        let ghost mut origin: Seq<int> = Seq::empty();
        let mut i: usize = 0;
        while i < n
            invariant
                i <= n,
                n == rows.len(),
                self.pending == 0,
                self.region() == old(self).region(),
                self.publication_threshold == old(self).publication_threshold,
                self.publication_delay_ms == old(self).publication_delay_ms,
                pools == start.map_values(|entry: PoolProducer| entry.producer@),
                table::rows_hold(rows, start),
                forall|key: KeyView| #[trigger]
                    start.contains_key(key) ==> start[key].producer.wf() && start[key].pool.key()
                        == key,
                self.producers.wf(),
                self.producers.rows().len() == n,
                self.producers@.dom() == start.dom(),
                forall|k: int|
                    0 <= k < n ==> (#[trigger] self.producers.rows()[k]).0 == rows[k].0,
                forall|k: int|
                    0 <= k < i ==> (#[trigger] self.producers.rows()[k]).1.producer.wf()
                        && self.producers.rows()[k].1.pool == rows[k].1.pool
                        && self.producers.rows()[k].1.producer@ == published(
                        rows[k].1.producer@,
                    ),
                forall|k: int| i <= k < n ==> #[trigger] self.producers.rows()[k] == rows[k],
                origin.len() == messages@.len(),
                forall|a: int|
                    0 <= a < messages@.len() ==> {
                        &&& 0 <= #[trigger] origin[a] < i
                        &&& rows[origin[a]].1.producer@.dirty != Set::<usize>::empty()
                        &&& pool_of(messages@[a]) == rows[origin[a]].0
                        &&& publishes(
                            messages@[a],
                            rows[origin[a]].0,
                            rows[origin[a]].1.producer@,
                        )
                    },
                forall|a: int, b: int|
                    #![trigger origin[a], origin[b]]
                    0 <= a < b < messages@.len() ==> origin[a] < origin[b],
                forall|k: int|
                    0 <= k < i && (#[trigger] rows[k]).1.producer@.dirty != Set::<usize>::empty()
                        ==> exists|a: int| 0 <= a < messages@.len() && #[trigger] origin[a] == k,
            decreases n - i,
        {
            let ghost before = messages@;
            let ghost drawn = origin;
            proof {
                self.producers.lemma_rows();
                assert(self.producers.rows()[i as int] == rows[i as int]);
                assert(start.contains_key(rows[i as int].0));
                assert(self.producers@.dom().contains(rows[i as int].0));
            }
            let pool: PoolId = self.producers.value_at(i).pool.clone();
            let entry: &mut PoolProducer = self.producers.value_mut(i);
            let delta: Option<CkfDelta> = entry.producer.delta();
            proof {
                assert(self.producers@.dom() =~= start.dom());
            }
            match delta {
                Some(delta) => {
                    messages.push(
                        ClusterMessage::CkfDelta {
                            pool,
                            sequence: delta.sequence,
                            prev_sequence: delta.prev_sequence,
                            dirty_buckets: delta.buckets,
                        },
                    );
                    proof {
                        origin = origin.push(i as int);
                        assert forall|k: int|
                            0 <= k < i + 1 && (#[trigger] rows[k]).1.producer@.dirty != Set::<
                                usize,
                            >::empty() implies exists|a: int|
                            0 <= a < messages@.len() && #[trigger] origin[a] == k by {
                            if k < i {
                                let a = choose|a: int|
                                    0 <= a < before.len() && #[trigger] drawn[a] == k;
                                assert(origin[a] == k);
                            } else {
                                assert(origin[before.len() as int] == k);
                            }
                        }
                    }
                },
                None => {},
            }
            i = i + 1;
        }
        proof {
            self.producers.lemma_rows();
            assert forall|key: KeyView| #[trigger]
                self.producers@.contains_key(key) implies self.producers@[key].producer.wf()
                && self.producers@[key].pool.key() == key && self.producers@[key].producer@
                == published(start[key].producer@) by {
                assert(start.contains_key(key));
                let k = choose|k: int| 0 <= k < rows.len() && (#[trigger] rows[k]).0 == key;
                assert(self.producers.rows()[k].0 == key);
            }
            assert(self@.pools =~= old(self)@.flushed().pools);
            assert(self@ =~= old(self)@.flushed());
            assert forall|a: int| 0 <= a < messages@.len() implies pools.contains_key(
                pool_of(#[trigger] messages@[a]),
            ) && pools[pool_of(messages@[a])].dirty != Set::<usize>::empty() && publishes(
                messages@[a],
                pool_of(messages@[a]),
                pools[pool_of(messages@[a])],
            ) by {
                let k = origin[a];
                assert(start.contains_key(rows[k].0));
                assert(pools[rows[k].0] == rows[k].1.producer@);
            }
            assert forall|a: int, b: int|
                #![trigger messages@[a], messages@[b]]
                0 <= a < b < messages@.len() implies pool_of(messages@[a]) != pool_of(
                messages@[b],
            ) by {
                assert(origin[a] < origin[b]);
                assert(rows[origin[a]].0 != rows[origin[b]].0);
            }
            assert forall|key: KeyView| #[trigger]
                pools.contains_key(key) && pools[key].dirty != Set::<
                    usize,
                >::empty() implies exists|a: int|
                0 <= a < messages@.len() && pool_of(#[trigger] messages@[a]) == key by {
                assert(start.contains_key(key));
                let k = choose|k: int| 0 <= k < rows.len() && (#[trigger] rows[k]).0 == key;
                assert(rows[k].1.producer@.dirty != Set::<usize>::empty());
                let a = choose|a: int| 0 <= a < messages@.len() && #[trigger] origin[a] == k;
                assert(pool_of(messages@[a]) == key);
            }
        }
        messages
    }

    /// Publishes the whole lane of a pool: the message is to be sent to all members. There is none
    /// for a pool that is not known.
    pub fn publish_barrier(&mut self, pool: &PoolId) -> (message: Option<ClusterMessage>)
        requires
            old(self).wf(),
        ensures
            final(self).wf(),
            final(self).region() == old(self).region(),
            ({
                let key = pool.key();
                let state = old(self)@.pools[key];
                match message {
                    Some(ClusterMessage::CkfBarrierSnapshot {
                        pool: named,
                        sequence,
                        buckets,
                        num_buckets,
                    }) => {
                        &&& old(self)@.pools.contains_key(key)
                        &&& named == *pool
                        &&& sequence == state.pub_seq.wrapping_add(1)
                        &&& buckets@ == state.buckets
                        &&& num_buckets == BUCKETS_PER_LANE
                        &&& final(self)@ == RelayView {
                            pools: old(self)@.pools.insert(
                                key,
                                ProducerState { pub_seq: sequence, dirty: Set::empty(), ..state },
                            ),
                            ..old(self)@
                        }
                    },
                    Some(_) => false,
                    None => !old(self)@.pools.contains_key(key) && final(self)@ == old(self)@,
                }
            }),
            final(self)@ == old(self)@.after_barrier(pool.key()),
            message is Some <==> old(self)@.pools.contains_key(pool.key()),
    {
        match self.producers.find(&pool.table_key()) {
            Some(at) => {
                proof {
                    self.producers.lemma_rows();
                    assert(self.producers@.contains_key(self.producers.rows()[at as int].0));
                }
                let entry: &mut PoolProducer = self.producers.value_mut(at);
                let snapshot: CkfSnapshot = entry.producer.snapshot();
                proof {
                    let key = pool.key();
                    let state = old(self)@.pools[key];
                    assert(self@.pools =~= old(self)@.pools.insert(
                        key,
                        ProducerState {
                            pub_seq: snapshot.sequence,
                            dirty: Set::empty(),
                            ..state
                        },
                    ));
                }
                Some(
                    ClusterMessage::CkfBarrierSnapshot {
                        pool: pool.clone(),
                        sequence: snapshot.sequence,
                        buckets: snapshot.buckets,
                        num_buckets: BUCKETS_PER_LANE,
                    },
                )
            },
            None => None,
        }
    }

    /// What the periodic look at pending events does: publishes if there are any.
    pub fn tick(&mut self) -> (messages: Vec<ClusterMessage>)
        requires
            old(self).wf(),
        ensures
            final(self).wf(),
            final(self).region() == old(self).region(),
            old(self)@.pending > 0 ==> final(self)@ == old(self)@.flushed() && publish_all(
                messages@,
                old(self)@.pools,
            ),
            old(self)@.pending == 0 ==> final(self)@ == old(self)@ && messages@.len() == 0,
            final(self)@ == old(self)@.after_tick(),
    {
        if self.pending > 0 {
            self.flush()
        } else {
            Vec::new()
        }
    }

    /// Time between looks at pending events in milliseconds, at least one.
    pub fn tick_interval_ms(&self) -> (interval: u64)
        ensures
            interval == (if self@.delay_ms == 0 {
                1
            } else {
                self@.delay_ms
            }),
    {
        if self.publication_delay_ms == 0 {
            1
        } else {
            self.publication_delay_ms
        }
    }

    /// Number of events since the last publication.
    pub fn pending_count(&self) -> (n: usize)
        ensures
            n == self@.pending,
    {
        self.pending
    }

    /// Number of pools.
    pub fn pool_count(&self) -> (n: usize)
        requires
            self.wf(),
        ensures
            n == self@.pools.dom().len(),
    {
        proof {
            assert(self@.pools.dom() =~= self.producers@.dom());
        }
        self.producers.len()
    }

    /// Number of fingerprints in the lane of a pool.
    pub fn producer_snapshot(&self, pool: &PoolId) -> (items: Option<u64>)
        requires
            self.wf(),
        ensures
            match items {
                Some(n) => self@.pools.contains_key(pool.key()) && n
                    == self@.pools[pool.key()].num_items,
                None => !self@.pools.contains_key(pool.key()),
            },
    {
        match self.producers.get(&pool.table_key()) {
            Some(entry) => Some(entry.producer.num_items()),
            None => None,
        }
    }

    /// The relay's region.
    pub fn self_region(&self) -> (region: &RegionId)
        ensures
            region@ == self.region(),
    {
        &self.self_region
    }
}

/// After the changes of all pools were published, there is nothing to publish.
pub proof fn publishing_twice_publishes_once(
    relay: RelayView,
    messages: Seq<ClusterMessage>,
)
    requires
        publish_all(messages, relay.flushed().pools),
    ensures
        messages.len() == 0,
{
    if messages.len() > 0 {
        let key = pool_of(messages[0]);
        assert(relay.flushed().pools[key] == published(relay.pools[key]));
    }
}

/// A member that had a pool's lane as it was at the last publication has it as it is when it
/// applies the changes that are published.
pub proof fn published_changes_bring_a_copy_up_to_date(
    message: ClusterMessage,
    state: ProducerState,
    key: KeyView,
    copy: Seq<u64>,
)
    requires
        state.valid(),
        publishes(message, key, state),
        ckf_producer::differs_where_noted(copy, state),
    ensures
        ckf_producer::patched(copy, message->dirty_buckets@) == state.buckets,
{
    ckf_producer::a_delta_brings_a_copy_up_to_date(state, copy, message->dirty_buckets@);
}

/// Publications of a pool follow one another: each names the one before it, whatever event came in
/// between, and its own number is the next.
pub proof fn publications_follow_one_another(
    first: ClusterMessage,
    second: ClusterMessage,
    key: KeyView,
    state: ProducerState,
    event: KvCacheEvent,
    backend: KeyView,
)
    requires
        state.valid(),
        state.dirty != Set::<usize>::empty(),
        publishes(first, key, state),
        publishes(second, key, published(state).apply(event@, backend)),
    ensures
        first is CkfDelta,
        second is CkfDelta,
        second->CkfDelta_prev_sequence == first->CkfDelta_sequence,
        first->CkfDelta_sequence == if first->CkfDelta_prev_sequence == u64::MAX {
            0
        } else {
            first->CkfDelta_prev_sequence + 1
        },
        first->CkfDelta_pool.key() == key,
        second->CkfDelta_pool.key() == key,
{
    lemma_published_is_valid(state);
    ckf_producer::events_publish_nothing(published(state), event, backend);
}

proof fn lemma_published_is_valid(state: ProducerState)
    requires
        state.valid(),
    ensures
        published(state).valid(),
{
    let after = published(state);
    let stored = choose|stored: Set<u64>| ckf_producer::accounts_for(state, stored);
    assert(ckf_producer::accounts_for(after, stored));
    assert forall|backend: KeyView| (#[trigger] after.blocks_of(backend)).no_duplicates() by {
        assert(after.blocks_of(backend) == state.blocks_of(backend));
    }
    assert forall|hash: u64, backend: KeyView|
        #![trigger after.holds(hash, backend)]
        after.holds(hash, backend) == after.blocks_of(backend).contains(hash) by {
        assert(after.holds(hash, backend) == state.holds(hash, backend));
        assert(after.blocks_of(backend) == state.blocks_of(backend));
    }
}

/// An event is counted, and reaches the producer of its pool alone: that of a pool that is not known
/// yet starts empty.
pub proof fn an_event_reaches_its_pool_alone(
    relay: RelayView,
    pool: KeyView,
    event: KvCacheEvent,
    backend: KeyView,
    other: KeyView,
)
    ensures
        ({
            let after = relay.noted(pool, event@, backend);
            &&& after.pending == relay.pending + 1
            &&& after.threshold == relay.threshold
            &&& after.delay_ms == relay.delay_ms
            &&& after.pools.contains_key(other) == (relay.pools.contains_key(other) || other
                == pool)
            &&& other != pool ==> after.pools[other] == relay.pools[other]
            &&& relay.pools.contains_key(pool) ==> after.pools[pool] == relay.pools[pool].apply(
                event@,
                backend,
            )
            &&& !relay.pools.contains_key(pool) ==> after.pools[pool] == ProducerState::empty(
                CKF_PRODUCER_DEFAULT_SEED,
            ).apply(event@, backend)
        }),
{
}

/// Publishing leaves nothing pending and nothing to publish; what the producers hold stays as it was,
/// and no pool is lost. A producer with changes takes the next number, one without keeps its own.
pub proof fn publishing_keeps_what_is_held(relay: RelayView, key: KeyView)
    ensures
        relay.flushed().pending == 0,
        relay.flushed().threshold == relay.threshold,
        relay.flushed().delay_ms == relay.delay_ms,
        relay.flushed().pools.contains_key(key) == relay.pools.contains_key(key),
        relay.pools.contains_key(key) ==> {
            let before = relay.pools[key];
            let after = relay.flushed().pools[key];
            &&& after.dirty == Set::<usize>::empty()
            &&& after.buckets == before.buckets
            &&& after.owners == before.owners
            &&& after.held == before.held
            &&& after.num_items == before.num_items
            &&& after.random == before.random
            &&& after.generations == before.generations
            &&& before.dirty == Set::<usize>::empty() ==> after.pub_seq == before.pub_seq
            &&& before.dirty != Set::<usize>::empty() ==> after.pub_seq == before.pub_seq.wrapping_add(
                1,
            )
        },
{
}

/// Exactly one message is published for each pool with changes, and none for another: it carries the
/// changed buckets and the producer's next number.
pub proof fn each_changed_pool_is_published_once(
    relay: RelayView,
    messages: Seq<ClusterMessage>,
    i: int,
    j: int,
    key: KeyView,
)
    requires
        publish_all(messages, relay.pools),
    ensures
        relay.pools.contains_key(key) && relay.pools[key].dirty != Set::<usize>::empty() <==> exists|
            k: int,
        |
            0 <= k < messages.len() && #[trigger] pool_of(messages[k]) == key,
        0 <= i < messages.len() ==> messages[i] is CkfDelta && {
            let state = relay.pools[messages[i]->CkfDelta_pool.key()];
            &&& messages[i]->CkfDelta_prev_sequence == state.pub_seq
            &&& messages[i]->CkfDelta_sequence == relay.flushed().pools[messages[i]->CkfDelta_pool.key()].pub_seq
            &&& ckf_producer::lists_buckets(
                messages[i]->CkfDelta_dirty_buckets@,
                state.dirty,
                state.buckets,
            )
        },
        0 <= i < j < messages.len() ==> messages[i]->CkfDelta_pool.key()
            != messages[j]->CkfDelta_pool.key(),
{
    if relay.pools.contains_key(key) && relay.pools[key].dirty != Set::<usize>::empty() {
        let k = choose|k: int| 0 <= k < messages.len() && pool_of(#[trigger] messages[k]) == key;
        assert(pool_of(messages[k]) == key);
    }
    if exists|k: int| 0 <= k < messages.len() && #[trigger] pool_of(messages[k]) == key {
        let k = choose|k: int| 0 <= k < messages.len() && #[trigger] pool_of(messages[k]) == key;
        assert(pools_has(relay, messages[k]));
    }
    if 0 <= i < messages.len() {
        assert(pools_has(relay, messages[i]));
        if i < j < messages.len() {
            assert(pools_has(relay, messages[j]));
        }
    }
}

spec fn pools_has(relay: RelayView, message: ClusterMessage) -> bool {
    relay.pools.contains_key(pool_of(message))
}

/// The event that makes up the number it takes publishes the changes of all pools and starts the count
/// again; one before it publishes nothing.
pub proof fn events_are_published_in_batches(
    relay: RelayView,
    pool: KeyView,
    event: KvCacheEvent,
    backend: KeyView,
    key: KeyView,
)
    ensures
        ({
            let after = relay.after_event(pool, event@, backend);
            &&& relay.pending + 1 < relay.threshold ==> after.pending == relay.pending + 1 && (
            relay.pools.contains_key(key) && key != pool ==> after.pools[key] == relay.pools[key])
            &&& relay.pending + 1 < relay.threshold && relay.pools.contains_key(pool)
                ==> after.pools[pool] == relay.pools[pool].apply(event@, backend)
            &&& relay.pending + 1 >= relay.threshold ==> after.pending == 0 && (
            after.pools.contains_key(key) ==> after.pools[key].dirty == Set::<usize>::empty())
            &&& relay.pools.contains_key(key) && key != pool ==> after.pools[key].buckets
                == relay.pools[key].buckets
            &&& relay.pools.contains_key(pool) ==> after.pools[pool].buckets
                == relay.pools[pool].apply(event@, backend).buckets && after.pools[pool].owners
                == relay.pools[pool].apply(event@, backend).owners
            &&& after.threshold == relay.threshold
        }),
{
}

/// A lane that is published as a whole has nothing left to publish, is as it was, and takes the next
/// number, which the next delta names as the one before it. Other pools and the count of events stay.
pub proof fn a_barrier_starts_a_pool_afresh(
    relay: RelayView,
    pool: KeyView,
    event: KvCacheEvent,
    backend: KeyView,
    message: ClusterMessage,
    other: KeyView,
)
    requires
        relay.pools.contains_key(pool),
        relay.pools[pool].valid(),
        other != pool,
    ensures
        ({
            let before = relay.pools[pool];
            let after = relay.after_barrier(pool).pools[pool];
            &&& after.dirty == Set::<usize>::empty()
            &&& after.buckets == before.buckets && after.owners == before.owners && after.held
                == before.held && after.num_items == before.num_items
            &&& publishes(message, pool, after.apply(event@, backend)) ==> message is CkfDelta
                && message->CkfDelta_prev_sequence == before.pub_seq.wrapping_add(1)
            &&& relay.after_barrier(pool).pending == relay.pending
            &&& relay.after_barrier(pool).pools.contains_key(other) == relay.pools.contains_key(other)
            &&& relay.after_barrier(pool).pools[other] == relay.pools[other]
        }),
{
    let before = relay.pools[pool];
    let after = relay.after_barrier(pool).pools[pool];
    let stored = choose|stored: Set<u64>| ckf_producer::accounts_for(before, stored);
    assert(ckf_producer::accounts_for(after, stored));
    assert forall|backend: KeyView| (#[trigger] after.blocks_of(backend)).no_duplicates() by {
        assert(after.blocks_of(backend) == before.blocks_of(backend));
    }
    assert forall|hash: u64, backend: KeyView|
        #![trigger after.holds(hash, backend)]
        after.holds(hash, backend) == after.blocks_of(backend).contains(hash) by {
        assert(after.holds(hash, backend) == before.holds(hash, backend));
        assert(after.blocks_of(backend) == before.blocks_of(backend));
    }
    ckf_producer::events_publish_nothing(after, event, backend);
}

/// After a look at pending events none is left, and what they changed is published; without any, nothing
/// changes.
pub proof fn a_tick_leaves_nothing_pending(relay: RelayView, key: KeyView)
    ensures
        relay.after_tick().pending == 0,
        relay.pending == 0 ==> relay.after_tick() == relay,
        relay.pending > 0 && relay.pools.contains_key(key) ==> relay.after_tick().pools[key].dirty
            == Set::<usize>::empty(),
        relay.pools.contains_key(key) ==> relay.after_tick().pools[key].buckets
            == relay.pools[key].buckets && relay.after_tick().pools[key].owners
            == relay.pools[key].owners,
{
}

} // verus!
