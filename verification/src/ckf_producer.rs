//! The producer of a pool's filter lane: which backends hold which blocks, the fingerprints of the
//! blocks that are held, and the publications of both.
//!
//! - A block's first holder stores its fingerprint; further holders are only noted.
//! - When the last holder gives a block up, its fingerprint is deleted.
//! - `Clear` gives up all blocks of one backend, `Reset` empties the producer, unless a later
//!   generation of the backend is known.
//! - Buckets that were written, by whatever event, are published with the next delta.

use std::collections::HashMap;

use vstd::prelude::*;

use crate::cuckoo_filter;
use crate::cuckoo_filter::{CkfDelta, CkfSnapshot, PackedBucket, BUCKETS_PER_LANE};
use crate::ids;
use crate::ids::BackendId;
use crate::kv_event;
use crate::kv_event::{stale, KvCacheEvent, KvChange};
use crate::lane;
use crate::lane::{delete_fingerprint, insert_fingerprint};
use crate::table::{KeyView, Table, TableKey};

verus! {

broadcast use vstd::std_specs::hash::group_hash_axioms;

/// Seed of the eviction generator, unless one is given.
pub const CKF_PRODUCER_DEFAULT_SEED: u64 = 0xA7C5_4B7E_38A1_2F5D;

/// What a producer knows.
#[verifier::ext_equal]
pub struct ProducerState {
    /// Buckets of the lane.
    pub buckets: Seq<PackedBucket>,
    /// Number of fingerprints in the lane.
    pub num_items: int,
    /// Buckets written since the last publication, by whatever event.
    pub dirty: Set<usize>,
    /// Sequence number of the last publication.
    pub pub_seq: u64,
    /// The holders of each held block.
    pub owners: Map<u64, Set<KeyView>>,
    /// The blocks of each backend, in the order in which it stored them.
    pub held: Map<KeyView, Seq<u64>>,
    /// State of the eviction generator.
    pub random: u64,
    /// The generation of each backend's last reset.
    pub generations: Map<KeyView, u64>,
}

impl ProducerState {
    /// An empty producer.
    pub open spec fn empty(seed: u64) -> ProducerState {
        ProducerState {
            buckets: Seq::new(BUCKETS_PER_LANE as nat, |i: int| 0u64),
            num_items: 0,
            dirty: Set::empty(),
            pub_seq: 0,
            owners: Map::empty(),
            held: Map::empty(),
            random: seed,
            generations: Map::empty(),
        }
    }

    /// Whether `backend` holds `hash`.
    pub open spec fn holds(self, hash: u64, backend: KeyView) -> bool {
        self.owners.contains_key(hash) && self.owners[hash].contains(backend)
    }

    /// The blocks of `backend`, in the order in which it stored them.
    pub open spec fn blocks_of(self, backend: KeyView) -> Seq<u64> {
        if self.held.contains_key(backend) {
            self.held[backend]
        } else {
            Seq::empty()
        }
    }

    /// The lane with the fingerprint of `hash` stored, if there is a place for it.
    pub open spec fn with_fingerprint(self, hash: u64) -> ProducerState {
        let outcome = lane::lane_insert(self.buckets, self.random, hash);
        match outcome.0 {
            Some(stored) => ProducerState {
                buckets: stored.buckets,
                num_items: self.num_items + 1,
                dirty: self.dirty.union(stored.written),
                random: outcome.1,
                ..self
            },
            None => ProducerState { random: outcome.1, ..self },
        }
    }

    /// The lane with one occurrence of the fingerprint of `hash` deleted, if there is one.
    pub open spec fn without_fingerprint(self, hash: u64) -> ProducerState {
        match lane::delete_at(self.buckets, hash) {
            Some(at) => ProducerState {
                buckets: lane::lane_delete(self.buckets, hash),
                num_items: self.num_items - 1,
                dirty: self.dirty.insert(at as usize),
                ..self
            },
            None => self,
        }
    }

    /// `backend` stores `hash`.
    pub open spec fn store(self, hash: u64, backend: KeyView) -> ProducerState {
        if self.holds(hash, backend) {
            self
        } else {
            let first = !self.owners.contains_key(hash);
            let holders = if first {
                Set::empty()
            } else {
                self.owners[hash]
            };
            let noted = ProducerState {
                owners: self.owners.insert(hash, holders.insert(backend)),
                held: self.held.insert(backend, self.blocks_of(backend).push(hash)),
                ..self
            };
            if first {
                noted.with_fingerprint(hash)
            } else {
                noted
            }
        }
    }

    /// `backend` is no longer a holder of `hash`.
    pub open spec fn give_up(self, hash: u64, backend: KeyView) -> ProducerState {
        if !self.holds(hash, backend) {
            self
        } else if self.owners[hash] == set![backend] {
            ProducerState {
                owners: self.owners.remove(hash),
                ..self.without_fingerprint(hash)
            }
        } else {
            ProducerState {
                owners: self.owners.insert(hash, self.owners[hash].remove(backend)),
                ..self
            }
        }
    }

    /// `backend` removes `hash`.
    pub open spec fn remove(self, hash: u64, backend: KeyView) -> ProducerState {
        if !self.holds(hash, backend) {
            self
        } else {
            let left = self.give_up(hash, backend);
            ProducerState {
                held: self.held.insert(backend, without(self.blocks_of(backend), hash)),
                ..left
            }
        }
    }

    /// `backend` stores some blocks, one after the other.
    pub open spec fn store_all(self, hashes: Seq<u64>, backend: KeyView) -> ProducerState
        decreases hashes.len(),
    {
        if hashes.len() == 0 {
            self
        } else {
            self.store_all(hashes.drop_last(), backend).store(hashes.last(), backend)
        }
    }

    /// `backend` removes some blocks, one after the other.
    pub open spec fn remove_all(self, hashes: Seq<u64>, backend: KeyView) -> ProducerState
        decreases hashes.len(),
    {
        if hashes.len() == 0 {
            self
        } else {
            self.remove_all(hashes.drop_last(), backend).remove(hashes.last(), backend)
        }
    }

    /// `backend` gives some blocks up, one after the other.
    pub open spec fn give_up_all(self, hashes: Seq<u64>, backend: KeyView) -> ProducerState
        decreases hashes.len(),
    {
        if hashes.len() == 0 {
            self
        } else {
            self.give_up_all(hashes.drop_last(), backend).give_up(hashes.last(), backend)
        }
    }

    /// `backend` gives up all its blocks.
    pub open spec fn clear(self, backend: KeyView) -> ProducerState {
        let forgotten = ProducerState { held: self.held.remove(backend), ..self };
        forgotten.give_up_all(self.blocks_of(backend), backend)
    }

    /// `backend` starts anew under `generation`: an emptied producer, which goes on with the same
    /// generator and sequence numbers, and notes the buckets that it emptied. If a later generation
    /// of the backend is known, nothing happens.
    pub open spec fn reset(self, backend: KeyView, generation: u64) -> ProducerState {
        if kv_event::is_stale(self.generations, backend, generation) {
            self
        } else {
            ProducerState {
                dirty: self.dirty.union(filled(self.buckets)),
                pub_seq: self.pub_seq,
                generations: self.generations.insert(backend, generation),
                ..ProducerState::empty(self.random)
            }
        }
    }

    /// A change to the blocks of `backend`.
    pub open spec fn apply(self, change: KvChange, backend: KeyView) -> ProducerState {
        match change {
            KvChange::Store(hashes) => self.store_all(hashes, backend),
            KvChange::Remove(hashes) => self.remove_all(hashes, backend),
            KvChange::Clear => self.clear(backend),
            KvChange::Reset(generation) => self.reset(backend, generation),
        }
    }

    /// The lane has its shape and counts its fingerprints, and a block is tracked when it has a
    /// holder.
    pub open spec fn lane_valid(self) -> bool {
        &&& lane::lane_shape(self.buckets)
        &&& self.num_items == lane::occupied(self.buckets)
        &&& forall|index: usize| #[trigger] self.dirty.contains(index) ==> index < BUCKETS_PER_LANE
        &&& self.owners.dom().finite()
        &&& forall|hash: u64| #[trigger]
            self.owners.contains_key(hash) ==> has_holder(self.owners[hash])
    }

    /// What every producer keeps: a valid lane with no more fingerprints than there are held
    /// blocks, each of them that of a held block, and for each backend a list that holds exactly
    /// its blocks, once each.
    pub open spec fn valid(self) -> bool {
        &&& self.lane_valid()
        &&& self.num_items <= self.owners.dom().len()
        &&& accounted(self)
        &&& forall|backend: KeyView| (#[trigger] self.blocks_of(backend)).no_duplicates()
        &&& forall|hash: u64, backend: KeyView|
            #![trigger self.holds(hash, backend)]
            self.holds(hash, backend) == self.blocks_of(backend).contains(hash)
    }
}

/// Indices of the buckets of a lane that hold anything.
pub open spec fn filled(buckets: Seq<PackedBucket>) -> Set<usize> {
    Set::new(|index: usize| index < BUCKETS_PER_LANE && buckets[index as int] != 0)
}

/// Those of some blocks whose fingerprint is `fp` and one of whose candidate buckets is `at`.
pub open spec fn in_class(hashes: Set<u64>, fp: cuckoo_filter::Fp, at: u64) -> Set<u64> {
    hashes.filter(
        |hash: u64|
            cuckoo_filter::fp_of(hash) == fp && lane::same_class(
                cuckoo_filter::bucket_of(hash),
                at,
                fp,
            ),
    )
}

/// Whether the fingerprints in the lane are those of the blocks `stored`, which are held: each
/// occurs, in its two candidate buckets, once for each of these blocks that has it.
pub open spec fn accounts_for(state: ProducerState, stored: Set<u64>) -> bool {
    &&& stored.finite()
    &&& stored.subset_of(state.owners.dom())
    &&& stored.len() == state.num_items
    &&& forall|fp: cuckoo_filter::Fp, at: u64|
        #![trigger lane::class_count(state.buckets, fp, at)]
        fp != 0 && at < BUCKETS_PER_LANE ==> lane::class_count(state.buckets, fp, at) == in_class(
            stored,
            fp,
            at,
        ).len()
}

/// Whether the fingerprints in the lane are those of some held blocks.
pub open spec fn accounted(state: ProducerState) -> bool {
    exists|stored: Set<u64>| accounts_for(state, stored)
}

/// Whether a block is held by anyone.
pub open spec fn has_holder(holders: Set<KeyView>) -> bool {
    exists|backend: KeyView| holders.contains(backend)
}

/// A list without `hash`, its other elements in their order.
pub open spec fn without(hashes: Seq<u64>, hash: u64) -> Seq<u64> {
    hashes.remove(hashes.index_of(hash))
}

/// Insertion writes only buckets of the lane, among them all that change.
proof fn lemma_kick_written(
    buckets: Seq<PackedBucket>,
    random: u64,
    at: u64,
    fp: cuckoo_filter::Fp,
    left: nat,
)
    requires
        lane::lane_shape(buckets),
        at < BUCKETS_PER_LANE,
        fp != 0,
        lane::is_full(buckets[at as int]),
        lane::kick_walk(buckets, random, at, fp, left).0 is Some,
    ensures
        ({
            let stored = lane::kick_walk(buckets, random, at, fp, left).0->0;
            &&& stored.buckets.len() == buckets.len()
            &&& forall|i: usize| #[trigger] stored.written.contains(i) ==> i < BUCKETS_PER_LANE
            &&& forall|i: usize|
                i < BUCKETS_PER_LANE && !#[trigger] stored.written.contains(i)
                    ==> stored.buckets[i as int] == buckets[i as int]
        }),
    decreases left,
{
    let stepped = lane::random_step(random);
    let word = lane::random_word(stepped);
    let victim = word & 3;
    assert(word & 3 < 4) by (bit_vector);
    let here = buckets[at as int];
    let evicted = cuckoo_filter::slots(here)[victim as int];
    cuckoo_filter::lemma_first_slot(here, 0);
    let kicked = buckets.update(at as int, cuckoo_filter::put_slot(here, victim, fp));
    let next = cuckoo_filter::alt_of(at, evicted);
    cuckoo_filter::alt_index_is_an_involution(at, evicted);
    if cuckoo_filter::bucket_insert(kicked[next as int], evicted) is None {
        lemma_kick_written(kicked, stepped, next, evicted, (left - 1) as nat);
    }
}

/// Insertion writes only buckets of the lane, among them all that change.
proof fn lemma_insert_written(buckets: Seq<PackedBucket>, random: u64, hash: u64)
    requires
        lane::lane_shape(buckets),
        lane::lane_insert(buckets, random, hash).0 is Some,
    ensures
        ({
            let stored = lane::lane_insert(buckets, random, hash).0->0;
            &&& stored.buckets.len() == buckets.len()
            &&& forall|i: usize| #[trigger] stored.written.contains(i) ==> i < BUCKETS_PER_LANE
            &&& forall|i: usize|
                i < BUCKETS_PER_LANE && !#[trigger] stored.written.contains(i)
                    ==> stored.buckets[i as int] == buckets[i as int]
        }),
{
    let fp = cuckoo_filter::fp_of(hash);
    let a = cuckoo_filter::bucket_of(hash);
    cuckoo_filter::probe_is_in_range(hash);
    cuckoo_filter::alt_index_is_an_involution(a, fp);
    let b = cuckoo_filter::alt_of(a, fp);
    if cuckoo_filter::bucket_insert(buckets[a as int], fp) is None
        && cuckoo_filter::bucket_insert(buckets[b as int], fp) is None {
        let stepped = lane::random_step(random);
        let start = if lane::random_word(stepped) & 1 == 0 {
            a
        } else {
            b
        };
        lemma_kick_written(buckets, stepped, start, fp, cuckoo_filter::MAX_KICKS as nat);
    }
}

/// Whether the buckets that differ between two states are noted as written in the later one, on
/// top of those that were noted before.
pub open spec fn notes_changes(before: ProducerState, after: ProducerState) -> bool {
    &&& after.buckets.len() == before.buckets.len()
    &&& before.dirty.subset_of(after.dirty)
    &&& forall|i: usize|
        i < BUCKETS_PER_LANE && !#[trigger] after.dirty.contains(i) ==> after.buckets[i as int]
            == before.buckets[i as int]
}

proof fn lemma_with_fingerprint(state: ProducerState, hash: u64)
    requires
        state.lane_valid(),
    ensures
        state.with_fingerprint(hash).lane_valid(),
        notes_changes(state, state.with_fingerprint(hash)),
{
    if lane::lane_insert(state.buckets, state.random, hash).0 is Some {
        cuckoo_filter::probe_is_in_range(hash);
        lemma_insert_written(state.buckets, state.random, hash);
        lane::insert_adds_one_fingerprint(state.buckets, state.random, hash, 1, 0);
    }
}

proof fn lemma_without_fingerprint(state: ProducerState, hash: u64)
    requires
        state.lane_valid(),
    ensures
        state.without_fingerprint(hash).lane_valid(),
        notes_changes(state, state.without_fingerprint(hash)),
{
    cuckoo_filter::probe_is_in_range(hash);
    cuckoo_filter::alt_index_is_an_involution(
        cuckoo_filter::bucket_of(hash),
        cuckoo_filter::fp_of(hash),
    );
    lane::delete_takes_one_fingerprint(state.buckets, hash, 1, 0);
}

proof fn lemma_accounted_bound(state: ProducerState)
    requires
        state.lane_valid(),
        accounted(state),
    ensures
        state.num_items <= state.owners.dom().len(),
{
    let stored = choose|stored: Set<u64>| accounts_for(state, stored);
    vstd::set_lib::lemma_len_subset(stored, state.owners.dom());
}

proof fn lemma_accounted_with(state: ProducerState, other: ProducerState, stored: Set<u64>)
    requires
        accounts_for(state, stored),
        other.buckets == state.buckets,
        other.num_items == state.num_items,
        stored.subset_of(other.owners.dom()),
    ensures
        accounted(other),
{
    assert forall|fp: cuckoo_filter::Fp, at: u64|
        #![trigger lane::class_count(other.buckets, fp, at)]
        fp != 0 && at < BUCKETS_PER_LANE implies lane::class_count(other.buckets, fp, at)
        == in_class(stored, fp, at).len() by {
        assert(lane::class_count(state.buckets, fp, at) == in_class(stored, fp, at).len());
    }
    assert(accounts_for(other, stored));
}

proof fn lemma_accounted_depends_on(state: ProducerState, other: ProducerState)
    requires
        accounted(state),
        other.buckets == state.buckets,
        other.num_items == state.num_items,
        state.owners.dom().subset_of(other.owners.dom()),
    ensures
        accounted(other),
{
    let stored = choose|stored: Set<u64>| accounts_for(state, stored);
    lemma_accounted_with(state, other, stored);
}

proof fn lemma_empty_accounted(state: ProducerState)
    requires
        state.buckets == Seq::new(BUCKETS_PER_LANE as nat, |i: int| 0u64),
        state.num_items == 0,
    ensures
        accounted(state),
{
    lane::lemma_empty_bucket();
    assert forall|fp: cuckoo_filter::Fp, at: u64|
        #![trigger lane::class_count(state.buckets, fp, at)]
        fp != 0 && at < BUCKETS_PER_LANE implies lane::class_count(state.buckets, fp, at)
        == in_class(Set::empty(), fp, at).len() by {
        cuckoo_filter::alt_index_is_an_involution(at, fp);
        assert(in_class(Set::empty(), fp, at) =~= Set::empty());
    }
    assert(accounts_for(state, Set::empty()));
}

proof fn lemma_store_accounted(state: ProducerState, hash: u64, backend: KeyView)
    requires
        state.lane_valid(),
        accounted(state),
    ensures
        accounted(state.store(hash, backend)),
{
    let after = state.store(hash, backend);
    if state.owners.contains_key(hash) || lane::lane_insert(
        state.buckets,
        state.random,
        hash,
    ).0 is None {
        lemma_accounted_depends_on(state, after);
    } else {
        let before = choose|stored: Set<u64>| accounts_for(state, stored);
        assert(!before.contains(hash));
        let stored = before.insert(hash);
        assert forall|fp: cuckoo_filter::Fp, at: u64|
            #![trigger lane::class_count(after.buckets, fp, at)]
            fp != 0 && at < BUCKETS_PER_LANE implies lane::class_count(after.buckets, fp, at)
            == in_class(stored, fp, at).len() by {
            assert(lane::class_count(state.buckets, fp, at) == in_class(before, fp, at).len());
            lane::insert_adds_one_fingerprint(state.buckets, state.random, hash, fp, at);
            if cuckoo_filter::fp_of(hash) == fp && lane::same_class(
                cuckoo_filter::bucket_of(hash),
                at,
                fp,
            ) {
                assert(in_class(stored, fp, at) =~= in_class(before, fp, at).insert(hash));
            } else {
                assert(in_class(stored, fp, at) =~= in_class(before, fp, at));
            }
        }
        assert(accounts_for(after, stored));
    }
}

proof fn lemma_last_holder_accounted(state: ProducerState, hash: u64, backend: KeyView)
    requires
        state.lane_valid(),
        accounted(state),
        state.holds(hash, backend),
        state.owners[hash] == set![backend],
    ensures
        accounted(state.give_up(hash, backend)),
{
    let after = state.give_up(hash, backend);
    let own = cuckoo_filter::fp_of(hash);
    let home = cuckoo_filter::bucket_of(hash);
    cuckoo_filter::probe_is_in_range(hash);
    lane::delete_takes_one_fingerprint(state.buckets, hash, own, home);
    let before = choose|stored: Set<u64>| accounts_for(state, stored);
    assert(lane::class_count(state.buckets, own, home) == in_class(before, own, home).len());
    if lane::delete_at(state.buckets, hash) is None {
        if before.contains(hash) {
            assert(in_class(before, own, home).contains(hash));
        }
        lemma_accounted_with(state, after, before);
    } else {
        let other = choose|other: u64| in_class(before, own, home).contains(other);
        assert(in_class(before, own, home).contains(other)) by {
            if forall|h: u64| !in_class(before, own, home).contains(h) {
                assert(in_class(before, own, home) =~= Set::empty());
            }
        }
        let taken = if before.contains(hash) {
            hash
        } else {
            other
        };
        let stored = before.remove(taken);
        cuckoo_filter::probe_is_in_range(taken);
        cuckoo_filter::alt_index_is_an_involution(cuckoo_filter::bucket_of(taken), own);
        cuckoo_filter::alt_index_is_an_involution(home, own);
        assert forall|fp: cuckoo_filter::Fp, at: u64|
            #![trigger lane::class_count(after.buckets, fp, at)]
            fp != 0 && at < BUCKETS_PER_LANE implies lane::class_count(after.buckets, fp, at)
            == in_class(stored, fp, at).len() by {
            assert(lane::class_count(state.buckets, fp, at) == in_class(before, fp, at).len());
            lane::delete_takes_one_fingerprint(state.buckets, hash, fp, at);
            if own == fp && lane::same_class(home, at, fp) {
                assert(in_class(before, fp, at).contains(taken));
                assert(in_class(stored, fp, at) =~= in_class(before, fp, at).remove(taken));
            } else {
                assert(!in_class(before, fp, at).contains(taken));
                assert(in_class(stored, fp, at) =~= in_class(before, fp, at));
            }
        }
        assert(accounts_for(after, stored));
    }
}

proof fn lemma_give_up_accounted(state: ProducerState, hash: u64, backend: KeyView)
    requires
        state.lane_valid(),
        accounted(state),
    ensures
        accounted(state.give_up(hash, backend)),
{
    if state.holds(hash, backend) && state.owners[hash] == set![backend] {
        lemma_last_holder_accounted(state, hash, backend);
    } else {
        lemma_accounted_depends_on(state, state.give_up(hash, backend));
    }
}

proof fn lemma_give_up_all_accounted(state: ProducerState, hashes: Seq<u64>, backend: KeyView)
    requires
        state.lane_valid(),
        accounted(state),
    ensures
        accounted(state.give_up_all(hashes, backend)),
    decreases hashes.len(),
{
    if hashes.len() > 0 {
        lemma_give_up_all_accounted(state, hashes.drop_last(), backend);
        lemma_give_up_all(state, hashes.drop_last(), backend);
        lemma_give_up_accounted(
            state.give_up_all(hashes.drop_last(), backend),
            hashes.last(),
            backend,
        );
    }
}

proof fn lemma_store(state: ProducerState, hash: u64, backend: KeyView)
    requires
        state.valid(),
    ensures
        state.store(hash, backend).valid(),
        notes_changes(state, state.store(hash, backend)),
{
    let after = state.store(hash, backend);
    if !state.holds(hash, backend) {
        let first = !state.owners.contains_key(hash);
        let holders = if first {
            Set::empty()
        } else {
            state.owners[hash]
        };
        let noted = ProducerState {
            owners: state.owners.insert(hash, holders.insert(backend)),
            held: state.held.insert(backend, state.blocks_of(backend).push(hash)),
            ..state
        };
        assert(noted.owners[hash].contains(backend));
        assert forall|h: u64| #[trigger] noted.owners.contains_key(h) implies has_holder(
            noted.owners[h],
        ) by {
            if h != hash {
                assert(state.owners.contains_key(h));
            }
        }
        assert(noted.lane_valid());
        if first {
            lemma_with_fingerprint(noted, hash);
        }
        lemma_store_accounted(state, hash, backend);
        lemma_accounted_bound(after);
        assert(!state.blocks_of(backend).contains(hash));
        assert forall|k: KeyView| (#[trigger] after.blocks_of(k)).no_duplicates() by {
            assert(state.blocks_of(k).no_duplicates());
            if k == backend {
                assert(after.blocks_of(k) == state.blocks_of(k).push(hash));
            } else {
                assert(after.blocks_of(k) == state.blocks_of(k));
            }
        }
        assert forall|h: u64, k: KeyView|
            #![trigger after.holds(h, k)]
            after.holds(h, k) == after.blocks_of(k).contains(h) by {
            assert(state.holds(h, k) == state.blocks_of(k).contains(h));
            if k == backend {
                let list = state.blocks_of(k);
                assert(after.blocks_of(k) == list.push(hash));
                assert(list.push(hash)[list.len() as int] == hash);
                if list.contains(h) {
                    let i = list.index_of(h);
                    assert(list.push(hash)[i] == h);
                }
                if list.push(hash).contains(h) && h != hash {
                    let i = list.push(hash).index_of(h);
                    assert(list[i] == h);
                }
            } else {
                assert(after.blocks_of(k) == state.blocks_of(k));
            }
        }
    }
}

proof fn lemma_give_up(state: ProducerState, hash: u64, backend: KeyView)
    requires
        state.lane_valid(),
    ensures
        state.give_up(hash, backend).lane_valid(),
        notes_changes(state, state.give_up(hash, backend)),
        state.give_up(hash, backend).held == state.held,
        forall|h: u64, k: KeyView|
            #![trigger state.give_up(hash, backend).holds(h, k)]
            state.give_up(hash, backend).holds(h, k) == (state.holds(h, k) && !(h == hash && k
                == backend)),
{
    let after = state.give_up(hash, backend);
    if state.holds(hash, backend) {
        if state.owners[hash] == set![backend] {
            lemma_without_fingerprint(state, hash);
        } else {
            assert(has_holder(after.owners[hash])) by {
                let rest = state.owners[hash].remove(backend);
                if forall|k: KeyView| !rest.contains(k) {
                    assert(state.owners[hash] =~= set![backend]);
                    assert(false);
                }
                let k = choose|k: KeyView| rest.contains(k);
                assert(after.owners[hash].contains(k));
            }
            assert forall|h: u64| #[trigger] after.owners.contains_key(h) implies has_holder(
                after.owners[h],
            ) by {
                if h != hash {
                    assert(state.owners.contains_key(h));
                }
            }
        }
    }
}

proof fn lemma_remove(state: ProducerState, hash: u64, backend: KeyView)
    requires
        state.valid(),
    ensures
        state.remove(hash, backend).valid(),
        notes_changes(state, state.remove(hash, backend)),
{
    let after = state.remove(hash, backend);
    lemma_give_up(state, hash, backend);
    if state.holds(hash, backend) {
        let left = state.give_up(hash, backend);
        lemma_give_up_accounted(state, hash, backend);
        lemma_accounted_depends_on(left, after);
        lemma_accounted_bound(after);
        let list = state.blocks_of(backend);
        let at = list.index_of(hash);
        let shorter = without(list, hash);
        assert(list.contains(hash));
        assert(0 <= at < list.len() && list[at] == hash);
        assert(list.no_duplicates());
        assert forall|i: int, j: int|
            0 <= i < shorter.len() && 0 <= j < shorter.len() && i != j implies shorter[i]
            != shorter[j] by {}
        assert forall|h: u64| shorter.contains(h) == (list.contains(h) && h != hash) by {
            if shorter.contains(h) {
                let i = choose|i: int| 0 <= i < shorter.len() && shorter[i] == h;
                if i < at {
                    assert(list[i] == h);
                } else {
                    assert(list[i + 1] == h);
                }
            }
            if list.contains(h) && h != hash {
                let i = list.index_of(h);
                if i < at {
                    assert(shorter[i] == h);
                } else {
                    assert(shorter[i - 1] == h);
                }
            }
        }
        assert forall|k: KeyView| (#[trigger] after.blocks_of(k)).no_duplicates() by {
            assert(state.blocks_of(k).no_duplicates());
            if k == backend {
                assert(after.blocks_of(k) == shorter);
            } else {
                assert(after.blocks_of(k) == state.blocks_of(k));
            }
        }
        assert forall|h: u64, k: KeyView|
            #![trigger after.holds(h, k)]
            after.holds(h, k) == after.blocks_of(k).contains(h) by {
            assert(left.holds(h, k) == (state.holds(h, k) && !(h == hash && k == backend)));
            assert(after.holds(h, k) == left.holds(h, k));
            assert(state.holds(h, k) == state.blocks_of(k).contains(h));
            if k == backend {
                assert(after.blocks_of(k) == shorter);
            } else {
                assert(after.blocks_of(k) == state.blocks_of(k));
            }
        }
    }
}

proof fn lemma_give_up_all(state: ProducerState, hashes: Seq<u64>, backend: KeyView)
    requires
        state.lane_valid(),
    ensures
        state.give_up_all(hashes, backend).lane_valid(),
        notes_changes(state, state.give_up_all(hashes, backend)),
        state.give_up_all(hashes, backend).held == state.held,
        forall|h: u64, k: KeyView|
            #![trigger state.give_up_all(hashes, backend).holds(h, k)]
            state.give_up_all(hashes, backend).holds(h, k) == (state.holds(h, k) && !(
            hashes.contains(h) && k == backend)),
    decreases hashes.len(),
{
    if hashes.len() > 0 {
        let before = state.give_up_all(hashes.drop_last(), backend);
        lemma_give_up_all(state, hashes.drop_last(), backend);
        lemma_give_up(before, hashes.last(), backend);
        assert forall|h: u64, k: KeyView|
            #![trigger state.give_up_all(hashes, backend).holds(h, k)]
            state.give_up_all(hashes, backend).holds(h, k) == (state.holds(h, k) && !(
            hashes.contains(h) && k == backend)) by {
            assert(before.holds(h, k) == (state.holds(h, k) && !(hashes.drop_last().contains(h) && k
                == backend)));
            if hashes.contains(h) && h != hashes.last() {
                let i = hashes.index_of(h);
                assert(hashes.drop_last()[i] == h);
            }
            if hashes.drop_last().contains(h) {
                let i = hashes.drop_last().index_of(h);
                assert(hashes[i] == h);
            }
        }
    }
}

/// Clearing a backend leaves it without blocks, and leaves every other backend's blocks as they
/// were.
pub proof fn clear_takes_only_its_own_blocks(state: ProducerState, backend: KeyView)
    requires
        state.valid(),
    ensures
        state.clear(backend).valid(),
        notes_changes(state, state.clear(backend)),
        state.clear(backend).blocks_of(backend) == Seq::<u64>::empty(),
        forall|hash: u64, other: KeyView|
            #![trigger state.clear(backend).holds(hash, other)]
            state.clear(backend).holds(hash, other) == (state.holds(hash, other) && other
                != backend),
        forall|other: KeyView|
            other != backend ==> #[trigger] state.clear(backend).blocks_of(other)
                == state.blocks_of(other),
{
    let forgotten = ProducerState { held: state.held.remove(backend), ..state };
    let list = state.blocks_of(backend);
    let after = state.clear(backend);
    lemma_give_up_all(forgotten, list, backend);
    lemma_accounted_depends_on(state, forgotten);
    lemma_give_up_all_accounted(forgotten, list, backend);
    lemma_accounted_bound(after);
    assert forall|h: u64, k: KeyView|
        #![trigger after.holds(h, k)]
        after.holds(h, k) == (state.holds(h, k) && k != backend) by {
        assert(forgotten.holds(h, k) == state.holds(h, k));
        assert(state.holds(h, k) == state.blocks_of(k).contains(h));
        assert(after.holds(h, k) == (forgotten.holds(h, k) && !(list.contains(h) && k == backend)));
    }
    assert forall|h: u64, k: KeyView|
        #![trigger after.holds(h, k)]
        after.holds(h, k) == after.blocks_of(k).contains(h) by {
        assert(state.holds(h, k) == state.blocks_of(k).contains(h));
    }
    assert forall|k: KeyView| (#[trigger] after.blocks_of(k)).no_duplicates() by {
        assert(state.blocks_of(k).no_duplicates());
    }
}

proof fn lemma_store_all(state: ProducerState, hashes: Seq<u64>, backend: KeyView)
    requires
        state.valid(),
    ensures
        state.store_all(hashes, backend).valid(),
        notes_changes(state, state.store_all(hashes, backend)),
    decreases hashes.len(),
{
    if hashes.len() > 0 {
        lemma_store_all(state, hashes.drop_last(), backend);
        lemma_store(state.store_all(hashes.drop_last(), backend), hashes.last(), backend);
    }
}

proof fn lemma_remove_all(state: ProducerState, hashes: Seq<u64>, backend: KeyView)
    requires
        state.valid(),
    ensures
        state.remove_all(hashes, backend).valid(),
        notes_changes(state, state.remove_all(hashes, backend)),
    decreases hashes.len(),
{
    if hashes.len() > 0 {
        lemma_remove_all(state, hashes.drop_last(), backend);
        lemma_remove(state.remove_all(hashes.drop_last(), backend), hashes.last(), backend);
    }
}

/// An empty producer is valid.
pub proof fn empty_is_valid(seed: u64)
    ensures
        ProducerState::empty(seed).valid(),
{
    lane::lemma_empty_lane(ProducerState::empty(seed).buckets);
    lemma_empty_accounted(ProducerState::empty(seed));
}

/// Every event keeps a producer valid; and the buckets that it changes are noted as written, on top
/// of those noted before.
pub proof fn events_keep_a_producer_valid(
    state: ProducerState,
    change: KvChange,
    backend: KeyView,
)
    requires
        state.valid(),
    ensures
        state.apply(change, backend).valid(),
        notes_changes(state, state.apply(change, backend)),
{
    match change {
        KvChange::Store(hashes) => lemma_store_all(state, hashes, backend),
        KvChange::Remove(hashes) => lemma_remove_all(state, hashes, backend),
        KvChange::Clear => clear_takes_only_its_own_blocks(state, backend),
        KvChange::Reset(generation) => if !kv_event::is_stale(
            state.generations,
            backend,
            generation,
        ) {
            empty_is_valid(state.random);
            let after = state.reset(backend, generation);
            lemma_empty_accounted(after);
            let fresh = ProducerState::empty(state.random);
            assert forall|h: u64, k: KeyView|
                #![trigger after.holds(h, k)]
                after.holds(h, k) == after.blocks_of(k).contains(h) by {
                assert(after.holds(h, k) == fresh.holds(h, k));
                assert(after.blocks_of(k) == fresh.blocks_of(k));
            }
            assert forall|k: KeyView| (#[trigger] after.blocks_of(k)).no_duplicates() by {
                assert(after.blocks_of(k) == fresh.blocks_of(k));
            }
        },
    }
}

/// A reset to an earlier generation than that of a backend's last one changes nothing, whatever
/// events came in between: no event takes a known generation back.
pub proof fn generations_never_fall(
    state: ProducerState,
    change: KvChange,
    backend: KeyView,
    other: KeyView,
    generation: u64,
)
    requires
        kv_event::is_stale(state.generations, other, generation),
    ensures
        kv_event::is_stale(state.apply(change, backend).generations, other, generation),
        state.apply(KvChange::Reset(generation), other) == state,
{
    match change {
        KvChange::Store(hashes) => lemma_store_all_generations(state, hashes, backend),
        KvChange::Remove(hashes) => lemma_remove_all_generations(state, hashes, backend),
        KvChange::Clear => {
            let forgotten = ProducerState { held: state.held.remove(backend), ..state };
            lemma_give_up_all_generations(forgotten, state.blocks_of(backend), backend);
        },
        KvChange::Reset(_) => {},
    }
}

proof fn lemma_store_all_generations(state: ProducerState, hashes: Seq<u64>, backend: KeyView)
    ensures
        state.store_all(hashes, backend).generations == state.generations,
    decreases hashes.len(),
{
    if hashes.len() > 0 {
        lemma_store_all_generations(state, hashes.drop_last(), backend);
    }
}

proof fn lemma_remove_all_generations(state: ProducerState, hashes: Seq<u64>, backend: KeyView)
    ensures
        state.remove_all(hashes, backend).generations == state.generations,
    decreases hashes.len(),
{
    if hashes.len() > 0 {
        lemma_remove_all_generations(state, hashes.drop_last(), backend);
    }
}

proof fn lemma_give_up_all_generations(state: ProducerState, hashes: Seq<u64>, backend: KeyView)
    ensures
        state.give_up_all(hashes, backend).generations == state.generations,
    decreases hashes.len(),
{
    if hashes.len() > 0 {
        lemma_give_up_all_generations(state, hashes.drop_last(), backend);
    }
}

/// A second holder of a block changes no bucket.
pub proof fn a_second_holder_stores_nothing(state: ProducerState, hash: u64, backend: KeyView)
    requires
        state.owners.contains_key(hash),
    ensures
        state.store(hash, backend).buckets == state.buckets,
        state.store(hash, backend).num_items == state.num_items,
        state.store(hash, backend).holds(hash, backend),
{
}

/// A block that is given up by one of several holders keeps its fingerprint.
pub proof fn giving_up_a_shared_block_deletes_nothing(
    state: ProducerState,
    hash: u64,
    backend: KeyView,
    other: KeyView,
)
    requires
        other != backend,
        state.holds(hash, other),
    ensures
        state.remove(hash, backend).buckets == state.buckets,
        state.remove(hash, backend).num_items == state.num_items,
        state.remove(hash, backend).holds(hash, other),
{
    assert(!set![backend].contains(other));
}

/// The holders of a block as keys.
spec fn holder_keys(holders: Seq<BackendId>) -> Seq<KeyView> {
    holders.map_values(|backend: BackendId| ids::backend_key(backend@))
}

proof fn lemma_holder_keys(holders: Seq<BackendId>, backend: BackendId, at: int)
    requires
        holder_keys(holders).no_duplicates(),
        0 <= at < holders.len() ==> holders[at]@ == backend@,
        0 <= at < holders.len() || forall|i: int| 0 <= i < holders.len() ==> holders[i]@
            != backend@,
    ensures
        holder_keys(holders).to_set().contains(ids::backend_key(backend@)) == (0 <= at
            < holders.len()),
        !(0 <= at < holders.len()) ==> holder_keys(holders.push(backend)).no_duplicates()
            && holder_keys(holders.push(backend)).to_set() == holder_keys(holders).to_set().insert(
            ids::backend_key(backend@),
        ),
        0 <= at < holders.len() ==> holder_keys(holders.remove(at)).no_duplicates() && holder_keys(
            holders.remove(at),
        ).to_set() == holder_keys(holders).to_set().remove(ids::backend_key(backend@)),
{
    let key = ids::backend_key(backend@);
    let keys = holder_keys(holders);
    if 0 <= at < holders.len() {
        assert(keys[at] == key);
        let shorter = holder_keys(holders.remove(at));
        assert(shorter =~= keys.remove(at));
        assert forall|k: KeyView| shorter.to_set().contains(k) == keys.to_set().remove(
            key,
        ).contains(k) by {
            if shorter.contains(k) {
                let i = shorter.index_of(k);
                if i < at {
                    assert(keys[i] == k);
                } else {
                    assert(keys[i + 1] == k);
                }
            }
            if keys.contains(k) && k != key {
                let i = keys.index_of(k);
                if i < at {
                    assert(shorter[i] == k);
                } else {
                    assert(shorter[i - 1] == k);
                }
            }
        }
        assert(shorter.to_set() =~= keys.to_set().remove(key));
    } else {
        if keys.contains(key) {
            let i = keys.index_of(key);
            assert(holders[i]@ == backend@);
        }
        let longer = holder_keys(holders.push(backend));
        assert(longer =~= keys.push(key));
        assert forall|k: KeyView| longer.to_set().contains(k) == keys.to_set().insert(
            key,
        ).contains(k) by {
            if keys.contains(k) {
                let i = keys.index_of(k);
                assert(longer[i] == k);
            }
            if k == key {
                assert(longer[keys.len() as int] == k);
            }
        }
        assert(longer.to_set() =~= keys.to_set().insert(key));
    }
}

/// The position of a backend among the holders of a block.
fn holder_at(holders: &Vec<BackendId>, backend: &BackendId) -> (at: Option<usize>)
    ensures
        match at {
            Some(i) => i < holders@.len() && holders@[i as int]@ == backend@,
            None => forall|i: int| 0 <= i < holders@.len() ==> holders@[i]@ != backend@,
        },
{
    let mut i: usize = 0;
    while i < holders.len()
        invariant
            i <= holders@.len(),
            forall|j: int| 0 <= j < i ==> holders@[j]@ != backend@,
        decreases holders@.len() - i,
    {
        if holders[i].same(backend) {
            return Some(i);
        }
        i = i + 1;
    }
    None
}

/// The position of a hash in a list.
fn hash_at(hashes: &Vec<u64>, hash: u64) -> (at: usize)
    requires
        hashes@.contains(hash),
        hashes@.no_duplicates(),
    ensures
        at < hashes@.len(),
        at == hashes@.index_of(hash),
{
    let len: usize = hashes.len();
    let mut i: usize = 0;
    while hashes[i] != hash
        invariant
            i < len,
            len == hashes@.len(),
            hashes@.contains(hash),
            forall|j: int| 0 <= j < i ==> hashes@[j] != hash,
        decreases hashes@.len() - i,
    {
        proof {
            let found = hashes@.index_of(hash);
            assert(hashes@[found] == hash);
            assert(found > i);
        }
        i = i + 1;
    }
    i
}

/// Producer of one pool's filter lane.
pub struct CkfProducer {
    buckets: Vec<PackedBucket>,
    num_items: u64,
    dirty: Vec<usize>,
    pub_seq: u64,
    owners: HashMap<u64, Vec<BackendId>>,
    held: Table<Vec<u64>>,
    random: u64,
    generations: Table<u64>,
}

impl View for CkfProducer {
    type V = ProducerState;

    closed spec fn view(&self) -> ProducerState {
        ProducerState {
            buckets: self.buckets@,
            num_items: self.num_items as int,
            dirty: self.dirty@.to_set(),
            pub_seq: self.pub_seq,
            owners: self.owners@.map_values(
                |holders: Vec<BackendId>| holder_keys(holders@).to_set(),
            ),
            held: self.held@.map_values(|hashes: Vec<u64>| hashes@),
            random: self.random,
            generations: self.generations@,
        }
    }
}

impl CkfProducer {
    /// The producer is valid, and its lists hold nothing twice.
    pub closed spec fn wf(&self) -> bool {
        &&& self@.valid()
        &&& self.parts_wf()
    }

    spec fn parts_wf(&self) -> bool {
        &&& self.held.wf()
        &&& self.generations.wf()
        &&& lane::increasing(self.dirty@)
        &&& forall|hash: u64| #[trigger]
            self.owners@.contains_key(hash) ==> holder_keys(
                self.owners@[hash]@,
            ).no_duplicates()
    }

    /// A well-formed producer is valid.
    pub proof fn a_producer_is_valid(&self)
        requires
            self.wf(),
        ensures
            self@.valid(),
    {
    }

    /// An empty producer.
    pub fn new() -> (producer: Self)
        ensures
            producer.wf(),
            producer@ == ProducerState::empty(CKF_PRODUCER_DEFAULT_SEED),
    {
        CkfProducer::with_seed(CKF_PRODUCER_DEFAULT_SEED)
    }

    /// An empty producer whose evictions follow `seed`.
    pub fn with_seed(seed: u64) -> (producer: Self)
        ensures
            producer.wf(),
            producer@ == ProducerState::empty(seed),
    {
        let producer = CkfProducer {
            buckets: vec![0u64; BUCKETS_PER_LANE],
            num_items: 0,
            dirty: Vec::new(),
            pub_seq: 0,
            owners: HashMap::new(),
            held: Table::new(),
            random: seed,
            generations: Table::new(),
        };
        proof {
            assert(producer@ =~= ProducerState::empty(seed)) by {
                assert(producer@.buckets =~= ProducerState::empty(seed).buckets);
                assert(producer@.dirty =~= Set::empty());
                assert(producer@.owners =~= Map::empty());
                assert(producer@.held =~= Map::empty());
            }
            empty_is_valid(seed);
        }
        producer
    }

    /// Applies an event of `backend`. A fingerprint that finds no place is left out; the block is
    /// tracked all the same.
    pub fn apply_event(&mut self, event: &KvCacheEvent, backend: &BackendId)
        requires
            old(self).wf(),
        ensures
            final(self).wf(),
            final(self)@ == old(self)@.apply(event@, ids::backend_key(backend@)),
    {
        match event {
            KvCacheEvent::Stored { block_hashes, .. } => {
                let mut i: usize = 0;
                assert(block_hashes@.take(0) =~= Seq::empty());
                while i < block_hashes.len()
                    invariant
                        i <= block_hashes@.len(),
                        self.wf(),
                        self@ == old(self)@.store_all(
                            block_hashes@.take(i as int),
                            ids::backend_key(backend@),
                        ),
                    decreases block_hashes@.len() - i,
                {
                    self.apply_stored(block_hashes[i], backend);
                    proof {
                        assert(block_hashes@.take(i + 1).drop_last() =~= block_hashes@.take(
                            i as int,
                        ));
                    }
                    i = i + 1;
                }
                assert(block_hashes@.take(i as int) =~= block_hashes@);
            },
            KvCacheEvent::Removed { block_hashes, .. } => {
                let mut i: usize = 0;
                assert(block_hashes@.take(0) =~= Seq::empty());
                while i < block_hashes.len()
                    invariant
                        i <= block_hashes@.len(),
                        self.wf(),
                        self@ == old(self)@.remove_all(
                            block_hashes@.take(i as int),
                            ids::backend_key(backend@),
                        ),
                    decreases block_hashes@.len() - i,
                {
                    self.apply_removed(block_hashes[i], backend);
                    proof {
                        assert(block_hashes@.take(i + 1).drop_last() =~= block_hashes@.take(
                            i as int,
                        ));
                    }
                    i = i + 1;
                }
                assert(block_hashes@.take(i as int) =~= block_hashes@);
            },
            KvCacheEvent::Clear { .. } => {
                self.apply_clear(backend);
            },
            KvCacheEvent::Reset { generation, .. } => {
                self.apply_reset(backend, *generation);
            },
        }
    }

    fn apply_stored(&mut self, hash: u64, backend: &BackendId)
        requires
            old(self).wf(),
        ensures
            final(self).wf(),
            final(self)@ == old(self)@.store(hash, ids::backend_key(backend@)),
    {
        let ghost key = ids::backend_key(backend@);
        let ghost start = self@;
        let ghost owners_before = self.owners@;
        let ghost held_before = self.held@;
        let mut first: bool = true;
        match self.owners.get(&hash) {
            Some(holders) => {
                first = false;
                let at: Option<usize> = holder_at(holders, backend);
                proof {
                    lemma_holder_keys(
                        holders@,
                        *backend,
                        match at {
                            Some(i) => i as int,
                            None => -1,
                        },
                    );
                    assert(start.owners[hash] == holder_keys(holders@).to_set());
                }
                if at.is_some() {
                    return ;
                }
            },
            None => {},
        }
        let mut holders: Vec<BackendId> = match self.owners.remove(&hash) {
            Some(holders) => holders,
            None => Vec::new(),
        };
        let ghost holders_before = holders@;
        proof {
            if first {
                assert(holder_keys(holders@) =~= Seq::empty());
                assert(holder_keys(holders@).to_set() =~= Set::empty());
            }
            lemma_holder_keys(holders@, *backend, -1);
        }
        holders.push(backend.clone());
        let ghost holders_after = holders@;
        self.owners.insert(hash, holders);
        let filed: TableKey = backend.table_key();
        let mut blocks: Vec<u64> = match self.held.remove(&filed) {
            Some(blocks) => blocks,
            None => Vec::new(),
        };
        proof {
            assert(blocks@ == start.blocks_of(key));
        }
        blocks.push(hash);
        self.held.insert(filed, blocks);
        proof {
            let noted = ProducerState {
                owners: start.owners.insert(
                    hash,
                    holder_keys(holders_before).to_set().insert(key),
                ),
                held: start.held.insert(key, start.blocks_of(key).push(hash)),
                ..start
            };
            assert(self@.owners =~= noted.owners);
            assert(self@.held =~= noted.held);
            assert(self@ =~= noted);
            lemma_store(start, hash, key);
        }
        if first {
            let stored: bool = insert_fingerprint(
                &mut self.buckets,
                &mut self.random,
                &mut self.dirty,
                hash,
            );
            if stored {
                proof {
                    lane::lemma_occupied_bounds(start.buckets);
                }
                self.num_items = self.num_items + 1;
            }
            proof {
                assert(self@ =~= start.store(hash, key));
            }
        } else {
            proof {
                assert(self@ =~= start.store(hash, key));
            }
        }
    }

    /// Takes `backend` out of the holders of `hash`, and deletes the fingerprint with the last one.
    fn give_up_block(&mut self, hash: u64, backend: &BackendId) -> (held: bool)
        requires
            old(self)@.lane_valid(),
            old(self).parts_wf(),
        ensures
            final(self).parts_wf(),
            final(self).held == old(self).held,
            final(self)@ == old(self)@.give_up(hash, ids::backend_key(backend@)),
            held == old(self)@.holds(hash, ids::backend_key(backend@)),
    {
        let ghost key = ids::backend_key(backend@);
        let ghost start = self@;
        let at: usize;
        match self.owners.get(&hash) {
            Some(holders) => {
                let found: Option<usize> = holder_at(holders, backend);
                proof {
                    lemma_holder_keys(
                        holders@,
                        *backend,
                        match found {
                            Some(i) => i as int,
                            None => -1,
                        },
                    );
                    assert(start.owners[hash] == holder_keys(holders@).to_set());
                }
                match found {
                    Some(i) => {
                        at = i;
                    },
                    None => {
                        return false;
                    },
                }
            },
            None => {
                return false;
            },
        }
        let mut holders: Vec<BackendId> = match self.owners.remove(&hash) {
            Some(holders) => holders,
            None => Vec::new(),
        };
        proof {
            lemma_holder_keys(holders@, *backend, at as int);
        }
        let ghost all = holders@;
        holders.remove(at);
        if holders.len() == 0 {
            proof {
                assert(all.len() == 1);
                assert(holder_keys(all) =~= seq![key]);
                assert(start.owners[hash] =~= set![key]) by {
                    assert(holder_keys(all)[0] == key);
                }
                lemma_without_fingerprint(start, hash);
            }
            let deleted: bool = delete_fingerprint(&mut self.buckets, &mut self.dirty, hash);
            if deleted {
                proof {
                    lane::lemma_occupied_bounds(start.without_fingerprint(hash).buckets);
                }
                self.num_items = self.num_items - 1;
            }
            proof {
                assert(self@.owners =~= start.owners.remove(hash));
                assert(self@ =~= start.give_up(hash, key));
            }
        } else {
            let ghost left = holders@;
            proof {
                assert(holder_keys(left).to_set().contains(holder_keys(left)[0]));
                assert(!set![key].remove(key).contains(holder_keys(left)[0]));
                assert(start.owners[hash] != set![key]);
            }
            self.owners.insert(hash, holders);
            proof {
                assert(self@.owners =~= start.owners.insert(hash, start.owners[hash].remove(key)));
                assert(self@ =~= start.give_up(hash, key));
            }
        }
        true
    }

    fn apply_removed(&mut self, hash: u64, backend: &BackendId)
        requires
            old(self).wf(),
        ensures
            final(self).wf(),
            final(self)@ == old(self)@.remove(hash, ids::backend_key(backend@)),
    {
        let ghost key = ids::backend_key(backend@);
        let ghost start = self@;
        if !self.give_up_block(hash, backend) {
            return ;
        }
        let filed: TableKey = backend.table_key();
        proof {
            assert(start.holds(hash, key) == start.blocks_of(key).contains(hash));
            assert(start.blocks_of(key).no_duplicates());
        }
        let mut blocks: Vec<u64> = match self.held.remove(&filed) {
            Some(blocks) => blocks,
            None => Vec::new(),
        };
        proof {
            assert(blocks@ == start.blocks_of(key));
        }
        let at: usize = hash_at(&blocks, hash);
        blocks.remove(at);
        self.held.insert(filed, blocks);
        proof {
            assert(self@.held =~= start.held.insert(key, without(start.blocks_of(key), hash)));
            assert(self@ =~= start.remove(hash, key));
            lemma_remove(start, hash, key);
        }
    }

    fn apply_clear(&mut self, backend: &BackendId)
        requires
            old(self).wf(),
        ensures
            final(self).wf(),
            final(self)@ == old(self)@.clear(ids::backend_key(backend@)),
    {
        let ghost key = ids::backend_key(backend@);
        let ghost start = self@;
        let filed: TableKey = backend.table_key();
        let hashes: Vec<u64> = match self.held.remove(&filed) {
            Some(blocks) => blocks,
            None => Vec::new(),
        };
        let ghost forgotten = ProducerState { held: start.held.remove(key), ..start };
        proof {
            assert(hashes@ == start.blocks_of(key));
            assert(self@.held =~= forgotten.held);
            assert(self@ =~= forgotten);
            assert(hashes@.take(0) =~= Seq::empty());
        }
        let mut i: usize = 0;
        while i < hashes.len()
            invariant
                i <= hashes@.len(),
                key == ids::backend_key(backend@),
                forgotten.lane_valid(),
                self.parts_wf(),
                self@ == forgotten.give_up_all(hashes@.take(i as int), key),
            decreases hashes@.len() - i,
        {
            proof {
                lemma_give_up_all(forgotten, hashes@.take(i as int), key);
                assert(hashes@.take(i + 1).drop_last() =~= hashes@.take(i as int));
            }
            self.give_up_block(hashes[i], backend);
            i = i + 1;
        }
        proof {
            assert(hashes@.take(i as int) =~= hashes@);
            clear_takes_only_its_own_blocks(start, key);
        }
    }

    fn apply_reset(&mut self, backend: &BackendId, generation: u64)
        requires
            old(self).wf(),
        ensures
            final(self).wf(),
            final(self)@ == old(self)@.reset(ids::backend_key(backend@), generation),
    {
        let ghost key = ids::backend_key(backend@);
        let ghost start = self@;
        let filed: TableKey = backend.table_key();
        if stale(&self.generations, &filed, generation) {
            return ;
        }
        self.reset_internal();
        self.generations.insert(filed, generation);
        proof {
            assert(self@ =~= start.reset(key, generation));
            events_keep_a_producer_valid(start, KvChange::Reset(generation), key);
        }
    }

    /// Empties the producer, and notes the buckets that it emptied.
    fn reset_internal(&mut self)
        requires
            old(self).wf(),
        ensures
            final(self).parts_wf(),
            final(self)@ == (ProducerState {
                dirty: old(self)@.dirty.union(filled(old(self)@.buckets)),
                pub_seq: old(self)@.pub_seq,
                generations: old(self)@.generations,
                ..ProducerState::empty(old(self)@.random)
            }),
    {
        let ghost start = self@;
        let mut noted: Vec<usize> = Vec::new();
        let mut next: usize = 0;
        let mut i: usize = 0;
        while i < BUCKETS_PER_LANE
            invariant
                i <= BUCKETS_PER_LANE,
                next <= self.dirty@.len(),
                self.buckets@.len() == BUCKETS_PER_LANE,
                lane::increasing(self.dirty@),
                lane::increasing(noted@),
                forall|k: int| 0 <= k < next ==> #[trigger] self.dirty@[k] < i,
                forall|k: int| next <= k < self.dirty@.len() ==> #[trigger] self.dirty@[k] >= i,
                forall|index: usize| #[trigger]
                    noted@.contains(index) == (index < i && (self.dirty@.contains(index)
                        || self.buckets@[index as int] != 0)),
                *self == *old(self),
            decreases BUCKETS_PER_LANE - i,
        {
            let ghost listed = noted@;
            let was_dirty: bool = next < self.dirty.len() && self.dirty[next] == i;
            proof {
                assert(was_dirty == self.dirty@.contains(i)) by {
                    if self.dirty@.contains(i) {
                        let k = self.dirty@.index_of(i);
                        assert(self.dirty@[k] == i);
                        if next < k {
                            assert(self.dirty@[next as int] < self.dirty@[k]);
                        }
                    }
                }
            }
            if was_dirty {
                next = next + 1;
            }
            if was_dirty || self.buckets[i] != 0 {
                noted.push(i);
            }
            proof {
                assert forall|index: usize| #[trigger]
                    noted@.contains(index) == (index < i + 1 && (self.dirty@.contains(index)
                        || self.buckets@[index as int] != 0)) by {
                    if listed.contains(index) {
                        let k = listed.index_of(index);
                        assert(noted@[k] == index);
                    }
                    if noted@.contains(index) && !listed.contains(index) {
                        let k = noted@.index_of(index);
                        if k < listed.len() {
                            assert(listed[k] == index);
                        }
                    }
                    if index == i && noted@.len() > listed.len() {
                        assert(noted@[listed.len() as int] == index);
                    }
                }
                assert forall|a: int, b: int| 0 <= a < b < noted@.len() implies noted@[a]
                    < noted@[b] by {
                    if b == listed.len() {
                        assert(listed.contains(listed[a]));
                    }
                }
            }
            i = i + 1;
        }
        proof {
            assert forall|index: usize| noted@.to_set().contains(index) == start.dirty.union(
                filled(start.buckets),
            ).contains(index) by {
                assert(noted@.contains(index) == (index < i && (self.dirty@.contains(index)
                    || self.buckets@[index as int] != 0)));
                assert(start.dirty.contains(index) ==> index < BUCKETS_PER_LANE);
            }
        }
        self.buckets = vec![0u64; BUCKETS_PER_LANE];
        self.num_items = 0;
        self.dirty = noted;
        self.owners.clear();
        self.held.clear();
        proof {
            let after = ProducerState {
                dirty: start.dirty.union(filled(start.buckets)),
                pub_seq: start.pub_seq,
                generations: start.generations,
                ..ProducerState::empty(start.random)
            };
            assert(self@.buckets =~= after.buckets);
            assert(self@.dirty =~= after.dirty);
            assert(self@.owners =~= after.owners);
            assert(self@.held =~= after.held);
            assert(self@ =~= after);
        }
    }

    /// Publishes the whole lane, under the next sequence number.
    pub fn snapshot(&mut self) -> (snapshot: CkfSnapshot)
        requires
            old(self).wf(),
        ensures
            final(self).wf(),
            snapshot.sequence == old(self)@.pub_seq.wrapping_add(1),
            snapshot.buckets@ == old(self)@.buckets,
            final(self)@ == (ProducerState {
                pub_seq: snapshot.sequence,
                dirty: Set::empty(),
                ..old(self)@
            }),
    {
        let ghost start = self@;
        self.pub_seq = self.pub_seq.wrapping_add(1);
        self.dirty.clear();
        let buckets: Vec<PackedBucket> = self.buckets.clone();
        proof {
            assert(buckets@ =~= self.buckets@);
            assert(self@.dirty =~= Set::empty());
            assert(self@ =~= (ProducerState {
                pub_seq: self.pub_seq,
                dirty: Set::empty(),
                ..start
            }));
            lemma_published(start, self@);
        }
        CkfSnapshot { sequence: self.pub_seq, buckets }
    }

    /// Publishes the buckets written since the last publication, in order of their indices, under
    /// the next sequence number; `None` when there are none.
    pub fn delta(&mut self) -> (delta: Option<CkfDelta>)
        requires
            old(self).wf(),
        ensures
            final(self).wf(),
            match delta {
                None => old(self)@.dirty == Set::<usize>::empty() && final(self)@ == old(self)@,
                Some(d) => {
                    &&& old(self)@.dirty != Set::<usize>::empty()
                    &&& d.prev_sequence == old(self)@.pub_seq
                    &&& d.sequence == old(self)@.pub_seq.wrapping_add(1)
                    &&& lists_buckets(d.buckets@, old(self)@.dirty, old(self)@.buckets)
                    &&& final(self)@ == (ProducerState {
                        pub_seq: d.sequence,
                        dirty: Set::empty(),
                        ..old(self)@
                    })
                },
            },
    {
        let ghost start = self@;
        if self.dirty.len() == 0 {
            assert(self@.dirty =~= Set::empty());
            return None;
        }
        proof {
            assert(start.dirty.contains(self.dirty@[0]));
        }
        let prev: u64 = self.pub_seq;
        self.pub_seq = self.pub_seq.wrapping_add(1);
        let mut buckets: Vec<(usize, PackedBucket)> = Vec::new();
        let mut i: usize = 0;
        while i < self.dirty.len()
            invariant
                i <= self.dirty@.len(),
                self.dirty@.to_set() == start.dirty,
                self.buckets@ == start.buckets,
                start.lane_valid(),
                buckets@.len() == i,
                forall|j: int|
                    0 <= j < i ==> #[trigger] buckets@[j] == (
                        self.dirty@[j],
                        start.buckets[self.dirty@[j] as int],
                    ),
            decreases self.dirty@.len() - i,
        {
            let index: usize = self.dirty[i];
            proof {
                assert(start.dirty.contains(self.dirty@[i as int]));
            }
            buckets.push((index, self.buckets[index]));
            i = i + 1;
        }
        proof {
            let listed = buckets@;
            assert forall|index: usize| #[trigger] start.dirty.contains(index) implies exists|j: int|
                0 <= j < listed.len() && (#[trigger] listed[j]).0 == index by {
                let j = self.dirty@.index_of(index);
                assert(listed[j].0 == index);
            }
            assert forall|j: int| 0 <= j < listed.len() implies start.dirty.contains(
                (#[trigger] listed[j]).0,
            ) by {
                assert(self.dirty@.contains(self.dirty@[j]));
            }
        }
        self.dirty.clear();
        proof {
            assert(self@.dirty =~= Set::empty());
            assert(self@ =~= (ProducerState {
                pub_seq: self.pub_seq,
                dirty: Set::empty(),
                ..start
            }));
            lemma_published(start, self@);
        }
        Some(CkfDelta { sequence: self.pub_seq, prev_sequence: prev, buckets })
    }

    /// Number of fingerprints in the lane.
    pub fn num_items(&self) -> (n: u64)
        ensures
            n == self@.num_items,
    {
        self.num_items
    }

    /// Number of blocks that are held.
    pub fn tracked_hashes(&self) -> (n: usize)
        ensures
            n == self@.owners.dom().len(),
    {
        proof {
            assert(self@.owners.dom() =~= self.owners@.dom());
        }
        self.owners.len()
    }
}

impl Default for CkfProducer {
    fn default() -> (producer: Self)
        ensures
            producer.wf(),
            producer@ == ProducerState::empty(CKF_PRODUCER_DEFAULT_SEED),
    {
        CkfProducer::new()
    }
}

proof fn lemma_published(before: ProducerState, after: ProducerState)
    requires
        before.valid(),
        after == (ProducerState { pub_seq: after.pub_seq, dirty: Set::empty(), ..before }),
    ensures
        after.valid(),
{
    lemma_accounted_depends_on(before, after);
    assert forall|h: u64, k: KeyView|
        #![trigger after.holds(h, k)]
        after.holds(h, k) == after.blocks_of(k).contains(h) by {
        assert(after.holds(h, k) == before.holds(h, k));
        assert(after.blocks_of(k) == before.blocks_of(k));
    }
    assert forall|k: KeyView| (#[trigger] after.blocks_of(k)).no_duplicates() by {
        assert(after.blocks_of(k) == before.blocks_of(k));
    }
}

/// A list of buckets of a lane: exactly those with an index in `indices`, in increasing order of
/// their indices.
pub open spec fn lists_buckets(
    listed: Seq<(usize, PackedBucket)>,
    indices: Set<usize>,
    buckets: Seq<PackedBucket>,
) -> bool {
    &&& forall|i: int, j: int|
        #![trigger listed[i], listed[j]]
        0 <= i < j < listed.len() ==> listed[i].0 < listed[j].0
    &&& forall|j: int|
        0 <= j < listed.len() ==> indices.contains((#[trigger] listed[j]).0) && listed[j].1
            == buckets[listed[j].0 as int]
    &&& forall|index: usize| #[trigger]
        indices.contains(index) ==> exists|j: int|
            0 <= j < listed.len() && (#[trigger] listed[j]).0 == index
}

/// The held blocks whose fingerprint is `fp` and one of whose candidate buckets is `at`.
pub open spec fn held_in_class(state: ProducerState, fp: cuckoo_filter::Fp, at: u64) -> Set<u64> {
    in_class(state.owners.dom(), fp, at)
}

/// Whether every held block has its own fingerprint in the lane: each fingerprint occurs, in its
/// two candidate buckets, once for each held block that has it.
pub open spec fn complete(state: ProducerState) -> bool {
    forall|fp: cuckoo_filter::Fp, at: u64|
        #![trigger lane::class_count(state.buckets, fp, at)]
        fp != 0 && at < BUCKETS_PER_LANE ==> lane::class_count(state.buckets, fp, at)
            == held_in_class(state, fp, at).len()
}

/// An empty producer is complete.
pub proof fn empty_is_complete(seed: u64)
    ensures
        complete(ProducerState::empty(seed)),
{
    let state = ProducerState::empty(seed);
    lane::lemma_empty_bucket();
    assert forall|fp: cuckoo_filter::Fp, at: u64|
        #![trigger lane::class_count(state.buckets, fp, at)]
        fp != 0 && at < BUCKETS_PER_LANE implies lane::class_count(state.buckets, fp, at)
        == held_in_class(state, fp, at).len() by {
        cuckoo_filter::alt_index_is_an_involution(at, fp);
        assert(held_in_class(state, fp, at) =~= Set::empty());
    }
}

/// Storing a block keeps a producer complete, unless it is a new block for which no place is found.
pub proof fn storing_keeps_completeness(state: ProducerState, hash: u64, backend: KeyView)
    requires
        state.valid(),
        complete(state),
        state.owners.contains_key(hash) || lane::lane_insert(
            state.buckets,
            state.random,
            hash,
        ).0 is Some,
    ensures
        complete(state.store(hash, backend)),
{
    let after = state.store(hash, backend);
    assert forall|fp: cuckoo_filter::Fp, at: u64|
        #![trigger lane::class_count(after.buckets, fp, at)]
        fp != 0 && at < BUCKETS_PER_LANE implies lane::class_count(after.buckets, fp, at)
        == held_in_class(after, fp, at).len() by {
        assert(lane::class_count(state.buckets, fp, at) == held_in_class(state, fp, at).len());
        if state.owners.contains_key(hash) {
            assert(held_in_class(after, fp, at) =~= held_in_class(state, fp, at));
        } else {
            lane::insert_adds_one_fingerprint(state.buckets, state.random, hash, fp, at);
            if cuckoo_filter::fp_of(hash) == fp && lane::same_class(
                cuckoo_filter::bucket_of(hash),
                at,
                fp,
            ) {
                assert(held_in_class(after, fp, at) =~= held_in_class(state, fp, at).insert(hash));
            } else {
                assert(held_in_class(after, fp, at) =~= held_in_class(state, fp, at));
            }
        }
    }
}

proof fn lemma_give_up_complete(state: ProducerState, hash: u64, backend: KeyView)
    requires
        state.lane_valid(),
        complete(state),
    ensures
        complete(state.give_up(hash, backend)),
{
    let after = state.give_up(hash, backend);
    let own = cuckoo_filter::fp_of(hash);
    let home = cuckoo_filter::bucket_of(hash);
    cuckoo_filter::probe_is_in_range(hash);
    assert forall|fp: cuckoo_filter::Fp, at: u64|
        #![trigger lane::class_count(after.buckets, fp, at)]
        fp != 0 && at < BUCKETS_PER_LANE implies lane::class_count(after.buckets, fp, at)
        == held_in_class(after, fp, at).len() by {
        assert(lane::class_count(state.buckets, fp, at) == held_in_class(state, fp, at).len());
        if state.holds(hash, backend) && state.owners[hash] == set![backend] {
            lane::delete_takes_one_fingerprint(state.buckets, hash, fp, at);
            assert(lane::class_count(state.buckets, own, home) == held_in_class(
                state,
                own,
                home,
            ).len());
            assert(held_in_class(state, own, home).contains(hash));
            if own == fp && lane::same_class(home, at, fp) {
                assert(held_in_class(state, fp, at).contains(hash));
                assert(held_in_class(after, fp, at) =~= held_in_class(state, fp, at).remove(hash));
            } else {
                assert(held_in_class(after, fp, at) =~= held_in_class(state, fp, at));
            }
        } else {
            assert(held_in_class(after, fp, at) =~= held_in_class(state, fp, at));
        }
    }
}

proof fn lemma_complete_depends_on(state: ProducerState, other: ProducerState)
    requires
        complete(state),
        other.buckets == state.buckets,
        other.owners == state.owners,
    ensures
        complete(other),
{
    assert forall|fp: cuckoo_filter::Fp, at: u64|
        #![trigger lane::class_count(other.buckets, fp, at)]
        fp != 0 && at < BUCKETS_PER_LANE implies lane::class_count(other.buckets, fp, at)
        == held_in_class(other, fp, at).len() by {
        assert(lane::class_count(state.buckets, fp, at) == held_in_class(state, fp, at).len());
        assert(held_in_class(other, fp, at) =~= held_in_class(state, fp, at));
    }
}

/// Removing a block keeps a producer complete.
pub proof fn removing_keeps_completeness(state: ProducerState, hash: u64, backend: KeyView)
    requires
        state.valid(),
        complete(state),
    ensures
        complete(state.remove(hash, backend)),
{
    lemma_give_up_complete(state, hash, backend);
    lemma_complete_depends_on(state.give_up(hash, backend), state.remove(hash, backend));
}

proof fn lemma_give_up_all_complete(state: ProducerState, hashes: Seq<u64>, backend: KeyView)
    requires
        state.lane_valid(),
        complete(state),
    ensures
        complete(state.give_up_all(hashes, backend)),
    decreases hashes.len(),
{
    if hashes.len() > 0 {
        lemma_give_up_all_complete(state, hashes.drop_last(), backend);
        lemma_give_up_all(state, hashes.drop_last(), backend);
        lemma_give_up_complete(
            state.give_up_all(hashes.drop_last(), backend),
            hashes.last(),
            backend,
        );
    }
}

/// Clearing a backend keeps a producer complete.
pub proof fn clearing_keeps_completeness(state: ProducerState, backend: KeyView)
    requires
        state.valid(),
        complete(state),
    ensures
        complete(state.clear(backend)),
{
    let forgotten = ProducerState { held: state.held.remove(backend), ..state };
    lemma_complete_depends_on(state, forgotten);
    lemma_give_up_all_complete(forgotten, state.blocks_of(backend), backend);
}

/// In a complete producer no held block is missed: one of its two candidate buckets holds its
/// fingerprint.
pub proof fn no_held_block_is_missed(state: ProducerState, hash: u64)
    requires
        state.valid(),
        complete(state),
        state.owners.contains_key(hash),
    ensures
        ({
            let fp = cuckoo_filter::fp_of(hash);
            let a = cuckoo_filter::bucket_of(hash);
            cuckoo_filter::slots(state.buckets[a as int]).contains(fp) || cuckoo_filter::slots(
                state.buckets[cuckoo_filter::alt_of(a, fp) as int],
            ).contains(fp)
        }),
{
    let fp = cuckoo_filter::fp_of(hash);
    let a = cuckoo_filter::bucket_of(hash);
    cuckoo_filter::probe_is_in_range(hash);
    assert(lane::class_count(state.buckets, fp, a) == held_in_class(state, fp, a).len());
    assert(held_in_class(state, fp, a).contains(hash));
    cuckoo_filter::lemma_first_slot(state.buckets[a as int], fp);
    cuckoo_filter::lemma_first_slot(
        state.buckets[cuckoo_filter::alt_of(a, fp) as int],
        fp,
    );
}

/// A lane with some buckets overwritten, one after the other; indices beyond the lane are ignored.
pub open spec fn patched(
    buckets: Seq<PackedBucket>,
    listed: Seq<(usize, PackedBucket)>,
) -> Seq<PackedBucket>
    decreases listed.len(),
{
    if listed.len() == 0 {
        buckets
    } else {
        let before = patched(buckets, listed.drop_last());
        if listed.last().0 < before.len() {
            before.update(listed.last().0 as int, listed.last().1)
        } else {
            before
        }
    }
}

proof fn lemma_patched(
    published: Seq<PackedBucket>,
    listed: Seq<(usize, PackedBucket)>,
    buckets: Seq<PackedBucket>,
)
    requires
        published.len() == buckets.len(),
        forall|j: int|
            0 <= j < listed.len() ==> (#[trigger] listed[j]).0 < buckets.len() && listed[j].1
                == buckets[listed[j].0 as int],
    ensures
        patched(published, listed).len() == buckets.len(),
        forall|i: int|
            0 <= i < buckets.len() ==> #[trigger] patched(published, listed)[i] == buckets[i]
                || patched(published, listed)[i] == published[i] && forall|j: int|
                0 <= j < listed.len() ==> (#[trigger] listed[j]).0 != i,
    decreases listed.len(),
{
    if listed.len() > 0 {
        let shorter = listed.drop_last();
        assert forall|j: int| 0 <= j < shorter.len() implies (#[trigger] shorter[j]).0
            < buckets.len() && shorter[j].1 == buckets[shorter[j].0 as int] by {
            assert(shorter[j] == listed[j]);
        }
        lemma_patched(published, shorter, buckets);
        assert(listed[listed.len() - 1] == listed.last());
        assert forall|i: int| 0 <= i < buckets.len() implies #[trigger] patched(
            published,
            listed,
        )[i] == buckets[i] || patched(published, listed)[i] == published[i] && forall|j: int|
            0 <= j < listed.len() ==> (#[trigger] listed[j]).0 != i by {
            if i != listed.last().0 {
                assert(patched(published, listed)[i] == patched(published, shorter)[i]);
                if patched(published, shorter)[i] != buckets[i] {
                    assert forall|j: int| 0 <= j < listed.len() implies (#[trigger] listed[j]).0
                        != i by {
                        if j < shorter.len() {
                            assert(shorter[j] == listed[j]);
                        }
                    }
                }
            }
        }
    }
}

/// Whether a copy of the lane differs from it only in buckets noted as written.
pub open spec fn differs_where_noted(copy: Seq<PackedBucket>, state: ProducerState) -> bool {
    &&& copy.len() == state.buckets.len()
    &&& forall|i: usize|
        i < BUCKETS_PER_LANE && !#[trigger] state.dirty.contains(i) ==> copy[i as int]
            == state.buckets[i as int]
}

/// A copy of the lane as it was at the last publication differs from it, after whatever events,
/// only in buckets noted as written: it does so right after the publication, and every event keeps
/// it so.
pub proof fn events_change_a_lane_where_noted(
    copy: Seq<PackedBucket>,
    state: ProducerState,
    change: KvChange,
    backend: KeyView,
)
    requires
        state.valid(),
    ensures
        differs_where_noted(state.buckets, state),
        differs_where_noted(copy, state) ==> differs_where_noted(
            copy,
            state.apply(change, backend),
        ),
{
    events_keep_a_producer_valid(state, change, backend);
    let after = state.apply(change, backend);
    if differs_where_noted(copy, state) {
        assert forall|i: usize|
            i < BUCKETS_PER_LANE && !#[trigger] after.dirty.contains(i) implies copy[i as int]
            == after.buckets[i as int] by {
            assert(!state.dirty.contains(i));
        }
    }
}

/// A copy of the lane that differs from it only in buckets noted as written is brought up to date
/// by the delta that lists them.
pub proof fn a_delta_brings_a_copy_up_to_date(
    state: ProducerState,
    published: Seq<PackedBucket>,
    listed: Seq<(usize, PackedBucket)>,
)
    requires
        state.valid(),
        differs_where_noted(published, state),
        lists_buckets(listed, state.dirty, state.buckets),
    ensures
        patched(published, listed) == state.buckets,
{
    assert forall|j: int| 0 <= j < listed.len() implies (#[trigger] listed[j]).0
        < state.buckets.len() && listed[j].1 == state.buckets[listed[j].0 as int] by {
        assert(state.dirty.contains(listed[j].0));
    }
    lemma_patched(published, listed, state.buckets);
    assert forall|i: int| 0 <= i < state.buckets.len() implies patched(published, listed)[i]
        == state.buckets[i] by {
        let index = i as usize;
        if patched(published, listed)[i] != state.buckets[i] {
            if state.dirty.contains(index) {
                let j = choose|j: int| 0 <= j < listed.len() && (#[trigger] listed[j]).0 == index;
                assert(listed[j].0 != i);
            }
        }
    }
    assert(patched(published, listed) =~= state.buckets);
}

proof fn lemma_store_holders(state: ProducerState, hash: u64, backend: KeyView)
    ensures
        ({
            let after = state.store(hash, backend);
            &&& forall|h: u64, k: KeyView|
                #![trigger after.holds(h, k)]
                after.holds(h, k) == (state.holds(h, k) || (h == hash && k == backend))
            &&& after.pub_seq == state.pub_seq
        }),
{
}

proof fn lemma_store_all_holders(state: ProducerState, hashes: Seq<u64>, backend: KeyView)
    ensures
        ({
            let after = state.store_all(hashes, backend);
            &&& forall|h: u64, k: KeyView|
                #![trigger after.holds(h, k)]
                after.holds(h, k) == (state.holds(h, k) || (hashes.contains(h) && k == backend))
            &&& after.pub_seq == state.pub_seq
        }),
    decreases hashes.len(),
{
    if hashes.len() > 0 {
        let shorter = hashes.drop_last();
        let before = state.store_all(shorter, backend);
        let after = state.store_all(hashes, backend);
        lemma_store_all_holders(state, shorter, backend);
        lemma_store_holders(before, hashes.last(), backend);
        assert forall|h: u64, k: KeyView|
            #![trigger after.holds(h, k)]
            after.holds(h, k) == (state.holds(h, k) || (hashes.contains(h) && k == backend)) by {
            assert(before.holds(h, k) == (state.holds(h, k) || (shorter.contains(h) && k
                == backend)));
            assert(hashes.contains(h) == (shorter.contains(h) || h == hashes.last())) by {
                assert(hashes =~= shorter.push(hashes.last()));
                if shorter.contains(h) {
                    let i = shorter.index_of(h);
                    assert(hashes[i] == h);
                }
                assert(hashes[hashes.len() - 1] == hashes.last());
            }
        }
    }
}

proof fn lemma_remove_all_holders(state: ProducerState, hashes: Seq<u64>, backend: KeyView)
    requires
        state.valid(),
    ensures
        ({
            let after = state.remove_all(hashes, backend);
            &&& forall|h: u64, k: KeyView|
                #![trigger after.holds(h, k)]
                after.holds(h, k) == (state.holds(h, k) && !(hashes.contains(h) && k == backend))
            &&& after.pub_seq == state.pub_seq
        }),
    decreases hashes.len(),
{
    if hashes.len() > 0 {
        let shorter = hashes.drop_last();
        let before = state.remove_all(shorter, backend);
        let after = state.remove_all(hashes, backend);
        lemma_remove_all_holders(state, shorter, backend);
        lemma_remove_all(state, shorter, backend);
        lemma_give_up(before, hashes.last(), backend);
        assert forall|h: u64, k: KeyView|
            #![trigger after.holds(h, k)]
            after.holds(h, k) == (state.holds(h, k) && !(hashes.contains(h) && k == backend)) by {
            let left = before.give_up(hashes.last(), backend);
            assert(before.holds(h, k) == (state.holds(h, k) && !(shorter.contains(h) && k
                == backend)));
            assert(left.holds(h, k) == (before.holds(h, k) && !(h == hashes.last() && k
                == backend)));
            assert(after.owners == left.owners || (after == before && !before.holds(
                hashes.last(),
                backend,
            )));
            assert(after.holds(h, k) == left.holds(h, k));
            assert(hashes.contains(h) == (shorter.contains(h) || h == hashes.last())) by {
                assert(hashes =~= shorter.push(hashes.last()));
                if shorter.contains(h) {
                    let i = shorter.index_of(h);
                    assert(hashes[i] == h);
                }
                assert(hashes[hashes.len() - 1] == hashes.last());
            }
        }
    }
}

proof fn lemma_give_up_all_sequence(state: ProducerState, hashes: Seq<u64>, backend: KeyView)
    ensures
        state.give_up_all(hashes, backend).pub_seq == state.pub_seq,
    decreases hashes.len(),
{
    if hashes.len() > 0 {
        lemma_give_up_all_sequence(state, hashes.drop_last(), backend);
    }
}

/// A backend holds a block from when it stores the block, however many are stored at once, until it
/// removes it or is cleared. A reset that is not passed over leaves nobody with a block; one that is
/// changes nothing. What other backends hold stays as it was, but for a reset.
pub proof fn a_block_is_held_until_it_is_given_up(
    state: ProducerState,
    event: KvCacheEvent,
    backend: KeyView,
    hash: u64,
    other: KeyView,
)
    requires
        state.valid(),
    ensures
        ({
            let after = state.apply(event@, backend);
            let held = state.holds(hash, other);
            let stale = state.generations.contains_key(backend) && event->generation
                < state.generations[backend];
            &&& event is Stored ==> after.holds(hash, other) == (held || (other == backend
                && event->Stored_block_hashes@.contains(hash)))
            &&& event is Removed ==> after.holds(hash, other) == (held && !(other == backend
                && event->Removed_block_hashes@.contains(hash)))
            &&& event is Clear ==> after.holds(hash, other) == (held && other != backend)
            &&& event is Reset && stale ==> after == state
            &&& event is Reset && !stale ==> !after.holds(hash, other) && after.num_items == 0
                && after.generations == state.generations.insert(backend, event->generation)
                && forall|i: int| 0 <= i < BUCKETS_PER_LANE ==> #[trigger] after.buckets[i] == 0
        }),
{
    match event {
        KvCacheEvent::Stored { block_hashes, .. } => {
            lemma_store_all_holders(state, block_hashes@, backend);
        },
        KvCacheEvent::Removed { block_hashes, .. } => {
            lemma_remove_all_holders(state, block_hashes@, backend);
        },
        KvCacheEvent::Clear { .. } => {
            clear_takes_only_its_own_blocks(state, backend);
        },
        _ => {},
    }
}

/// No event publishes anything: the number of the last publication stays as it was.
pub proof fn events_publish_nothing(state: ProducerState, event: KvCacheEvent, backend: KeyView)
    requires
        state.valid(),
    ensures
        state.apply(event@, backend).pub_seq == state.pub_seq,
{
    match event {
        KvCacheEvent::Stored { block_hashes, .. } => {
            lemma_store_all_holders(state, block_hashes@, backend);
        },
        KvCacheEvent::Removed { block_hashes, .. } => {
            lemma_remove_all_holders(state, block_hashes@, backend);
        },
        KvCacheEvent::Clear { .. } => {
            let forgotten = ProducerState { held: state.held.remove(backend), ..state };
            lemma_give_up_all_sequence(forgotten, state.blocks_of(backend), backend);
        },
        _ => {},
    }
}

/// Whether each block finds a place when it is stored after those before it, or is held already.
pub open spec fn all_find_a_place(
    state: ProducerState,
    hashes: Seq<u64>,
    backend: KeyView,
) -> bool {
    forall|i: int|
        0 <= i < hashes.len() ==> {
            let before = state.store_all(#[trigger] hashes.take(i), backend);
            before.owners.contains_key(hashes[i]) || lane::lane_insert(
                before.buckets,
                before.random,
                hashes[i],
            ).0 is Some
        }
}

proof fn lemma_store_all_complete(state: ProducerState, hashes: Seq<u64>, backend: KeyView)
    requires
        state.valid(),
        complete(state),
        all_find_a_place(state, hashes, backend),
    ensures
        complete(state.store_all(hashes, backend)),
    decreases hashes.len(),
{
    if hashes.len() > 0 {
        let shorter = hashes.drop_last();
        let n = hashes.len() - 1;
        assert(hashes.take(n) =~= shorter);
        assert forall|i: int| 0 <= i < shorter.len() implies {
            let before = state.store_all(#[trigger] shorter.take(i), backend);
            before.owners.contains_key(shorter[i]) || lane::lane_insert(
                before.buckets,
                before.random,
                shorter[i],
            ).0 is Some
        } by {
            assert(shorter.take(i) =~= hashes.take(i));
            assert(hashes.take(i).len() == i);
        }
        lemma_store_all_complete(state, shorter, backend);
        lemma_store_all(state, shorter, backend);
        storing_keeps_completeness(state.store_all(shorter, backend), hashes.last(), backend);
    }
}

proof fn lemma_remove_all_complete(state: ProducerState, hashes: Seq<u64>, backend: KeyView)
    requires
        state.valid(),
        complete(state),
    ensures
        complete(state.remove_all(hashes, backend)),
    decreases hashes.len(),
{
    if hashes.len() > 0 {
        lemma_remove_all_complete(state, hashes.drop_last(), backend);
        lemma_remove_all(state, hashes.drop_last(), backend);
        removing_keeps_completeness(
            state.remove_all(hashes.drop_last(), backend),
            hashes.last(),
            backend,
        );
    }
}

/// As long as every block finds a place, the lane holds one fingerprint of each block that a backend
/// holds, and no other, whatever events come.
pub proof fn the_lane_holds_what_backends_hold(
    state: ProducerState,
    event: KvCacheEvent,
    backend: KeyView,
)
    requires
        state.valid(),
        complete(state),
        event is Stored ==> all_find_a_place(state, event->Stored_block_hashes@, backend),
    ensures
        complete(state.apply(event@, backend)),
{
    match event {
        KvCacheEvent::Stored { block_hashes, .. } => {
            lemma_store_all_complete(state, block_hashes@, backend);
        },
        KvCacheEvent::Removed { block_hashes, .. } => {
            lemma_remove_all_complete(state, block_hashes@, backend);
        },
        KvCacheEvent::Clear { .. } => {
            clearing_keeps_completeness(state, backend);
        },
        KvCacheEvent::Reset { generation, .. } => {
            empty_is_complete(state.random);
            if !kv_event::is_stale(state.generations, backend, generation) {
                lemma_complete_depends_on(
                    ProducerState::empty(state.random),
                    state.apply(event@, backend),
                );
            }
        },
    }
}

/// A block that another backend holds already, or that is not given up by its last holder, changes
/// nothing that has to be published.
pub proof fn shared_blocks_are_not_published(
    state: ProducerState,
    hash: u64,
    backend: KeyView,
    other: KeyView,
)
    requires
        other != backend,
        state.holds(hash, other),
    ensures
        state.store(hash, backend).dirty == state.dirty,
        state.store(hash, backend).random == state.random,
        state.remove(hash, backend).dirty == state.dirty,
        state.remove(hash, backend).random == state.random,
{
}

/// Bringing a copy up to date sets each listed bucket to its last listed value, passes over a listed
/// bucket that the copy does not have, and leaves the other buckets as they were.
pub proof fn a_copy_takes_the_listed_buckets(
    buckets: Seq<PackedBucket>,
    listed: Seq<(usize, PackedBucket)>,
    i: int,
    j: int,
)
    requires
        0 <= i < buckets.len(),
    ensures
        patched(buckets, listed).len() == buckets.len(),
        (forall|k: int| 0 <= k < listed.len() ==> (#[trigger] listed[k]).0 != i) ==> patched(
            buckets,
            listed,
        )[i] == buckets[i],
        0 <= j < listed.len() && listed[j].0 == i && (forall|k: int|
            j < k < listed.len() ==> (#[trigger] listed[k]).0 != i) ==> patched(buckets, listed)[i]
            == listed[j].1,
    decreases listed.len(),
{
    if listed.len() > 0 {
        a_copy_takes_the_listed_buckets(buckets, listed.drop_last(), i, j);
        assert(listed[listed.len() - 1] == listed.last());
        assert forall|k: int| 0 <= k < listed.len() - 1 implies #[trigger] listed.drop_last()[k]
            == listed[k] by {}
        if forall|k: int| 0 <= k < listed.len() ==> (#[trigger] listed[k]).0 != i {
            assert(listed.last().0 != i);
        }
        if 0 <= j < listed.len() - 1 && listed[j].0 == i && (forall|k: int|
            j < k < listed.len() ==> (#[trigger] listed[k]).0 != i) {
            assert(listed.last().0 != i);
        }
    }
}

/// A delta lists each bucket that was written since the last publication, once, as it is, in order,
/// and no other.
pub proof fn a_delta_lists_what_was_written(
    listed: Seq<(usize, PackedBucket)>,
    state: ProducerState,
    index: usize,
    i: int,
    j: int,
)
    requires
        lists_buckets(listed, state.dirty, state.buckets),
    ensures
        state.dirty.contains(index) <==> exists|k: int|
            0 <= k < listed.len() && (#[trigger] listed[k]).0 == index,
        0 <= i < listed.len() ==> listed[i].1 == state.buckets[listed[i].0 as int],
        0 <= i < j < listed.len() ==> listed[i].0 < listed[j].0,
{
}

} // verus!
