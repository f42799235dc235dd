//! State that the gateways of a cluster share: who they are, where sessions and prefixes went,
//! locks, and metrics. Everything in it expires. Times are in Unix seconds.

use vstd::prelude::*;
use vstd::string::*;

use crate::ids;
use crate::ids::{BackendId, InstanceId, RegionId, SessionId};
use crate::metrics::BackendMetrics;
use crate::table;
use crate::table::{KeyView, Table, TableKey};
use crate::text;
use crate::text::{decimal_text, join, reads};

verus! {

/// A gateway that is registered.
#[derive(Debug, PartialEq, Eq)]
pub struct InstanceEntry {
    /// The gateway.
    pub instance_id: InstanceId,
    /// Its region.
    pub region: RegionId,
    /// Where it is reached.
    pub addr: String,
    /// When it was last heard of.
    pub last_heartbeat_unix: u64,
}

impl Clone for InstanceEntry {
    fn clone(&self) -> (copy: Self)
        ensures
            copy == *self,
    {
        InstanceEntry {
            instance_id: self.instance_id.clone(),
            region: self.region.clone(),
            addr: self.addr.clone(),
            last_heartbeat_unix: self.last_heartbeat_unix,
        }
    }
}

/// Where a prefix was sent.
#[derive(Debug, PartialEq, Eq)]
pub struct PrefixDispatchEntry {
    /// The backend.
    pub backend: BackendId,
    /// How often.
    pub dispatch_count: u64,
    /// When last.
    pub last_dispatched_unix: u64,
}

impl Clone for PrefixDispatchEntry {
    fn clone(&self) -> (copy: Self)
        ensures
            copy == *self,
    {
        PrefixDispatchEntry {
            backend: self.backend.clone(),
            dispatch_count: self.dispatch_count,
            last_dispatched_unix: self.last_dispatched_unix,
        }
    }
}

/// Values that expire, each with the time when it does.
pub type ExpiringView<V> = Map<KeyView, (V, u64)>;

/// When something that is stored at `now` for `ttl_secs` expires.
pub open spec fn expiry(now: u64, ttl_secs: u64) -> u64 {
    if now + ttl_secs > u64::MAX {
        u64::MAX
    } else {
        (now + ttl_secs) as u64
    }
}

/// Whether there is a value that has not expired at `now`.
pub open spec fn is_fresh<V>(rows: ExpiringView<V>, key: KeyView, now: u64) -> bool {
    rows.contains_key(key) && rows[key].1 > now
}

/// The value under a key, if it has not expired at `now`.
pub open spec fn fresh_value<V>(rows: ExpiringView<V>, key: KeyView, now: u64) -> Option<V> {
    if is_fresh(rows, key, now) {
        Some(rows[key].0)
    } else {
        None
    }
}

/// The values that have not expired at `now`.
pub open spec fn fresh<V>(rows: ExpiringView<V>, now: u64) -> Map<KeyView, V> {
    rows.restrict(rows.dom().filter(|key: KeyView| rows[key].1 > now)).map_values(
        |row: (V, u64)| row.0,
    )
}

/// What is left after a value was looked up at `now`: one that has expired is dropped.
pub open spec fn looked_up<V>(rows: ExpiringView<V>, key: KeyView, now: u64) -> ExpiringView<V> {
    if is_fresh(rows, key, now) {
        rows
    } else {
        rows.remove(key)
    }
}

fn expiry_time(now: u64, ttl_secs: u64) -> (time: u64)
    ensures
        time == expiry(now, ttl_secs),
{
    now.saturating_add(ttl_secs)
}

/// Values that expire.
struct Expiring<V> {
    rows: Table<(V, u64)>,
}

impl<V> View for Expiring<V> {
    type V = ExpiringView<V>;

    closed spec fn view(&self) -> ExpiringView<V> {
        self.rows@
    }
}

impl<V> Expiring<V> {
    spec fn wf(&self) -> bool {
        self.rows.wf()
    }

    fn new() -> (values: Self)
        ensures
            values.wf(),
            values@ == Map::<KeyView, (V, u64)>::empty(),
    {
        Expiring { rows: Table::new() }
    }

    fn put(&mut self, key: TableKey, value: V, expires: u64)
        requires
            old(self).wf(),
        ensures
            final(self).wf(),
            final(self)@ == old(self)@.insert(key@, (value, expires)),
    {
        self.rows.insert(key, (value, expires));
    }

    fn remove(&mut self, key: &TableKey)
        requires
            old(self).wf(),
        ensures
            final(self).wf(),
            final(self)@ == old(self)@.remove(key@),
    {
        self.rows.remove(key);
    }

    fn look_up(&mut self, key: &TableKey, now: u64) -> (value: Option<&V>)
        requires
            old(self).wf(),
        ensures
            final(self).wf(),
            final(self)@ == looked_up(old(self)@, key@, now),
            match value {
                Some(found) => fresh_value(old(self)@, key@, now) == Some(*found),
                None => fresh_value(old(self)@, key@, now) is None,
            },
    {
        match self.rows.find(key) {
            Some(at) => {
                if self.rows.value_at(at).1 > now {
                    return Some(&self.rows.value_at(at).0);
                }
            },
            None => {},
        }
        self.rows.remove(key);
        None
    }

    /// Positions of the rows that have not expired, in order.
    fn fresh_rows(&self, now: u64) -> (positions: Vec<usize>)
        requires
            self.wf(),
        ensures
            forall|i: int|
                0 <= i < positions@.len() ==> (#[trigger] positions@[i]) < self.rows.rows().len(),
            table::rows_hold(self.rows_at(positions@), fresh(self@, now)),
    {
        let n: usize = self.rows.len();
        let ghost rows = self.rows.rows();
        proof {
            self.rows.lemma_rows();
        }
        let mut positions: Vec<usize> = Vec::new();
        let mut i: usize = 0;
        while i < n
            invariant
                i <= n,
                n == rows.len(),
                rows == self.rows.rows(),
                self.wf(),
                forall|a: int|
                    0 <= a < positions@.len() ==> (#[trigger] positions@[a]) < i
                        && rows[positions@[a] as int].1.1 > now,
                forall|a: int, b: int|
                    #![trigger positions@[a], positions@[b]]
                    0 <= a < b < positions@.len() ==> positions@[a] < positions@[b],
                forall|k: int|
                    0 <= k < i && (#[trigger] rows[k]).1.1 > now ==> exists|a: int|
                        0 <= a < positions@.len() && #[trigger] positions@[a] == k,
            decreases n - i,
        {
            let ghost before = positions@;
            if self.rows.value_at(i).1 > now {
                positions.push(i);
                proof {
                    assert forall|k: int| 0 <= k < i + 1 && (#[trigger] rows[k]).1.1
                        > now implies exists|a: int|
                        0 <= a < positions@.len() && #[trigger] positions@[a] == k by {
                        if k < i {
                            let a = choose|a: int|
                                0 <= a < before.len() && #[trigger] before[a] == k;
                            assert(positions@[a] == k);
                        } else {
                            assert(positions@[before.len() as int] == k);
                        }
                    }
                }
            }
            i = i + 1;
        }
        proof {
            let shown = self.rows_at(positions@);
            let left = fresh(self@, now);
            assert forall|a: int, b: int|
                #![trigger shown[a], shown[b]]
                0 <= a < b < shown.len() implies shown[a].0 != shown[b].0 by {
                assert(positions@[a] < positions@[b]);
                assert(rows[positions@[a] as int].0 != rows[positions@[b] as int].0);
            }
            assert forall|a: int|
                #![trigger shown[a]]
                0 <= a < shown.len() implies left.contains_key(shown[a].0) && left[shown[a].0]
                == shown[a].1 by {
                assert(self@.contains_key(rows[positions@[a] as int].0));
            }
            assert forall|key: KeyView| #[trigger] left.contains_key(key) implies exists|a: int|
                0 <= a < shown.len() && (#[trigger] shown[a]).0 == key by {
                assert(self@.contains_key(key));
                let k = choose|k: int| 0 <= k < rows.len() && (#[trigger] rows[k]).0 == key;
                assert(rows[k].1.1 > now);
                let a = choose|a: int| 0 <= a < positions@.len() && #[trigger] positions@[a] == k;
                assert(shown[a].0 == key);
            }
        }
        positions
    }

    spec fn rows_at(&self, positions: Seq<usize>) -> Seq<(KeyView, V)> {
        positions.map_values(
            |at: usize| (self.rows.rows()[at as int].0, self.rows.rows()[at as int].1.0),
        )
    }
}

/// What the gateways of a cluster share.
#[verifier::ext_equal]
pub struct SharedView {
    /// Registered gateways.
    pub instances: ExpiringView<InstanceEntry>,
    /// Backends of the sessions.
    pub sessions: ExpiringView<BackendId>,
    /// Where prefixes were sent.
    pub prefixes: ExpiringView<PrefixDispatchEntry>,
    /// Holders of the locks.
    pub locks: Map<KeyView, (Seq<char>, u64)>,
    /// Metrics of the backends.
    pub metrics: ExpiringView<(BackendId, BackendMetrics)>,
}

/// The key of a prefix.
pub open spec fn prefix_key_of(prefix_hash: u64) -> KeyView {
    (prefix_hash, Seq::empty(), Seq::empty())
}

/// The key of a lock.
pub open spec fn lock_key_of(name: Seq<char>) -> KeyView {
    (0u64, name, Seq::empty())
}

/// Whether a lock can be taken: nobody holds it, what holds it has expired, or `holder` holds it.
pub open spec fn can_lock(
    locks: Map<KeyView, (Seq<char>, u64)>,
    key: KeyView,
    holder: Seq<char>,
    now: u64,
) -> bool {
    !locks.contains_key(key) || locks[key].1 <= now || locks[key].0 == holder
}

/// The locks after `holder` tried to take one.
pub open spec fn after_lock(
    locks: Map<KeyView, (Seq<char>, u64)>,
    key: KeyView,
    holder: Seq<char>,
    now: u64,
    ttl_secs: u64,
) -> Map<KeyView, (Seq<char>, u64)> {
    if can_lock(locks, key, holder, now) {
        locks.insert(key, (holder, expiry(now, ttl_secs)))
    } else {
        locks
    }
}

/// The locks after `holder` gave one back; if another holds it, nothing happens.
pub open spec fn after_unlock(
    locks: Map<KeyView, (Seq<char>, u64)>,
    key: KeyView,
    holder: Seq<char>,
) -> Map<KeyView, (Seq<char>, u64)> {
    if locks.contains_key(key) && locks[key].0 == holder {
        locks.remove(key)
    } else {
        locks
    }
}

/// The gateways after one of them was heard of; one that is not registered is passed over.
pub open spec fn after_heartbeat(
    instances: ExpiringView<InstanceEntry>,
    key: KeyView,
    now: u64,
    ttl_secs: u64,
) -> ExpiringView<InstanceEntry> {
    if instances.contains_key(key) {
        instances.insert(
            key,
            (
                InstanceEntry { last_heartbeat_unix: now, ..instances[key].0 },
                expiry(now, ttl_secs),
            ),
        )
    } else {
        instances
    }
}

/// Gateways by their keys.
pub open spec fn keyed_instances(list: Seq<InstanceEntry>) -> Seq<(KeyView, InstanceEntry)> {
    list.map_values(|entry: InstanceEntry| (entry.instance_id.key(), entry))
}

/// Metrics by the keys of their backends.
pub open spec fn keyed_metrics(list: Seq<(BackendId, BackendMetrics)>) -> Seq<
    (KeyView, (BackendId, BackendMetrics)),
> {
    list.map_values(
        |entry: (BackendId, BackendMetrics)| (ids::backend_key(entry.0@), entry),
    )
}

/// Shared state that is kept in memory.
pub struct LocalSharedState {
    instances: Expiring<InstanceEntry>,
    sessions: Expiring<BackendId>,
    prefix_history: Expiring<PrefixDispatchEntry>,
    locks: Table<(String, u64)>,
    metrics: Expiring<(BackendId, BackendMetrics)>,
}

impl View for LocalSharedState {
    type V = SharedView;

    closed spec fn view(&self) -> SharedView {
        SharedView {
            instances: self.instances@,
            sessions: self.sessions@,
            prefixes: self.prefix_history@,
            locks: self.locks@.map_values(|lock: (String, u64)| (lock.0@, lock.1)),
            metrics: self.metrics@,
        }
    }
}

impl LocalSharedState {
    /// Gateways and metrics are filed under their own keys.
    pub closed spec fn wf(&self) -> bool {
        &&& self.instances.wf()
        &&& self.sessions.wf()
        &&& self.prefix_history.wf()
        &&& self.locks.wf()
        &&& self.metrics.wf()
        &&& forall|key: KeyView| #[trigger]
            self.instances@.contains_key(key) ==> self.instances@[key].0.instance_id.key() == key
        &&& forall|key: KeyView| #[trigger]
            self.metrics@.contains_key(key) ==> ids::backend_key(self.metrics@[key].0.0@) == key
    }

    /// Nothing.
    pub fn new() -> (state: Self)
        ensures
            state.wf(),
            state@ == (SharedView {
                instances: Map::empty(),
                sessions: Map::empty(),
                prefixes: Map::empty(),
                locks: Map::empty(),
                metrics: Map::empty(),
            }),
    {
        let state = LocalSharedState {
            instances: Expiring::new(),
            sessions: Expiring::new(),
            prefix_history: Expiring::new(),
            locks: Table::new(),
            metrics: Expiring::new(),
        };
        assert(state@.locks =~= Map::empty());
        state
    }

    /// Registers a gateway at `now`.
    pub fn register_instance(&mut self, entry: &InstanceEntry, ttl_secs: u64, now: u64)
        requires
            old(self).wf(),
        ensures
            final(self).wf(),
            final(self)@ == (SharedView {
                instances: old(self)@.instances.insert(
                    entry.instance_id.key(),
                    (
                        InstanceEntry { last_heartbeat_unix: now, ..*entry },
                        expiry(now, ttl_secs),
                    ),
                ),
                ..old(self)@
            }),
    {
        let stored: InstanceEntry = InstanceEntry { last_heartbeat_unix: now, ..entry.clone() };
        self.instances.put(entry.instance_id.table_key(), stored, expiry_time(now, ttl_secs));
    }

    /// Notes that a gateway was heard of at `now`; one that is not registered is passed over.
    pub fn heartbeat(&mut self, instance_id: &InstanceId, ttl_secs: u64, now: u64)
        requires
            old(self).wf(),
        ensures
            final(self).wf(),
            final(self)@ == (SharedView {
                instances: after_heartbeat(
                    old(self)@.instances,
                    instance_id.key(),
                    now,
                    ttl_secs,
                ),
                ..old(self)@
            }),
    {
        match self.instances.rows.find(&instance_id.table_key()) {
            Some(at) => {
                let mut stored: InstanceEntry = self.instances.rows.value_at(at).0.clone();
                assert(self.instances@.contains_key(instance_id.key()));
                stored.last_heartbeat_unix = now;
                self.instances.rows.replace_at(at, (stored, expiry_time(now, ttl_secs)));
            },
            None => {},
        }
    }

    /// The gateways whose registration has not expired at `now`.
    pub fn list_instances(&self, now: u64) -> (list: Vec<InstanceEntry>)
        requires
            self.wf(),
        ensures
            table::rows_hold(keyed_instances(list@), fresh(self@.instances, now)),
    {
        let positions: Vec<usize> = self.instances.fresh_rows(now);
        let ghost shown = self.instances.rows_at(positions@);
        let mut list: Vec<InstanceEntry> = Vec::new();
        let mut i: usize = 0;
        while i < positions.len()
            invariant
                i <= positions@.len(),
                self.wf(),
                shown == self.instances.rows_at(positions@),
                forall|a: int|
                    0 <= a < positions@.len() ==> (#[trigger] positions@[a])
                        < self.instances.rows.rows().len(),
                list@.len() == i,
                forall|a: int| 0 <= a < i ==> #[trigger] list@[a] == shown[a].1,
            decreases positions@.len() - i,
        {
            list.push(self.instances.rows.value_at(positions[i]).0.clone());
            i = i + 1;
        }
        proof {
            assert forall|a: int| 0 <= a < list@.len() implies #[trigger] keyed_instances(list@)[a]
                == shown[a] by {
                let left = fresh(self@.instances, now);
                assert(left.contains_key(shown[a].0));
                assert(self.instances@.contains_key(shown[a].0));
            }
            assert(keyed_instances(list@) =~= shown);
        }
        list
    }

    /// Drops a gateway.
    pub fn deregister_instance(&mut self, instance_id: &InstanceId)
        requires
            old(self).wf(),
        ensures
            final(self).wf(),
            final(self)@ == (SharedView {
                instances: old(self)@.instances.remove(instance_id.key()),
                ..old(self)@
            }),
    {
        self.instances.remove(&instance_id.table_key());
    }

    /// Notes the backend of a session.
    pub fn session_set(&mut self, session: &SessionId, backend: &BackendId, ttl_secs: u64, now: u64)
        requires
            old(self).wf(),
        ensures
            final(self).wf(),
            final(self)@ == (SharedView {
                sessions: old(self)@.sessions.insert(
                    session.key(),
                    (*backend, expiry(now, ttl_secs)),
                ),
                ..old(self)@
            }),
    {
        self.sessions.put(session.table_key(), backend.clone(), expiry_time(now, ttl_secs));
    }

    /// The backend of a session; what has expired is dropped.
    pub fn session_get(&mut self, session: &SessionId, now: u64) -> (backend: Option<BackendId>)
        requires
            old(self).wf(),
        ensures
            final(self).wf(),
            backend == fresh_value(old(self)@.sessions, session.key(), now),
            final(self)@ == (SharedView {
                sessions: looked_up(old(self)@.sessions, session.key(), now),
                ..old(self)@
            }),
    {
        match self.sessions.look_up(&session.table_key(), now) {
            Some(backend) => Some(backend.clone()),
            None => None,
        }
    }

    /// Notes where a prefix was sent.
    pub fn prefix_history_set(
        &mut self,
        prefix_hash: u64,
        entry: &PrefixDispatchEntry,
        ttl_secs: u64,
        now: u64,
    )
        requires
            old(self).wf(),
        ensures
            final(self).wf(),
            final(self)@ == (SharedView {
                prefixes: old(self)@.prefixes.insert(
                    prefix_key_of(prefix_hash),
                    (*entry, expiry(now, ttl_secs)),
                ),
                ..old(self)@
            }),
    {
        let key: TableKey = TableKey {
            number: prefix_hash,
            first: String::new(),
            second: String::new(),
        };
        assert(key@ == prefix_key_of(prefix_hash));
        self.prefix_history.put(key, entry.clone(), expiry_time(now, ttl_secs));
    }

    /// Where a prefix was sent; what has expired is dropped.
    pub fn prefix_history_get(&mut self, prefix_hash: u64, now: u64) -> (entry: Option<
        PrefixDispatchEntry,
    >)
        requires
            old(self).wf(),
        ensures
            final(self).wf(),
            entry == fresh_value(old(self)@.prefixes, prefix_key_of(prefix_hash), now),
            final(self)@ == (SharedView {
                prefixes: looked_up(old(self)@.prefixes, prefix_key_of(prefix_hash), now),
                ..old(self)@
            }),
    {
        let key: TableKey = TableKey {
            number: prefix_hash,
            first: String::new(),
            second: String::new(),
        };
        assert(key@ == prefix_key_of(prefix_hash));
        match self.prefix_history.look_up(&key, now) {
            Some(entry) => Some(entry.clone()),
            None => None,
        }
    }

    /// Tries to take a lock; tells whether `holder` holds it now.
    pub fn try_lock(&mut self, key: &str, holder: &str, ttl_secs: u64, now: u64) -> (acquired: bool)
        requires
            old(self).wf(),
        ensures
            final(self).wf(),
            acquired == can_lock(old(self)@.locks, lock_key_of(key@), holder@, now),
            final(self)@ == (SharedView {
                locks: after_lock(old(self)@.locks, lock_key_of(key@), holder@, now, ttl_secs),
                ..old(self)@
            }),
    {
        let filed: TableKey = TableKey { number: 0, first: key.to_owned(), second: String::new() };
        assert(filed@ == lock_key_of(key@));
        let acquired: bool = match self.locks.get(&filed) {
            Some(lock) => lock.1 <= now || reads(lock.0.as_str(), holder),
            None => true,
        };
        if acquired {
            self.locks.insert(filed, (holder.to_owned(), expiry_time(now, ttl_secs)));
        }
        proof {
            assert(self@.locks =~= after_lock(
                old(self)@.locks,
                lock_key_of(key@),
                holder@,
                now,
                ttl_secs,
            ));
        }
        acquired
    }

    /// Gives a lock back; if another holds it, nothing happens.
    pub fn unlock(&mut self, key: &str, holder: &str)
        requires
            old(self).wf(),
        ensures
            final(self).wf(),
            final(self)@ == (SharedView {
                locks: after_unlock(old(self)@.locks, lock_key_of(key@), holder@),
                ..old(self)@
            }),
    {
        let filed: TableKey = TableKey { number: 0, first: key.to_owned(), second: String::new() };
        assert(filed@ == lock_key_of(key@));
        let held: bool = match self.locks.get(&filed) {
            Some(lock) => reads(lock.0.as_str(), holder),
            None => false,
        };
        if held {
            self.locks.remove(&filed);
        }
        proof {
            assert(self@.locks =~= after_unlock(old(self)@.locks, lock_key_of(key@), holder@));
        }
    }

    /// Metrics of a backend; what has expired is dropped.
    pub fn metrics_get(&mut self, backend: &BackendId, now: u64) -> (metrics: Option<
        BackendMetrics,
    >)
        requires
            old(self).wf(),
        ensures
            final(self).wf(),
            match fresh_value(old(self)@.metrics, ids::backend_key(backend@), now) {
                Some(stored) => metrics == Some(stored.1),
                None => metrics is None,
            },
            final(self)@ == (SharedView {
                metrics: looked_up(old(self)@.metrics, ids::backend_key(backend@), now),
                ..old(self)@
            }),
    {
        match self.metrics.look_up(&backend.table_key(), now) {
            Some(stored) => Some(stored.1),
            None => None,
        }
    }

    /// Notes metrics of a backend.
    pub fn metrics_set(
        &mut self,
        backend: &BackendId,
        metrics: &BackendMetrics,
        ttl_secs: u64,
        now: u64,
    )
        requires
            old(self).wf(),
        ensures
            final(self).wf(),
            final(self)@ == (SharedView {
                metrics: old(self)@.metrics.insert(
                    ids::backend_key(backend@),
                    ((*backend, *metrics), expiry(now, ttl_secs)),
                ),
                ..old(self)@
            }),
    {
        self.metrics.put(
            backend.table_key(),
            (backend.clone(), *metrics),
            expiry_time(now, ttl_secs),
        );
    }

    /// The metrics that have not expired at `now`, each with its backend.
    pub fn metrics_get_all(&self, now: u64) -> (list: Vec<(BackendId, BackendMetrics)>)
        requires
            self.wf(),
        ensures
            table::rows_hold(keyed_metrics(list@), fresh(self@.metrics, now)),
    {
        let positions: Vec<usize> = self.metrics.fresh_rows(now);
        let ghost shown = self.metrics.rows_at(positions@);
        let mut list: Vec<(BackendId, BackendMetrics)> = Vec::new();
        let mut i: usize = 0;
        while i < positions.len()
            invariant
                i <= positions@.len(),
                self.wf(),
                shown == self.metrics.rows_at(positions@),
                forall|a: int|
                    0 <= a < positions@.len() ==> (#[trigger] positions@[a])
                        < self.metrics.rows.rows().len(),
                list@.len() == i,
                forall|a: int| 0 <= a < i ==> #[trigger] list@[a] == shown[a].1,
            decreases positions@.len() - i,
        {
            let stored: &(BackendId, BackendMetrics) = &self.metrics.rows.value_at(positions[i]).0;
            list.push((stored.0.clone(), stored.1));
            i = i + 1;
        }
        proof {
            assert forall|a: int| 0 <= a < list@.len() implies #[trigger] keyed_metrics(list@)[a]
                == shown[a] by {
                let left = fresh(self@.metrics, now);
                assert(left.contains_key(shown[a].0));
                assert(self.metrics@.contains_key(shown[a].0));
            }
            assert(keyed_metrics(list@) =~= shown);
        }
        list
    }

    /// Name of this kind of store.
    pub fn backend_name(&self) -> (name: &'static str)
        ensures
            name@ == "local"@,
    {
        "local"
    }
}

impl Default for LocalSharedState {
    fn default() -> (state: Self)
        ensures
            state.wf(),
            state@ == (SharedView {
                instances: Map::empty(),
                sessions: Map::empty(),
                prefixes: Map::empty(),
                locks: Map::empty(),
                metrics: Map::empty(),
            }),
    {
        LocalSharedState::new()
    }
}

/// The key of a gateway in a shared key space.
pub fn instance_key(instance_id: &InstanceId) -> (key: String)
    ensures
        key@ == "hier_kv_gateway:instance:"@ + instance_id@,
{
    join("hier_kv_gateway:instance:", instance_id.as_str())
}

/// The pattern of the keys of all gateways in a shared key space.
pub fn instance_pattern() -> (pattern: String)
    ensures
        pattern@ == "hier_kv_gateway:instance:"@ + "*"@,
{
    join("hier_kv_gateway:instance:", "*")
}

/// The key of a session in a shared key space.
pub fn session_key(session: &SessionId) -> (key: String)
    ensures
        key@ == "hier_kv_gateway:session:"@ + session@,
{
    join("hier_kv_gateway:session:", session.as_str())
}

/// The key of a prefix in a shared key space.
pub fn prefix_key(prefix_hash: u64) -> (key: String)
    ensures
        key@ == "hier_kv_gateway:prefix:"@ + text::decimal(prefix_hash as nat),
{
    join("hier_kv_gateway:prefix:", decimal_text(prefix_hash).as_str())
}

/// The key of a lock in a shared key space.
pub fn lock_key(name: &str) -> (key: String)
    ensures
        key@ == "hier_kv_gateway:lock:"@ + name@,
{
    join("hier_kv_gateway:lock:", name)
}

/// The key of a backend's metrics in a shared key space.
pub fn metrics_key(backend: &BackendId) -> (key: String)
    ensures
        key@ == "hier_kv_gateway:metrics:"@ + ids::backend_text(backend@),
{
    join("hier_kv_gateway:metrics:", backend.to_text().as_str())
}

/// The pattern of the keys of all backends' metrics in a shared key space.
pub fn metrics_pattern() -> (pattern: String)
    ensures
        pattern@ == "hier_kv_gateway:metrics:"@ + "*"@,
{
    join("hier_kv_gateway:metrics:", "*")
}

/// The time to live that a shared key space is given: whole seconds, at least one.
pub fn stored_ttl_secs(ttl_secs: u64) -> (secs: u64)
    ensures
        secs == (if ttl_secs == 0 {
            1
        } else {
            ttl_secs
        }),
{
    if ttl_secs == 0 {
        1
    } else {
        ttl_secs
    }
}

/// What is stored is read back until it expires, and not from then on.
pub proof fn stored_values_expire<V>(
    rows: ExpiringView<V>,
    key: KeyView,
    value: V,
    stored: u64,
    ttl_secs: u64,
    now: u64,
)
    ensures
        ({
            let after = rows.insert(key, (value, expiry(stored, ttl_secs)));
            &&& now < expiry(stored, ttl_secs) ==> fresh_value(after, key, now) == Some(value)
                && looked_up(after, key, now) == after
            &&& now >= expiry(stored, ttl_secs) ==> fresh_value(after, key, now) is None
                && !looked_up(after, key, now).contains_key(key)
        }),
{
}

/// Looking up a value leaves every other as it was.
pub proof fn looking_up_leaves_others<V>(
    rows: ExpiringView<V>,
    key: KeyView,
    other: KeyView,
    now: u64,
    later: u64,
)
    requires
        other != key,
    ensures
        fresh_value(looked_up(rows, key, now), other, later) == fresh_value(rows, other, later),
{
}

/// While a lock has not expired, nobody but its holder can take it or give it back.
pub proof fn a_lock_excludes_others(
    locks: Map<KeyView, (Seq<char>, u64)>,
    key: KeyView,
    holder: Seq<char>,
    other: Seq<char>,
    taken: u64,
    ttl_secs: u64,
    now: u64,
)
    requires
        can_lock(locks, key, holder, taken),
        other != holder,
        now < expiry(taken, ttl_secs),
    ensures
        ({
            let held = after_lock(locks, key, holder, taken, ttl_secs);
            &&& !can_lock(held, key, other, now)
            &&& after_unlock(held, key, other) == held
            &&& can_lock(held, key, holder, now)
        }),
{
}

/// A lock that was given back, or that has expired, can be taken by anybody.
pub proof fn a_free_lock_can_be_taken(
    locks: Map<KeyView, (Seq<char>, u64)>,
    key: KeyView,
    holder: Seq<char>,
    other: Seq<char>,
    taken: u64,
    ttl_secs: u64,
    now: u64,
)
    requires
        can_lock(locks, key, holder, taken),
    ensures
        ({
            let held = after_lock(locks, key, holder, taken, ttl_secs);
            &&& can_lock(after_unlock(held, key, holder), key, other, now)
            &&& now >= expiry(taken, ttl_secs) ==> can_lock(held, key, other, now)
        }),
{
}

/// What is stored for some seconds is read back during them, counted from when it was stored, and is
/// gone when they are over.
pub proof fn values_live_as_long_as_asked<V>(
    rows: ExpiringView<V>,
    key: KeyView,
    value: V,
    stored: u64,
    ttl_secs: u64,
    now: u64,
)
    requires
        stored + ttl_secs <= u64::MAX,
    ensures
        ({
            let after = rows.insert(key, (value, expiry(stored, ttl_secs)));
            &&& now < stored + ttl_secs ==> fresh_value(after, key, now) == Some(value)
            &&& now >= stored + ttl_secs ==> fresh_value(after, key, now) is None
            &&& fresh(after, now).contains_key(key) <==> now < stored + ttl_secs
            &&& now < stored + ttl_secs ==> fresh(after, now)[key] == value
        }),
{
}

/// The time at which a value expires never wraps around: it is no earlier than when it was stored.
pub proof fn a_long_time_to_live_does_not_wrap(stored: u64, ttl_secs: u64)
    ensures
        expiry(stored, ttl_secs) >= stored,
        stored + ttl_secs > u64::MAX ==> expiry(stored, ttl_secs) == u64::MAX,
        stored + ttl_secs <= u64::MAX ==> expiry(stored, ttl_secs) - stored == ttl_secs,
{
}

/// All fresh values are those that can be read one by one, and no others.
pub proof fn all_fresh_values_can_be_read<V>(rows: ExpiringView<V>, key: KeyView, now: u64)
    ensures
        fresh(rows, now).contains_key(key) <==> fresh_value(rows, key, now) is Some,
        fresh(rows, now).contains_key(key) ==> fresh_value(rows, key, now) == Some(
            fresh(rows, now)[key],
        ),
        fresh_value(rows, key, now) is Some <==> rows.contains_key(key) && now < rows[key].1,
        fresh_value(rows, key, now) is Some ==> fresh_value(rows, key, now)->0 == rows[key].0,
{
}

/// A heartbeat of a gateway that is registered keeps it for the given seconds from now on, notes the
/// time, and changes nothing else of it; one of a gateway that is not registered does nothing. Others
/// are not touched.
pub proof fn a_heartbeat_keeps_a_gateway(
    instances: ExpiringView<InstanceEntry>,
    key: KeyView,
    now: u64,
    ttl_secs: u64,
    other: KeyView,
)
    requires
        now + ttl_secs <= u64::MAX,
    ensures
        ({
            let after = after_heartbeat(instances, key, now, ttl_secs);
            &&& after.contains_key(other) == instances.contains_key(other)
            &&& other != key ==> after[other] == instances[other]
            &&& instances.contains_key(key) ==> {
                &&& after[key].1 == now + ttl_secs
                &&& after[key].0.last_heartbeat_unix == now
                &&& after[key].0 == (InstanceEntry {
                    last_heartbeat_unix: now,
                    ..instances[key].0
                })
            }
        }),
{
    if instances.contains_key(key) {
        assert(after_heartbeat(instances, key, now, ttl_secs).dom() =~= instances.dom());
    }
}

/// A lock that is taken is held by whoever took it for the given seconds. Whoever holds it can take
/// it again, which holds it from then on; nobody else can before it is given up or over. Other locks
/// are not touched, and neither taking nor giving up a lock that one may not changes anything.
pub proof fn a_lock_is_held_as_long_as_asked(
    locks: Map<KeyView, (Seq<char>, u64)>,
    key: KeyView,
    holder: Seq<char>,
    other: Seq<char>,
    now: u64,
    ttl_secs: u64,
    later: u64,
    elsewhere: KeyView,
)
    requires
        now + ttl_secs <= u64::MAX,
        other != holder,
        elsewhere != key,
    ensures
        ({
            let after = after_lock(locks, key, holder, now, ttl_secs);
            &&& !locks.contains_key(key) ==> can_lock(locks, key, holder, now)
            &&& can_lock(locks, key, holder, now) ==> after.contains_key(key) && after[key] == (
            holder, (now + ttl_secs) as u64)
            &&& can_lock(locks, key, holder, now) ==> can_lock(after, key, holder, later)
            &&& can_lock(locks, key, holder, now) ==> (can_lock(after, key, other, later) <==> later
                >= now + ttl_secs)
            &&& !can_lock(locks, key, holder, now) ==> after == locks
            &&& after.contains_key(elsewhere) == locks.contains_key(elsewhere)
            &&& after[elsewhere] == locks[elsewhere]
            &&& can_lock(locks, key, holder, now) ==> !after_unlock(
                after,
                key,
                holder,
            ).contains_key(key)
            &&& can_lock(locks, key, holder, now) ==> after_unlock(after, key, other) == after
            &&& after_unlock(locks, key, holder).contains_key(elsewhere) == locks.contains_key(
                elsewhere,
            )
            &&& after_unlock(locks, key, holder)[elsewhere] == locks[elsewhere]
        }),
{
}

/// Prefixes and locks with different names are kept apart.
pub proof fn keys_are_kept_apart(a: u64, b: u64, one: Seq<char>, two: Seq<char>)
    ensures
        prefix_key_of(a) == prefix_key_of(b) <==> a == b,
        lock_key_of(one) == lock_key_of(two) <==> one == two,
{
}

/// Looking a value up takes it out if its time is over, and changes nothing otherwise.
pub proof fn looking_up_takes_out_what_is_over<V>(
    rows: ExpiringView<V>,
    key: KeyView,
    now: u64,
    other: KeyView,
)
    ensures
        ({
            let after = looked_up(rows, key, now);
            &&& after.contains_key(key) <==> rows.contains_key(key) && now < rows[key].1
            &&& after.contains_key(key) ==> after[key] == rows[key]
            &&& other != key ==> after.contains_key(other) == rows.contains_key(other)
            &&& other != key ==> after[other] == rows[other]
            &&& fresh_value(after, other, now) == fresh_value(rows, other, now)
        }),
{
}

/// A list of gateways holds each that is fresh, once, as it is, and no other; and so for metrics.
pub proof fn lists_hold_what_is_fresh(
    list: Seq<InstanceEntry>,
    instances: ExpiringView<InstanceEntry>,
    metrics_list: Seq<(BackendId, BackendMetrics)>,
    metrics: ExpiringView<(BackendId, BackendMetrics)>,
    now: u64,
    i: int,
    j: int,
)
    requires
        table::rows_hold(keyed_instances(list), fresh(instances, now)),
        table::rows_hold(keyed_metrics(metrics_list), fresh(metrics, now)),
    ensures
        0 <= i < list.len() ==> fresh_value(instances, list[i].instance_id.key(), now) == Some(
            list[i],
        ),
        0 <= i < j < list.len() ==> list[i].instance_id@ != list[j].instance_id@,
        forall|id: InstanceId|
            #![trigger fresh_value(instances, id.key(), now)]
            fresh_value(instances, id.key(), now) is Some ==> exists|k: int|
                0 <= k < list.len() && (#[trigger] list[k]).instance_id.key() == id.key(),
        0 <= i < metrics_list.len() ==> fresh_value(
            metrics,
            ids::backend_key(metrics_list[i].0@),
            now,
        ) == Some(metrics_list[i]),
        0 <= i < j < metrics_list.len() ==> metrics_list[i].0@ != metrics_list[j].0@,
        forall|id: ids::BackendView|
            #![trigger fresh_value(metrics, ids::backend_key(id), now)]
            fresh_value(metrics, ids::backend_key(id), now) is Some ==> exists|k: int|
                0 <= k < metrics_list.len() && ids::backend_key((#[trigger] metrics_list[k]).0@)
                    == ids::backend_key(id),
{
    let rows = keyed_instances(list);
    let others = keyed_metrics(metrics_list);
    if 0 <= i < list.len() {
        assert(rows[i] == (list[i].instance_id.key(), list[i]));
        if i < j < list.len() {
            assert(rows[j] == (list[j].instance_id.key(), list[j]));
        }
    }
    if 0 <= i < metrics_list.len() {
        assert(others[i] == (ids::backend_key(metrics_list[i].0@), metrics_list[i]));
        if i < j < metrics_list.len() {
            assert(others[j] == (ids::backend_key(metrics_list[j].0@), metrics_list[j]));
        }
    }
    assert forall|id: InstanceId|
        #![trigger fresh_value(instances, id.key(), now)]
        fresh_value(instances, id.key(), now) is Some implies exists|k: int|
        0 <= k < list.len() && (#[trigger] list[k]).instance_id.key() == id.key() by {
        assert(fresh(instances, now).contains_key(id.key()));
        let k = choose|k: int| 0 <= k < rows.len() && (#[trigger] rows[k]).0 == id.key();
        assert(list[k].instance_id.key() == id.key());
    }
    assert forall|id: ids::BackendView|
        #![trigger fresh_value(metrics, ids::backend_key(id), now)]
        fresh_value(metrics, ids::backend_key(id), now) is Some implies exists|k: int|
        0 <= k < metrics_list.len() && ids::backend_key((#[trigger] metrics_list[k]).0@)
            == ids::backend_key(id) by {
        let key = ids::backend_key(id);
        assert(fresh(metrics, now).contains_key(key));
        let k = choose|k: int| 0 <= k < others.len() && (#[trigger] others[k]).0 == key;
        assert(ids::backend_key(metrics_list[k].0@) == key);
    }
}

} // verus!
