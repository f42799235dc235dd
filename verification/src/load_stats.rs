//! Load statistics: the latest metrics of each backend, and its most recent ones.

use vstd::prelude::*;

use crate::ids;
use crate::ids::BackendId;
use crate::metrics::BackendMetrics;
use crate::table::{KeyView, Table, TableKey};

verus! {

/// Number of samples that are kept per backend.
pub const RING_CAPACITY: usize = 60;

/// A buffer that keeps the last items pushed into it.
pub struct RingBuffer<T> {
    buf: Vec<T>,
    head: usize,
    len: usize,
    capacity: usize,
}

impl<T> View for RingBuffer<T> {
    type V = Seq<T>;

    closed spec fn view(&self) -> Seq<T> {
        self.buf@.skip(self.head as int) + self.buf@.take(self.head as int)
    }
}

/// The items that are kept after one more, by a buffer for `capacity` of them.
pub open spec fn pushed<T>(items: Seq<T>, capacity: nat, item: T) -> Seq<T> {
    if items.len() < capacity {
        items.push(item)
    } else {
        items.drop_first().push(item)
    }
}

/// The items that are kept of a number of items, pushed one after the other.
pub open spec fn pushed_all<T>(items: Seq<T>, capacity: nat, more: Seq<T>) -> Seq<T>
    decreases more.len(),
{
    if more.len() == 0 {
        items
    } else {
        pushed(pushed_all(items, capacity, more.drop_last()), capacity, more.last())
    }
}

impl<T: Clone> RingBuffer<T> {
    /// The buffer counts its items, and has wrapped only once it is full.
    pub closed spec fn wf(&self) -> bool {
        &&& self.len == self.buf@.len()
        &&& self.buf@.len() <= self.capacity
        &&& self.buf@.len() < self.capacity ==> self.head == 0
        &&& self.head <= self.buf@.len()
        &&& self.buf@.len() > 0 ==> self.head < self.buf@.len()
    }

    /// How many items the buffer keeps.
    pub closed spec fn capacity(&self) -> nat {
        self.capacity as nat
    }

    /// A buffer never holds more items than it is made for.
    pub proof fn lemma_within_capacity(&self)
        requires
            self.wf(),
        ensures
            self@.len() <= self.capacity(),
    {
    }

    /// An empty buffer that keeps `capacity` items.
    pub fn new(capacity: usize) -> (ring: Self)
        ensures
            ring.wf(),
            ring@ == Seq::<T>::empty(),
            ring.capacity() == capacity,
    {
        let ring = RingBuffer { buf: Vec::new(), head: 0, len: 0, capacity };
        assert(ring@ =~= Seq::<T>::empty());
        ring
    }

    /// Adds an item; the oldest one makes room for it when the buffer is full.
    pub fn push(&mut self, item: T)
        requires
            old(self).wf(),
            old(self).capacity() > 0,
        ensures
            final(self).wf(),
            final(self).capacity() == old(self).capacity(),
            final(self)@ == pushed(old(self)@, old(self).capacity(), item),
    {
        if self.buf.len() < self.capacity {
            self.buf.push(item);
            self.len = self.buf.len();
            proof {
                assert(self@ =~= pushed(old(self)@, old(self).capacity(), item));
            }
            return ;
        }
        let ghost before = self.buf@;
        let ghost head = self.head as int;
        self.buf.set(self.head, item);
        self.head = (self.head + 1) % self.capacity;
        self.len = self.capacity;
        proof {
            let n = before.len() as int;
            assert(self.buf@ == before.update(head, item));
            if head + 1 < n {
                assert((head + 1) % n == head + 1) by (nonlinear_arith)
                    requires
                        0 <= head + 1 < n,
                ;
            } else {
                assert((head + 1) % n == 0) by (nonlinear_arith)
                    requires
                        head + 1 == n,
                        n > 0,
                ;
            }
            assert(self@ =~= old(self)@.drop_first().push(item));
        }
    }

    /// The items, oldest first.
    pub fn snapshot(&self) -> (items: Vec<T>)
        requires
            self.wf(),
        ensures
            items@.len() == self@.len(),
            forall|i: int| 0 <= i < items@.len() ==> cloned(self@[i], #[trigger] items@[i]),
    {
        let mut items: Vec<T> = Vec::new();
        let n: usize = self.buf.len();
        let mut i: usize = 0;
        while i < n
            invariant
                i <= n,
                n == self.buf@.len(),
                self.wf(),
                items@.len() == i,
                forall|j: int| 0 <= j < i ==> cloned(self@[j], #[trigger] items@[j]),
            decreases n - i,
        {
            let at: usize = if i < n - self.head {
                self.head + i
            } else {
                i - (n - self.head)
            };
            assert(self@[i as int] == self.buf@[at as int]);
            items.push(self.buf[at].clone());
            i = i + 1;
        }
        items
    }

    /// Number of items.
    pub fn len(&self) -> (n: usize)
        requires
            self.wf(),
        ensures
            n == self@.len(),
    {
        self.len
    }

    /// Whether there are no items.
    pub fn is_empty(&self) -> (empty: bool)
        requires
            self.wf(),
        ensures
            empty == (self@.len() == 0),
    {
        self.len == 0
    }
}

/// A buffer that starts empty keeps the last items that were pushed, in their order, up to its
/// capacity.
pub proof fn a_ring_keeps_the_last_items<T>(capacity: nat, more: Seq<T>)
    requires
        capacity > 0,
    ensures
        pushed_all(Seq::empty(), capacity, more) == (if more.len() <= capacity {
            more
        } else {
            more.skip(more.len() - capacity)
        }),
    decreases more.len(),
{
    if more.len() == 0 {
        assert(more =~= Seq::empty());
    } else {
        let shorter = more.drop_last();
        a_ring_keeps_the_last_items(capacity, shorter);
        let kept = pushed_all(Seq::empty(), capacity, more);
        if more.len() <= capacity {
            assert(kept =~= more);
        } else {
            assert(kept =~= more.skip(more.len() - capacity));
        }
    }
}

/// What load statistics hold.
#[verifier::ext_equal]
pub struct LoadView {
    /// Latest metrics of each backend.
    pub latest: Map<KeyView, BackendMetrics>,
    /// Most recent metrics of each backend, oldest first.
    pub history: Map<KeyView, Seq<BackendMetrics>>,
}

impl LoadView {
    /// The most recent metrics of a backend.
    pub open spec fn history_of(self, key: KeyView) -> Seq<BackendMetrics> {
        if self.history.contains_key(key) {
            self.history[key]
        } else {
            Seq::empty()
        }
    }

    /// New metrics of a backend.
    pub open spec fn update(self, key: KeyView, metrics: BackendMetrics) -> LoadView {
        LoadView {
            latest: self.latest.insert(key, metrics),
            history: self.history.insert(
                key,
                pushed(self.history_of(key), RING_CAPACITY as nat, metrics),
            ),
        }
    }
}

/// Load statistics of all backends.
pub struct LoadStats {
    latest: Table<BackendMetrics>,
    history: Table<RingBuffer<BackendMetrics>>,
}

impl View for LoadStats {
    type V = LoadView;

    closed spec fn view(&self) -> LoadView {
        LoadView {
            latest: self.latest@,
            history: self.history@.map_values(|ring: RingBuffer<BackendMetrics>| ring@),
        }
    }
}

/// The time of metrics as an unsigned number; times before the epoch count as 0.
pub open spec fn time_of(metrics: BackendMetrics) -> u64 {
    if metrics.timestamp < 0 {
        0
    } else {
        metrics.timestamp as u64
    }
}

/// The time of metrics as an unsigned number.
pub fn metrics_timestamp(m: &BackendMetrics) -> (time: u64)
    ensures
        time == time_of(*m),
{
    if m.timestamp < 0 {
        0
    } else {
        m.timestamp as u64
    }
}

impl LoadStats {
    /// Every history is a well-formed buffer of the fixed capacity, and ends with the latest
    /// metrics.
    pub closed spec fn wf(&self) -> bool {
        &&& self.latest.wf()
        &&& self.history.wf()
        &&& forall|key: KeyView| #[trigger]
            self.history@.contains_key(key) ==> self.history@[key].wf()
                && self.history@[key].capacity() == RING_CAPACITY
        &&& self.latest@.dom() == self.history@.dom()
        &&& forall|key: KeyView| #[trigger]
            self.history@.contains_key(key) ==> self.history@[key]@.len() > 0
                && self.history@[key]@.last() == self.latest@[key]
    }

    /// No history is longer than the fixed capacity.
    pub proof fn a_history_is_bounded(&self, key: KeyView)
        requires
            self.wf(),
        ensures
            self@.history_of(key).len() <= RING_CAPACITY,
    {
        if self.history@.contains_key(key) {
            self.history@[key].lemma_within_capacity();
        }
    }

    /// The latest metrics of a backend are the last of its history; a backend without metrics has
    /// none.
    pub proof fn the_latest_metrics_end_the_history(&self, key: KeyView)
        requires
            self.wf(),
        ensures
            self@.latest.contains_key(key) == (self@.history_of(key).len() > 0),
            self@.latest.contains_key(key) ==> self@.history_of(key).last() == self@.latest[key],
    {
        assert(self.latest@.dom().contains(key) == self.history@.dom().contains(key));
    }

    /// No statistics.
    pub fn new() -> (stats: Self)
        ensures
            stats.wf(),
            stats@ == (LoadView { latest: Map::empty(), history: Map::empty() }),
    {
        let stats = LoadStats { latest: Table::new(), history: Table::new() };
        assert(stats@.history =~= Map::empty());
        stats
    }

    /// The latest metrics of a backend.
    pub fn get(&self, backend: &BackendId) -> (metrics: Option<BackendMetrics>)
        requires
            self.wf(),
        ensures
            metrics == (if self@.latest.contains_key(ids::backend_key(backend@)) {
                Some(self@.latest[ids::backend_key(backend@)])
            } else {
                None
            }),
    {
        match self.latest.get(&backend.table_key()) {
            Some(metrics) => Some(*metrics),
            None => None,
        }
    }

    /// Notes new metrics of a backend.
    pub fn update(&mut self, backend: &BackendId, metrics: BackendMetrics)
        requires
            old(self).wf(),
        ensures
            final(self).wf(),
            final(self)@ == old(self)@.update(ids::backend_key(backend@), metrics),
    {
        let ghost start = self@;
        let key: TableKey = backend.table_key();
        let ghost filed = key@;
        self.latest.insert(backend.table_key(), metrics);
        let mut ring: RingBuffer<BackendMetrics> = match self.history.remove(&key) {
            Some(ring) => ring,
            None => RingBuffer::new(RING_CAPACITY),
        };
        assert(ring@ == start.history_of(filed));
        ring.push(metrics);
        self.history.insert(key, ring);
        proof {
            assert(self.latest@.dom() =~= self.history@.dom());
            assert(self@.history =~= start.update(filed, metrics).history);
            assert(self@ =~= start.update(filed, metrics));
        }
    }

    /// How old the latest metrics of a backend are at `now_unix`, in seconds; 0 when they are from
    /// later.
    pub fn freshness(&self, backend: &BackendId, now_unix: u64) -> (age: Option<u64>)
        requires
            self.wf(),
        ensures
            match age {
                Some(secs) => self@.latest.contains_key(ids::backend_key(backend@)) && secs == (
                if now_unix >= time_of(self@.latest[ids::backend_key(backend@)]) {
                    now_unix - time_of(self@.latest[ids::backend_key(backend@)])
                } else {
                    0
                }),
                None => !self@.latest.contains_key(ids::backend_key(backend@)),
            },
            age == self@.age(ids::backend_key(backend@), now_unix),
    {
        match self.get(backend) {
            Some(metrics) => Some(now_unix.saturating_sub(metrics_timestamp(&metrics))),
            None => None,
        }
    }

    /// The most recent metrics of a backend, oldest first.
    pub fn history(&self, backend: &BackendId) -> (samples: Vec<BackendMetrics>)
        requires
            self.wf(),
        ensures
            samples@ == self@.history_of(ids::backend_key(backend@)),
    {
        match self.history.get(&backend.table_key()) {
            Some(ring) => {
                let samples: Vec<BackendMetrics> = ring.snapshot();
                assert(samples@ =~= ring@);
                samples
            },
            None => Vec::new(),
        }
    }

    /// Forgets a backend.
    pub fn remove(&mut self, backend: &BackendId)
        requires
            old(self).wf(),
        ensures
            final(self).wf(),
            final(self)@ == (LoadView {
                latest: old(self)@.latest.remove(ids::backend_key(backend@)),
                history: old(self)@.history.remove(ids::backend_key(backend@)),
            }),
    {
        let key: TableKey = backend.table_key();
        self.latest.remove(&key);
        self.history.remove(&key);
        proof {
            assert(self.latest@.dom() =~= self.history@.dom());
            assert(self@.history =~= old(self)@.history.remove(key@));
        }
    }
}

impl Default for LoadStats {
    fn default() -> (stats: Self)
        ensures
            stats.wf(),
            stats@ == (LoadView { latest: Map::empty(), history: Map::empty() }),
    {
        LoadStats::new()
    }
}

/// An update makes the given metrics the latest of its backend and the last of its history, before
/// which the most recent ones stand in order; those of other backends stay as they were.
pub proof fn an_update_is_the_latest_of_its_backend(
    load: LoadView,
    key: KeyView,
    metrics: BackendMetrics,
    other: KeyView,
)
    requires
        load.history_of(key).len() <= RING_CAPACITY,
    ensures
        ({
            let after = load.update(key, metrics);
            let before = load.history_of(key);
            &&& after.latest.contains_key(key) && after.latest[key] == metrics
            &&& after.history_of(key).last() == metrics
            &&& before.len() < RING_CAPACITY ==> after.history_of(key).drop_last() == before
            &&& before.len() == RING_CAPACITY ==> after.history_of(key).drop_last()
                == before.drop_first()
            &&& other != key ==> after.latest.contains_key(other) == load.latest.contains_key(other)
                && after.latest[other] == load.latest[other] && after.history_of(other)
                == load.history_of(other)
        }),
{
    let after = load.update(key, metrics);
    let before = load.history_of(key);
    if before.len() < RING_CAPACITY {
        assert(after.history_of(key).drop_last() =~= before);
    } else {
        assert(after.history_of(key).drop_last() =~= before.drop_first());
    }
}

/// The time of metrics is their timestamp, and the beginning of time if that is negative.
pub proof fn a_negative_timestamp_counts_as_none(metrics: BackendMetrics)
    ensures
        metrics.timestamp >= 0 ==> time_of(metrics) == metrics.timestamp,
        metrics.timestamp < 0 ==> time_of(metrics) == 0,
{
}

impl LoadView {
    /// Seconds since the latest metrics of a backend, if there are any.
    pub open spec fn age(self, key: KeyView, now_unix: u64) -> Option<u64> {
        if self.latest.contains_key(key) {
            let time = time_of(self.latest[key]);
            Some(
                if now_unix >= time {
                    (now_unix - time) as u64
                } else {
                    0
                },
            )
        } else {
            None
        }
    }
}

/// Metrics are as old as the time since they were taken, however many came before; metrics of the future
/// are new. A backend without metrics has no age, and another's update changes none.
pub proof fn metrics_age_from_the_latest(
    load: LoadView,
    key: KeyView,
    metrics: BackendMetrics,
    now_unix: u64,
    other: KeyView,
)
    requires
        other != key,
    ensures
        0 <= metrics.timestamp <= now_unix ==> load.update(key, metrics).age(key, now_unix) == Some(
            (now_unix - metrics.timestamp) as u64,
        ),
        metrics.timestamp > now_unix ==> load.update(key, metrics).age(key, now_unix) == Some(0u64),
        load.update(key, metrics).age(other, now_unix) == load.age(other, now_unix),
        load.age(key, now_unix) is Some <==> load.latest.contains_key(key),
{
}

} // verus!
