//! Session affinity: the backend that each session was last routed to.

use vstd::prelude::*;

use crate::ids::{BackendId, SessionId};
use crate::table;
use crate::table::{KeyView, Table};

verus! {

/// Where a session was last routed.
#[derive(Debug)]
pub struct SessionAffinity {
    /// The backend.
    pub backend: BackendId,
    /// When, in Unix seconds.
    pub last_used_unix: u64,
    /// KV overlap between the backend and the request at that time.
    pub kv_overlap_at_route: u32,
}

impl Clone for SessionAffinity {
    fn clone(&self) -> (copy: Self)
        ensures
            copy == *self,
    {
        SessionAffinity {
            backend: self.backend.clone(),
            last_used_unix: self.last_used_unix,
            kv_overlap_at_route: self.kv_overlap_at_route,
        }
    }
}

/// Whether a record is older than `ttl_secs` at time `now_unix`.
pub open spec fn expired(affinity: SessionAffinity, ttl_secs: u64, now_unix: u64) -> bool {
    affinity.last_used_unix + ttl_secs < now_unix
}

/// The records that are left after those that have expired are dropped.
pub open spec fn unexpired(
    sessions: Map<KeyView, SessionAffinity>,
    ttl_secs: u64,
    now_unix: u64,
) -> Map<KeyView, SessionAffinity> {
    sessions.remove_keys(
        sessions.dom().filter(|key: KeyView| expired(sessions[key], ttl_secs, now_unix)),
    )
}

/// Affinity records of all sessions.
pub struct RoutingHistory {
    sessions: Table<SessionAffinity>,
}

impl View for RoutingHistory {
    type V = Map<KeyView, SessionAffinity>;

    closed spec fn view(&self) -> Map<KeyView, SessionAffinity> {
        self.sessions@
    }
}

impl RoutingHistory {
    /// Each session has at most one record.
    pub closed spec fn wf(&self) -> bool {
        self.sessions.wf()
    }

    /// No records.
    pub fn new() -> (history: Self)
        ensures
            history.wf(),
            history@ == Map::<KeyView, SessionAffinity>::empty(),
    {
        RoutingHistory { sessions: Table::new() }
    }

    /// The record of a session.
    pub fn get(&self, session: &SessionId) -> (affinity: Option<SessionAffinity>)
        requires
            self.wf(),
        ensures
            affinity == (if self@.contains_key(session.key()) {
                Some(self@[session.key()])
            } else {
                None
            }),
    {
        match self.sessions.get(&session.table_key()) {
            Some(affinity) => Some(affinity.clone()),
            None => None,
        }
    }

    /// Notes that a session was routed to a backend at time `now_unix`.
    pub fn set(
        &mut self,
        session: &SessionId,
        backend: BackendId,
        kv_overlap_at_route: u32,
        now_unix: u64,
    )
        requires
            old(self).wf(),
        ensures
            final(self).wf(),
            final(self)@ == old(self)@.insert(
                session.key(),
                SessionAffinity { backend, last_used_unix: now_unix, kv_overlap_at_route },
            ),
    {
        self.sessions.insert(
            session.table_key(),
            SessionAffinity { backend, last_used_unix: now_unix, kv_overlap_at_route },
        );
    }

    /// Drops the record of a session.
    pub fn remove(&mut self, session: &SessionId)
        requires
            old(self).wf(),
        ensures
            final(self).wf(),
            final(self)@ == old(self)@.remove(session.key()),
    {
        self.sessions.remove(&session.table_key());
    }

    /// Drops the records that are older than `ttl_secs` at time `now_unix`, and tells how many they
    /// were.
    pub fn evict_expired(&mut self, ttl_secs: u64, now_unix: u64) -> (removed: usize)
        requires
            old(self).wf(),
        ensures
            final(self).wf(),
            final(self)@ == unexpired(old(self)@, ttl_secs, now_unix),
            removed == old(self)@.dom().len() - final(self)@.dom().len(),
    {
        let mut keep: Vec<bool> = Vec::new();
        let n: usize = self.sessions.len();
        let ghost rows = self.sessions.rows();
        let mut i: usize = 0;
        while i < n
            invariant
                i <= n,
                n == rows.len(),
                self.wf(),
                rows == self.sessions.rows(),
                keep@.len() == i,
                forall|j: int|
                    0 <= j < i ==> #[trigger] keep@[j] == !expired(rows[j].1, ttl_secs, now_unix),
            decreases n - i,
        {
            let used: u64 = self.sessions.value_at(i).last_used_unix;
            keep.push(!(used.saturating_add(ttl_secs) < now_unix));
            i = i + 1;
        }
        proof {
            self.sessions.lemma_rows();
        }
        let removed: usize = self.sessions.retain_rows(&keep);
        proof {
            let expected = unexpired(old(self)@, ttl_secs, now_unix);
            assert forall|k: KeyView| self@.contains_key(k) == expected.contains_key(k) by {
                if old(self)@.contains_key(k) {
                    let j = choose|j: int| 0 <= j < rows.len() && (#[trigger] rows[j]).0 == k;
                    assert(keep@[j] == !expired(rows[j].1, ttl_secs, now_unix));
                    if table::unmarked(rows, keep@).contains(k) {
                        let other = choose|other: int|
                            0 <= other < rows.len() && !keep@[other] && (#[trigger] rows[other]).0
                                == k;
                        assert(rows[other].1 == rows[j].1);
                        assert(keep@[other] == !expired(rows[other].1, ttl_secs, now_unix));
                    }
                }
            }
            assert(self@ =~= expected);
        }
        removed
    }

    /// Number of records.
    pub fn len(&self) -> (n: usize)
        requires
            self.wf(),
        ensures
            n == self@.dom().len(),
    {
        self.sessions.len()
    }

    /// Whether there are no records.
    pub fn is_empty(&self) -> (empty: bool)
        requires
            self.wf(),
        ensures
            empty == (self@.dom().len() == 0),
    {
        self.sessions.len() == 0
    }
}

impl Default for RoutingHistory {
    fn default() -> (history: Self)
        ensures
            history.wf(),
            history@ == Map::<KeyView, SessionAffinity>::empty(),
    {
        RoutingHistory::new()
    }
}

/// A record that was made at the time of an eviction, or later, outlives it, whatever the time to
/// live.
pub proof fn fresh_records_outlive_eviction(
    sessions: Map<KeyView, SessionAffinity>,
    key: KeyView,
    ttl_secs: u64,
    now_unix: u64,
)
    requires
        sessions.contains_key(key),
        sessions[key].last_used_unix >= now_unix,
    ensures
        unexpired(sessions, ttl_secs, now_unix).contains_key(key),
        unexpired(sessions, ttl_secs, now_unix)[key] == sessions[key],
{
}

/// Eviction takes out the records that were last used longer ago than the time to live, and no
/// others; those that are left stay as they were.
pub proof fn eviction_takes_out_what_is_too_old(
    sessions: Map<KeyView, SessionAffinity>,
    key: KeyView,
    ttl_secs: u64,
    now_unix: u64,
)
    ensures
        unexpired(sessions, ttl_secs, now_unix).contains_key(key) <==> sessions.contains_key(key)
            && now_unix - sessions[key].last_used_unix <= ttl_secs,
        unexpired(sessions, ttl_secs, now_unix).contains_key(key) ==> unexpired(
            sessions,
            ttl_secs,
            now_unix,
        )[key] == sessions[key],
{
}

} // verus!
