//! A table of rows, each filed under a key, with the position of every key kept in a
//! [`dashmap::DashMap`].
//!
//! The rows stand in a vector, so that they can be walked in a fixed order; the map finds a
//! key's row. A [`Table`]'s view is the map from keys to values.

use dashmap::DashMap;
use vstd::prelude::*;

verus! {

/// What a key is: a number and two texts.
pub type KeyView = (u64, Seq<char>, Seq<char>);

/// The key of a row. Identifiers that are one text leave the number 0 and the second text empty.
#[derive(Debug, PartialEq, Eq, Hash)]
pub struct TableKey {
    /// Numeric part of the key.
    pub number: u64,
    /// First text of the key.
    pub first: String,
    /// Second text of the key.
    pub second: String,
}

impl View for TableKey {
    type V = KeyView;

    open spec fn view(&self) -> KeyView {
        (self.number, self.first@, self.second@)
    }
}

impl Clone for TableKey {
    fn clone(&self) -> (copy: Self)
        ensures
            copy == *self,
    {
        TableKey { number: self.number, first: self.first.clone(), second: self.second.clone() }
    }
}

/// `dashmap::DashMap`, a hash map; its contents are named by [`positions`].
#[verifier::external_type_specification]
#[verifier::external_body]
#[verifier::reject_recursive_types(K)]
#[verifier::reject_recursive_types(V)]
#[verifier::reject_recursive_types(S)]
pub struct ExDashMap<K, V, S>(DashMap<K, V, S>);

/// What a map from keys to row positions holds.
pub uninterp spec fn positions(index: DashMap<(u64, String, String), usize>) -> Map<
    (u64, Seq<char>, Seq<char>),
    usize,
>;

/// `DashMap::new`: a map that holds nothing.
#[verifier::external_body]
fn index_new() -> (index: DashMap<(u64, String, String), usize>)
    ensures
        positions(index) =~= Map::empty(),
{
    DashMap::new()
}

/// `DashMap::get`: the value filed under `key`, if there is one.
#[verifier::external_body]
fn index_get(index: &DashMap<(u64, String, String), usize>, key: &TableKey) -> (at: Option<usize>)
    ensures
        at == (if positions(*index).contains_key(key@) {
            Some(positions(*index)[key@])
        } else {
            None::<usize>
        }),
{
    let wanted = (key.number, key.first.clone(), key.second.clone());
    index.get(&wanted).map(|at| *at)
}

/// `DashMap::insert`: files `at` under `key`, in place of what was there.
#[verifier::external_body]
fn index_insert(index: &mut DashMap<(u64, String, String), usize>, key: &TableKey, at: usize)
    ensures
        positions(*final(index)) == positions(*old(index)).insert(key@, at),
{
    index.insert((key.number, key.first.clone(), key.second.clone()), at);
}

/// `DashMap::remove`: the map no longer holds `key`.
#[verifier::external_body]
fn index_remove(index: &mut DashMap<(u64, String, String), usize>, key: &TableKey)
    ensures
        positions(*final(index)) == positions(*old(index)).remove(key@),
{
    index.remove(&(key.number, key.first.clone(), key.second.clone()));
}

/// A table of rows filed under distinct keys.
pub struct Table<V> {
    index: DashMap<(u64, String, String), usize>,
    rows: Vec<(TableKey, V)>,
}

impl<V> View for Table<V> {
    type V = Map<KeyView, V>;

    closed spec fn view(&self) -> Map<KeyView, V> {
        positions(self.index).map_values(|at: usize| self.rows@[at as int].1)
    }
}

/// The map that rows with distinct keys make up.
pub open spec fn rows_hold<V>(rows: Seq<(KeyView, V)>, map: Map<KeyView, V>) -> bool {
    &&& forall|i: int, j: int|
        #![trigger rows[i], rows[j]]
        0 <= i < j < rows.len() ==> rows[i].0 != rows[j].0
    &&& forall|i: int|
        #![trigger rows[i]]
        0 <= i < rows.len() ==> map.contains_key(rows[i].0) && map[rows[i].0] == rows[i].1
    &&& forall|k: KeyView| #[trigger]
        map.contains_key(k) ==> exists|i: int| 0 <= i < rows.len() && (#[trigger] rows[i]).0 == k
}

impl<V> Table<V> {
    /// The rows in the order in which they are walked: each key with its value.
    pub closed spec fn rows(&self) -> Seq<(KeyView, V)> {
        self.rows@.map_values(|row: (TableKey, V)| (row.0@, row.1))
    }

    /// Every key is filed at the position of its row, and nothing else is filed.
    pub closed spec fn wf(&self) -> bool {
        let at = positions(self.index);
        &&& forall|i: int|
            #![trigger self.rows@[i]]
            0 <= i < self.rows@.len() ==> at.contains_key(self.rows@[i].0@)
                && at[self.rows@[i].0@] == i
        &&& forall|k: KeyView| #[trigger]
            at.contains_key(k) ==> at[k] < self.rows@.len() && self.rows@[at[k] as int].0@ == k
    }

    /// The rows of a table hold exactly what its view says, each key once.
    pub proof fn lemma_rows(&self)
        requires
            self.wf(),
        ensures
            rows_hold(self.rows(), self@),
            self@.dom().finite(),
            self@.dom().len() == self.rows().len(),
    {
        let at = positions(self.index);
        let rows = self.rows();
        assert forall|k: KeyView| #[trigger] self@.contains_key(k) implies exists|i: int|
            0 <= i < rows.len() && (#[trigger] rows[i]).0 == k by {
            assert(at.contains_key(k));
            assert(rows[at[k] as int].0 == k);
        }
        assert forall|i: int|
            #![trigger rows[i]]
            0 <= i < rows.len() implies self@.contains_key(rows[i].0) && self@[rows[i].0]
            == rows[i].1 by {
            assert(at.contains_key(self.rows@[i].0@));
        }
        assert forall|i: int, j: int|
            #![trigger rows[i], rows[j]]
            0 <= i < j < rows.len() implies rows[i].0 != rows[j].0 by {
            assert(at[self.rows@[i].0@] == i);
            assert(at[self.rows@[j].0@] == j);
        }
        lemma_rows_count(rows, self@);
    }

    /// An empty table.
    pub fn new() -> (table: Self)
        ensures
            table.wf(),
            table@ == Map::<KeyView, V>::empty(),
            table.rows() == Seq::<(KeyView, V)>::empty(),
    {
        let table = Table { index: index_new(), rows: Vec::new() };
        assert(table@ =~= Map::<KeyView, V>::empty());
        assert(table.rows() =~= Seq::<(KeyView, V)>::empty());
        table
    }

    /// Number of rows.
    pub fn len(&self) -> (n: usize)
        requires
            self.wf(),
        ensures
            n == self.rows().len(),
            n == self@.dom().len(),
    {
        proof {
            self.lemma_rows();
        }
        self.rows.len()
    }

    /// The position of the row under `key`.
    pub fn find(&self, key: &TableKey) -> (at: Option<usize>)
        requires
            self.wf(),
        ensures
            match at {
                Some(i) => i < self.rows().len() && self.rows()[i as int].0 == key@
                    && self@.contains_key(key@) && self.rows()[i as int].1 == self@[key@],
                None => !self@.contains_key(key@),
            },
    {
        index_get(&self.index, key)
    }

    /// The value under `key`.
    pub fn get(&self, key: &TableKey) -> (value: Option<&V>)
        requires
            self.wf(),
        ensures
            match value {
                Some(v) => self@.contains_key(key@) && *v == self@[key@],
                None => !self@.contains_key(key@),
            },
    {
        match index_get(&self.index, key) {
            Some(at) => Some(&self.rows[at].1),
            None => None,
        }
    }

    /// Whether there is a row under `key`.
    pub fn contains(&self, key: &TableKey) -> (found: bool)
        requires
            self.wf(),
        ensures
            found == self@.contains_key(key@),
    {
        index_get(&self.index, key).is_some()
    }

    /// The key of the row at position `at`.
    pub fn key_at(&self, at: usize) -> (key: &TableKey)
        requires
            self.wf(),
            at < self.rows().len(),
        ensures
            key@ == self.rows()[at as int].0,
    {
        &self.rows[at].0
    }

    /// The value of the row at position `at`.
    pub fn value_at(&self, at: usize) -> (value: &V)
        requires
            self.wf(),
            at < self.rows().len(),
        ensures
            *value == self.rows()[at as int].1,
    {
        &self.rows[at].1
    }

    /// Replaces the value of the row at position `at`, and hands back what was there.
    pub fn replace_at(&mut self, at: usize, value: V) -> (before: V)
        requires
            old(self).wf(),
            at < old(self).rows().len(),
        ensures
            final(self).wf(),
            before == old(self).rows()[at as int].1,
            final(self).rows() == old(self).rows().update(
                at as int,
                (old(self).rows()[at as int].0, value),
            ),
            final(self)@ == old(self)@.insert(old(self).rows()[at as int].0, value),
    {
        let mut row: V = value;
        let ghost before_rows = self.rows@;
        let ghost key = self.rows@[at as int].0;
        std::mem::swap(&mut self.rows[at].1, &mut row);
        proof {
            assert(self.rows@ =~= before_rows.update(at as int, (key, value)));
            assert(self.rows() =~= old(self).rows().update(
                at as int,
                (old(self).rows()[at as int].0, value),
            ));
            assert(self@ =~= old(self)@.insert(old(self).rows()[at as int].0, value));
        }
        row
    }

    /// The value of the row at position `at`, to be changed in place.
    pub fn value_mut(&mut self, at: usize) -> (value: &mut V)
        requires
            old(self).wf(),
            at < old(self).rows().len(),
        ensures
            *value == old(self).rows()[at as int].1,
            final(self).wf(),
            final(self).rows() == old(self).rows().update(
                at as int,
                (old(self).rows()[at as int].0, *final(value)),
            ),
            final(self)@ == old(self)@.insert(old(self).rows()[at as int].0, *final(value)),
    {
        proof {
            let rows = self.rows@;
            let index = self.index;
            assert forall|v: V|
                (#[trigger] rows.update(at as int, (rows[at as int].0, v))).map_values(
                    |row: (TableKey, V)| (row.0@, row.1),
                ) == self.rows().update(at as int, (self.rows()[at as int].0, v)) by {
                assert(rows.update(at as int, (rows[at as int].0, v)).map_values(
                    |row: (TableKey, V)| (row.0@, row.1),
                ) =~= self.rows().update(at as int, (self.rows()[at as int].0, v)));
            }
            assert forall|v: V|
                positions(index).map_values(
                    |i: usize| (#[trigger] rows.update(at as int, (rows[at as int].0, v)))[i as int].1,
                ) == self@.insert(self.rows()[at as int].0, v) by {
                assert(positions(index).map_values(
                    |i: usize| rows.update(at as int, (rows[at as int].0, v))[i as int].1,
                ) =~= self@.insert(self.rows()[at as int].0, v));
            }
        }
        &mut self.rows[at].1
    }

    /// Files `value` under `key`; hands back what was there before. A new key gets the last row.
    pub fn insert(&mut self, key: TableKey, value: V) -> (before: Option<V>)
        requires
            old(self).wf(),
        ensures
            final(self).wf(),
            final(self)@ == old(self)@.insert(key@, value),
            before == (if old(self)@.contains_key(key@) {
                Some(old(self)@[key@])
            } else {
                None
            }),
            !old(self)@.contains_key(key@) ==> final(self).rows() == old(self).rows().push(
                (key@, value),
            ),
            old(self)@.contains_key(key@) ==> exists|i: int|
                0 <= i < old(self).rows().len() && (#[trigger] old(self).rows()[i]).0 == key@
                    && final(self).rows() == old(self).rows().update(i, (key@, value)),
    {
        match index_get(&self.index, &key) {
            Some(at) => {
                proof {
                    assert(self.rows()[at as int].0 == key@);
                }
                Some(self.replace_at(at, value))
            },
            None => {
                let at: usize = self.rows.len();
                index_insert(&mut self.index, &key, at);
                let ghost filed = key@;
                self.rows.push((key, value));
                proof {
                    assert(self.rows() =~= old(self).rows().push((filed, value)));
                    assert(self@ =~= old(self)@.insert(filed, value));
                }
                None
            },
        }
    }

    /// Takes the row under `key` out of the table; the last row takes its place.
    pub fn remove(&mut self, key: &TableKey) -> (value: Option<V>)
        requires
            old(self).wf(),
        ensures
            final(self).wf(),
            final(self)@ == old(self)@.remove(key@),
            value == (if old(self)@.contains_key(key@) {
                Some(old(self)@[key@])
            } else {
                None
            }),
            !old(self)@.contains_key(key@) ==> final(self).rows() == old(self).rows(),
            old(self)@.contains_key(key@) ==> exists|i: int|
                0 <= i < old(self).rows().len() && (#[trigger] old(self).rows()[i]).0 == key@
                    && final(self).rows() == old(self).rows().update(
                    i,
                    old(self).rows().last(),
                ).drop_last(),
    {
        match index_get(&self.index, key) {
            Some(at) => {
                let ghost before = self.rows@;
                let ghost filed = positions(self.index);
                index_remove(&mut self.index, key);
                let row: (TableKey, V) = self.rows.swap_remove(at);
                if at < self.rows.len() {
                    let moved: TableKey = self.rows[at].0.clone();
                    index_insert(&mut self.index, &moved, at);
                }
                proof {
                    let last = before.len() - 1;
                    assert(before[at as int].0@ == key@);
                    assert(filed[before[last].0@] == last);
                    assert forall|i: int|
                        #![trigger self.rows@[i]]
                        0 <= i < self.rows@.len() implies positions(self.index).contains_key(
                        self.rows@[i].0@,
                    ) && positions(self.index)[self.rows@[i].0@] == i by {
                        if i != at {
                            assert(self.rows@[i] == before[i]);
                            assert(filed[before[i].0@] == i);
                        } else {
                            assert(self.rows@[i] == before[last]);
                        }
                    }
                    assert forall|k: KeyView| #[trigger]
                        positions(self.index).contains_key(k) implies positions(self.index)[k]
                        < self.rows@.len() && self.rows@[positions(self.index)[k] as int].0@
                        == k by {
                        assert(filed.contains_key(k));
                    }
                    assert(self.wf());
                    assert(old(self).rows()[at as int].0 == key@);
                    assert(self.rows() =~= old(self).rows().update(
                        at as int,
                        old(self).rows().last(),
                    ).drop_last());
                    assert forall|k: KeyView| #[trigger]
                        self@.contains_key(k) implies old(self)@.remove(key@).contains_key(k)
                        && old(self)@[k] == self@[k] by {
                        assert(positions(self.index).contains_key(k));
                        assert(filed.contains_key(k));
                    }
                    assert(self@ =~= old(self)@.remove(key@));
                }
                Some(row.1)
            },
            None => {
                proof {
                    assert(self@ =~= old(self)@.remove(key@));
                }
                None
            },
        }
    }

    /// Takes out the rows that `keep` does not mark, and tells how many they were.
    pub fn retain_rows(&mut self, keep: &Vec<bool>) -> (removed: usize)
        requires
            old(self).wf(),
            keep@.len() == old(self).rows().len(),
        ensures
            final(self).wf(),
            final(self)@ == old(self)@.remove_keys(unmarked(old(self).rows(), keep@)),
            removed == old(self)@.dom().len() - final(self)@.dom().len(),
    {
        let mut removed: usize = 0;
        let n: usize = self.rows.len();
        let mut i: usize = n;
        let ghost rows = self.rows();
        proof {
            old(self).lemma_rows();
            assert(self@ =~= old(self)@.remove_keys(Set::empty()));
        }
        while i > 0
            invariant
                i <= n,
                n == rows.len(),
                rows == old(self).rows(),
                keep@.len() == rows.len(),
                rows_hold(rows, old(self)@),
                old(self)@.dom().finite(),
                self.wf(),
                i <= self.rows().len(),
                forall|j: int| 0 <= j < i ==> #[trigger] self.rows()[j] == rows[j],
                self@ == old(self)@.remove_keys(unmarked_from(rows, keep@, i as int)),
                removed == old(self)@.dom().len() - self@.dom().len(),
                removed <= rows.len() - i,
            decreases i,
        {
            i = i - 1;
            let ghost here = rows[i as int].0;
            let ghost before = self@;
            proof {
                self.lemma_rows();
                assert(self.rows()[i as int] == rows[i as int]);
                assert(before.contains_key(here));
            }
            if !keep[i] {
                let key: TableKey = self.key_at(i).clone();
                let ghost shown = self.rows();
                self.remove(&key);
                removed = removed + 1;
                proof {
                    self.lemma_rows();
                    let at = choose|at: int|
                        0 <= at < shown.len() && (#[trigger] shown[at]).0 == key@ && self.rows()
                            == shown.update(at, shown.last()).drop_last();
                    if at < i {
                        assert(shown[at].0 != shown[i as int].0);
                    } else if at > i {
                        assert(shown[i as int].0 != shown[at].0);
                    }
                    assert forall|j: int| 0 <= j < i implies #[trigger] self.rows()[j]
                        == rows[j] by {
                        assert(shown[j] == rows[j]);
                    }
                    assert forall|k: KeyView|
                        unmarked_from(rows, keep@, i as int).contains(k) == unmarked_from(
                            rows,
                            keep@,
                            i + 1,
                        ).insert(here).contains(k) by {
                        if unmarked_from(rows, keep@, i as int).contains(k) {
                            let j = choose|j: int|
                                i <= j < rows.len() && !keep@[j] && (#[trigger] rows[j]).0 == k;
                            if j > i {
                                assert(rows[j].0 == k);
                            }
                        }
                        if k == here {
                            assert(rows[i as int].0 == k);
                        }
                        if unmarked_from(rows, keep@, i + 1).contains(k) {
                            let j = choose|j: int|
                                i + 1 <= j < rows.len() && !keep@[j] && (#[trigger] rows[j]).0 == k;
                            assert(rows[j].0 == k);
                        }
                    }
                    assert(self@ =~= old(self)@.remove_keys(
                        unmarked_from(rows, keep@, i as int),
                    ));
                }
            } else {
                proof {
                    assert forall|k: KeyView|
                        unmarked_from(rows, keep@, i as int).contains(k) == unmarked_from(
                            rows,
                            keep@,
                            i + 1,
                        ).contains(k) by {
                        if unmarked_from(rows, keep@, i as int).contains(k) {
                            let j = choose|j: int|
                                i <= j < rows.len() && !keep@[j] && (#[trigger] rows[j]).0 == k;
                            assert(rows[j].0 == k);
                        }
                        if unmarked_from(rows, keep@, i + 1).contains(k) {
                            let j = choose|j: int|
                                i + 1 <= j < rows.len() && !keep@[j] && (#[trigger] rows[j]).0 == k;
                            assert(rows[j].0 == k);
                        }
                    }
                    assert(self@ =~= old(self)@.remove_keys(
                        unmarked_from(rows, keep@, i as int),
                    ));
                }
            }
        }
        removed
    }

    /// Takes every row out of the table.
    pub fn clear(&mut self)
        requires
            old(self).wf(),
        ensures
            final(self).wf(),
            final(self)@ == Map::<KeyView, V>::empty(),
            final(self).rows() == Seq::<(KeyView, V)>::empty(),
    {
        self.index = index_new();
        self.rows.clear();
        proof {
            assert(self@ =~= Map::<KeyView, V>::empty());
            assert(self.rows() =~= Seq::<(KeyView, V)>::empty());
        }
    }
}

/// The keys of the rows, from position `from` on, that `keep` does not mark.
pub open spec fn unmarked_from<V>(
    rows: Seq<(KeyView, V)>,
    keep: Seq<bool>,
    from: int,
) -> Set<KeyView> {
    Set::new(
        |k: KeyView|
            exists|j: int| from <= j < rows.len() && !keep[j] && (#[trigger] rows[j]).0 == k,
    )
}

/// The keys of the rows that `keep` does not mark.
pub open spec fn unmarked<V>(rows: Seq<(KeyView, V)>, keep: Seq<bool>) -> Set<KeyView> {
    unmarked_from(rows, keep, 0)
}

/// A map that distinct rows make up has as many keys as there are rows.
pub proof fn lemma_rows_count<V>(rows: Seq<(KeyView, V)>, map: Map<KeyView, V>)
    requires
        rows_hold(rows, map),
    ensures
        map.dom().finite(),
        map.dom().len() == rows.len(),
{
    let keys = rows.map_values(|row: (KeyView, V)| row.0);
    assert(keys.no_duplicates()) by {
        assert forall|i: int, j: int|
            0 <= i < keys.len() && 0 <= j < keys.len() && i != j implies keys[i] != keys[j] by {
            if i < j {
                assert(rows[i].0 != rows[j].0);
            } else {
                assert(rows[j].0 != rows[i].0);
            }
        }
    }
    assert(keys.to_set() =~= map.dom()) by {
        assert forall|k: KeyView| keys.to_set().contains(k) == map.dom().contains(k) by {
            if map.contains_key(k) {
                let i = choose|i: int| 0 <= i < rows.len() && (#[trigger] rows[i]).0 == k;
                assert(keys[i] == k);
            }
            if keys.contains(k) {
                let i = choose|i: int| 0 <= i < keys.len() && keys[i] == k;
                assert(rows[i].0 == k);
            }
        }
    }
    keys.unique_seq_to_set();
}

/// Taking out the rows that are not marked leaves the marked ones, as they were.
pub proof fn marked_rows_are_kept<V>(
    rows: Seq<(KeyView, V)>,
    map: Map<KeyView, V>,
    keep: Seq<bool>,
    i: int,
)
    requires
        rows_hold(rows, map),
        keep.len() == rows.len(),
        0 <= i < rows.len(),
    ensures
        map.remove_keys(unmarked(rows, keep)).contains_key(rows[i].0) == keep[i],
        keep[i] ==> map.remove_keys(unmarked(rows, keep))[rows[i].0] == rows[i].1,
{
    if !keep[i] {
        assert(unmarked(rows, keep).contains(rows[i].0));
    } else if unmarked(rows, keep).contains(rows[i].0) {
        let j = choose|j: int|
            0 <= j < rows.len() && !keep[j] && (#[trigger] rows[j]).0 == rows[i].0;
        if j < i {
            assert(rows[j].0 != rows[i].0);
        } else if i < j {
            assert(rows[i].0 != rows[j].0);
        }
    }
}

} // verus!
