//! One lane of cuckoo buckets: insertion with evictions, deletion, and what they keep.
//!
//! A fingerprint may sit in either of its two candidate buckets. When both are full, insertion
//! evicts fingerprints at random, each to its other bucket, until one finds an empty slot; after
//! [`MAX_KICKS`](crate::cuckoo_filter::MAX_KICKS) evictions it gives up and undoes them all.

use vstd::prelude::*;

use crate::cuckoo_filter;
use crate::cuckoo_filter::{
    alt_index, probe, slot, try_delete, try_insert, with_slot, Fp, PackedBucket, BUCKETS_PER_LANE,
    MAX_KICKS,
};

verus! {

/// The generator's state after one step.
pub open spec fn random_step(state: u64) -> u64 {
    state.wrapping_add(0x9E37_79B9_7F4A_7C15)
}

/// The word that the generator gives in a state.
pub open spec fn random_word(state: u64) -> u64 {
    let once = (state ^ (state >> 30)).wrapping_mul(0xBF58_476D_1CE4_E5B9);
    let twice = (once ^ (once >> 27)).wrapping_mul(0x94D0_49BB_1331_11EB);
    twice ^ (twice >> 31)
}

/// A lane has its full number of buckets.
pub open spec fn lane_shape(buckets: Seq<PackedBucket>) -> bool {
    buckets.len() == BUCKETS_PER_LANE
}

/// Whether a bucket has no empty slot.
pub open spec fn is_full(bucket: PackedBucket) -> bool {
    cuckoo_filter::first_slot(bucket, 0) is None
}

/// A lane after a successful insertion, with the buckets that were written.
pub struct Stored {
    /// The buckets.
    pub buckets: Seq<PackedBucket>,
    /// Indices of the buckets that were written.
    pub written: Set<usize>,
}

/// Up to `left` evictions, starting by writing `fp` over a random slot of bucket `at`: the lane
/// after the evicted fingerprint has found an empty slot, if one does, and the generator's state.
pub open spec fn kick_walk(
    buckets: Seq<PackedBucket>,
    random: u64,
    at: u64,
    fp: Fp,
    left: nat,
) -> (Option<Stored>, u64)
    decreases left,
{
    if left == 0 {
        (None, random)
    } else {
        let stepped = random_step(random);
        let victim = random_word(stepped) & 3;
        let evicted = cuckoo_filter::slots(buckets[at as int])[victim as int];
        let kicked = buckets.update(
            at as int,
            cuckoo_filter::put_slot(buckets[at as int], victim, fp),
        );
        let next = cuckoo_filter::alt_of(at, evicted);
        match cuckoo_filter::bucket_insert(kicked[next as int], evicted) {
            Some(bucket) => (
                Some(
                    Stored {
                        buckets: kicked.update(next as int, bucket),
                        written: set![at as usize, next as usize],
                    },
                ),
                stepped,
            ),
            None => {
                let rest = kick_walk(kicked, stepped, next, evicted, (left - 1) as nat);
                match rest.0 {
                    Some(stored) => (
                        Some(
                            Stored {
                                buckets: stored.buckets,
                                written: stored.written.insert(at as usize),
                            },
                        ),
                        rest.1,
                    ),
                    None => rest,
                }
            },
        }
    }
}

/// The lane after storing the fingerprint of `hash`, if a place is found for it, and the
/// generator's state. The primary bucket is tried first, and the alternate one next; only when
/// both are full are fingerprints evicted.
pub open spec fn lane_insert(buckets: Seq<PackedBucket>, random: u64, hash: u64) -> (
    Option<Stored>,
    u64,
) {
    let fp = cuckoo_filter::fp_of(hash);
    let a = cuckoo_filter::bucket_of(hash);
    let b = cuckoo_filter::alt_of(a, fp);
    match cuckoo_filter::bucket_insert(buckets[a as int], fp) {
        Some(bucket) => (
            Some(Stored { buckets: buckets.update(a as int, bucket), written: set![a as usize] }),
            random,
        ),
        None => match cuckoo_filter::bucket_insert(buckets[b as int], fp) {
            Some(bucket) => (
                Some(
                    Stored { buckets: buckets.update(b as int, bucket), written: set![b as usize] },
                ),
                random,
            ),
            None => {
                let stepped = random_step(random);
                let start = if random_word(stepped) & 1 == 0 {
                    a
                } else {
                    b
                };
                kick_walk(buckets, stepped, start, fp, MAX_KICKS as nat)
            },
        },
    }
}

/// The bucket from which deleting `hash` takes a fingerprint: the primary one if it holds the
/// fingerprint, else the alternate one if that does.
pub open spec fn delete_at(buckets: Seq<PackedBucket>, hash: u64) -> Option<u64> {
    let fp = cuckoo_filter::fp_of(hash);
    let a = cuckoo_filter::bucket_of(hash);
    let b = cuckoo_filter::alt_of(a, fp);
    if cuckoo_filter::slots(buckets[a as int]).contains(fp) {
        Some(a)
    } else if cuckoo_filter::slots(buckets[b as int]).contains(fp) {
        Some(b)
    } else {
        None
    }
}

/// The lane after deleting the fingerprint of `hash`; a fingerprint that is nowhere changes nothing.
pub open spec fn lane_delete(buckets: Seq<PackedBucket>, hash: u64) -> Seq<PackedBucket> {
    match delete_at(buckets, hash) {
        Some(at) => buckets.update(
            at as int,
            cuckoo_filter::bucket_delete(buckets[at as int], cuckoo_filter::fp_of(hash))->0,
        ),
        None => buckets,
    }
}

/// How often a fingerprint occurs in its two candidate buckets, of which `at` is one.
pub open spec fn class_count(buckets: Seq<PackedBucket>, fp: Fp, at: u64) -> nat {
    cuckoo_filter::count_in(buckets[at as int], fp) + cuckoo_filter::count_in(
        buckets[cuckoo_filter::alt_of(at, fp) as int],
        fp,
    )
}

/// Whether two bucket indices are the candidates of one fingerprint.
pub open spec fn same_class(a: u64, b: u64, fp: Fp) -> bool {
    a == b || cuckoo_filter::alt_of(a, fp) == b
}

/// Number of occupied slots of a bucket.
pub open spec fn occupied_in(bucket: PackedBucket) -> int {
    4 - cuckoo_filter::count_in(bucket, 0)
}

/// Number of occupied slots of a lane.
pub open spec fn occupied(buckets: Seq<PackedBucket>) -> int
    decreases buckets.len(),
{
    if buckets.len() == 0 {
        0
    } else {
        occupied(buckets.drop_last()) + occupied_in(buckets.last())
    }
}

/// Writing one bucket changes the number of occupied slots by what that bucket gains or loses.
pub proof fn lemma_occupied_update(buckets: Seq<PackedBucket>, i: int, bucket: PackedBucket)
    requires
        0 <= i < buckets.len(),
    ensures
        occupied(buckets.update(i, bucket)) == occupied(buckets) - occupied_in(buckets[i])
            + occupied_in(bucket),
    decreases buckets.len(),
{
    let updated = buckets.update(i, bucket);
    if i == buckets.len() - 1 {
        assert(updated.drop_last() =~= buckets.drop_last());
    } else {
        lemma_occupied_update(buckets.drop_last(), i, bucket);
        assert(updated.drop_last() =~= buckets.drop_last().update(i, bucket));
    }
}

/// A lane holds at most four fingerprints per bucket.
pub proof fn lemma_occupied_bounds(buckets: Seq<PackedBucket>)
    ensures
        0 <= occupied(buckets) <= 4 * buckets.len(),
    decreases buckets.len(),
{
    if buckets.len() > 0 {
        lemma_occupied_bounds(buckets.drop_last());
    }
}

/// A lane of empty buckets holds nothing.
pub proof fn lemma_empty_lane(buckets: Seq<PackedBucket>)
    requires
        forall|i: int| 0 <= i < buckets.len() ==> buckets[i] == 0,
    ensures
        occupied(buckets) == 0,
    decreases buckets.len(),
{
    lemma_empty_bucket();
    if buckets.len() > 0 {
        lemma_empty_lane(buckets.drop_last());
    }
}

/// The bucket 0 has four empty slots.
pub proof fn lemma_empty_bucket()
    ensures
        cuckoo_filter::slots(0) == seq![0u16, 0u16, 0u16, 0u16],
{
    assert((0u64 >> 0u64) & 0xffff == 0 && (0u64 >> 16u64) & 0xffff == 0 && (0u64 >> 32u64) & 0xffff
        == 0 && (0u64 >> 48u64) & 0xffff == 0) by (bit_vector);
    assert(cuckoo_filter::slots(0) =~= seq![0u16, 0u16, 0u16, 0u16]);
}

/// Storing a fingerprint in an empty slot of bucket `at` adds one occurrence to its class, and
/// changes no other.
proof fn lemma_place(buckets: Seq<PackedBucket>, at: u64, fp: Fp, counted: Fp, i: u64)
    requires
        lane_shape(buckets),
        at < BUCKETS_PER_LANE,
        i < BUCKETS_PER_LANE,
        fp != 0,
        counted != 0,
        cuckoo_filter::bucket_insert(buckets[at as int], fp) is Some,
    ensures
        class_count(
            buckets.update(at as int, cuckoo_filter::bucket_insert(buckets[at as int], fp)->0),
            counted,
            i,
        ) == class_count(buckets, counted, i) + (if counted == fp && same_class(at, i, fp) {
            1nat
        } else {
            0
        }),
        occupied(
            buckets.update(at as int, cuckoo_filter::bucket_insert(buckets[at as int], fp)->0),
        ) == occupied(buckets) + 1,
{
    let slot = cuckoo_filter::first_slot(buckets[at as int], 0)->0;
    cuckoo_filter::lemma_first_slot(buckets[at as int], 0);
    cuckoo_filter::lemma_put_slot_count(buckets[at as int], slot as u64, fp, counted);
    cuckoo_filter::lemma_put_slot_count(buckets[at as int], slot as u64, fp, 0);
    cuckoo_filter::alt_index_is_an_involution(i, counted);
    cuckoo_filter::alt_index_is_an_involution(at, counted);
    lemma_occupied_update(
        buckets,
        at as int,
        cuckoo_filter::bucket_insert(buckets[at as int], fp)->0,
    );
}

/// Evictions that end in success leave every fingerprint that was in the lane in one of its two
/// buckets, and add the new one: each class keeps its number of occurrences, but for that of the
/// new fingerprint, which gains one.
pub proof fn kicks_keep_every_fingerprint(
    buckets: Seq<PackedBucket>,
    random: u64,
    at: u64,
    fp: Fp,
    left: nat,
    counted: Fp,
    i: u64,
)
    requires
        lane_shape(buckets),
        at < BUCKETS_PER_LANE,
        i < BUCKETS_PER_LANE,
        fp != 0,
        counted != 0,
        is_full(buckets[at as int]),
        kick_walk(buckets, random, at, fp, left).0 is Some,
    ensures
        ({
            let after = kick_walk(buckets, random, at, fp, left).0->0.buckets;
            &&& lane_shape(after)
            &&& class_count(after, counted, i) == class_count(buckets, counted, i) + (if counted
                == fp && same_class(at, i, fp) {
                1nat
            } else {
                0
            })
            &&& occupied(after) == occupied(buckets) + 1
        }),
    decreases left,
{
    let stepped = random_step(random);
    let word = random_word(stepped);
    let victim = word & 3;
    assert(word & 3 < 4) by (bit_vector);
    let here = buckets[at as int];
    let evicted = cuckoo_filter::slots(here)[victim as int];
    cuckoo_filter::lemma_first_slot(here, 0);
    assert(evicted != 0) by {
        assert(cuckoo_filter::slots(here)[victim as int] == evicted);
    }
    let kicked = buckets.update(at as int, cuckoo_filter::put_slot(here, victim, fp));
    let next = cuckoo_filter::alt_of(at, evicted);
    cuckoo_filter::alt_index_is_an_involution(at, evicted);
    cuckoo_filter::alt_index_is_an_involution(at, counted);
    cuckoo_filter::alt_index_is_an_involution(i, counted);
    cuckoo_filter::lemma_put_slot_count(here, victim, fp, counted);
    cuckoo_filter::lemma_put_slot_count(here, victim, fp, 0);
    lemma_occupied_update(buckets, at as int, cuckoo_filter::put_slot(here, victim, fp));
    match cuckoo_filter::bucket_insert(kicked[next as int], evicted) {
        Some(bucket) => {
            lemma_place(kicked, next, evicted, counted, i);
        },
        None => {
            kicks_keep_every_fingerprint(
                kicked,
                stepped,
                next,
                evicted,
                (left - 1) as nat,
                counted,
                i,
            );
        },
    }
}

/// Insertion adds one occurrence of the fingerprint to its class, changes no other class, and
/// fills one slot.
pub proof fn insert_adds_one_fingerprint(
    buckets: Seq<PackedBucket>,
    random: u64,
    hash: u64,
    counted: Fp,
    i: u64,
)
    requires
        lane_shape(buckets),
        i < BUCKETS_PER_LANE,
        counted != 0,
        lane_insert(buckets, random, hash).0 is Some,
    ensures
        ({
            let after = lane_insert(buckets, random, hash).0->0.buckets;
            &&& lane_shape(after)
            &&& class_count(after, counted, i) == class_count(buckets, counted, i) + (if counted
                == cuckoo_filter::fp_of(hash) && same_class(
                cuckoo_filter::bucket_of(hash),
                i,
                counted,
            ) {
                1nat
            } else {
                0
            })
            &&& occupied(after) == occupied(buckets) + 1
        }),
{
    let fp = cuckoo_filter::fp_of(hash);
    let a = cuckoo_filter::bucket_of(hash);
    let b = cuckoo_filter::alt_of(a, fp);
    cuckoo_filter::probe_is_in_range(hash);
    cuckoo_filter::alt_index_is_an_involution(a, fp);
    cuckoo_filter::alt_index_is_an_involution(i, counted);
    if cuckoo_filter::bucket_insert(buckets[a as int], fp) is Some {
        lemma_place(buckets, a, fp, counted, i);
    } else if cuckoo_filter::bucket_insert(buckets[b as int], fp) is Some {
        lemma_place(buckets, b, fp, counted, i);
    } else {
        let stepped = random_step(random);
        let start = if random_word(stepped) & 1 == 0 {
            a
        } else {
            b
        };
        kicks_keep_every_fingerprint(buckets, stepped, start, fp, MAX_KICKS as nat, counted, i);
    }
}

/// Deletion takes one occurrence of the fingerprint out of its class when there is one, changes no
/// other class, and empties one slot.
pub proof fn delete_takes_one_fingerprint(
    buckets: Seq<PackedBucket>,
    hash: u64,
    counted: Fp,
    i: u64,
)
    requires
        lane_shape(buckets),
        i < BUCKETS_PER_LANE,
        counted != 0,
    ensures
        lane_shape(lane_delete(buckets, hash)),
        delete_at(buckets, hash) is Some <==> class_count(
            buckets,
            cuckoo_filter::fp_of(hash),
            cuckoo_filter::bucket_of(hash),
        ) > 0,
        class_count(lane_delete(buckets, hash), counted, i) == class_count(buckets, counted, i) - (
        if delete_at(buckets, hash) is Some && counted == cuckoo_filter::fp_of(hash) && same_class(
            cuckoo_filter::bucket_of(hash),
            i,
            counted,
        ) {
            1int
        } else {
            0
        }),
        occupied(lane_delete(buckets, hash)) == occupied(buckets) - (if delete_at(
            buckets,
            hash,
        ) is Some {
            1int
        } else {
            0
        }),
{
    let fp = cuckoo_filter::fp_of(hash);
    let a = cuckoo_filter::bucket_of(hash);
    let b = cuckoo_filter::alt_of(a, fp);
    cuckoo_filter::probe_is_in_range(hash);
    cuckoo_filter::alt_index_is_an_involution(a, fp);
    cuckoo_filter::alt_index_is_an_involution(i, counted);
    cuckoo_filter::lemma_first_slot(buckets[a as int], fp);
    cuckoo_filter::lemma_first_slot(buckets[b as int], fp);
    match delete_at(buckets, hash) {
        Some(at) => {
            let slot = cuckoo_filter::first_slot(buckets[at as int], fp)->0;
            cuckoo_filter::lemma_put_slot_count(buckets[at as int], slot as u64, 0, counted);
            cuckoo_filter::lemma_put_slot_count(buckets[at as int], slot as u64, 0, 0);
            lemma_occupied_update(
                buckets,
                at as int,
                cuckoo_filter::bucket_delete(buckets[at as int], fp)->0,
            );
        },
        None => {},
    }
}

/// Indices in strictly increasing order.
pub open spec fn increasing(indices: Seq<usize>) -> bool {
    forall|i: int, j: int| 0 <= i < j < indices.len() ==> indices[i] < indices[j]
}

/// Adds an index to an increasing list, unless it is there already.
pub fn note_index(indices: &mut Vec<usize>, index: usize)
    requires
        increasing(old(indices)@),
    ensures
        increasing(final(indices)@),
        final(indices)@.to_set() == old(indices)@.to_set().insert(index),
{
    let mut low: usize = 0;
    let mut high: usize = indices.len();
    while low < high
        invariant
            low <= high <= indices@.len(),
            increasing(indices@),
            forall|i: int| 0 <= i < low ==> indices@[i] < index,
            forall|i: int| high <= i < indices@.len() ==> indices@[i] >= index,
        decreases high - low,
    {
        let middle: usize = low + (high - low) / 2;
        if indices[middle] < index {
            low = middle + 1;
        } else {
            high = middle;
        }
    }
    let ghost before = indices@;
    if low < indices.len() && indices[low] == index {
        assert(before[low as int] == index);
        assert(before.to_set() =~= before.to_set().insert(index));
        return ;
    }
    indices.insert(low, index);
    proof {
        let after = indices@;
        assert forall|x: usize| after.to_set().contains(x) == before.to_set().insert(
            index,
        ).contains(x) by {
            if before.contains(x) {
                let i = choose|i: int| 0 <= i < before.len() && before[i] == x;
                if i < low {
                    assert(after[i] == x);
                } else {
                    assert(after[i + 1] == x);
                }
            }
            if x == index {
                assert(after[low as int] == x);
            }
            if after.contains(x) && x != index {
                let i = choose|i: int| 0 <= i < after.len() && after[i] == x;
                if i < low {
                    assert(before[i] == x);
                } else {
                    assert(before[i - 1] == x);
                }
            }
        }
        assert(after.to_set() =~= before.to_set().insert(index));
    }
}

/// Advances the generator and gives its next word.
pub fn next_random(state: &mut u64) -> (word: u64)
    ensures
        *final(state) == random_step(*old(state)),
        word == random_word(*final(state)),
{
    *state = (*state).wrapping_add(0x9E37_79B9_7F4A_7C15);
    let z: u64 = *state;
    let once: u64 = (z ^ (z >> 30)).wrapping_mul(0xBF58_476D_1CE4_E5B9);
    let twice: u64 = (once ^ (once >> 27)).wrapping_mul(0x94D0_49BB_1331_11EB);
    twice ^ (twice >> 31)
}

/// A lane with the writes in `log` undone, the last one first.
spec fn undo(buckets: Seq<PackedBucket>, log: Seq<(usize, PackedBucket)>) -> Seq<PackedBucket>
    decreases log.len(),
{
    if log.len() == 0 {
        buckets
    } else {
        undo(buckets.update(log.last().0 as int, log.last().1), log.drop_last())
    }
}

/// The bucket indices in a log of writes.
spec fn logged(log: Seq<(usize, PackedBucket)>) -> Set<usize> {
    log.map_values(|w: (usize, PackedBucket)| w.0).to_set()
}

proof fn lemma_logged_push(log: Seq<(usize, PackedBucket)>, write: (usize, PackedBucket))
    ensures
        logged(log.push(write)) == logged(log).insert(write.0),
{
    let f = |w: (usize, PackedBucket)| w.0;
    let before = log.map_values(f);
    let after = log.push(write).map_values(f);
    assert(after =~= before.push(write.0));
    assert forall|x: usize| after.to_set().contains(x) == before.to_set().insert(write.0).contains(
        x,
    ) by {
        if before.contains(x) {
            let i = choose|i: int| 0 <= i < before.len() && before[i] == x;
            assert(after[i] == x);
        }
        if x == write.0 {
            assert(after[before.len() as int] == x);
        }
    }
    assert(after.to_set() =~= before.to_set().insert(write.0));
}

/// Restores the buckets that were written, the last write first.
fn roll_back(buckets: &mut Vec<PackedBucket>, log: &Vec<(usize, PackedBucket)>)
    requires
        forall|i: int| 0 <= i < log@.len() ==> (#[trigger] log@[i]).0 < old(buckets)@.len(),
    ensures
        final(buckets)@ == undo(old(buckets)@, log@),
{
    let mut left: usize = log.len();
    assert(log@.take(left as int) =~= log@);
    while left > 0
        invariant
            left <= log@.len(),
            buckets@.len() == old(buckets)@.len(),
            forall|i: int| 0 <= i < log@.len() ==> (#[trigger] log@[i]).0 < buckets@.len(),
            undo(buckets@, log@.take(left as int)) == undo(old(buckets)@, log@),
        decreases left,
    {
        left = left - 1;
        let write: (usize, PackedBucket) = log[left];
        proof {
            let shown = log@.take(left + 1);
            assert(shown.last() == write);
            assert(shown.drop_last() =~= log@.take(left as int));
        }
        buckets.set(write.0, write.1);
    }
    assert(log@.take(0) =~= Seq::empty());
}

/// Notes every index in a log of writes as changed.
fn note_all(dirty: &mut Vec<usize>, log: &Vec<(usize, PackedBucket)>)
    requires
        increasing(old(dirty)@),
    ensures
        increasing(final(dirty)@),
        final(dirty)@.to_set() == old(dirty)@.to_set().union(logged(log@)),
{
    let mut i: usize = 0;
    proof {
        assert(logged(log@.take(0)) =~= Set::empty());
        assert(dirty@.to_set() =~= dirty@.to_set().union(Set::empty()));
    }
    while i < log.len()
        invariant
            i <= log@.len(),
            increasing(dirty@),
            dirty@.to_set() == old(dirty)@.to_set().union(logged(log@.take(i as int))),
        decreases log@.len() - i,
    {
        proof {
            assert(log@.take(i + 1) =~= log@.take(i as int).push(log@[i as int]));
            lemma_logged_push(log@.take(i as int), log@[i as int]);
        }
        note_index(dirty, log[i].0);
        proof {
            assert(dirty@.to_set() =~= old(dirty)@.to_set().union(logged(log@.take(i + 1))));
        }
        i = i + 1;
    }
    assert(log@.take(log@.len() as int) =~= log@);
}

/// Stores the fingerprint of `hash` in its primary or alternate bucket, evicting others if both
/// are full. When no place is found the lane is as it was.
pub fn insert_fingerprint(
    buckets: &mut Vec<PackedBucket>,
    random: &mut u64,
    dirty: &mut Vec<usize>,
    hash: u64,
) -> (stored: bool)
    requires
        lane_shape(old(buckets)@),
        increasing(old(dirty)@),
    ensures
        increasing(final(dirty)@),
        stored == lane_insert(old(buckets)@, *old(random), hash).0 is Some,
        *final(random) == lane_insert(old(buckets)@, *old(random), hash).1,
        match lane_insert(old(buckets)@, *old(random), hash).0 {
            Some(after) => final(buckets)@ == after.buckets && final(dirty)@.to_set() == old(
                dirty,
            )@.to_set().union(after.written),
            None => final(buckets)@ == old(buckets)@ && final(dirty)@ == old(dirty)@,
        },
{
    let ghost original = buckets@;
    let ghost clean = dirty@;
    let (fp, bucket_a): (Fp, usize) = probe(hash);
    let bucket_b: usize = alt_index(bucket_a, fp);
    let mut word: PackedBucket = buckets[bucket_a];
    if try_insert(&mut word, fp) {
        buckets.set(bucket_a, word);
        note_index(dirty, bucket_a);
        proof {
            assert(dirty@.to_set() =~= clean.to_set().union(set![bucket_a]));
        }
        return true;
    }
    word = buckets[bucket_b];
    if try_insert(&mut word, fp) {
        buckets.set(bucket_b, word);
        note_index(dirty, bucket_b);
        proof {
            assert(dirty@.to_set() =~= clean.to_set().union(set![bucket_b]));
        }
        return true;
    }
    let first: u64 = next_random(random);
    let mut at: usize = if first & 1 == 0 {
        bucket_a
    } else {
        bucket_b
    };
    let mut current: Fp = fp;
    let mut log: Vec<(usize, PackedBucket)> = Vec::new();
    let mut kicks: usize = 0;
    let ghost full = lane_insert(original, *old(random), hash);
    while kicks < MAX_KICKS
        invariant
            kicks <= MAX_KICKS,
            lane_shape(buckets@),
            at < BUCKETS_PER_LANE,
            current != 0,
            is_full(buckets@[at as int]),
            dirty@ == clean,
            increasing(clean),
            undo(buckets@, log@) == original,
            forall|i: int| 0 <= i < log@.len() ==> (#[trigger] log@[i]).0 < BUCKETS_PER_LANE,
            full == lane_insert(original, *old(random), hash),
            clean == old(dirty)@,
            original == old(buckets)@,
            ({
                let rest = kick_walk(
                    buckets@,
                    *random,
                    at as u64,
                    current,
                    (MAX_KICKS - kicks) as nat,
                );
                &&& full.1 == rest.1
                &&& full.0 is Some == rest.0 is Some
                &&& full.0 is Some ==> full.0->0.buckets == rest.0->0.buckets
                    && full.0->0.written == rest.0->0.written.union(logged(log@))
            }),
        decreases MAX_KICKS - kicks,
    {
        let ghost shown = buckets@;
        let ghost noted = log@;
        let ghost state = *random;
        let before: PackedBucket = buckets[at];
        let word: u64 = next_random(random);
        assert(word & 3 < 4) by (bit_vector);
        let victim: usize = (word & 3) as usize;
        let evicted: Fp = slot(before, victim);
        proof {
            cuckoo_filter::lemma_first_slot(before, 0);
            assert(cuckoo_filter::slots(before)[victim as int] == evicted);
        }
        let after: PackedBucket = with_slot(before, victim, current);
        buckets.set(at, after);
        log.push((at, before));
        proof {
            lemma_logged_push(noted, (at, before));
            assert(log@.drop_last() =~= noted);
            assert(buckets@.update(at as int, before) =~= shown);
            cuckoo_filter::alt_index_is_an_involution(at as u64, evicted);
        }
        let ghost rest = kick_walk(
            shown,
            state,
            at as u64,
            current,
            (MAX_KICKS - kicks) as nat,
        );
        let ghost left_at = at;
        current = evicted;
        at = alt_index(at, current);
        let mut next: PackedBucket = buckets[at];
        if try_insert(&mut next, current) {
            buckets.set(at, next);
            note_index(dirty, at);
            note_all(dirty, &log);
            proof {
                assert(rest.0->0.written == set![left_at, at]);
                assert(dirty@.to_set() =~= clean.to_set().union(full.0->0.written));
            }
            return true;
        }
        proof {
            let further = kick_walk(
                buckets@,
                *random,
                at as u64,
                current,
                (MAX_KICKS - kicks - 1) as nat,
            );
            if further.0 is Some {
                assert(full.0->0.written =~= further.0->0.written.union(logged(log@)));
            }
        }
        kicks = kicks + 1;
    }
    roll_back(buckets, &log);
    false
}

/// Takes one occurrence of the fingerprint of `hash` out of the lane, from the primary bucket if
/// it is there and else from the alternate one.
pub fn delete_fingerprint(
    buckets: &mut Vec<PackedBucket>,
    dirty: &mut Vec<usize>,
    hash: u64,
) -> (deleted: bool)
    requires
        lane_shape(old(buckets)@),
        increasing(old(dirty)@),
    ensures
        increasing(final(dirty)@),
        final(buckets)@ == lane_delete(old(buckets)@, hash),
        deleted == delete_at(old(buckets)@, hash) is Some,
        match delete_at(old(buckets)@, hash) {
            Some(at) => final(dirty)@.to_set() == old(dirty)@.to_set().insert(at as usize),
            None => final(dirty)@ == old(dirty)@,
        },
{
    let (fp, bucket_a): (Fp, usize) = probe(hash);
    let bucket_b: usize = alt_index(bucket_a, fp);
    let mut word: PackedBucket = buckets[bucket_a];
    if try_delete(&mut word, fp) {
        buckets.set(bucket_a, word);
        note_index(dirty, bucket_a);
        return true;
    }
    word = buckets[bucket_b];
    if try_delete(&mut word, fp) {
        buckets.set(bucket_b, word);
        note_index(dirty, bucket_b);
        return true;
    }
    false
}

/// A block goes to its primary bucket if that has a free slot, and to its other one if only that has;
/// no other bucket is touched and no chance is taken.
pub proof fn a_block_goes_to_its_primary_bucket_first(
    buckets: Seq<PackedBucket>,
    random: u64,
    hash: u64,
)
    requires
        lane_shape(buckets),
    ensures
        ({
            let fp = cuckoo_filter::fp_of(hash);
            let a = cuckoo_filter::bucket_of(hash);
            let b = cuckoo_filter::alt_of(a, fp);
            let (stored, left) = lane_insert(buckets, random, hash);
            let free_a = cuckoo_filter::slots(buckets[a as int]).contains(0);
            let free_b = cuckoo_filter::slots(buckets[b as int]).contains(0);
            &&& free_a || free_b ==> stored is Some && left == random
            &&& free_a ==> cuckoo_filter::slots(stored->0.buckets[a as int]).contains(fp)
                && stored->0.written == set![a as usize] && stored->0.buckets == buckets.update(
                a as int,
                stored->0.buckets[a as int],
            )
            &&& !free_a && free_b ==> cuckoo_filter::slots(stored->0.buckets[b as int]).contains(fp)
                && stored->0.written == set![b as usize] && stored->0.buckets == buckets.update(
                b as int,
                stored->0.buckets[b as int],
            )
        }),
{
    let fp = cuckoo_filter::fp_of(hash);
    let a = cuckoo_filter::bucket_of(hash);
    let b = cuckoo_filter::alt_of(a, fp);
    cuckoo_filter::probe_is_in_range(hash);
    cuckoo_filter::alt_index_is_an_involution(a, fp);
    cuckoo_filter::lemma_first_slot(buckets[a as int], 0);
    cuckoo_filter::lemma_first_slot(buckets[b as int], 0);
    let at = if cuckoo_filter::slots(buckets[a as int]).contains(0) {
        a
    } else {
        b
    };
    let (stored, left) = lane_insert(buckets, random, hash);
    if cuckoo_filter::slots(buckets[at as int]).contains(0) {
        let i = cuckoo_filter::first_slot(buckets[at as int], 0)->0;
        cuckoo_filter::put_slot_writes_one_slot(buckets[at as int], i as u64, fp);
        assert(cuckoo_filter::slots(stored->0.buckets[at as int])[i as int] == fp);
        assert(buckets.update(at as int, stored->0.buckets[at as int]) =~= stored->0.buckets);
    }
}

/// A block whose buckets are both full is stored if any fingerprint that may be moved out of its way,
/// to its own other bucket, finds a free slot there.
pub proof fn a_block_is_stored_where_a_move_makes_room(
    buckets: Seq<PackedBucket>,
    random: u64,
    hash: u64,
)
    requires
        lane_shape(buckets),
        ({
            let fp = cuckoo_filter::fp_of(hash);
            let a = cuckoo_filter::bucket_of(hash);
            let b = cuckoo_filter::alt_of(a, fp);
            forall|at: u64, j: int|
                #![trigger cuckoo_filter::slots(buckets[at as int])[j]]
                (at == a || at == b) && 0 <= j < 4 ==> {
                    let next = cuckoo_filter::alt_of(
                        at,
                        cuckoo_filter::slots(buckets[at as int])[j],
                    );
                    cuckoo_filter::slots(buckets[next as int]).contains(0)
                }
        }),
    ensures
        lane_insert(buckets, random, hash).0 is Some,
{
    let fp = cuckoo_filter::fp_of(hash);
    let a = cuckoo_filter::bucket_of(hash);
    let b = cuckoo_filter::alt_of(a, fp);
    cuckoo_filter::probe_is_in_range(hash);
    cuckoo_filter::alt_index_is_an_involution(a, fp);
    cuckoo_filter::lemma_first_slot(buckets[a as int], 0);
    cuckoo_filter::lemma_first_slot(buckets[b as int], 0);
    if !cuckoo_filter::slots(buckets[a as int]).contains(0) && !cuckoo_filter::slots(
        buckets[b as int],
    ).contains(0) {
        let stepped = random_step(random);
        let start = if random_word(stepped) & 1 == 0 {
            a
        } else {
            b
        };
        let again = random_step(stepped);
        let word = random_word(again);
        let victim = word & 3;
        assert(word & 3 < 4) by (bit_vector);
        let evicted = cuckoo_filter::slots(buckets[start as int])[victim as int];
        let next = cuckoo_filter::alt_of(start, evicted);
        cuckoo_filter::alt_index_is_an_involution(start, evicted);
        let kicked = buckets.update(
            start as int,
            cuckoo_filter::put_slot(buckets[start as int], victim, fp),
        );
        assert(cuckoo_filter::slots(buckets[next as int]).contains(0));
        assert(kicked[next as int] == buckets[next as int]);
        cuckoo_filter::lemma_first_slot(buckets[next as int], 0);
    }
}

/// A walk that finds a place finds the same one if it may go further.
pub proof fn a_longer_walk_ends_where_a_shorter_one_does(
    buckets: Seq<PackedBucket>,
    random: u64,
    at: u64,
    fp: Fp,
    left: nat,
    more: nat,
)
    requires
        kick_walk(buckets, random, at, fp, left).0 is Some,
        left <= more,
    ensures
        kick_walk(buckets, random, at, fp, more) == kick_walk(buckets, random, at, fp, left),
    decreases left,
{
    let stepped = random_step(random);
    let victim = random_word(stepped) & 3;
    let evicted = cuckoo_filter::slots(buckets[at as int])[victim as int];
    let kicked = buckets.update(
        at as int,
        cuckoo_filter::put_slot(buckets[at as int], victim, fp),
    );
    let next = cuckoo_filter::alt_of(at, evicted);
    if cuckoo_filter::bucket_insert(kicked[next as int], evicted) is None {
        a_longer_walk_ends_where_a_shorter_one_does(
            kicked,
            stepped,
            next,
            evicted,
            (left - 1) as nat,
            (more - 1) as nat,
        );
    }
}

/// A block is deleted from its primary bucket if its fingerprint is there, and else from its other one:
/// one slot of that bucket is emptied, and no other bucket is touched.
pub proof fn a_block_is_deleted_from_its_primary_bucket_first(
    buckets: Seq<PackedBucket>,
    hash: u64,
)
    requires
        lane_shape(buckets),
    ensures
        ({
            let fp = cuckoo_filter::fp_of(hash);
            let a = cuckoo_filter::bucket_of(hash);
            let b = cuckoo_filter::alt_of(a, fp);
            let after = lane_delete(buckets, hash);
            let in_a = cuckoo_filter::slots(buckets[a as int]).contains(fp);
            let in_b = cuckoo_filter::slots(buckets[b as int]).contains(fp);
            &&& in_a ==> cuckoo_filter::count_in(after[a as int], fp) == cuckoo_filter::count_in(
                buckets[a as int],
                fp,
            ) - 1 && after == buckets.update(a as int, after[a as int])
            &&& !in_a && in_b ==> cuckoo_filter::count_in(after[b as int], fp)
                == cuckoo_filter::count_in(buckets[b as int], fp) - 1 && after == buckets.update(
                b as int,
                after[b as int],
            )
            &&& !in_a && !in_b ==> after == buckets
        }),
{
    let fp = cuckoo_filter::fp_of(hash);
    let a = cuckoo_filter::bucket_of(hash);
    let b = cuckoo_filter::alt_of(a, fp);
    cuckoo_filter::probe_is_in_range(hash);
    cuckoo_filter::alt_index_is_an_involution(a, fp);
    let after = lane_delete(buckets, hash);
    let at = if cuckoo_filter::slots(buckets[a as int]).contains(fp) {
        a
    } else {
        b
    };
    cuckoo_filter::lemma_first_slot(buckets[at as int], fp);
    if cuckoo_filter::slots(buckets[at as int]).contains(fp) {
        let i = cuckoo_filter::first_slot(buckets[at as int], fp)->0;
        cuckoo_filter::lemma_put_slot_count(buckets[at as int], i as u64, 0, fp);
        assert(buckets.update(at as int, after[at as int]) =~= after);
    }
}

} // verus!
