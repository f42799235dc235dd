//! Cuckoo filter primitives: addressing, and operations on one packed bucket.
//!
//! A bucket packs four 16-bit fingerprints into a `u64`, slot 0 in the low bits; fingerprint 0
//! stands for an empty slot. A fingerprint has two candidate buckets, each of which can be
//! computed from the other and the fingerprint alone.

use vstd::prelude::*;

use crate::hash;
use crate::hash::hash_with_seed;

verus! {

/// Fingerprint width in bits.
pub const FINGERPRINT_BITS: usize = 16;

/// Number of fingerprints per bucket.
pub const FP_PER_BUCKET: usize = 4;

/// Maximum number of evictions per insertion.
pub const MAX_KICKS: usize = 500;

/// Number of buckets per lane, a power of two.
pub const BUCKETS_PER_LANE: usize = 65536;

/// Bitmask that selects a bucket of a lane.
pub const BUCKET_MASK: usize = 65535;

/// Fingerprint; 0 is reserved for an empty slot.
pub type Fp = u16;

/// Four fingerprints in one word, slot 0 in the low bits.
pub type PackedBucket = u64;

/// Seed that sets the alternate index apart from the primary one.
pub const ALT_MIX_DOMAIN: u64 = 0x9E37_79B9_7F4A_7C15;

/// What is exclusive-ored with a bucket index to get the fingerprint's other bucket.
pub open spec fn alt_delta(fp: Fp) -> u64 {
    let delta = hash::xxh3(vstd::bytes::spec_u16_to_le_bytes(fp), ALT_MIX_DOMAIN) & 0xffff;
    if delta == 0 {
        1
    } else {
        delta
    }
}

/// The other candidate bucket of a fingerprint.
pub open spec fn alt_of(idx: u64, fp: Fp) -> u64 {
    (idx ^ alt_delta(fp)) & 0xffff
}

/// The fingerprint of a block hash.
pub open spec fn fp_of(hash: u64) -> Fp {
    (hash::xxh3(vstd::bytes::spec_u64_to_le_bytes(hash), 0) as u16) | 1
}

/// The primary bucket of a block hash.
pub open spec fn bucket_of(hash: u64) -> u64 {
    (hash::xxh3(vstd::bytes::spec_u64_to_le_bytes(hash), 0) >> 16) & 0xffff
}

/// The fingerprint in slot `i` of a bucket.
pub open spec fn slot_of(bucket: PackedBucket, i: u64) -> Fp {
    ((bucket >> ((i * 16) as u64)) & 0xffff) as u16
}

/// The four fingerprints of a bucket.
pub open spec fn slots(bucket: PackedBucket) -> Seq<Fp> {
    seq![slot_of(bucket, 0), slot_of(bucket, 1), slot_of(bucket, 2), slot_of(bucket, 3)]
}

/// The bucket with slot `i` overwritten by `fp`.
pub open spec fn put_slot(bucket: PackedBucket, i: u64, fp: Fp) -> PackedBucket {
    (bucket & !(0xffffu64 << ((i * 16) as u64))) | ((fp as u64) << ((i * 16) as u64))
}

/// The first slot that holds `fp`.
pub open spec fn first_slot(bucket: PackedBucket, fp: Fp) -> Option<usize> {
    if slots(bucket)[0] == fp {
        Some(0)
    } else if slots(bucket)[1] == fp {
        Some(1)
    } else if slots(bucket)[2] == fp {
        Some(2)
    } else if slots(bucket)[3] == fp {
        Some(3)
    } else {
        None
    }
}

/// The bucket after storing `fp` in its first empty slot, if it has one.
pub open spec fn bucket_insert(bucket: PackedBucket, fp: Fp) -> Option<PackedBucket> {
    match first_slot(bucket, 0) {
        Some(i) => Some(put_slot(bucket, i as u64, fp)),
        None => None,
    }
}

/// The bucket after emptying the first slot that holds `fp`, if one does.
pub open spec fn bucket_delete(bucket: PackedBucket, fp: Fp) -> Option<PackedBucket> {
    match first_slot(bucket, fp) {
        Some(i) => Some(put_slot(bucket, i as u64, 0)),
        None => None,
    }
}

/// How many slots of a bucket hold `fp`.
pub open spec fn count_in(bucket: PackedBucket, fp: Fp) -> nat {
    (if slots(bucket)[0] == fp { 1nat } else { 0 }) + (if slots(bucket)[1] == fp { 1nat } else { 0 })
        + (if slots(bucket)[2] == fp { 1nat } else { 0 }) + (if slots(bucket)[3] == fp {
        1nat
    } else {
        0
    })
}

/// Overwriting a slot changes that slot and no other.
pub proof fn put_slot_writes_one_slot(bucket: PackedBucket, i: u64, fp: Fp)
    requires
        i < 4,
    ensures
        slots(put_slot(bucket, i, fp)) == slots(bucket).update(i as int, fp),
{
    assert forall|j: u64| j < 4 implies #[trigger] slot_of(put_slot(bucket, i, fp), j) == (if i == j {
        fp
    } else {
        slot_of(bucket, j)
    }) by {
        let f = fp as u64;
        let si = (i * 16) as u64;
        let sj = (j * 16) as u64;
        let now = (bucket & !(0xffffu64 << si)) | (f << si);
        assert(((now >> sj) & 0xffff) == (if si == sj { f } else { (bucket >> sj) & 0xffff }))
            by (bit_vector)
            requires
                f <= 0xffff,
                si == 0 || si == 16 || si == 32 || si == 48,
                sj == 0 || sj == 16 || sj == 32 || sj == 48,
                now == (bucket & !(0xffffu64 << si)) | (f << si),
        ;
    }
    assert(slots(put_slot(bucket, i, fp)) =~= slots(bucket).update(i as int, fp));
}

/// How overwriting slot `i` changes the number of slots that hold a fingerprint.
pub proof fn lemma_put_slot_count(bucket: PackedBucket, i: u64, fp: Fp, counted: Fp)
    requires
        i < 4,
    ensures
        count_in(put_slot(bucket, i, fp), counted) == count_in(bucket, counted) + (if fp
            == counted {
            1int
        } else {
            0
        }) - (if slots(bucket)[i as int] == counted {
            1int
        } else {
            0
        }),
{
    put_slot_writes_one_slot(bucket, i, fp);
}

/// An index of a lane goes to another index of the lane and back: the two candidate buckets of a
/// fingerprint differ, and each is the other's alternate.
pub proof fn alt_index_is_an_involution(idx: u64, fp: Fp)
    requires
        idx < BUCKETS_PER_LANE,
    ensures
        alt_of(idx, fp) < BUCKETS_PER_LANE,
        alt_of(idx, fp) != idx,
        alt_of(alt_of(idx, fp), fp) == idx,
{
    let h = hash::xxh3(vstd::bytes::spec_u16_to_le_bytes(fp), ALT_MIX_DOMAIN);
    let d = alt_delta(fp);
    assert(h & 0xffff <= 0xffff) by (bit_vector);
    assert(((idx ^ d) & 0xffff) < 65536 && ((idx ^ d) & 0xffff) != idx && ((((idx ^ d) & 0xffff)
        ^ d) & 0xffff) == idx) by (bit_vector)
        requires
            idx < 65536,
            0 < d <= 0xffff,
    ;
}

/// A fingerprint is never 0, and a primary bucket lies within the lane.
pub proof fn probe_is_in_range(hash: u64)
    ensures
        fp_of(hash) != 0,
        bucket_of(hash) < BUCKETS_PER_LANE,
{
    let mixed = hash::xxh3(vstd::bytes::spec_u64_to_le_bytes(hash), 0);
    let low = mixed as u16;
    assert(low | 1 != 0) by (bit_vector);
    assert((mixed >> 16) & 0xffff < 65536) by (bit_vector);
}

/// Computes the other candidate bucket of a fingerprint.
pub fn alt_index(idx: usize, fp: Fp) -> (alt: usize)
    ensures
        alt == alt_of(idx as u64, fp),
        alt < BUCKETS_PER_LANE,
{
    let bytes: Vec<u8> = vstd::bytes::u16_to_le_bytes(fp);
    let mixed: u64 = hash_with_seed(bytes.as_slice(), ALT_MIX_DOMAIN);
    let masked: u64 = mixed & 0xffff;
    let delta: u64 = if masked == 0 {
        1
    } else {
        masked
    };
    let from: u64 = idx as u64;
    let alt: u64 = (from ^ delta) & 0xffff;
    assert((from ^ delta) & 0xffff < 65536) by (bit_vector);
    alt as usize
}

/// Computes the fingerprint and the primary bucket of a block hash.
pub fn probe(hash: u64) -> (at: (Fp, usize))
    ensures
        at.0 == fp_of(hash),
        at.1 == bucket_of(hash),
        at.0 != 0,
        at.1 < BUCKETS_PER_LANE,
{
    let bytes: Vec<u8> = vstd::bytes::u64_to_le_bytes(hash);
    let mixed: u64 = hash_with_seed(bytes.as_slice(), 0);
    proof {
        probe_is_in_range(hash);
    }
    let fp: Fp = (mixed as u16) | 1;
    let bucket: u64 = (mixed >> 16) & 0xffff;
    (fp, bucket as usize)
}

/// Reads the fingerprint in slot `slot_idx`.
pub fn slot(bucket: PackedBucket, slot_idx: usize) -> (fp: Fp)
    requires
        slot_idx < FP_PER_BUCKET,
    ensures
        fp == slots(bucket)[slot_idx as int],
{
    let shift: u64 = (slot_idx as u64) * 16;
    let word: u64 = bucket >> shift;
    assert(word as u16 == (word & 0xffff) as u16) by (bit_vector);
    word as u16
}

/// The bucket with slot `slot_idx` overwritten by `fp`.
pub fn with_slot(bucket: PackedBucket, slot_idx: usize, fp: Fp) -> (written: PackedBucket)
    requires
        slot_idx < FP_PER_BUCKET,
    ensures
        written == put_slot(bucket, slot_idx as u64, fp),
        slots(written) == slots(bucket).update(slot_idx as int, fp),
{
    let shift: u64 = (slot_idx as u64) * 16;
    let mask: u64 = 0xffffu64 << shift;
    proof {
        put_slot_writes_one_slot(bucket, slot_idx as u64, fp);
    }
    (bucket & !mask) | ((fp as u64) << shift)
}

/// Subtracting one from each 16-bit lane of a word borrows into a lane's top bit, where the word
/// has none, exactly when some lane is zero.
proof fn lemma_zero_lane(word: u64, less: u64)
    requires
        less == (word - 0x0001_0001_0001_0001) as u64,
    ensures
        (less & !word & 0x8000_8000_8000_8000 != 0) == (word & 0xffff == 0 || word & 0xffff_0000
            == 0 || word & 0xffff_0000_0000 == 0 || word & 0xffff_0000_0000_0000 == 0),
{
    assert((less & !word & 0x8000_8000_8000_8000 != 0) == (word & 0xffff == 0 || word & 0xffff_0000
        == 0 || word & 0xffff_0000_0000 == 0 || word & 0xffff_0000_0000_0000 == 0)) by (bit_vector)
        requires
            less == (word - 0x0001_0001_0001_0001) as u64,
    ;
}

/// Whether a slot of the bucket holds `fp`: the four comparisons are made at once, by looking for
/// a zero among the four differences.
pub fn bucket_contains(bucket: PackedBucket, fp: Fp) -> (found: bool)
    requires
        fp != 0,
    ensures
        found == slots(bucket).contains(fp),
{
    let wide: u64 = fp as u64;
    assert(wide * 0x0001_0001_0001_0001 <= 0xffff_ffff_ffff_ffff) by (nonlinear_arith)
        requires
            wide <= 0xffff,
    ;
    let repeated: u64 = wide * 0x0001_0001_0001_0001;
    let different: u64 = bucket ^ repeated;
    let less: u64 = different.wrapping_sub(0x0001_0001_0001_0001);
    let found: bool = less & !different & 0x8000_8000_8000_8000 != 0;
    proof {
        let s0 = bucket & 0xffff;
        let s1 = (bucket >> 16) & 0xffff;
        let s2 = (bucket >> 32) & 0xffff;
        let s3 = (bucket >> 48) & 0xffff;
        assert(bucket >> 0 == bucket) by (bit_vector);
        assert(less == (different - 0x0001_0001_0001_0001) as u64) by (bit_vector)
            requires
                less == different - 0x0001_0001_0001_0001 || less == different
                    - 0x0001_0001_0001_0001 + 0x1_0000_0000_0000_0000,
        ;
        assert(repeated == wide | (wide << 16) | (wide << 32) | (wide << 48)) by (bit_vector)
            requires
                wide <= 0xffff,
                repeated == wide * 0x0001_0001_0001_0001,
        ;
        lemma_zero_lane(different, less);
        assert((different & 0xffff == 0) == (s0 == wide) && (different & 0xffff_0000 == 0) == (s1
            == wide) && (different & 0xffff_0000_0000 == 0) == (s2 == wide) && (different
            & 0xffff_0000_0000_0000 == 0) == (s3 == wide)) by (bit_vector)
            requires
                wide <= 0xffff,
                repeated == wide | (wide << 16) | (wide << 32) | (wide << 48),
                different == bucket ^ repeated,
                s0 == bucket & 0xffff,
                s1 == (bucket >> 16) & 0xffff,
                s2 == (bucket >> 32) & 0xffff,
                s3 == (bucket >> 48) & 0xffff,
        ;
        assert(s0 <= 0xffff && s1 <= 0xffff && s2 <= 0xffff && s3 <= 0xffff) by (bit_vector)
            requires
                s0 == bucket & 0xffff,
                s1 == (bucket >> 16) & 0xffff,
                s2 == (bucket >> 32) & 0xffff,
                s3 == (bucket >> 48) & 0xffff,
        ;
        assert(slots(bucket)[0] == s0 && slots(bucket)[1] == s1 && slots(bucket)[2] == s2
            && slots(bucket)[3] == s3);
        if found {
            let at: int = if s0 == wide {
                0
            } else if s1 == wide {
                1
            } else if s2 == wide {
                2
            } else {
                3
            };
            assert(slots(bucket)[at] == fp);
        }
    }
    found
}

/// The first slot that holds `fp`.
pub fn first_match(bucket: PackedBucket, fp: Fp) -> (at: Option<usize>)
    ensures
        at == first_slot(bucket, fp),
        at is Some ==> at->0 < FP_PER_BUCKET,
{
    let mut i: usize = 0;
    while i < FP_PER_BUCKET
        invariant
            i <= FP_PER_BUCKET,
            forall|j: int| 0 <= j < i ==> slots(bucket)[j] != fp,
        decreases FP_PER_BUCKET - i,
    {
        if slot(bucket, i) == fp {
            return Some(i);
        }
        i = i + 1;
    }
    None
}

/// The first empty slot.
pub fn first_empty(bucket: PackedBucket) -> (at: Option<usize>)
    ensures
        at == first_slot(bucket, 0),
        at is Some ==> at->0 < FP_PER_BUCKET,
{
    first_match(bucket, 0)
}

/// Stores `fp` in the first empty slot; `false` when the bucket is full, which is left as it was.
pub fn try_insert(bucket: &mut PackedBucket, fp: Fp) -> (stored: bool)
    requires
        fp != 0,
    ensures
        stored == bucket_insert(*old(bucket), fp) is Some,
        *final(bucket) == (match bucket_insert(*old(bucket), fp) {
            Some(after) => after,
            None => *old(bucket),
        }),
{
    match first_empty(*bucket) {
        Some(i) => {
            *bucket = with_slot(*bucket, i, fp);
            true
        },
        None => false,
    }
}

/// Empties the first slot that holds `fp`; `false` when none does, and the bucket is left as it
/// was.
pub fn try_delete(bucket: &mut PackedBucket, fp: Fp) -> (deleted: bool)
    requires
        fp != 0,
    ensures
        deleted == slots(*old(bucket)).contains(fp),
        deleted == bucket_delete(*old(bucket), fp) is Some,
        *final(bucket) == (match bucket_delete(*old(bucket), fp) {
            Some(after) => after,
            None => *old(bucket),
        }),
{
    proof {
        lemma_first_slot(*bucket, fp);
    }
    match first_match(*bucket, fp) {
        Some(i) => {
            *bucket = with_slot(*bucket, i, 0);
            true
        },
        None => false,
    }
}

/// There is a first slot that holds `fp` exactly when some slot does.
pub proof fn lemma_first_slot(bucket: PackedBucket, fp: Fp)
    ensures
        slots(bucket).contains(fp) == first_slot(bucket, fp) is Some,
        first_slot(bucket, fp) is Some ==> first_slot(bucket, fp)->0 < 4
            && slots(bucket)[first_slot(bucket, fp)->0 as int] == fp,
        slots(bucket).contains(fp) == (count_in(bucket, fp) > 0),
{
    match first_slot(bucket, fp) {
        Some(i) => {
            assert(slots(bucket)[i as int] == fp);
        },
        None => {},
    }
}

/// A stored fingerprint is found, and emptying its slot again gives the bucket's fingerprints back.
pub proof fn delete_undoes_insert(bucket: PackedBucket, fp: Fp)
    requires
        fp != 0,
        !slots(bucket).contains(fp),
        bucket_insert(bucket, fp) is Some,
    ensures
        slots(bucket_insert(bucket, fp)->0).contains(fp),
        bucket_delete(bucket_insert(bucket, fp)->0, fp) is Some,
        slots(bucket_delete(bucket_insert(bucket, fp)->0, fp)->0) == slots(bucket),
{
    let i = first_slot(bucket, 0)->0;
    let stored = bucket_insert(bucket, fp)->0;
    put_slot_writes_one_slot(bucket, i as u64, fp);
    assert(slots(stored)[i as int] == fp);
    assert forall|j: int| 0 <= j < 4 && j != i implies slots(stored)[j] != fp by {
        assert(slots(stored)[j] == slots(bucket)[j]);
    }
    assert(first_slot(stored, fp) == Some(i));
    put_slot_writes_one_slot(stored, i as u64, 0);
    assert(slots(put_slot(stored, i as u64, 0)) =~= slots(bucket));
}

/// A full snapshot of a lane, with its place in the sequence of publications.
#[derive(Debug, Clone)]
pub struct CkfSnapshot {
    /// Sequence number of the publication.
    pub sequence: u64,
    /// All buckets of the lane, in order.
    pub buckets: Vec<PackedBucket>,
}

/// The buckets of a lane that changed since the previous publication.
#[derive(Debug, Clone)]
pub struct CkfDelta {
    /// Sequence number of the publication.
    pub sequence: u64,
    /// Sequence number of the publication that this one builds on.
    pub prev_sequence: u64,
    /// Changed buckets: index and new value.
    pub buckets: Vec<(usize, PackedBucket)>,
}

/// A block's place comes from the hash of its eight bytes: the fingerprint is its lowest sixteen bits,
/// made odd, and the primary bucket the sixteen bits above them.
pub proof fn a_block_is_placed_by_its_hash(block: u64)
    ensures
        ({
            let mixed = hash::xxh3(vstd::bytes::spec_u64_to_le_bytes(block), 0);
            let low = mixed as int % 65536;
            &&& fp_of(block) == if low % 2 == 0 {
                low + 1
            } else {
                low
            }
            &&& bucket_of(block) == mixed as int / 65536 % 65536
        }),
{
    let mixed = hash::xxh3(vstd::bytes::spec_u64_to_le_bytes(block), 0);
    let low = mixed as u16;
    assert(low == mixed % 65536) by (bit_vector)
        requires
            low == mixed as u16,
    ;
    assert(low % 2 == 0 ==> low | 1 == low + 1) by (bit_vector);
    assert(low % 2 == 1 ==> low | 1 == low) by (bit_vector);
    assert((mixed >> 16) & 0xffff == mixed / 65536 % 65536) by (bit_vector);
}

/// The two buckets of a fingerprint lie apart by what its own hash says, and by one if that is nothing,
/// wherever the first lies.
pub proof fn buckets_lie_apart_by_the_fingerprint(idx: u64, other: u64, fp: Fp)
    requires
        idx < BUCKETS_PER_LANE,
        other < BUCKETS_PER_LANE,
    ensures
        alt_of(idx, fp) ^ idx == alt_of(other, fp) ^ other,
        ({
            let mixed = hash::xxh3(vstd::bytes::spec_u16_to_le_bytes(fp), ALT_MIX_DOMAIN) as int
                % 65536;
            alt_of(idx, fp) ^ idx == if mixed == 0 {
                1
            } else {
                mixed
            }
        }),
{
    let h = hash::xxh3(vstd::bytes::spec_u16_to_le_bytes(fp), ALT_MIX_DOMAIN);
    let d = alt_delta(fp);
    assert(h & 0xffff == h % 65536) by (bit_vector);
    assert(h & 0xffff <= 0xffff) by (bit_vector);
    assert((((idx ^ d) & 0xffff) ^ idx) == d && (((other ^ d) & 0xffff) ^ other) == d) by (bit_vector)
        requires
            idx < 65536,
            other < 65536,
            0 < d <= 0xffff,
    ;
}

/// A fingerprint goes to the first free slot, `i`, and the other slots stay as they were; a bucket
/// without a free slot takes none.
pub proof fn a_fingerprint_goes_to_the_first_free_slot(bucket: PackedBucket, fp: Fp, i: int)
    requires
        0 <= i <= 4,
        forall|j: int| 0 <= j < i ==> slots(bucket)[j] != 0,
        i < 4 ==> slots(bucket)[i] == 0,
    ensures
        i < 4 ==> bucket_insert(bucket, fp) is Some && slots(bucket_insert(bucket, fp)->0) == slots(
            bucket,
        ).update(i, fp),
        i == 4 ==> bucket_insert(bucket, fp) is None,
{
    if i < 4 {
        assert(first_slot(bucket, 0) == Some(i as usize));
        put_slot_writes_one_slot(bucket, i as u64, fp);
    }
}

/// The first slot with a fingerprint, `i`, is emptied, and the other slots stay as they were; from a
/// bucket without it nothing is deleted.
pub proof fn the_first_slot_with_a_fingerprint_is_emptied(bucket: PackedBucket, fp: Fp, i: int)
    requires
        0 <= i <= 4,
        forall|j: int| 0 <= j < i ==> slots(bucket)[j] != fp,
        i < 4 ==> slots(bucket)[i] == fp,
    ensures
        i < 4 ==> bucket_delete(bucket, fp) is Some && slots(bucket_delete(bucket, fp)->0) == slots(
            bucket,
        ).update(i, 0),
        i == 4 ==> bucket_delete(bucket, fp) is None,
{
    if i < 4 {
        assert(first_slot(bucket, fp) == Some(i as usize));
        put_slot_writes_one_slot(bucket, i as u64, 0);
    }
}

} // verus!
