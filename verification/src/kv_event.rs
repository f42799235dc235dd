//! KV cache events, and the hashes that name cache blocks.
//!
//! A block hash covers the tokens of one block under a seed derived from the cache namespace and
//! the adapter name, so that equal tokens of different tenants or adapters name different blocks.

use vstd::prelude::*;
use vstd::string::*;

use crate::hash;
use crate::hash::hash_with_seed;
use crate::ids::WorkerWithRank;
use crate::table::{KeyView, Table, TableKey};

verus! {

/// A change to the cache blocks that a worker holds.
#[derive(Debug, Clone, PartialEq)]
pub enum KvCacheEvent {
    /// Blocks were stored.
    Stored {
        /// Worker that stored them.
        worker: WorkerWithRank,
        /// Their hashes.
        block_hashes: Vec<u64>,
        /// Hash of the block before the first of them.
        parent_hash: Option<u64>,
        /// Number of tokens in each of them.
        num_block_tokens: Vec<u64>,
    },
    /// Blocks were removed.
    Removed {
        /// Worker that removed them.
        worker: WorkerWithRank,
        /// Their hashes.
        block_hashes: Vec<u64>,
    },
    /// All blocks of a worker were dropped.
    Clear {
        /// The worker.
        worker: WorkerWithRank,
    },
    /// A worker restarted under a new generation.
    Reset {
        /// The worker.
        worker: WorkerWithRank,
        /// The generation after the restart; a reset to an earlier one is passed over.
        generation: u64,
    },
}

/// What an event does to the blocks of a backend.
pub enum KvChange {
    /// These blocks are stored.
    Store(Seq<u64>),
    /// These blocks are removed.
    Remove(Seq<u64>),
    /// All blocks are dropped.
    Clear,
    /// All blocks are dropped, and what was known before is void, unless a later generation than
    /// this one is known.
    Reset(u64),
}

impl View for KvCacheEvent {
    type V = KvChange;

    open spec fn view(&self) -> KvChange {
        match self {
            KvCacheEvent::Stored { block_hashes, .. } => KvChange::Store(block_hashes@),
            KvCacheEvent::Removed { block_hashes, .. } => KvChange::Remove(block_hashes@),
            KvCacheEvent::Clear { .. } => KvChange::Clear,
            KvCacheEvent::Reset { generation, .. } => KvChange::Reset(*generation),
        }
    }
}

/// Whether a later generation of a backend is known than `generation`.
pub open spec fn is_stale(
    generations: Map<KeyView, u64>,
    backend: KeyView,
    generation: u64,
) -> bool {
    generations.contains_key(backend) && generation < generations[backend]
}

/// Whether a later generation of a backend is known than `generation`.
pub(crate) fn stale(generations: &Table<u64>, backend: &TableKey, generation: u64) -> (stale: bool)
    requires
        generations.wf(),
    ensures
        stale == is_stale(generations@, backend@, generation),
{
    match generations.get(backend) {
        Some(known) => generation < *known,
        None => false,
    }
}

/// What block hashes are computed from. An empty namespace or adapter name counts as none.
#[derive(Debug, Clone, Copy)]
pub struct BlockHashInput<'a> {
    /// Token sequence.
    pub tokens: &'a [u32],
    /// Number of tokens per block.
    pub kv_block_size: u32,
    /// Cache namespace.
    pub cache_namespace: Option<&'a str>,
    /// Adapter name.
    pub lora_name: Option<&'a str>,
}

impl<'a> Default for BlockHashInput<'a> {
    fn default() -> (input: Self)
        ensures
            input.tokens@ == Seq::<u32>::empty(),
            input.kv_block_size == 0,
            input.cache_namespace is None,
            input.lora_name is None,
    {
        BlockHashInput { tokens: &[], kv_block_size: 0, cache_namespace: None, lora_name: None }
    }
}

/// Base seed of all block hashes.
pub const XXH3_SEED: u64 = 1337;

/// Salt of the namespace.
pub const NS_SALT: u64 = 0x4e53_5f4c_4f5f_4c4f;

/// Salt of the adapter name.
pub const LORA_SALT: u64 = 0x4c52_4f5f_4c4f_5f4c;

/// A name that counts: one that is given and not empty.
pub open spec fn given_name(name: Option<&str>) -> Option<Seq<char>> {
    match name {
        Some(n) => if n@.len() == 0 {
            None
        } else {
            Some(n@)
        },
        None => None,
    }
}

/// A seed with a name mixed in under a salt.
pub open spec fn mix_name(seed: u64, name: Option<Seq<char>>, salt: u64) -> u64 {
    match name {
        Some(n) => seed.wrapping_add(hash::xxh3(vstd::utf8::encode_utf8(n), salt)) ^ salt,
        None => seed,
    }
}

/// The seed under which the blocks of a namespace and adapter are hashed.
pub open spec fn seed_of(namespace: Option<Seq<char>>, lora: Option<Seq<char>>) -> u64 {
    mix_name(mix_name(XXH3_SEED, namespace, NS_SALT), lora, LORA_SALT)
}

/// Tokens written out as little-endian bytes, one after the other.
pub open spec fn token_bytes(tokens: Seq<u32>) -> Seq<u8>
    decreases tokens.len(),
{
    if tokens.len() == 0 {
        Seq::empty()
    } else {
        token_bytes(tokens.drop_last()) + vstd::bytes::spec_u32_to_le_bytes(tokens.last())
    }
}

/// The hashes of the complete blocks of a token sequence: block `i` covers the tokens from
/// `i * block` up to `(i + 1) * block`.
pub open spec fn block_hashes_of(tokens: Seq<u32>, block: nat, seed: u64) -> Seq<u64> {
    if block == 0 {
        Seq::empty()
    } else {
        Seq::new(
            tokens.len() / block,
            |i: int|
                hash::xxh3(
                    token_bytes(tokens.subrange(i * block, (i + 1) * block)),
                    seed,
                ),
        )
    }
}

fn mix(seed: u64, name: Option<&str>, salt: u64) -> (mixed: u64)
    ensures
        mixed == mix_name(seed, given_name(name), salt),
{
    match name {
        Some(n) => {
            if n.is_empty() {
                seed
            } else {
                let name_hash: u64 = hash_with_seed(n.as_bytes(), salt);
                seed.wrapping_add(name_hash) ^ salt
            }
        },
        None => seed,
    }
}

/// Derives the hash seed from the namespace and the adapter name.
pub fn compute_seed(cache_namespace: Option<&str>, lora_name: Option<&str>) -> (seed: u64)
    ensures
        seed == seed_of(given_name(cache_namespace), given_name(lora_name)),
{
    let with_namespace: u64 = mix(XXH3_SEED, cache_namespace, NS_SALT);
    mix(with_namespace, lora_name, LORA_SALT)
}

/// Computes the hashes of the complete blocks; an incomplete last block is left out, and a block
/// size of 0 gives no hashes.
pub fn compute_block_hashes(input: &BlockHashInput<'_>) -> (hashes: Vec<u64>)
    ensures
        hashes@ == block_hashes_of(
            input.tokens@,
            input.kv_block_size as nat,
            seed_of(given_name(input.cache_namespace), given_name(input.lora_name)),
        ),
{
    let mut hashes: Vec<u64> = Vec::new();
    if input.kv_block_size == 0 {
        return hashes;
    }
    let seed: u64 = compute_seed(input.cache_namespace, input.lora_name);
    let tokens: &[u32] = input.tokens;
    let len: usize = tokens.len();
    let stride: usize = input.kv_block_size as usize;
    let ghost all = block_hashes_of(tokens@, stride as nat, seed);
    let mut start: usize = 0;
    proof {
        assert(0 * stride == 0);
    }
    while stride <= len - start
        invariant
            stride > 0,
            len == tokens@.len(),
            tokens == input.tokens,
            start <= tokens@.len(),
            start == hashes@.len() * stride,
            all == block_hashes_of(tokens@, stride as nat, seed),
            hashes@.len() <= all.len(),
            hashes@ == all.take(hashes@.len() as int),
        decreases tokens@.len() - start,
    {
        let mut bytes: Vec<u8> = Vec::new();
        let ghost n = hashes@.len() as int;
        let ghost window = tokens@.subrange(start as int, start + stride);
        let mut i: usize = 0;
        while i < stride
            invariant
                i <= stride,
                len == tokens@.len(),
                start + stride <= len,
                window == tokens@.subrange(start as int, start + stride),
                bytes@ == token_bytes(window.take(i as int)),
            decreases stride - i,
        {
            let mut word: Vec<u8> = vstd::bytes::u32_to_le_bytes(tokens[start + i]);
            bytes.append(&mut word);
            proof {
                let now = window.take(i + 1);
                assert(now.drop_last() =~= window.take(i as int));
                assert(now.last() == window[i as int]);
            }
            i = i + 1;
        }
        proof {
            assert(window.take(stride as int) =~= window);
            assert((n + 1) * stride == n * stride + stride) by (nonlinear_arith);
            assert(stride * (n + 1) == start + stride) by (nonlinear_arith)
                requires
                    start == n * stride,
            ;
            vstd::arithmetic::div_mod::lemma_div_is_ordered(
                start + stride,
                tokens@.len() as int,
                stride as int,
            );
            vstd::arithmetic::div_mod::lemma_div_multiples_vanish(n + 1, stride as int);
            assert(n < all.len());
            assert(all[n] == hash::xxh3(token_bytes(window), seed));
        }
        hashes.push(hash_with_seed(bytes.as_slice(), seed));
        assert(hashes@ =~= all.take(n + 1));
        start = start + stride;
    }
    proof {
        let n = hashes@.len() as int;
        let left = tokens@.len() - start;
        vstd::arithmetic::div_mod::lemma_fundamental_div_mod_converse(
            tokens@.len() as int,
            stride as int,
            n,
            left,
        );
        assert(hashes@ =~= all);
    }
    hashes
}

/// A token sequence has one hash per complete block.
pub proof fn one_hash_per_complete_block(tokens: Seq<u32>, block: nat, seed: u64)
    ensures
        block_hashes_of(tokens, block, seed).len() == if block == 0 {
            0
        } else {
            tokens.len() / block
        },
{
}

/// More tokens leave the hashes of the blocks before them as they were: the hashes of a prefix are
/// a prefix of the hashes.
pub proof fn hashes_of_a_prefix_are_a_prefix(
    tokens: Seq<u32>,
    longer: Seq<u32>,
    block: nat,
    seed: u64,
)
    requires
        tokens.is_prefix_of(longer),
    ensures
        block_hashes_of(tokens, block, seed).is_prefix_of(block_hashes_of(longer, block, seed)),
{
    if block > 0 {
        let short = block_hashes_of(tokens, block, seed);
        let long = block_hashes_of(longer, block, seed);
        vstd::arithmetic::div_mod::lemma_div_is_ordered(
            tokens.len() as int,
            longer.len() as int,
            block as int,
        );
        assert forall|i: int| 0 <= i < short.len() implies short[i] == long[i] by {
            vstd::arithmetic::div_mod::lemma_fundamental_div_mod(tokens.len() as int, block as int);
            assert((i + 1) * block <= block * (tokens.len() / block)) by (nonlinear_arith)
                requires
                    i + 1 <= tokens.len() / block,
                    0 <= i,
            ;
            assert(0 <= i * block <= (i + 1) * block) by (nonlinear_arith)
                requires
                    0 <= i,
            ;
            assert(tokens.subrange(i * block, (i + 1) * block) =~= longer.subrange(
                i * block,
                (i + 1) * block,
            ));
        }
        assert(short =~= long.take(short.len() as int));
    }
}

/// An empty name counts as no name.
pub proof fn empty_name_is_no_name(name: &str, lora: Option<Seq<char>>)
    requires
        name@.len() == 0,
    ensures
        seed_of(given_name(Some(name)), lora) == seed_of(None, lora),
{
}

/// A name that is mixed into a seed can be taken out again: what is left is the seed without it.
proof fn lemma_unmixed(seed: u64, mixed: u64, name: u64, salt: u64)
    requires
        mixed == seed.wrapping_add(name) ^ salt,
    ensures
        (mixed ^ salt).wrapping_sub(name) == seed,
{
    let sum = seed.wrapping_add(name);
    assert((sum ^ salt) ^ salt == sum) by (bit_vector);
}

/// The adapter's part of a seed is its hash under its own salt, whatever the namespace: taking it out
/// leaves the seed of the namespace alone.
pub proof fn an_adapter_is_mixed_into_every_seed(
    namespace: Option<Seq<char>>,
    lora: Seq<char>,
)
    ensures
        (seed_of(namespace, Some(lora)) ^ LORA_SALT).wrapping_sub(
            hash::xxh3(vstd::utf8::encode_utf8(lora), LORA_SALT),
        ) == seed_of(namespace, None),
{
    lemma_unmixed(
        seed_of(namespace, None),
        seed_of(namespace, Some(lora)),
        hash::xxh3(vstd::utf8::encode_utf8(lora), LORA_SALT),
        LORA_SALT,
    );
}

/// The namespace's part of a seed is its hash under its own salt: taking it out leaves the seed of
/// no namespace, which is the base seed.
pub proof fn a_namespace_is_mixed_into_every_seed(namespace: Seq<char>)
    ensures
        seed_of(None, None) == XXH3_SEED,
        (seed_of(Some(namespace), None) ^ NS_SALT).wrapping_sub(
            hash::xxh3(vstd::utf8::encode_utf8(namespace), NS_SALT),
        ) == XXH3_SEED,
{
    lemma_unmixed(
        XXH3_SEED,
        seed_of(Some(namespace), None),
        hash::xxh3(vstd::utf8::encode_utf8(namespace), NS_SALT),
        NS_SALT,
    );
}

/// With any adapter, or none, two namespaces have one seed only if their hashes are equal; and a
/// namespace has the seed of none only if its hash takes the base seed to itself.
pub proof fn namespaces_are_kept_apart(a: Seq<char>, b: Seq<char>, lora: Option<Seq<char>>)
    ensures
        seed_of(Some(a), lora) == seed_of(Some(b), lora) <==> hash::xxh3(
            vstd::utf8::encode_utf8(a),
            NS_SALT,
        ) == hash::xxh3(vstd::utf8::encode_utf8(b), NS_SALT),
        seed_of(Some(a), lora) == seed_of(None, lora) <==> hash::xxh3(
            vstd::utf8::encode_utf8(a),
            NS_SALT,
        ) == (XXH3_SEED ^ NS_SALT).wrapping_sub(XXH3_SEED),
{
    lemma_seeds_apart(XXH3_SEED, a, b, NS_SALT);
    let with_a = seed_of(Some(a), None);
    let with_b = seed_of(Some(b), None);
    let without = seed_of(None, None);
    match lora {
        Some(l) => {
            let name = hash::xxh3(vstd::utf8::encode_utf8(l), LORA_SALT);
            lemma_mixed_apart(with_a, with_b, name, LORA_SALT);
            lemma_mixed_apart(with_a, without, name, LORA_SALT);
        },
        None => {},
    }
}

/// Under any namespace, or none, two adapters have one seed only if their hashes are equal; and an
/// adapter has the seed of none only if its hash takes the namespace's seed to itself.
pub proof fn adapters_are_kept_apart(namespace: Option<Seq<char>>, a: Seq<char>, b: Seq<char>)
    ensures
        seed_of(namespace, Some(a)) == seed_of(namespace, Some(b)) <==> hash::xxh3(
            vstd::utf8::encode_utf8(a),
            LORA_SALT,
        ) == hash::xxh3(vstd::utf8::encode_utf8(b), LORA_SALT),
        seed_of(namespace, Some(a)) == seed_of(namespace, None) <==> hash::xxh3(
            vstd::utf8::encode_utf8(a),
            LORA_SALT,
        ) == (seed_of(namespace, None) ^ LORA_SALT).wrapping_sub(seed_of(namespace, None)),
{
    lemma_seeds_apart(seed_of(namespace, None), a, b, LORA_SALT);
}

proof fn lemma_mixed_apart(a: u64, b: u64, name: u64, salt: u64)
    ensures
        a.wrapping_add(name) ^ salt == b.wrapping_add(name) ^ salt <==> a == b,
{
    lemma_unmixed(a, a.wrapping_add(name) ^ salt, name, salt);
    lemma_unmixed(b, b.wrapping_add(name) ^ salt, name, salt);
}

proof fn lemma_seeds_apart(seed: u64, a: Seq<char>, b: Seq<char>, salt: u64)
    ensures
        mix_name(seed, Some(a), salt) == mix_name(seed, Some(b), salt) <==> hash::xxh3(
            vstd::utf8::encode_utf8(a),
            salt,
        ) == hash::xxh3(vstd::utf8::encode_utf8(b), salt),
        mix_name(seed, Some(a), salt) == seed <==> hash::xxh3(vstd::utf8::encode_utf8(a), salt) == (
        seed ^ salt).wrapping_sub(seed),
{
    let x = hash::xxh3(vstd::utf8::encode_utf8(a), salt);
    let y = hash::xxh3(vstd::utf8::encode_utf8(b), salt);
    let p = seed.wrapping_add(x);
    let q = seed.wrapping_add(y);
    assert((p ^ salt) ^ salt == p) by (bit_vector);
    assert((q ^ salt) ^ salt == q) by (bit_vector);
    assert((seed ^ salt) ^ salt == seed) by (bit_vector);
}

/// Tokens are written out in four bytes each, in order, from which they are read back as
/// little-endian numbers.
pub proof fn tokens_are_written_in_four_bytes(tokens: Seq<u32>, i: int)
    requires
        0 <= i < tokens.len(),
    ensures
        token_bytes(tokens).len() == 4 * tokens.len(),
        vstd::bytes::spec_u32_from_le_bytes(token_bytes(tokens).subrange(4 * i, 4 * i + 4))
            == tokens[i],
    decreases tokens.len(),
{
    let shorter = tokens.drop_last();
    let last = vstd::bytes::spec_u32_to_le_bytes(tokens.last());
    lemma_token_bytes_len(shorter);
    lemma_token_bytes_len(tokens);
    vstd::bytes::lemma_auto_spec_u32_to_from_le_bytes();
    if i < shorter.len() {
        tokens_are_written_in_four_bytes(shorter, i);
        assert(token_bytes(tokens).subrange(4 * i, 4 * i + 4) =~= token_bytes(shorter).subrange(
            4 * i,
            4 * i + 4,
        ));
    } else {
        assert(token_bytes(tokens).subrange(4 * i, 4 * i + 4) =~= last);
    }
}

proof fn lemma_token_bytes_len(tokens: Seq<u32>)
    ensures
        token_bytes(tokens).len() == 4 * tokens.len(),
    decreases tokens.len(),
{
    vstd::bytes::lemma_auto_spec_u32_to_from_le_bytes();
    if tokens.len() > 0 {
        lemma_token_bytes_len(tokens.drop_last());
    }
}

/// The hashes of a sequence of complete blocks followed by more tokens are those of the blocks, and
/// then those of the tokens after them: each block is hashed by itself.
pub proof fn blocks_are_hashed_one_by_one(
    first: Seq<u32>,
    rest: Seq<u32>,
    block: nat,
    seed: u64,
)
    requires
        block > 0,
        first.len() % block == 0,
    ensures
        block_hashes_of(first + rest, block, seed) == block_hashes_of(first, block, seed)
            + block_hashes_of(rest, block, seed),
{
    let n = (first.len() / block) as int;
    let b = block as int;
    vstd::arithmetic::div_mod::lemma_fundamental_div_mod(first.len() as int, b);
    assert(first.len() == b * n);
    vstd::arithmetic::div_mod::lemma_hoist_over_denominator(rest.len() as int, n, block);
    assert((first + rest).len() == rest.len() + n * b) by (nonlinear_arith)
        requires
            first.len() == b * n,
            (first + rest).len() == first.len() + rest.len(),
    ;
    let whole = block_hashes_of(first + rest, block, seed);
    let parts = block_hashes_of(first, block, seed) + block_hashes_of(rest, block, seed);
    assert(whole.len() == parts.len());
    assert forall|i: int| 0 <= i < whole.len() implies whole[i] == parts[i] by {
        if i < n {
            assert(0 <= i * b <= (i + 1) * b && (i + 1) * b <= b * n) by (nonlinear_arith)
                requires
                    0 <= i < n,
                    b > 0,
            ;
            assert((first + rest).subrange(i * b, (i + 1) * b) =~= first.subrange(
                i * b,
                (i + 1) * b,
            ));
        } else {
            let j = i - n;
            vstd::arithmetic::div_mod::lemma_fundamental_div_mod(rest.len() as int, b);
            assert(i * b == b * n + j * b && (i + 1) * b == b * n + (j + 1) * b && 0 <= j * b <= (j
                + 1) * b && (j + 1) * b <= b * (rest.len() / block) as int) by (nonlinear_arith)
                requires
                    i == n + j,
                    0 <= j < (rest.len() / block) as int,
                    b > 0,
            ;
            assert((first + rest).subrange(i * b, (i + 1) * b) =~= rest.subrange(
                j * b,
                (j + 1) * b,
            ));
        }
    }
    assert(whole =~= parts);
}

/// A block's tokens alone have one hash, of their bytes under the seed; fewer tokens than a block
/// have none.
pub proof fn one_block_has_one_hash(tokens: Seq<u32>, block: nat, seed: u64)
    ensures
        tokens.len() < block ==> block_hashes_of(tokens, block, seed).len() == 0,
        block == 0 ==> block_hashes_of(tokens, block, seed).len() == 0,
        block > 0 && tokens.len() == block ==> block_hashes_of(tokens, block, seed) == seq![
            hash::xxh3(token_bytes(tokens), seed),
        ],
{
    if block > 0 && tokens.len() == block {
        vstd::arithmetic::div_mod::lemma_div_by_self(block as int);
        assert(0 * block == 0 && 1 * block == block) by (nonlinear_arith);
        assert(tokens.subrange(0, block as int) =~= tokens);
        assert(block_hashes_of(tokens, block, seed) =~= seq![hash::xxh3(token_bytes(tokens), seed)]);
    } else if tokens.len() < block {
        vstd::arithmetic::div_mod::lemma_basic_div(tokens.len() as int, block as int);
    }
}

/// A name counts if and only if it is given and not empty, and then as it is.
pub proof fn a_name_counts_unless_it_is_empty(name: &str)
    ensures
        name@.len() > 0 ==> given_name(Some(name)) == Some(name@),
        name@.len() == 0 ==> given_name(Some(name)) is None,
        given_name(None) is None,
{
}

} // verus!
