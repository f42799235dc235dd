//! How much memory a request's KV cache needs.
//!
//! The size of a token is a constant of the architecture. A sliding window caps the number of
//! tokens that are kept, and a paged engine rounds it up to whole blocks.

use vstd::prelude::*;

use crate::spec::{AttentionKind, ModelSpec};

verus! {

/// Shape of a request.
#[derive(Clone, Copy, Debug, PartialEq, Eq, Structural)]
pub struct EstimateInput {
    /// Number of sequences; 0 counts as 1.
    pub batch_size: u32,
    /// Number of prompt tokens.
    pub input_tokens: u32,
    /// Number of generated tokens.
    pub output_tokens: u32,
    /// Tokens per block; 0 for no rounding up.
    pub block_size: u32,
}

impl EstimateInput {
    /// One sequence, without rounding up to blocks.
    pub fn new(input_tokens: u32, output_tokens: u32) -> (input: Self)
        ensures
            input == (EstimateInput { batch_size: 1, input_tokens, output_tokens, block_size: 0 }),
    {
        EstimateInput { batch_size: 1, input_tokens, output_tokens, block_size: 0 }
    }

    /// The same shape with another number of sequences.
    #[must_use]
    pub fn with_batch(self, batch_size: u32) -> (input: Self)
        ensures
            input == (EstimateInput { batch_size, ..self }),
    {
        EstimateInput { batch_size, ..self }
    }

    /// The same shape with another block size.
    #[must_use]
    pub fn with_block_size(self, block_size: u32) -> (input: Self)
        ensures
            input == (EstimateInput { block_size, ..self }),
    {
        EstimateInput { block_size, ..self }
    }
}

/// What a request needs.
#[derive(Clone, Copy, Debug, PartialEq, Eq, Structural)]
pub struct KvEstimate {
    /// Bytes for the whole batch.
    pub bytes: u64,
    /// Blocks for the whole batch; 0 when no block size was given.
    pub blocks: u64,
    /// Bytes per token of the model.
    pub per_token_bytes: u64,
    /// Tokens that are kept per sequence.
    pub effective_seq_len: u32,
    /// Number of sequences.
    pub batch_size: u32,
}

/// Bytes of one token. With standard attention each layer keeps a key and a value per head; with
/// latent attention it keeps one latent, from which both are computed, and a decoupled key.
pub open spec fn token_bytes(spec: ModelSpec) -> nat {
    match spec.attention {
        AttentionKind::Standard => 2 * (spec.num_layers as nat) * (spec.num_kv_heads as nat) * (
        spec.head_dim as nat) * spec.dtype.width(),
        AttentionKind::Mla => (spec.num_layers as nat) * ((spec.kv_lora_rank
            + spec.qk_rope_head_dim) as nat) * spec.dtype.width(),
    }
}

/// Tokens of a sequence, at most as many as fit in 32 bits.
pub open spec fn sequence_tokens(input: EstimateInput) -> nat {
    let total = (input.input_tokens + input.output_tokens) as nat;
    if total > u32::MAX {
        u32::MAX as nat
    } else {
        total
    }
}

/// Tokens of a sequence that are kept: no more than the sliding window, when there is one.
pub open spec fn kept_tokens(spec: ModelSpec, input: EstimateInput) -> nat {
    if 0 < spec.sliding_window < sequence_tokens(input) {
        spec.sliding_window as nat
    } else {
        sequence_tokens(input)
    }
}

/// Number of sequences that are counted.
pub open spec fn sequences(input: EstimateInput) -> nat {
    if input.batch_size == 0 {
        1
    } else {
        input.batch_size as nat
    }
}

/// The least number of blocks of `size` that hold `tokens`.
pub open spec fn blocks_for(tokens: nat, size: nat) -> nat {
    (tokens / size) + if tokens % size == 0 {
        0nat
    } else {
        1nat
    }
}

/// Tokens that memory is set aside for, per sequence.
pub open spec fn padded_tokens(spec: ModelSpec, input: EstimateInput) -> nat {
    if input.block_size == 0 {
        kept_tokens(spec, input)
    } else {
        blocks_for(kept_tokens(spec, input), input.block_size as nat) * (input.block_size as nat)
    }
}

/// Blocks of the whole batch.
pub open spec fn batch_blocks(spec: ModelSpec, input: EstimateInput) -> nat {
    if input.block_size == 0 {
        0
    } else {
        blocks_for(kept_tokens(spec, input), input.block_size as nat) * sequences(input)
    }
}

/// Bytes of the whole batch.
pub open spec fn batch_bytes(spec: ModelSpec, input: EstimateInput) -> nat {
    token_bytes(spec) * sequences(input) * padded_tokens(spec, input)
}

/// The bytes of a token and of the batch fit in 64 bits.
pub open spec fn estimable(spec: ModelSpec, input: EstimateInput) -> bool {
    token_bytes(spec) <= u64::MAX && batch_bytes(spec, input) <= u64::MAX
}

/// What `input` needs with the architecture `spec`.
pub open spec fn needed(spec: ModelSpec, input: EstimateInput) -> KvEstimate {
    KvEstimate {
        bytes: batch_bytes(spec, input) as u64,
        blocks: batch_blocks(spec, input) as u64,
        per_token_bytes: token_bytes(spec) as u64,
        effective_seq_len: kept_tokens(spec, input) as u32,
        batch_size: sequences(input) as u32,
    }
}

/// Bytes of one token.
pub fn per_token_bytes(spec: &ModelSpec) -> (bytes: u64)
    requires
        token_bytes(*spec) <= u64::MAX,
    ensures
        bytes == token_bytes(*spec),
{
    let width: u128 = spec.dtype.bytes() as u128;
    let layers: u128 = spec.num_layers as u128;
    match spec.attention {
        AttentionKind::Standard => {
            let heads: u128 = spec.num_kv_heads as u128;
            let dim: u128 = spec.head_dim as u128;
            proof {
                lemma_product(2 * layers, heads as int, 0x2_0000_0000, 0x1_0000_0000);
                lemma_product(
                    2 * layers * heads,
                    dim as int,
                    0x2_0000_0000_0000_0000,
                    0x1_0000_0000,
                );
                lemma_product(
                    2 * layers * heads * dim,
                    width as int,
                    0x2_0000_0000_0000_0000_0000_0000,
                    4,
                );
            }
            (2 * layers * heads * dim * width) as u64
        },
        AttentionKind::Mla => {
            let latent: u128 = spec.kv_lora_rank as u128 + spec.qk_rope_head_dim as u128;
            proof {
                lemma_product(layers as int, latent as int, 0x1_0000_0000, 0x2_0000_0000);
                lemma_product(layers * latent, width as int, 0x2_0000_0000_0000_0000, 4);
            }
            (layers * latent * width) as u64
        },
    }
}

proof fn lemma_product(a: int, b: int, most_a: int, most_b: int)
    requires
        0 <= a <= most_a,
        0 <= b <= most_b,
    ensures
        0 <= a * b <= most_a * most_b,
{
    assert(0 <= a * b <= most_a * most_b) by (nonlinear_arith)
        requires
            0 <= a <= most_a,
            0 <= b <= most_b,
    ;
}

/// Bytes of a block of `block_size` tokens.
pub fn per_block_bytes(spec: &ModelSpec, block_size: u32) -> (bytes: u64)
    requires
        token_bytes(*spec) <= u64::MAX,
        token_bytes(*spec) * block_size <= u64::MAX,
    ensures
        bytes == token_bytes(*spec) * block_size,
{
    per_token_bytes(spec) * block_size as u64
}

fn div_ceil(a: u64, b: u64) -> (n: u64)
    requires
        b > 0,
    ensures
        n == blocks_for(a as nat, b as nat),
        n <= a,
{
    let whole: u64 = a / b;
    proof {
        assert(a == b * (a / b) + a % b && a / b <= a && (a % b != 0 ==> a / b < a)) by (
            nonlinear_arith)
            requires
                b > 0,
        ;
    }
    if a % b == 0 {
        whole
    } else {
        whole + 1
    }
}

/// What `input` needs with the architecture `spec`.
pub fn estimate_kv(spec: &ModelSpec, input: &EstimateInput) -> (estimate: KvEstimate)
    requires
        estimable(*spec, *input),
    ensures
        estimate.bytes == batch_bytes(*spec, *input),
        estimate.blocks == batch_blocks(*spec, *input),
        estimate.per_token_bytes == token_bytes(*spec),
        estimate.effective_seq_len == kept_tokens(*spec, *input),
        estimate.batch_size == sequences(*input),
        estimate == needed(*spec, *input),
{
    let per_token: u64 = per_token_bytes(spec);
    let seq_len: u32 = input.input_tokens.saturating_add(input.output_tokens);
    let effective: u32 = if spec.sliding_window > 0 && spec.sliding_window < seq_len {
        spec.sliding_window
    } else {
        seq_len
    };
    let batch: u32 = if input.batch_size == 0 {
        1
    } else {
        input.batch_size
    };
    let (padded, blocks): (u64, u64) = if input.block_size > 0 {
        let per_seq: u64 = div_ceil(effective as u64, input.block_size as u64);
        proof {
            lemma_product(per_seq as int, batch as int, 0xffff_ffff, 0xffff_ffff);
            lemma_product(per_seq as int, input.block_size as int, 0xffff_ffff, 0xffff_ffff);
        }
        (per_seq * input.block_size as u64, per_seq * batch as u64)
    } else {
        (effective as u64, 0)
    };
    let bytes: u64 = if padded == 0 {
        proof {
            assert((per_token as int * batch as int) * 0 == 0);
        }
        0
    } else {
        proof {
            let line = per_token as int * batch as int;
            assert(line <= line * padded && 0 <= line) by (nonlinear_arith)
                requires
                    padded >= 1,
                    line == per_token as int * batch as int,
            ;
        }
        per_token * batch as u64 * padded
    };
    KvEstimate {
        bytes,
        blocks,
        per_token_bytes: per_token,
        effective_seq_len: effective,
        batch_size: batch,
    }
}

/// Rounding up to blocks sets aside room for every token, and for less than one block more.
pub proof fn padding_adds_less_than_a_block(spec: ModelSpec, input: EstimateInput)
    ensures
        kept_tokens(spec, input) <= padded_tokens(spec, input),
        input.block_size > 0 ==> padded_tokens(spec, input) < kept_tokens(spec, input)
            + input.block_size,
{
    if input.block_size > 0 {
        let tokens = kept_tokens(spec, input);
        let size = input.block_size as nat;
        let n = blocks_for(tokens, size);
        assert(tokens <= n * size < tokens + size) by (nonlinear_arith)
            requires
                size > 0,
                n == (tokens / size) + if tokens % size == 0 {
                    0nat
                } else {
                    1nat
                },
        ;
    }
}

/// The bytes of a batch are those of one of its sequences, once for each.
pub proof fn bytes_grow_with_the_batch(spec: ModelSpec, input: EstimateInput)
    ensures
        batch_bytes(spec, input) == sequences(input) * batch_bytes(
            spec,
            EstimateInput { batch_size: 1, ..input },
        ),
{
    let one = EstimateInput { batch_size: 1, ..input };
    let token = token_bytes(spec);
    let n = sequences(input);
    let padded = padded_tokens(spec, input);
    assert(padded_tokens(spec, one) == padded);
    assert(token * n * padded == n * (token * 1 * padded)) by (nonlinear_arith);
}

/// The blocks of a batch, in bytes, are what is set aside for it.
pub proof fn blocks_hold_the_bytes(spec: ModelSpec, input: EstimateInput)
    requires
        input.block_size > 0,
    ensures
        batch_bytes(spec, input) == batch_blocks(spec, input) * (token_bytes(spec)
            * input.block_size),
{
    let token = token_bytes(spec);
    let n = sequences(input);
    let size = input.block_size as nat;
    let blocks = blocks_for(kept_tokens(spec, input), size);
    assert(token * n * (blocks * size) == (blocks * n) * (token * size)) by (nonlinear_arith);
}

/// A sliding window keeps the size of the cache from growing with the sequence.
pub proof fn a_window_caps_what_is_kept(spec: ModelSpec, input: EstimateInput)
    requires
        spec.sliding_window > 0,
    ensures
        kept_tokens(spec, input) <= spec.sliding_window,
{
}

/// Elements of one byte need half of what elements of two bytes need.
pub proof fn half_the_width_needs_half_the_bytes(spec: ModelSpec, input: EstimateInput)
    requires
        spec.dtype.width() == 2,
    ensures
        batch_bytes(spec, input) == 2 * batch_bytes(
            ModelSpec { dtype: crate::spec::KvDtype::Fp8, ..spec },
            input,
        ),
{
    let narrow = ModelSpec { dtype: crate::spec::KvDtype::Fp8, ..spec };
    let a = token_bytes(spec);
    let b = token_bytes(narrow);
    let n = sequences(input);
    let padded = padded_tokens(spec, input);
    assert(a == 2 * b) by {
        match spec.attention {
            AttentionKind::Standard => {
                let x = 2 * (spec.num_layers as nat) * (spec.num_kv_heads as nat) * (
                spec.head_dim as nat);
                assert(x * 2 == 2 * (x * 1)) by (nonlinear_arith);
            },
            AttentionKind::Mla => {
                let x = (spec.num_layers as nat) * ((spec.kv_lora_rank
                    + spec.qk_rope_head_dim) as nat);
                assert(x * 2 == 2 * (x * 1)) by (nonlinear_arith);
            },
        }
    }
    assert(padded_tokens(narrow, input) == padded);
    assert(a * n * padded == 2 * (b * n * padded)) by (nonlinear_arith)
        requires
            a == 2 * b,
    ;
}

/// Without a sliding window a sequence keeps all its tokens, prompt and generated, as far as 32 bits
/// count them; with one it keeps no more than the window, and all tokens that fit in it.
pub proof fn all_tokens_are_kept_up_to_the_window(spec: ModelSpec, input: EstimateInput)
    ensures
        ({
            let tokens = input.input_tokens + input.output_tokens;
            let kept = needed(spec, input).effective_seq_len;
            &&& kept <= tokens
            &&& spec.sliding_window == 0 && tokens <= u32::MAX ==> kept == tokens
            &&& spec.sliding_window == 0 && tokens > u32::MAX ==> kept == u32::MAX
            &&& spec.sliding_window > 0 ==> kept <= spec.sliding_window
            &&& spec.sliding_window > 0 && tokens <= spec.sliding_window ==> kept == tokens
            &&& spec.sliding_window > 0 && tokens >= spec.sliding_window ==> kept
                == spec.sliding_window
        }),
{
}

/// How many tokens a sequence keeps does not depend on the block size, on the number of sequences,
/// or on which of its tokens are generated; nor does the size of a token depend on the request.
pub proof fn what_is_kept_depends_on_the_sequence_alone(
    spec: ModelSpec,
    input: EstimateInput,
    other: EstimateInput,
)
    requires
        input.input_tokens + input.output_tokens == other.input_tokens + other.output_tokens,
    ensures
        needed(spec, input).effective_seq_len == needed(spec, other).effective_seq_len,
        needed(spec, input).per_token_bytes == needed(spec, other).per_token_bytes,
{
}

/// One sequence without block padding needs the bytes of a token for each token that it keeps, and
/// no block is counted. A batch of no sequences counts as one.
pub proof fn a_sequence_needs_its_tokens(spec: ModelSpec, input: EstimateInput)
    requires
        estimable(spec, input),
        input.block_size == 0,
    ensures
        needed(spec, input).blocks == 0,
        input.batch_size <= 1 ==> needed(spec, input).batch_size == 1,
        input.batch_size <= 1 ==> needed(spec, input).bytes == needed(spec, input).per_token_bytes
            * needed(spec, input).effective_seq_len,
{
    let token = token_bytes(spec);
    let kept = kept_tokens(spec, input);
    assert(token * 1 * kept == token * kept) by (nonlinear_arith);
}

/// The blocks of a sequence hold all tokens that it keeps, and one block less would not.
pub proof fn blocks_are_as_few_as_hold_the_tokens(spec: ModelSpec, input: EstimateInput)
    requires
        input.block_size > 0,
        input.batch_size == 1,
    ensures
        ({
            let kept = needed(spec, input).effective_seq_len;
            let blocks = needed(spec, input).blocks;
            &&& kept <= blocks * input.block_size
            &&& blocks > 0 ==> (blocks - 1) * input.block_size < kept
        }),
{
    let kept = kept_tokens(spec, input);
    let size = input.block_size as nat;
    let n = blocks_for(kept, size);
    assert(n <= kept && kept <= n * size && (n > 0 ==> (n - 1) * size < kept)) by (nonlinear_arith)
        requires
            size > 0,
            n == (kept / size) + if kept % size == 0 {
                0nat
            } else {
                1nat
            },
    ;
    assert(n * 1 == n);
}

/// A batch needs as many bytes and blocks as its sequences need one by one, and tells how many they
/// are.
pub proof fn a_batch_needs_what_its_sequences_need(spec: ModelSpec, input: EstimateInput)
    requires
        input.batch_size > 0,
        estimable(spec, input),
    ensures
        ({
            let one = needed(spec, EstimateInput { batch_size: 1, ..input });
            let all = needed(spec, input);
            &&& all.batch_size == input.batch_size
            &&& all.bytes == input.batch_size * one.bytes
            &&& all.blocks == input.batch_size * one.blocks
        }),
{
    let one = EstimateInput { batch_size: 1, ..input };
    bytes_grow_with_the_batch(spec, input);
    let n = input.batch_size as nat;
    let bytes = batch_bytes(spec, one);
    assert(bytes <= n * bytes) by (nonlinear_arith)
        requires
            n >= 1,
    ;
    let size = input.block_size as nat;
    if size > 0 {
        let kept = kept_tokens(spec, input);
        let blocks = blocks_for(kept, size);
        assert(blocks <= kept) by (nonlinear_arith)
            requires
                size > 0,
                blocks == (kept / size) + if kept % size == 0 {
                    0nat
                } else {
                    1nat
                },
        ;
        assert(blocks * n <= 0xffff_ffff * 0xffff_ffff) by (nonlinear_arith)
            requires
                blocks <= 0xffff_ffff,
                n <= 0xffff_ffff,
        ;
        assert(blocks * n == n * blocks) by (nonlinear_arith);
        assert(batch_blocks(spec, one) == blocks) by {
            assert(blocks * 1 == blocks);
        }
    } else {
        assert(n * 0 == 0);
    }
    assert(needed(spec, one).blocks == batch_blocks(spec, one));
    assert(needed(spec, one).bytes == bytes);
}

/// With a block size, a batch needs the bytes of its blocks, each of which holds as many tokens as
/// the block size says.
pub proof fn a_batch_needs_whole_blocks(spec: ModelSpec, input: EstimateInput)
    requires
        estimable(spec, input),
        input.block_size > 0,
    ensures
        needed(spec, input).bytes == needed(spec, input).blocks * (needed(
            spec,
            input,
        ).per_token_bytes * input.block_size),
{
    blocks_hold_the_bytes(spec, input);
    let kept = kept_tokens(spec, input);
    let size = input.block_size as nat;
    let n = sequences(input);
    let blocks = blocks_for(kept, size);
    assert(blocks <= kept) by (nonlinear_arith)
        requires
            size > 0,
            blocks == (kept / size) + if kept % size == 0 {
                0nat
            } else {
                1nat
            },
    ;
    assert(blocks * n <= 0xffff_ffff * 0xffff_ffff) by (nonlinear_arith)
        requires
            blocks <= 0xffff_ffff,
            n <= 0xffff_ffff,
    ;
}

/// The size of a token with standard attention grows evenly with the layers, with the heads, with
/// their dimension and with the width of an element, and is a key and a value of one element where
/// each of them is one. The dimensions of latent attention have no part in it.
pub proof fn a_token_keeps_a_key_and_a_value(spec: ModelSpec, other: ModelSpec, n: nat)
    requires
        spec.attention == AttentionKind::Standard,
        other.attention == AttentionKind::Standard,
    ensures
        spec.num_layers == 1 && spec.num_kv_heads == 1 && spec.head_dim == 1 ==> token_bytes(spec)
            == 2 * spec.dtype.width(),
        other.num_layers == n * spec.num_layers && other.num_kv_heads == spec.num_kv_heads
            && other.head_dim == spec.head_dim && other.dtype == spec.dtype ==> token_bytes(other)
            == n * token_bytes(spec),
        other.num_layers == spec.num_layers && other.num_kv_heads == n * spec.num_kv_heads
            && other.head_dim == spec.head_dim && other.dtype == spec.dtype ==> token_bytes(other)
            == n * token_bytes(spec),
        other.num_layers == spec.num_layers && other.num_kv_heads == spec.num_kv_heads
            && other.head_dim == n * spec.head_dim && other.dtype == spec.dtype ==> token_bytes(
            other,
        ) == n * token_bytes(spec),
        other.num_layers == spec.num_layers && other.num_kv_heads == spec.num_kv_heads
            && other.head_dim == spec.head_dim && other.dtype.width() == n * spec.dtype.width()
            ==> token_bytes(other) == n * token_bytes(spec),
{
    let l = spec.num_layers as nat;
    let h = spec.num_kv_heads as nat;
    let d = spec.head_dim as nat;
    let w = spec.dtype.width();
    assert(2 * (n * l) * h * d * w == n * (2 * l * h * d * w)) by (nonlinear_arith);
    assert(2 * l * (n * h) * d * w == n * (2 * l * h * d * w)) by (nonlinear_arith);
    assert(2 * l * h * (n * d) * w == n * (2 * l * h * d * w)) by (nonlinear_arith);
    assert(2 * l * h * d * (n * w) == n * (2 * l * h * d * w)) by (nonlinear_arith);
    assert(l == 1 && h == 1 && d == 1 ==> 2 * l * h * d * w == 2 * w) by (nonlinear_arith);
}

/// The size of a token with latent attention grows evenly with the layers and with the width of an
/// element; in each layer it is one latent and one decoupled key. Heads and their dimension have no
/// part in it.
pub proof fn a_token_keeps_a_latent_and_a_key(spec: ModelSpec, other: ModelSpec, n: nat)
    requires
        spec.attention == AttentionKind::Mla,
        other.attention == AttentionKind::Mla,
    ensures
        spec.num_layers == 1 ==> token_bytes(spec) == spec.kv_lora_rank * spec.dtype.width()
            + spec.qk_rope_head_dim * spec.dtype.width(),
        other.num_layers == n * spec.num_layers && other.kv_lora_rank == spec.kv_lora_rank
            && other.qk_rope_head_dim == spec.qk_rope_head_dim && other.dtype == spec.dtype
            ==> token_bytes(other) == n * token_bytes(spec),
{
    let l = spec.num_layers as nat;
    let r = spec.kv_lora_rank as nat;
    let k = spec.qk_rope_head_dim as nat;
    let w = spec.dtype.width();
    assert((n * l) * (r + k) * w == n * (l * (r + k) * w)) by (nonlinear_arith);
    assert(l == 1 ==> l * (r + k) * w == r * w + k * w) by (nonlinear_arith);
}

} // verus!
