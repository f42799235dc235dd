//! The size of a KV cache.

use hier_kv_gateway::estimate::{estimate_kv, per_block_bytes, per_token_bytes, EstimateInput};
use hier_kv_gateway::spec::{KvDtype, ModelSpec};

/// 32 layers, 8 KV heads, head dimension 128, two bytes: 128 KiB a token.
fn llama3_8b() -> ModelSpec {
    ModelSpec::standard(32, 8, 128, KvDtype::Bf16)
}

#[test]
fn per_token_bytes_standard_gqa() {
    // 2 * 32 * 8 * 128 * 2 = 131_072
    assert_eq!(per_token_bytes(&llama3_8b()), 131_072);
}

#[test]
fn per_token_bytes_mha_equals_gqa_with_full_heads() {
    // Llama-2-7B is MHA: 32 layers, 32 kv_heads, head_dim 128, fp16.
    let mha = ModelSpec::standard(32, 32, 128, KvDtype::Fp16);
    // 2 * 32 * 32 * 128 * 2 = 524_288
    assert_eq!(per_token_bytes(&mha), 524_288);
}

#[test]
fn per_token_bytes_mla_deepseek_v3() {
    // 61 layers, kv_lora_rank 512, qk_rope_head_dim 64, bf16.
    // 61 * (512 + 64) * 2 = 70_272
    let v3 = ModelSpec::mla(61, 512, 64, KvDtype::Bf16);
    assert_eq!(per_token_bytes(&v3), 70_272);
}

#[test]
fn mla_much_smaller_than_equivalent_full_kv() {
    // A hypothetical full-K/V DeepSeek-V3 (128 KV heads * 128 head_dim):
    let full = ModelSpec::standard(61, 128, 128, KvDtype::Bf16);
    let mla = ModelSpec::mla(61, 512, 64, KvDtype::Bf16);
    let ratio = per_token_bytes(&full) as f64 / per_token_bytes(&mla) as f64;
    // MLA should be >50× smaller — the headline DeepSeek-V2/V3 claim.
    assert!(ratio > 50.0, "MLA compression ratio {ratio} too small");
}

#[test]
fn estimate_basic_no_padding() {
    // 4096 tokens, batch 1, no block padding.
    let est = estimate_kv(&llama3_8b(), &EstimateInput::new(4096, 0));
    // 131_072 B/token * 4096 tokens = 536_870_912 B = 512 MiB
    assert_eq!(est.bytes, 131_072 * 4096);
    assert_eq!(est.blocks, 0);
    assert_eq!(est.effective_seq_len, 4096);
    assert!((est.bytes as f64 / (1024.0 * 1024.0) - 512.0).abs() < 1e-6);
}

#[test]
fn estimate_batch_scales_linearly() {
    let one = estimate_kv(&llama3_8b(), &EstimateInput::new(1024, 0).with_batch(1));
    let eight = estimate_kv(&llama3_8b(), &EstimateInput::new(1024, 0).with_batch(8));
    assert_eq!(eight.bytes, one.bytes * 8);
    assert_eq!(eight.batch_size, 8);
}

#[test]
fn estimate_block_padding_rounds_up() {
    // block_size 16, 4097 tokens -> 257 blocks/seq, padded to 4112 tokens.
    let est = estimate_kv(
        &llama3_8b(),
        &EstimateInput::new(4097, 0).with_block_size(16),
    );
    assert_eq!(est.blocks, 257); // ceil(4097/16) = 257
    assert_eq!(est.bytes, 131_072 * 257 * 16);
    assert_eq!(est.effective_seq_len, 4097);
}

#[test]
fn estimate_block_padding_exact_multiple() {
    // 4096 tokens, block_size 16 -> 256 blocks, no padding overhead.
    let est = estimate_kv(
        &llama3_8b(),
        &EstimateInput::new(4096, 0).with_block_size(16),
    );
    assert_eq!(est.blocks, 256);
    assert_eq!(est.bytes, 131_072 * 4096);
}

#[test]
fn estimate_block_padding_with_batch() {
    // batch 4, 100 tokens, block_size 16 -> ceil(100/16)=7 blocks/seq
    // -> 7*4 = 28 blocks total.
    let est = estimate_kv(
        &llama3_8b(),
        &EstimateInput::new(100, 0).with_batch(4).with_block_size(16),
    );
    assert_eq!(est.blocks, 28);
}

#[test]
fn estimate_input_plus_output() {
    let est = estimate_kv(&llama3_8b(), &EstimateInput::new(1000, 500));
    assert_eq!(est.effective_seq_len, 1500);
    assert_eq!(est.bytes, 131_072 * 1500);
}

#[test]
fn sliding_window_caps_effective_length() {
    // Mistral-7B-style: sliding_window 4096. A 8192-token request only
    // caches the last 4096.
    let spec = llama3_8b().with_sliding_window(4096);
    let est = estimate_kv(&spec, &EstimateInput::new(8192, 0));
    assert_eq!(est.effective_seq_len, 4096);
    assert_eq!(est.bytes, 131_072 * 4096);
}

#[test]
fn sliding_window_no_effect_below_window() {
    let spec = llama3_8b().with_sliding_window(4096);
    let est = estimate_kv(&spec, &EstimateInput::new(2048, 0));
    assert_eq!(est.effective_seq_len, 2048);
}

#[test]
fn fp8_halves_footprint() {
    let bf16 = ModelSpec::standard(32, 8, 128, KvDtype::Bf16);
    let fp8 = ModelSpec::standard(32, 8, 128, KvDtype::Fp8);
    let e_bf16 = estimate_kv(&bf16, &EstimateInput::new(4096, 0));
    let e_fp8 = estimate_kv(&fp8, &EstimateInput::new(4096, 0));
    assert_eq!(e_fp8.bytes * 2, e_bf16.bytes);
}

#[test]
fn zero_batch_treated_as_one() {
    let est = estimate_kv(&llama3_8b(), &EstimateInput {
        batch_size: 0,
        input_tokens: 16,
        output_tokens: 0,
        block_size: 0,
    });
    assert_eq!(est.batch_size, 1);
    assert_eq!(est.bytes, 131_072 * 16);
}

#[test]
fn mla_estimate_uses_latent_formula() {
    let v3 = ModelSpec::mla(61, 512, 64, KvDtype::Bf16);
    let est = estimate_kv(&v3, &EstimateInput::new(4096, 0));
    // 70_272 B/token * 4096 tokens = 287_834_112 B
    assert_eq!(est.bytes, 70_272 * 4096);
    assert_eq!(est.per_token_bytes, 70_272);
}

#[test]
fn mla_block_padding_correct() {
    let v3 = ModelSpec::mla(61, 512, 64, KvDtype::Bf16);
    let est = estimate_kv(&v3, &EstimateInput::new(4097, 0).with_block_size(16));
    assert_eq!(est.blocks, 257);
    // per_token * batch * padded_per_seq = 70_272 * 1 * (257*16)
    assert_eq!(est.bytes, 70_272 * 257 * 16);
}

#[test]
fn saturating_add_for_huge_inputs() {
    // input + output must not panic on overflow.
    let est = estimate_kv(
        &llama3_8b(),
        &EstimateInput::new(u32::MAX, u32::MAX),
    );
    assert_eq!(est.effective_seq_len, u32::MAX);
}

#[test]
fn per_block_bytes_helper() {
    assert_eq!(per_block_bytes(&llama3_8b(), 16), 131_072 * 16);
    assert_eq!(per_block_bytes(&llama3_8b(), 0), 0);
}
