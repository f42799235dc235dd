//! Specs of models.

use hier_kv_gateway::spec::{AttentionKind, KvDtype, ModelSpec};

#[test]
fn dtype_bytes() {
    assert_eq!(KvDtype::Fp32.bytes(), 4);
    assert_eq!(KvDtype::Fp16.bytes(), 2);
    assert_eq!(KvDtype::Bf16.bytes(), 2);
    assert_eq!(KvDtype::Fp8.bytes(), 1);
    assert_eq!(KvDtype::Int8.bytes(), 1);
}

#[test]
fn standard_builder_sets_defaults() {
    let s = ModelSpec::standard(32, 8, 128, KvDtype::Bf16);
    assert_eq!(s.num_layers, 32);
    assert_eq!(s.num_kv_heads, 8);
    assert_eq!(s.attention, AttentionKind::Standard);
    assert_eq!(s.sliding_window, 0);
    assert_eq!(s.kv_lora_rank, 0);
}

#[test]
fn mla_builder_zeroes_standard_fields() {
    let s = ModelSpec::mla(61, 512, 64, KvDtype::Bf16);
    assert_eq!(s.attention, AttentionKind::Mla);
    assert_eq!(s.num_kv_heads, 0);
    assert_eq!(s.head_dim, 0);
    assert_eq!(s.kv_lora_rank, 512);
    assert_eq!(s.qk_rope_head_dim, 64);
}

#[test]
fn model_spec_is_copy_and_clone() {
    let s = ModelSpec::standard(32, 8, 128, KvDtype::Bf16);
    let copied = s; // Copy
    let cloned = s; // Copy again
    assert_eq!(s, copied);
    assert_eq!(s, cloned);
    // const builder with sliding window
    let w = ModelSpec::standard(32, 8, 128, KvDtype::Bf16).with_sliding_window(4096);
    assert_eq!(w.sliding_window, 4096);
}

#[test]
fn spec_default_is_empty_standard_bf16() {
    let s = ModelSpec::default();
    assert_eq!(s.attention, AttentionKind::Standard);
    assert_eq!(s.dtype, KvDtype::Bf16);
    assert_eq!(s.num_layers, 0);
}
