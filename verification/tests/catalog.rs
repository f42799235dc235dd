//! The catalog of known models.

use hier_kv_gateway::catalog::{
    builtin_entries, builtin_name_map, builtin_specs_raw, contains_ascii_ci, lookup_builtin,
};
use hier_kv_gateway::spec::{AttentionKind, KvDtype};

#[test]
fn catalog_has_all_four_attention_families() {
    let families: Vec<_> = builtin_specs_raw()
        .iter()
        .map(|spec| spec.attention)
        .collect();
    assert!(families.contains(&AttentionKind::Standard));
    assert!(families.contains(&AttentionKind::Mla));
}

#[test]
fn catalog_has_sliding_window_models() {
    let any_sliding = builtin_specs_raw()
        .iter()
        .any(|spec| spec.sliding_window > 0);
    assert!(any_sliding);
}

#[test]
fn lookup_qwen_case_insensitive() {
    let s = lookup_builtin("Qwen2.5-7B-Instruct").unwrap();
    assert_eq!(s.num_layers, 28);
    assert_eq!(s.num_kv_heads, 4);
}

#[test]
fn lookup_deepseek_v3_is_mla() {
    let s = lookup_builtin("deepseek-v3").unwrap();
    assert_eq!(s.attention, AttentionKind::Mla);
    assert_eq!(s.num_layers, 61);
    assert_eq!(s.kv_lora_rank, 512);
}

#[test]
fn lookup_deepseek_r1_maps_to_v3_spec() {
    let s = lookup_builtin("DeepSeek-R1").unwrap();
    assert_eq!(s.attention, AttentionKind::Mla);
    assert_eq!(s.num_layers, 61);
}

#[test]
fn lookup_mistral_has_sliding_window() {
    let s = lookup_builtin("mistral-7b-v0.1").unwrap();
    assert_eq!(s.sliding_window, 4096);
}

#[test]
fn lookup_llama2_7b_is_mha() {
    // Llama-2-7B: 32 kv_heads (== 32 query heads) => MHA
    let s = lookup_builtin("meta-llama/Llama-2-7b-hf").unwrap();
    assert_eq!(s.num_kv_heads, 32);
    assert_eq!(s.num_layers, 32);
}

#[test]
fn lookup_llama3_8b_is_gqa() {
    let s = lookup_builtin("Llama-3-8B").unwrap();
    assert_eq!(s.num_kv_heads, 8);
    assert_eq!(s.num_layers, 32);
}

#[test]
fn lookup_unknown_returns_none() {
    assert!(lookup_builtin("totally-unknown-model").is_none());
}

#[test]
fn lookup_specific_before_generic() {
    // "llama-3.1-405b" must resolve to the 405B spec (126 layers), not
    // the 8B spec that "llama-3" would match.
    let s = lookup_builtin("llama-3.1-405b").unwrap();
    assert_eq!(s.num_layers, 126);
}

#[test]
fn lookup_chatglm3() {
    let s = lookup_builtin("chatglm3-6b").unwrap();
    assert_eq!(s.num_kv_heads, 2);
    assert_eq!(s.num_layers, 28);
}

#[test]
fn all_name_map_indices_in_bounds() {
    for &(_, idx) in builtin_name_map() {
        assert!(idx < builtin_specs_raw().len(), "index {idx} out of bounds");
    }
}

#[test]
fn builtin_entries_non_empty() {
    assert!(builtin_entries().len() > 0);
}

#[test]
fn contains_ascii_ci_basic() {
    assert!(contains_ascii_ci("Qwen2.5-7B-Instruct", "qwen2.5-7b"));
    assert!(contains_ascii_ci("Llama-3-8B", "llama-3-8b"));
    assert!(!contains_ascii_ci("Llama-3-8B", "qwen"));
}

#[test]
fn contains_ascii_ci_empty_needle_matches() {
    assert!(contains_ascii_ci("anything", ""));
    assert!(contains_ascii_ci("", ""));
}

#[test]
fn contains_ascii_ci_needle_longer_than_haystack() {
    assert!(!contains_ascii_ci("ab", "abcd"));
}

#[test]
fn contains_ascii_ci_full_haystack_match() {
    assert!(contains_ascii_ci("DEEPSEEK-V3", "deepseek-v3"));
    assert!(contains_ascii_ci("deepseek-v3", "deepseek-v3"));
}

#[test]
fn contains_ascii_ci_non_ascii_passthrough() {
    // Non-ASCII bytes are left untouched (only A..=Z lowercased). A pattern
    // with non-ascii still compares by raw byte equality on those positions.
    assert!(contains_ascii_ci("模型-qwen2.5-7b", "qwen2.5-7b"));
}

#[test]
fn lookup_returns_independent_copy() {
    // ModelSpec is Copy; mutating one returned copy must not affect a
    // subsequent lookup (no shared interior state).
    let mut a = lookup_builtin("Llama-3-8B").unwrap();
    a.num_layers = 999;
    // The local copy reflects the mutation...
    assert_eq!(a.num_layers, 999);
    // ...but a fresh lookup is unaffected.
    let b = lookup_builtin("Llama-3-8B").unwrap();
    assert_eq!(b.num_layers, 32, "lookup must return a fresh copy");
}

#[test]
fn builtin_specs_use_expected_dtypes() {
    // Spot-check a couple to guard against transcription drift.
    let llama2 = lookup_builtin("Llama-2-7B").unwrap();
    assert_eq!(llama2.dtype, KvDtype::Fp16);
    let llama3 = lookup_builtin("Llama-3-8B").unwrap();
    assert_eq!(llama3.dtype, KvDtype::Bf16);
}

#[test]
fn every_pattern_finds_its_own_architecture() {
    for (pattern, spec) in builtin_entries() {
        assert!(!pattern.is_empty());
        assert!(!pattern.chars().any(|c| c.is_ascii_uppercase()));
        assert_eq!(lookup_builtin(pattern), Some(spec));
        assert!(builtin_specs_raw().contains(&spec));
    }
}
