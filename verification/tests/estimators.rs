//! Estimators and the registry that chooses among them.

use std::sync::Arc;

use hier_kv_gateway::estimate::{estimate_kv, EstimateInput, KvEstimate};
use hier_kv_gateway::estimation_registry::KvEstimationRegistry;
use hier_kv_gateway::plugin::{KvEstimator, SpecCatalog, StandardEstimator};
use hier_kv_gateway::spec::{KvDtype, ModelSpec};

struct FixedEstimator;
impl KvEstimator for FixedEstimator {
    fn name(&self) -> &str {
        "fixed"
    }
    fn spec_for(&self, model: &str) -> Option<ModelSpec> {
        if model == "fixed-model" {
            Some(ModelSpec::standard(1, 1, 1, KvDtype::Fp8))
        } else {
            None
        }
    }
    fn estimate(&self, spec: &ModelSpec, input: &EstimateInput) -> KvEstimate {
        // Custom formula: return a fixed sentinel (1 byte) regardless of
        // the standard formula, to prove the plugin's estimate is used.
        let _ = (spec, input);
        KvEstimate {
            bytes: 1,
            blocks: 0,
            per_token_bytes: 1,
            effective_seq_len: 0,
            batch_size: 1,
        }
    }
}

#[test]
fn standard_estimator_resolves_builtin() {
    let est = StandardEstimator::with_builtins();
    let spec = est.spec_for("Qwen2.5-7B").unwrap();
    assert_eq!(spec.num_layers, 28);
}

#[test]
fn standard_estimator_unknown_is_none() {
    let est = StandardEstimator::with_builtins();
    assert!(est.spec_for("no-such-model").is_none());
}

#[test]
fn standard_estimator_uses_formula() {
    let est = StandardEstimator::with_builtins();
    let spec = est.spec_for("Llama-3-8B").unwrap();
    let r = est.estimate(&spec, &EstimateInput::new(4096, 0));
    // 131_072 B/token * 4096 = 536_870_912
    assert_eq!(r.bytes, 536_870_912);
}

#[test]
fn custom_spec_overrides_builtin() {
    let custom = ModelSpec::standard(99, 4, 128, KvDtype::Bf16);
    let est = StandardEstimator::with_catalog(SpecCatalog::new().insert("Qwen2.5-7B", custom));
    let spec = est.spec_for("Qwen2.5-7B").unwrap();
    assert_eq!(spec.num_layers, 99); // custom wins over builtin's 28
}

#[test]
fn custom_spec_added_for_unknown_model() {
    let custom = ModelSpec::standard(20, 4, 96, KvDtype::Fp16);
    let est =
        StandardEstimator::with_catalog(SpecCatalog::new().insert("my-private-model", custom));
    let spec = est.spec_for("my-private-model").unwrap();
    assert_eq!(spec.num_layers, 20);
}

#[test]
fn catalog_from_specs_builder() {
    let specs = vec![
        ("a".to_string(), ModelSpec::standard(1, 1, 1, KvDtype::Fp16)),
        ("b".to_string(), ModelSpec::standard(2, 2, 2, KvDtype::Bf16)),
    ];
    let cat = SpecCatalog::from_specs(specs);
    assert_eq!(cat.custom_len(), 2);
    assert_eq!(cat.lookup("a").unwrap().num_layers, 1);
    // builtin still reachable for non-custom names
    assert!(cat.lookup("Qwen2.5-7B").is_some());
}

#[test]
fn from_specs_later_entry_overrides() {
    let specs = vec![
        ("m".to_string(), ModelSpec::standard(10, 1, 1, KvDtype::Fp16)),
        ("m".to_string(), ModelSpec::standard(20, 1, 1, KvDtype::Fp16)),
    ];
    let cat = SpecCatalog::from_specs(specs);
    assert_eq!(cat.lookup("m").unwrap().num_layers, 20);
}

#[test]
fn insert_replaces_existing_custom() {
    let cat = SpecCatalog::new()
        .insert("m", ModelSpec::standard(10, 1, 1, KvDtype::Fp16))
        .insert("m", ModelSpec::standard(30, 1, 1, KvDtype::Fp16));
    assert_eq!(cat.lookup("m").unwrap().num_layers, 30);
}

#[test]
fn estimator_name() {
    let est = StandardEstimator::with_builtins();
    assert_eq!(est.name(), "standard");
}

#[test]
fn standard_estimator_clone_is_cheap() {
    let est = StandardEstimator::with_builtins();
    let _cloned = est.clone();
    // Just asserting clone compiles and runs; the Arc makes it cheap.
}

#[test]
fn catalog_lookup_returns_copy_no_aliasing() {
    let cat = SpecCatalog::new().insert("m", ModelSpec::standard(32, 8, 128, KvDtype::Bf16));
    let mut a = cat.lookup("m").unwrap();
    a.num_layers = 999;
    // Local copy reflects the mutation...
    assert_eq!(a.num_layers, 999);
    // ...but a fresh lookup is unaffected.
    let b = cat.lookup("m").unwrap();
    assert_eq!(b.num_layers, 32, "lookup returns an independent copy");
}

#[test]
fn registry_resolves_builtin() {
    let r = KvEstimationRegistry::with_builtins();
    let spec = r.spec_for("Llama-3-8B").unwrap();
    assert_eq!(spec.num_layers, 32);
}

#[test]
fn registry_estimate_builtin() {
    let r = KvEstimationRegistry::with_builtins();
    let est = r.estimate("Llama-3-8B", &EstimateInput::new(4096, 0)).unwrap();
    assert_eq!(est.bytes, 536_870_912);
}

#[test]
fn registry_unknown_model_returns_none() {
    let r = KvEstimationRegistry::with_builtins();
    assert!(r.spec_for("nope").is_none());
    assert!(r.estimate("nope", &EstimateInput::new(16, 0)).is_none());
}

#[test]
fn registry_custom_catalog_overrides_builtin() {
    let custom = ModelSpec::standard(99, 4, 128, KvDtype::Bf16);
    let r = KvEstimationRegistry::with_catalog(SpecCatalog::new().insert("Qwen2.5-7B", custom));
    let spec = r.spec_for("Qwen2.5-7B").unwrap();
    assert_eq!(spec.num_layers, 99);
}

#[test]
fn user_plugin_estimator_is_used_for_its_models() {
    let r = KvEstimationRegistry::with_builtins()
        .with_estimator(Arc::new(FixedEstimator));
    assert_eq!(r.estimator_count(), 2);
    let est = r.estimate("fixed-model", &EstimateInput::new(999, 999)).unwrap();
    // Plugin's custom estimate (1) wins over the standard formula.
    assert_eq!(est.bytes, 1);
}

#[test]
fn user_plugin_does_not_shadow_builtin_for_other_models() {
    let r = KvEstimationRegistry::with_builtins()
        .with_estimator(Arc::new(FixedEstimator));
    let est = r.estimate("Llama-3-8B", &EstimateInput::new(4096, 0)).unwrap();
    // Standard formula, not the plugin's sentinel.
    assert_eq!(est.bytes, 536_870_912);
}

#[test]
fn front_plugin_overrides_builtin() {
    struct OverrideLlama;
    impl KvEstimator for OverrideLlama {
        fn name(&self) -> &str {
            "override"
        }
        fn spec_for(&self, m: &str) -> Option<ModelSpec> {
            if m.contains("Llama-3-8B") {
                Some(ModelSpec::standard(7, 8, 128, KvDtype::Bf16))
            } else {
                None
            }
        }
        fn estimate(&self, spec: &ModelSpec, input: &EstimateInput) -> KvEstimate {
            estimate_kv(spec, input)
        }
    }
    let r = KvEstimationRegistry::with_builtins()
        .with_estimator_front(Arc::new(OverrideLlama));
    let spec = r.spec_for("Llama-3-8B").unwrap();
    assert_eq!(spec.num_layers, 7); // front plugin's 7, not builtin's 32
}

#[test]
fn registry_clone_shares_arc() {
    let r = KvEstimationRegistry::with_builtins();
    let _r2 = r.clone();
    assert_eq!(r.estimator_count(), _r2.estimator_count());
}

#[test]
fn a_last_estimator_answers_where_the_others_do_not() {
    let before = KvEstimationRegistry::with_builtins();
    assert!(before.estimate("fixed-model", &EstimateInput::new(5, 0)).is_none());
    let after = before.with_estimator(Arc::new(FixedEstimator));
    assert_eq!(after.estimate("fixed-model", &EstimateInput::new(5, 0)).unwrap().bytes, 1);
    assert!(after.spec_for("fixed-model").is_some());
}

#[test]
fn a_first_estimator_leaves_other_models_alone() {
    let input = EstimateInput::new(4096, 0);
    let before = KvEstimationRegistry::with_builtins();
    let spec = before.spec_for("Llama-3-8B");
    let bytes = before.estimate("Llama-3-8B", &input).map(|e| e.bytes);
    let after = before.with_estimator_front(Arc::new(FixedEstimator));
    assert_eq!(after.spec_for("Llama-3-8B"), spec);
    assert_eq!(after.estimate("Llama-3-8B", &input).map(|e| e.bytes), bytes);
    assert!(after.spec_for("nope").is_none());
}
