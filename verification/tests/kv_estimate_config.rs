//! Configuration of the estimation.

use hier_kv_gateway::kv_estimate_config::KvEstimateConfig;
use hier_kv_gateway::metrics::RealBits;
use hier_kv_gateway::spec::{KvDtype, ModelSpec, NamedModelSpec};

fn number(bits: RealBits) -> f64 {
    f64::from_bits(bits.0)
}

fn bits(value: f64) -> RealBits {
    RealBits(value.to_bits())
}

#[test]
fn config_default_is_off() {
    let c = KvEstimateConfig::default();
    assert!(!c.enabled);
    assert!((number(c.weight) - 0.20).abs() < 1e-9);
    assert!((number(c.gpu_mem_safety_fraction) - 0.5).abs() < 1e-9);
    assert!(!c.exclude_on_unknown_spec);
    assert!(c.models.is_empty());
    assert!(!c.active());
}

#[test]
fn build_catalog_layers_custom_over_builtin() {
    let cfg = KvEstimateConfig {
        enabled: true,
        weight: bits(0.2),
        gpu_mem_safety_fraction: bits(0.5),
        exclude_on_unknown_spec: false,
        models: vec![NamedModelSpec::new(
            "Qwen2.5-7B",
            ModelSpec::standard(99, 4, 128, KvDtype::Bf16),
        )],
    };
    let cat = cfg.build_catalog();
    let s = cat.lookup("Qwen2.5-7B").unwrap();
    assert_eq!(s.num_layers, 99); // custom overrides builtin's 28
    // builtin still reachable for other names
    assert!(cat.lookup("Llama-3-8B").is_some());
}

#[test]
fn custom_specs_iterator_pairs_name_and_spec() {
    let cfg = KvEstimateConfig {
        enabled: true,
        weight: bits(0.2),
        gpu_mem_safety_fraction: bits(0.5),
        exclude_on_unknown_spec: false,
        models: vec![
            NamedModelSpec::new("a", ModelSpec::standard(1, 1, 1, KvDtype::Fp16)),
            NamedModelSpec::new("b", ModelSpec::standard(2, 2, 2, KvDtype::Bf16)),
        ],
    };
    let pairs: Vec<_> = cfg.custom_specs();
    assert_eq!(pairs.len(), 2);
    assert_eq!(pairs[0].0, "a");
    assert_eq!(pairs[0].1.num_layers, 1);
    assert_eq!(pairs[1].0, "b");
}
