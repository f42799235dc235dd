//! Which connector serves which backend.

use hier_kv_gateway::backend::{BackendType, Endpoint, Protocol};
use hier_kv_gateway::config::{BackendConfig, ForwardingConfig};
use hier_kv_gateway::connector_registry::{ConnectorPlan, ConnectorRegistry};
use hier_kv_gateway::ids::{BackendId, BackendInstanceId, RegionId};
use hier_kv_gateway::openai_compat::ConnectorProfile;

fn test_connector(url: &str, instance: &str) -> ConnectorProfile {
    ConnectorProfile::new(
        url,
        BackendType::VllmEngine,
        RegionId::new("test"),
        BackendInstanceId::new(instance),
        vec!["test-model".to_string()],
        16,
    )
}

fn configured(backend_type: BackendType, url: &str, region: &str, model: &str) -> BackendConfig {
    let protocol = if url.starts_with("nats") {
        Protocol::Nats
    } else {
        Protocol::Http
    };
    BackendConfig {
        backend_type,
        endpoint: Endpoint {
            url: url.to_string(),
            protocol,
        },
        models: vec![model.to_string()],
        region: RegionId::new(region),
        kv_block_size: 16,
        quantization: None,
    }
}

#[test]
fn registry_get_after_register() {
    let mut registry = ConnectorRegistry::new();
    let connector = test_connector("http://localhost:8080", "instance-1");
    let id = connector.backend_id();
    registry.register(&id, connector.backend_type);
    assert!(registry.get(&id).is_some());
    assert!(registry
        .get(&BackendId::new("test", "instance-2"))
        .is_none());
}

#[test]
fn registry_keeps_same_type_backends_distinct() {
    // Two vLLM replicas must not overwrite each other.
    let mut registry = ConnectorRegistry::new();
    let a = test_connector("http://localhost:8080", "instance-a");
    let b = test_connector("http://localhost:8081", "instance-b");
    let id_a = a.backend_id();
    let id_b = b.backend_id();
    registry.register(&id_a, a.backend_type);
    registry.register(&id_b, b.backend_type);
    assert!(registry.get(&id_a).is_some());
    assert!(registry.get(&id_b).is_some());
    assert_ne!(registry.get(&id_a), registry.get(&id_b));
    assert_eq!(registry.registered_types().len(), 1);
}

#[test]
fn alias_makes_discovered_backend_addressable() {
    let mut registry = ConnectorRegistry::new();
    let connector = test_connector("http://localhost:8080", "front-end");
    let slot = registry.register(&connector.backend_id(), connector.backend_type);
    let alias = BackendId::new("test", "worker-behind-front-end");
    assert!(registry.get(&alias).is_none());
    registry.register_alias(&alias, slot);
    assert!(registry.get(&alias).is_some());
    // Aliases do not replace an existing registration.
    let other = test_connector("http://localhost:8081", "worker-behind-front-end");
    let other_slot = registry.register(&other.backend_id(), other.backend_type);
    registry.register_alias(&alias, slot);
    let resolved = registry.get(&alias).unwrap();
    assert_eq!(resolved, other_slot);
    assert_eq!(
        [connector, other][resolved].backend_id().instance.as_str(),
        "worker-behind-front-end"
    );
}

#[test]
fn from_configs_creates_connectors() {
    let configs = vec![configured(
        BackendType::VllmEngine,
        "http://localhost:8000",
        "edge-1",
        "qwen2.5-7b",
    )];
    let (registry, _) = ConnectorRegistry::from_configs(
        &configs,
        &RegionId::new("edge-1"),
        &ForwardingConfig::default(),
    );
    assert!(registry
        .get(&BackendId::new("edge-1", "localhost:8000"))
        .is_some());
    assert_eq!(registry.registered_types().len(), 1);
}

#[test]
fn from_configs_keeps_same_type_backends_distinct() {
    let mk = |url: &str| configured(BackendType::VllmEngine, url, "edge-1", "qwen2.5-7b");
    let configs = vec![mk("http://10.0.0.1:8000"), mk("http://10.0.0.2:8000")];
    let (registry, _) = ConnectorRegistry::from_configs(
        &configs,
        &RegionId::new("edge-1"),
        &ForwardingConfig::default(),
    );
    assert!(registry
        .get(&BackendId::new("edge-1", "10.0.0.1:8000"))
        .is_some());
    assert!(registry
        .get(&BackendId::new("edge-1", "10.0.0.2:8000"))
        .is_some());
}

#[test]
fn from_configs_creates_sglang_connector() {
    let configs = vec![configured(
        BackendType::SglangEngine,
        "http://localhost:30000",
        "edge-1",
        "qwen2.5-7b",
    )];
    let (registry, plans) = ConnectorRegistry::from_configs(
        &configs,
        &RegionId::new("edge-1"),
        &ForwardingConfig::default(),
    );
    let slot = registry
        .get(&BackendId::new("edge-1", "localhost:30000"))
        .expect("sglang connector registered");
    assert!(matches!(plans[slot], ConnectorPlan::Sglang(_)));
    assert_eq!(plans[slot].backend_type(), BackendType::SglangEngine);
    assert!(!plans[slot].supports_kv_events());
}

#[test]
fn from_configs_creates_dynamo_connector() {
    let configs = vec![configured(
        BackendType::DynamoEngine,
        "nats://localhost:4222",
        "cloud-1",
        "llama-3.1-8b",
    )];
    let (registry, plans) = ConnectorRegistry::from_configs(
        &configs,
        &RegionId::new("cloud-1"),
        &ForwardingConfig::default(),
    );
    let slot = registry
        .get(&BackendId::new("cloud-1", "localhost:4222"))
        .unwrap();
    assert!(plans[slot].supports_kv_events());
    assert_eq!(registry.registered_types().len(), 1);
}

#[test]
fn backend_type_is_sglang() {
    let c = ConnectorPlan::Sglang(ConnectorProfile::new(
        "http://localhost:30000",
        BackendType::SglangEngine,
        RegionId::new("edge-1"),
        BackendInstanceId::new("sglang-0"),
        vec!["qwen2.5-7b".to_string()],
        16,
    ));
    assert_eq!(c.backend_type(), BackendType::SglangEngine);
    assert_eq!(c.backend_id(), BackendId::new("edge-1", "sglang-0"));
    assert!(!c.supports_kv_events());
}

#[test]
fn stub_connector_can_be_constructed() {
    let configs = vec![configured(
        BackendType::DynamoEngine,
        "http://localhost:8000",
        "r1",
        "m",
    )];
    let (_, plans) = ConnectorRegistry::from_configs(
        &configs,
        &RegionId::new("r1"),
        &ForwardingConfig::default(),
    );
    assert_eq!(plans[0].backend_type(), BackendType::DynamoEngine);
    assert_eq!(plans[0].backend_id(), BackendId::new("r1", "localhost:8000"));
}

#[test]
fn a_later_registration_replaces_an_earlier_one() {
    let mut registry = ConnectorRegistry::default();
    let id = BackendId::new("r1", "i1");
    let first = registry.register(&id, BackendType::VllmEngine);
    let second = registry.register(&id, BackendType::SglangEngine);
    assert_ne!(first, second);
    assert_eq!(registry.get(&id), Some(second));
    assert_eq!(registry.all(), vec![second]);
    assert_eq!(registry.registered_types(), vec![BackendType::SglangEngine]);
}

#[test]
fn connectors_are_listed_once_and_types_by_name() {
    let mut registry = ConnectorRegistry::new();
    let v = registry.register(&BackendId::new("r1", "v"), BackendType::VllmEngine);
    let g = registry.register(&BackendId::new("r1", "g"), BackendType::GenericOpenAI);
    registry.register_alias(&BackendId::new("r1", "v2"), v);
    registry.register_alias(&BackendId::new("r1", "v3"), v);
    assert_eq!(registry.all(), vec![v, g]);
    assert_eq!(
        registry.registered_types(),
        vec![BackendType::GenericOpenAI, BackendType::VllmEngine]
    );
}

#[test]
fn a_connector_that_serves_only_another_backend() {
    let mut registry = ConnectorRegistry::new();
    let anchor = BackendId::new("r1", "front");
    let slot = registry.connect(&anchor, BackendType::DynamoEngine);
    assert_eq!(registry.get(&anchor), None);
    assert!(registry.all().is_empty());
    let served = BackendId::new("r1", "worker");
    registry.register_alias(&served, slot);
    assert_eq!(registry.get(&served), Some(slot));
    assert_eq!(registry.get(&anchor), None);
    assert_eq!(registry.all(), vec![slot]);
}
