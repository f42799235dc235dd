//! Metrics, tenants, tiers, prices and topology.

use hier_kv_gateway::coalescing::CoalescingConfig;
use hier_kv_gateway::cost::{CostConfig, CostModel, PriceEntry, StaticCostModel};
use hier_kv_gateway::ids::{RegionId, TenantId};
use hier_kv_gateway::metrics::{BackendMetrics, LatencyStats, RealBits};
use hier_kv_gateway::model_tier::{ModelTierConfig, TierRoutingPolicy};
use hier_kv_gateway::request::RoutingContext;
use hier_kv_gateway::tenant::{TenantPriority, TenantQuota, TenantState};
use hier_kv_gateway::topology::{LatencyEstimate, LatencyMatrix, RttSource};

fn number(bits: RealBits) -> f64 {
    f64::from_bits(bits.0)
}

fn bits(value: f64) -> RealBits {
    RealBits(value.to_bits())
}

fn sample_metrics() -> BackendMetrics {
    BackendMetrics {
        active_requests: 4,
        queue_depth: 2,
        active_decode_blocks: 8,
        active_prefill_tokens: 128,
        kv_used_blocks: 40,
        kv_total_blocks: 100,
        gpu_utilization: bits(0.5),
        gpu_memory_used_mb: 20_000,
        gpu_memory_total_mb: 40_000,
        latency: LatencyStats {
            p50_ms: bits(10.0),
            p99_ms: bits(50.0),
            p999_ms: bits(80.0),
            sample_count: 1_000,
        },
        timestamp: 1_700_000_000,
    }
}

#[test]
fn available_capacity_subtracts_decode() {
    let m = sample_metrics();
    // 100 - 40 - 8 = 52
    assert_eq!(m.available_capacity(), 52);
}

#[test]
fn available_capacity_negative_when_overloaded() {
    let mut m = sample_metrics();
    m.kv_used_blocks = 200;
    assert_eq!(m.available_capacity(), -108);
}

#[test]
fn tenant_priority_ordering() {
    assert!(TenantPriority::Premium > TenantPriority::Normal);
    assert!(TenantPriority::Normal > TenantPriority::Background);
    assert_eq!(TenantPriority::default(), TenantPriority::Normal);
}

#[test]
fn tenant_quota_has_any_limit() {
    let unlimited = TenantQuota::new(TenantId::from("t1"));
    assert!(!unlimited.has_any_limit());

    let mut limited = TenantQuota::new(TenantId::from("t2"));
    limited.max_rps = Some(bits(10.0));
    assert!(limited.has_any_limit());
}

#[test]
fn tenant_state_window_reset() {
    let mut state = TenantState::new(
        TenantId::from("t1"),
        TenantPriority::Normal,
        1_000_000,
    );
    state.input_tokens_this_minute = 100;
    state.requests_this_second = 5;

    // 61 seconds later
    let now = 1_061_000;
    state.maybe_reset_tpm_window(now);
    state.maybe_reset_rps_window(now);

    assert_eq!(state.input_tokens_this_minute, 0);
    assert_eq!(state.requests_this_second, 0);
}

#[test]
fn default_is_off_with_pick_policy() {
    let c = ModelTierConfig::default();
    assert!(!c.enabled);
    assert!((number(c.weight) - 0.20).abs() < 1e-9);
    assert!(matches!(c.policy, TierRoutingPolicy::Pick { .. }));
    assert!(c.tiers.is_empty());
}

#[test]
fn coalescing_default_is_off() {
    let c = CoalescingConfig::default();
    assert!(!c.enabled);
    assert_eq!(c.ttl_ms, 50);
    assert_eq!(c.max_inflight, 1024);
    assert!(!c.active());
}

#[test]
fn routing_context_default_empty() {
    let rc = RoutingContext::default();
    assert!(rc.token_ids.is_empty());
    assert_eq!(rc.block_size, 0);
    assert!(!rc.requires_tool_calling);
}

#[test]
fn from_entries_round_trip() {
    let entries = vec![PriceEntry {
        model: "m".to_string(),
        input_per_1m: bits(1.0),
        output_per_1m: bits(2.0),
    }];
    let model = StaticCostModel::from_entries(&entries);
    let p = model.price_for("m").unwrap();
    assert!((number(p.input_per_1m) - 1.0).abs() < 1e-9);
    assert!((number(p.output_per_1m) - 2.0).abs() < 1e-9);
    assert_eq!(model.len(), 1);
}

#[test]
fn cost_config_default_is_off() {
    let c = CostConfig::default();
    assert!(!c.enabled);
    assert!(c.prices.is_empty());
    assert!((number(c.weight) - 0.15).abs() < 1e-9);
    assert!((number(c.output_cost_scale) - 1.0).abs() < 1e-9);
    assert!(!c.exclude_on_unknown_price);
}

#[test]
fn rtt_ms_same_region_zero() {
    let m = LatencyMatrix::new();
    let r = RegionId::new("r1");
    assert_eq!(m.rtt_ms(&r, &r, None, None), RttSource::SameRegion);
}

#[test]
fn rtt_ms_matrix_hit() {
    let mut m = LatencyMatrix::new();
    let a = RegionId::new("a");
    let b = RegionId::new("b");
    m.record(
        &a,
        &b,
        LatencyEstimate {
            rtt_p50_ms: bits(12.0),
            rtt_p99_ms: bits(20.0),
            bandwidth_mbps: bits(1000.0),
            last_updated_unix: 1,
        },
    );
    // Forward query
    assert_eq!(m.rtt_ms(&a, &b, None, None), RttSource::Recorded(bits(12.0)));
    // Reverse query should also hit
    assert_eq!(m.rtt_ms(&b, &a, None, None), RttSource::Recorded(bits(12.0)));
}

#[test]
fn rtt_ms_no_data_returns_none() {
    let m = LatencyMatrix::new();
    let a = RegionId::new("a");
    let b = RegionId::new("b");
    assert_eq!(m.rtt_ms(&a, &b, None, None), RttSource::Unknown);
}
