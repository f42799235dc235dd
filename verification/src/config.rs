//! Configuration of a gateway.

use vstd::prelude::*;

use crate::backend::{BackendType, Endpoint, Quantization};
use crate::coalescing::CoalescingConfig;
use crate::cost::CostConfig;
use crate::ids::{InstanceId, RegionId, RegionTier};
use crate::kv_estimate_config::KvEstimateConfig;
use crate::metrics::RealBits;
use crate::model_tier::ModelTierConfig;
use crate::tenant::TenantPriority;

verus! {

/// Configuration of a gateway.
#[derive(Clone, Debug)]
pub struct GatewayConfig {
    /// The gateway.
    pub instance_id: InstanceId,
    /// Its region.
    pub region: RegionConfig,
    /// Where it listens.
    pub listen: ListenConfig,
    /// How it routes.
    pub routing: RoutingConfig,
    /// How it takes part in its cluster.
    pub cluster: ClusterConfig,
    /// How it forwards to backends.
    pub forwarding: ForwardingConfig,
    /// How it deals with failing backends.
    pub resilience: ResilienceConfig,
    /// Where it records decisions.
    pub telemetry: TelemetryConfig,
    /// Backends.
    pub backends: Vec<BackendConfig>,
    /// Tenants.
    pub tenant: TenantConfig,
    /// Prices.
    pub cost: CostConfig,
    /// Large and small models.
    pub model_tier: ModelTierConfig,
    /// KV-cache estimation.
    pub kv_estimate: KvEstimateConfig,
    /// Request coalescing.
    pub coalescing: CoalescingConfig,
}

/// Region of a gateway.
#[derive(Clone, Debug)]
pub struct RegionConfig {
    /// The region.
    pub id: RegionId,
    /// Its tier.
    pub tier: RegionTier,
    /// Where it is.
    pub geo: Option<GeoCoordConfig>,
    /// Label of its network zone.
    pub network_zone: String,
}

/// A place on earth, in degrees.
#[derive(Clone, Copy, Debug, PartialEq, Eq, Structural)]
pub struct GeoCoordConfig {
    /// Latitude.
    pub lat: RealBits,
    /// Longitude.
    pub lon: RealBits,
}

/// Where a gateway listens.
#[derive(Clone, Debug)]
pub struct ListenConfig {
    /// Address.
    pub addr: String,
    /// Port.
    pub port: u16,
}

/// What routing goes by.
#[derive(Clone, Copy, Debug, PartialEq, Eq, Hash, Structural)]
pub enum StrategyType {
    /// Cached blocks, load and distance together.
    Hybrid,
    /// Cached blocks.
    Kv,
    /// Models.
    Model,
    /// Load.
    Load,
    /// Distance.
    Topology,
    /// Each candidate in turn.
    RoundRobin,
}

/// Weights of a hybrid score.
#[derive(Clone, Copy, Debug, PartialEq, Eq, Structural)]
pub struct StrategyWeights {
    /// Weight of cached blocks.
    pub kv: RealBits,
    /// Weight of the load.
    pub load: RealBits,
    /// Weight of the distance.
    pub topology: RealBits,
    /// Weight of the cost.
    pub cost: RealBits,
}

/// How a gateway routes.
#[derive(Clone, Copy, Debug, PartialEq, Eq, Structural)]
pub struct RoutingConfig {
    /// What it goes by.
    pub strategy: StrategyType,
    /// Tokens per block, as with the backends.
    pub kv_block_size: u32,
    /// Credit for cached blocks.
    pub overlap_score_credit: RealBits,
    /// Scale on the load of prefilling.
    pub prefill_load_scale: RealBits,
    /// Temperature; more of it means more randomness.
    pub temperature: RealBits,
    /// How long a session stays with its backend, in seconds.
    pub session_affinity_ttl_secs: u64,
    /// Most retries.
    pub max_retries: u32,
    /// Weights of the hybrid score.
    pub weights: StrategyWeights,
    /// Adjustment of those weights.
    pub adaptive: AdaptiveConfig,
}

/// Adjustment of the weights of a hybrid score at run time.
#[derive(Clone, Copy, Debug, PartialEq, Eq, Structural)]
pub struct AdaptiveConfig {
    /// Whether the weights are adjusted.
    pub enabled: bool,
    /// Smoothing factor.
    pub ema_alpha: RealBits,
    /// Most that a weight is changed, relative to itself.
    pub max_adjustment: RealBits,
    /// Least that a weight becomes.
    pub min_weight: RealBits,
    /// Least time between adjustments, in seconds.
    pub adjust_interval_secs: u64,
}

impl Default for AdaptiveConfig {
    fn default() -> (config: Self)
        ensures
            config == (AdaptiveConfig {
                enabled: false,
                ema_alpha: RealBits(0x3FC9_9999_9999_999A),
                max_adjustment: RealBits(0x3FD0_0000_0000_0000),
                min_weight: RealBits(0x3FA9_9999_9999_999A),
                adjust_interval_secs: 10,
            }),
    {
        AdaptiveConfig {
            enabled: false,
            ema_alpha: RealBits(0x3FC9_9999_9999_999A),
            max_adjustment: RealBits(0x3FD0_0000_0000_0000),
            min_weight: RealBits(0x3FA9_9999_9999_999A),
            adjust_interval_secs: 10,
        }
    }
}

/// Where decisions are recorded.
#[derive(Clone, Debug)]
pub struct TelemetryConfig {
    /// Where they go besides memory.
    pub mode: TelemetryMode,
    /// File that they go to.
    pub file_path: String,
    /// Number of records kept in memory; 0 for none.
    pub buffer_size: usize,
}

impl Default for TelemetryConfig {
    fn default() -> (config: Self)
        ensures
            config.mode == TelemetryMode::Off,
            config.file_path@ == "decision_events.ndjson"@,
            config.buffer_size == 256,
    {
        TelemetryConfig {
            mode: TelemetryMode::Off,
            file_path: "decision_events.ndjson".to_owned(),
            buffer_size: 256,
        }
    }
}

/// Where records of decisions go besides memory.
#[derive(Clone, Copy, Debug, PartialEq, Eq, Hash, Structural)]
pub enum TelemetryMode {
    /// Nowhere.
    Off,
    /// Into the log.
    Tracing,
    /// Into a file.
    File,
}

/// How a gateway takes part in its cluster.
#[derive(Clone, Debug)]
pub struct ClusterConfig {
    /// Address for the cluster.
    pub bind_addr: String,
    /// Addresses of members to meet first.
    pub seed_peers: Vec<String>,
    /// Time between rounds of gossip, in milliseconds.
    pub gossip_interval_ms: u64,
    /// Silence after which a member is suspected, in milliseconds.
    pub probe_timeout_ms: u64,
    /// How long a member is suspected before it is dead, in seconds.
    pub suspect_timeout_secs: u64,
    /// Number of members pinged in a round.
    pub gossip_fanout: usize,
    /// Time between scans for silent members, in milliseconds.
    pub probe_interval_ms: u64,
}

/// Members pinged in a round, when nothing else is said.
pub fn default_gossip_fanout() -> (members: usize)
    ensures
        members == 3,
{
    3
}

/// Time between scans for silent members in milliseconds, when nothing else is said.
pub fn default_probe_interval_ms() -> (interval: u64)
    ensures
        interval == 500,
{
    500
}

/// How a gateway forwards to backends.
#[derive(Clone, Copy, Debug, PartialEq, Eq, Structural)]
pub struct ForwardingConfig {
    /// Whether a prompt that comes as tokens is forwarded as tokens.
    pub emit_token_ids: bool,
}

impl Default for ForwardingConfig {
    fn default() -> (config: Self)
        ensures
            config == (ForwardingConfig { emit_token_ids: false }),
    {
        ForwardingConfig { emit_token_ids: false }
    }
}

/// How a gateway deals with failing backends.
#[derive(Clone, Copy, Debug, PartialEq, Eq, Structural)]
pub struct ResilienceConfig {
    /// Time before the first retry, in milliseconds; it doubles with each.
    pub retry_backoff_ms: u64,
    /// Most time before a retry, in milliseconds.
    pub retry_max_backoff_ms: u64,
    /// Failures in a row that open a circuit.
    pub circuit_breaker_failure_threshold: u32,
    /// Time before an open circuit is probed, in seconds.
    pub circuit_breaker_cooldown_secs: u64,
    /// Successful probes in a row that close a circuit.
    pub half_open_success_threshold: u32,
}

impl Default for ResilienceConfig {
    fn default() -> (config: Self)
        ensures
            config == (ResilienceConfig {
                retry_backoff_ms: 50,
                retry_max_backoff_ms: 1_000,
                circuit_breaker_failure_threshold: 5,
                circuit_breaker_cooldown_secs: 30,
                half_open_success_threshold: 1,
            }),
    {
        ResilienceConfig {
            retry_backoff_ms: 50,
            retry_max_backoff_ms: 1_000,
            circuit_breaker_failure_threshold: 5,
            circuit_breaker_cooldown_secs: 30,
            half_open_success_threshold: 1,
        }
    }
}

/// A backend, as configured.
#[derive(Clone, Debug)]
pub struct BackendConfig {
    /// Its type.
    pub backend_type: BackendType,
    /// Where it is reached.
    pub endpoint: Endpoint,
    /// Names of its models.
    pub models: Vec<String>,
    /// Region it resides in.
    pub region: RegionId,
    /// Tokens per block.
    pub kv_block_size: u32,
    /// How its weights are quantized.
    pub quantization: Option<Quantization>,
}

/// How tenants are scheduled.
#[derive(Clone, Debug)]
pub struct TenantConfig {
    /// Whether tenants are told apart.
    pub enabled: bool,
    /// Requests per second of a tenant that is not listed.
    pub default_max_rps: Option<RealBits>,
    /// Requests at a time of a tenant that is not listed.
    pub default_max_concurrent: Option<u32>,
    /// Share of the capacity in use from which on priorities count.
    pub saturation_threshold: RealBits,
    /// Listed tenants.
    pub tenants: Vec<TenantQuotaConfig>,
}

impl Default for TenantConfig {
    fn default() -> (config: Self)
        ensures
            !config.enabled,
            config.default_max_rps is None,
            config.default_max_concurrent is None,
            config.saturation_threshold == RealBits(0x3FE9_9999_9999_999A),
            config.tenants@.len() == 0,
    {
        TenantConfig {
            enabled: false,
            default_max_rps: None,
            default_max_concurrent: None,
            saturation_threshold: RealBits(0x3FE9_9999_9999_999A),
            tenants: Vec::new(),
        }
    }
}

/// Quota of a listed tenant.
#[derive(Clone, Debug)]
pub struct TenantQuotaConfig {
    /// The tenant.
    pub id: String,
    /// Its priority.
    pub priority: TenantPriority,
    /// Requests per second.
    pub max_rps: Option<RealBits>,
    /// Requests at a time.
    pub max_concurrent: Option<u32>,
    /// Share of the capacity that is reserved for the tenant.
    pub reserved_capacity_fraction: RealBits,
}

/// Priority of a listed tenant, when nothing else is said.
pub fn default_tenant_priority() -> (priority: TenantPriority)
    ensures
        priority == TenantPriority::Normal,
{
    TenantPriority::Normal
}

} // verus!
