//! What is known of a backend: its type, endpoint, models, capabilities and status.

use vstd::prelude::*;

use crate::ids::{BackendId, IndexerDomainId, RegionId};

verus! {

/// Engine or protocol of a backend.
#[derive(Clone, Copy, Debug, PartialEq, Eq, Hash, Structural)]
pub enum BackendType {
    /// LLM-D cluster.
    LlmDCluster,
    /// vLLM engine.
    VllmEngine,
    /// llama.cpp engine.
    LlamaCppEngine,
    /// SGLang engine.
    SglangEngine,
    /// Any service compatible with the OpenAI API.
    GenericOpenAI,
    /// NVIDIA Dynamo, over its NATS component bus.
    DynamoEngine,
}

/// Network protocol of an endpoint.
#[derive(Clone, Copy, Debug, PartialEq, Eq, Hash, Structural)]
pub enum Protocol {
    /// HTTP or HTTPS.
    Http,
    /// gRPC.
    Grpc,
    /// NATS message bus.
    Nats,
}

/// Where a backend is reached.
#[derive(Debug, PartialEq, Eq, Hash)]
pub struct Endpoint {
    /// URL of the service.
    pub url: String,
    /// Protocol spoken there.
    pub protocol: Protocol,
}

impl Clone for Endpoint {
    fn clone(&self) -> (copy: Self)
        ensures
            copy == *self,
    {
        Endpoint { url: self.url.clone(), protocol: self.protocol }
    }
}

/// How a model's weights are quantized.
#[derive(Clone, Copy, Debug, PartialEq, Eq, Hash, Structural)]
pub enum Quantization {
    /// Half-precision floating point.
    Fp16,
    /// Brain floating point.
    Bf16,
    /// 8-bit integers.
    Int8,
    /// 4-bit integers.
    Int4,
    /// AWQ.
    Awq,
    /// GPTQ.
    Gptq,
}

/// A model that a backend serves.
#[derive(Debug, PartialEq, Eq)]
pub struct ModelInstance {
    /// Name of the model.
    pub model_name: String,
    /// Architecture of the model.
    pub model_architecture: String,
    /// How its weights are quantized.
    pub quantization: Quantization,
    /// Longest context in tokens.
    pub max_context_len: u32,
    /// Whether it can call tools.
    pub supports_tool_calling: bool,
    /// Whether it can stream its output.
    pub supports_streaming: bool,
}

impl Clone for ModelInstance {
    fn clone(&self) -> (copy: Self)
        ensures
            copy == *self,
    {
        ModelInstance {
            model_name: self.model_name.clone(),
            model_architecture: self.model_architecture.clone(),
            quantization: self.quantization,
            max_context_len: self.max_context_len,
            supports_tool_calling: self.supports_tool_calling,
            supports_streaming: self.supports_streaming,
        }
    }
}

/// What a backend can do.
#[derive(Clone, Copy, Debug, PartialEq, Eq, Structural)]
pub struct BackendCapabilities {
    /// Whether it publishes KV cache events.
    pub supports_kv_events: bool,
    /// Whether it batches requests.
    pub supports_batching: bool,
    /// Largest batch; 0 when there is none.
    pub max_batch_size: u32,
    /// Number of GPUs.
    pub gpu_count: u32,
    /// GPU memory in gigabytes.
    pub gpu_memory_gb: u32,
}

/// KV cache of a backend.
#[derive(Debug, PartialEq, Eq)]
pub struct KvConfig {
    /// Tokens per block.
    pub block_size: u32,
    /// Namespace that sets tenants or models apart.
    pub cache_namespace: String,
    /// Number of blocks there is room for.
    pub max_kv_blocks: u64,
}

impl Clone for KvConfig {
    fn clone(&self) -> (copy: Self)
        ensures
            copy == *self,
    {
        KvConfig {
            block_size: self.block_size,
            cache_namespace: self.cache_namespace.clone(),
            max_kv_blocks: self.max_kv_blocks,
        }
    }
}

/// Whether a backend can be routed to.
#[derive(Clone, Copy, Debug, PartialEq, Eq, Hash, Structural)]
pub enum BackendStatus {
    /// It can.
    Healthy,
    /// It can, but others should be preferred.
    Degraded,
    /// It should get no new requests.
    Unhealthy,
    /// It has not reported.
    Unknown,
}

/// All that is known of a backend.
#[derive(Debug)]
pub struct BackendInfo {
    /// The backend.
    pub id: BackendId,
    /// Its type.
    pub backend_type: BackendType,
    /// Where it is reached.
    pub endpoint: Endpoint,
    /// Models that it serves.
    pub models: Vec<ModelInstance>,
    /// Region it resides in.
    pub region: RegionId,
    /// Indexer domain it belongs to.
    pub indexer_domain: IndexerDomainId,
    /// What it can do.
    pub capabilities: BackendCapabilities,
    /// Its KV cache.
    pub kv_config: KvConfig,
    /// Whether it can be routed to.
    pub status: BackendStatus,
}

/// Whether two descriptions of a backend say the same.
pub open spec fn same_info(a: BackendInfo, b: BackendInfo) -> bool {
    &&& a.id == b.id
    &&& a.backend_type == b.backend_type
    &&& a.endpoint == b.endpoint
    &&& a.models@ == b.models@
    &&& a.region == b.region
    &&& a.indexer_domain == b.indexer_domain
    &&& a.capabilities == b.capabilities
    &&& a.kv_config == b.kv_config
    &&& a.status == b.status
}

/// Copies a list of models.
pub fn copy_models(models: &Vec<ModelInstance>) -> (copy: Vec<ModelInstance>)
    ensures
        copy@ == models@,
{
    let mut copy: Vec<ModelInstance> = Vec::new();
    let mut i: usize = 0;
    while i < models.len()
        invariant
            i <= models@.len(),
            copy@ == models@.take(i as int),
        decreases models@.len() - i,
    {
        copy.push(models[i].clone());
        assert(copy@ =~= models@.take(i + 1));
        i = i + 1;
    }
    assert(models@.take(i as int) =~= models@);
    copy
}

impl Clone for BackendInfo {
    fn clone(&self) -> (copy: Self)
        ensures
            same_info(copy, *self),
    {
        BackendInfo {
            id: self.id.clone(),
            backend_type: self.backend_type,
            endpoint: self.endpoint.clone(),
            models: copy_models(&self.models),
            region: self.region.clone(),
            indexer_domain: self.indexer_domain,
            capabilities: self.capabilities,
            kv_config: self.kv_config.clone(),
            status: self.status,
        }
    }
}

} // verus!
