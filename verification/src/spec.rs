//! Architecture of a model, as far as it decides the size of its KV cache.

use vstd::prelude::*;

verus! {

/// Attention family: which formula gives the size of the cache.
#[derive(Clone, Copy, Debug, PartialEq, Eq, Structural)]
pub enum AttentionKind {
    /// Full keys and values are cached (multi-head, grouped-query and multi-query attention).
    Standard,
    /// One compressed latent and a small decoupled key are cached.
    Mla,
}

impl Default for AttentionKind {
    fn default() -> (kind: Self)
        ensures
            kind == AttentionKind::Standard,
    {
        AttentionKind::Standard
    }
}

/// Type of an element of the cache.
#[derive(Clone, Copy, Debug, PartialEq, Eq, Structural)]
pub enum KvDtype {
    /// 32-bit float.
    Fp32,
    /// 16-bit float.
    Fp16,
    /// Brain float.
    Bf16,
    /// 8-bit float.
    Fp8,
    /// 8-bit integer.
    Int8,
}

impl Default for KvDtype {
    fn default() -> (dtype: Self)
        ensures
            dtype == KvDtype::Bf16,
    {
        KvDtype::Bf16
    }
}

impl KvDtype {
    /// Size of an element in bytes.
    pub open spec fn width(self) -> nat {
        match self {
            KvDtype::Fp32 => 4,
            KvDtype::Fp16 => 2,
            KvDtype::Bf16 => 2,
            KvDtype::Fp8 => 1,
            KvDtype::Int8 => 1,
        }
    }

    /// Size of an element in bytes.
    pub fn bytes(self) -> (n: u32)
        ensures
            n == self.width(),
    {
        match self {
            KvDtype::Fp32 => 4,
            KvDtype::Fp16 | KvDtype::Bf16 => 2,
            KvDtype::Fp8 | KvDtype::Int8 => 1,
        }
    }
}

/// Architecture of one model. A field that does not apply is 0.
#[derive(Clone, Copy, Debug, PartialEq, Eq, Structural)]
pub struct ModelSpec {
    /// Number of transformer layers.
    pub num_layers: u32,
    /// Number of key/value heads; not used for latent attention.
    pub num_kv_heads: u32,
    /// Dimension of a head; not used for latent attention.
    pub head_dim: u32,
    /// Attention family.
    pub attention: AttentionKind,
    /// Type of an element of the cache.
    pub dtype: KvDtype,
    /// Rank of the compressed latent; used for latent attention only.
    pub kv_lora_rank: u32,
    /// Dimension of the decoupled key; used for latent attention only.
    pub qk_rope_head_dim: u32,
    /// Size of the sliding window in tokens; 0 for full attention.
    pub sliding_window: u32,
}

impl ModelSpec {
    /// A model with standard attention and no sliding window.
    pub fn standard(num_layers: u32, num_kv_heads: u32, head_dim: u32, dtype: KvDtype) -> (spec:
        Self)
        ensures
            spec == (ModelSpec {
                num_layers,
                num_kv_heads,
                head_dim,
                attention: AttentionKind::Standard,
                dtype,
                kv_lora_rank: 0,
                qk_rope_head_dim: 0,
                sliding_window: 0,
            }),
    {
        ModelSpec {
            num_layers,
            num_kv_heads,
            head_dim,
            attention: AttentionKind::Standard,
            dtype,
            kv_lora_rank: 0,
            qk_rope_head_dim: 0,
            sliding_window: 0,
        }
    }

    /// A model with latent attention and no sliding window.
    pub fn mla(num_layers: u32, kv_lora_rank: u32, qk_rope_head_dim: u32, dtype: KvDtype) -> (spec:
        Self)
        ensures
            spec == (ModelSpec {
                num_layers,
                num_kv_heads: 0,
                head_dim: 0,
                attention: AttentionKind::Mla,
                dtype,
                kv_lora_rank,
                qk_rope_head_dim,
                sliding_window: 0,
            }),
    {
        ModelSpec {
            num_layers,
            num_kv_heads: 0,
            head_dim: 0,
            attention: AttentionKind::Mla,
            dtype,
            kv_lora_rank,
            qk_rope_head_dim,
            sliding_window: 0,
        }
    }

    /// The same model with a sliding window.
    #[must_use]
    pub fn with_sliding_window(self, window: u32) -> (spec: Self)
        ensures
            spec == (ModelSpec { sliding_window: window, ..self }),
    {
        ModelSpec { sliding_window: window, ..self }
    }
}

impl Default for ModelSpec {
    fn default() -> (spec: Self)
        ensures
            spec == (ModelSpec {
                num_layers: 0,
                num_kv_heads: 0,
                head_dim: 0,
                attention: AttentionKind::Standard,
                dtype: KvDtype::Bf16,
                kv_lora_rank: 0,
                qk_rope_head_dim: 0,
                sliding_window: 0,
            }),
    {
        ModelSpec::standard(0, 0, 0, KvDtype::Bf16)
    }
}

/// A model's name with its architecture.
#[derive(Debug, PartialEq, Eq)]
pub struct NamedModelSpec {
    /// Name by which the model is looked up.
    pub name: String,
    /// The architecture.
    pub spec: ModelSpec,
}

impl Clone for NamedModelSpec {
    fn clone(&self) -> (copy: Self)
        ensures
            copy == *self,
    {
        NamedModelSpec { name: self.name.clone(), spec: self.spec }
    }
}

impl NamedModelSpec {
    /// Names an architecture.
    pub fn new(name: &str, spec: ModelSpec) -> (named: Self)
        ensures
            named.name@ == name@,
            named.spec == spec,
    {
        NamedModelSpec { name: name.to_owned(), spec }
    }
}

/// A number of full precision takes twice the bytes of one of half precision, of either kind, and
/// those twice the bytes of one of eight bits, of either kind, which takes one.
pub proof fn precision_takes_bytes()
    ensures
        KvDtype::Fp32.width() == 2 * KvDtype::Fp16.width(),
        KvDtype::Fp32.width() == 2 * KvDtype::Bf16.width(),
        KvDtype::Fp16.width() == 2 * KvDtype::Fp8.width(),
        KvDtype::Bf16.width() == 2 * KvDtype::Int8.width(),
        KvDtype::Int8.width() == 1,
{
}

} // verus!
