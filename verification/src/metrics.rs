//! Load metrics of a backend.

use vstd::prelude::*;

verus! {

/// A floating-point number, carried by its IEEE 754 double-precision bit pattern.
#[derive(Clone, Copy, Debug, PartialEq, Eq, Hash, Structural)]
pub struct RealBits(pub u64);

/// Latency percentiles.
#[derive(Clone, Copy, Debug, PartialEq, Eq, Structural)]
pub struct LatencyStats {
    /// Median latency in milliseconds.
    pub p50_ms: RealBits,
    /// 99th percentile in milliseconds.
    pub p99_ms: RealBits,
    /// 99.9th percentile in milliseconds.
    pub p999_ms: RealBits,
    /// Number of samples.
    pub sample_count: u64,
}

/// Load of a backend at one time.
#[derive(Clone, Copy, Debug, PartialEq, Eq, Structural)]
pub struct BackendMetrics {
    /// Requests in progress.
    pub active_requests: u64,
    /// Requests that wait.
    pub queue_depth: u64,
    /// Blocks being decoded into.
    pub active_decode_blocks: u64,
    /// Tokens being prefilled.
    pub active_prefill_tokens: u64,
    /// KV blocks in use.
    pub kv_used_blocks: u64,
    /// KV blocks in all.
    pub kv_total_blocks: u64,
    /// GPU utilization between 0 and 1.
    pub gpu_utilization: RealBits,
    /// GPU memory in use, in megabytes.
    pub gpu_memory_used_mb: u64,
    /// GPU memory in all, in megabytes.
    pub gpu_memory_total_mb: u64,
    /// Latency percentiles.
    pub latency: LatencyStats,
    /// When the metrics were taken, in Unix seconds.
    pub timestamp: i64,
}

/// Metrics that are all zero.
pub open spec fn zero_metrics() -> BackendMetrics {
    BackendMetrics {
        active_requests: 0,
        queue_depth: 0,
        active_decode_blocks: 0,
        active_prefill_tokens: 0,
        kv_used_blocks: 0,
        kv_total_blocks: 0,
        gpu_utilization: RealBits(0),
        gpu_memory_used_mb: 0,
        gpu_memory_total_mb: 0,
        latency: LatencyStats {
            p50_ms: RealBits(0),
            p99_ms: RealBits(0),
            p999_ms: RealBits(0),
            sample_count: 0,
        },
        timestamp: 0,
    }
}

impl Default for LatencyStats {
    fn default() -> (stats: Self)
        ensures
            stats == zero_metrics().latency,
    {
        LatencyStats {
            p50_ms: RealBits(0),
            p99_ms: RealBits(0),
            p999_ms: RealBits(0),
            sample_count: 0,
        }
    }
}

impl Default for BackendMetrics {
    fn default() -> (metrics: Self)
        ensures
            metrics == zero_metrics(),
    {
        BackendMetrics {
            active_requests: 0,
            queue_depth: 0,
            active_decode_blocks: 0,
            active_prefill_tokens: 0,
            kv_used_blocks: 0,
            kv_total_blocks: 0,
            gpu_utilization: RealBits(0),
            gpu_memory_used_mb: 0,
            gpu_memory_total_mb: 0,
            latency: LatencyStats::default(),
            timestamp: 0,
        }
    }
}

/// A count read as a signed number: counts from two to the sixty-third on wrap to negative ones.
pub open spec fn signed(count: u64) -> int {
    if count <= i64::MAX {
        count as int
    } else {
        count - 0x1_0000_0000_0000_0000
    }
}

fn as_signed(count: u64) -> (value: i64)
    ensures
        value == signed(count),
{
    let value: i64 = count as i64;
    proof {
        if count <= 0x7fff_ffff_ffff_ffff {
            assert(count as i64 == count) by (bit_vector)
                requires
                    count <= 0x7fff_ffff_ffff_ffff,
            ;
        } else {
            assert(count as i64 == count - 0x1_0000_0000_0000_0000) by (bit_vector)
                requires
                    count > 0x7fff_ffff_ffff_ffff,
            ;
        }
    }
    value
}

impl BackendMetrics {
    /// KV blocks that are left: all of them less those in use and those being decoded into. A
    /// negative number tells of an overloaded backend.
    pub fn available_capacity(&self) -> (blocks: i64)
        requires
            i64::MIN <= signed(self.kv_used_blocks) + signed(self.active_decode_blocks) <= i64::MAX,
            i64::MIN <= signed(self.kv_total_blocks) - (signed(self.kv_used_blocks) + signed(
                self.active_decode_blocks,
            )) <= i64::MAX,
        ensures
            blocks == signed(self.kv_total_blocks) - (signed(self.kv_used_blocks) + signed(
                self.active_decode_blocks,
            )),
    {
        let used: i64 = as_signed(self.kv_used_blocks) + as_signed(self.active_decode_blocks);
        as_signed(self.kv_total_blocks) - used
    }
}

/// A count is read as it is, as long as it fits in 63 bits.
pub proof fn a_count_is_read_as_it_is(count: u64)
    ensures
        count <= i64::MAX ==> signed(count) == count,
        i64::MIN <= signed(count) <= i64::MAX,
        (signed(count) - count) % 0x1_0000_0000_0000_0000 == 0,
{
}

/// Metrics of which nothing is known count nothing.
pub proof fn unknown_metrics_count_nothing()
    ensures
        zero_metrics().active_requests == 0,
        zero_metrics().queue_depth == 0,
        zero_metrics().active_decode_blocks == 0,
        zero_metrics().active_prefill_tokens == 0,
        zero_metrics().kv_used_blocks == 0,
        zero_metrics().kv_total_blocks == 0,
        zero_metrics().gpu_utilization == RealBits(0),
        zero_metrics().gpu_memory_used_mb == 0,
        zero_metrics().gpu_memory_total_mb == 0,
        zero_metrics().latency.sample_count == 0,
        zero_metrics().timestamp == 0,
{
}

} // verus!
