//! Configuration of request coalescing: identical requests that share one forward.

use vstd::prelude::*;

verus! {

/// Configuration of request coalescing.
#[derive(Clone, Copy, Debug, PartialEq, Eq, Structural)]
pub struct CoalescingConfig {
    /// Whether identical requests share a forward.
    pub enabled: bool,
    /// How long an answer is shared after it is complete, in milliseconds; 0 for not at all.
    pub ttl_ms: u64,
    /// Most shared forwards at a time; 0 for no limit.
    pub max_inflight: usize,
}

impl Default for CoalescingConfig {
    fn default() -> (config: Self)
        ensures
            config == (CoalescingConfig { enabled: false, ttl_ms: 50, max_inflight: 1024 }),
    {
        CoalescingConfig { enabled: false, ttl_ms: 50, max_inflight: 1024 }
    }
}

impl CoalescingConfig {
    /// Whether identical requests share a forward.
    pub fn active(&self) -> (active: bool)
        ensures
            active == self.enabled,
    {
        self.enabled
    }
}

} // verus!
