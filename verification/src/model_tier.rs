//! Large and small models: which is which, and how to choose.

use vstd::prelude::*;

use crate::metrics::RealBits;
use crate::text::reads;

verus! {

/// Tier of a model.
#[derive(Clone, Copy, Debug, PartialEq, Eq, Structural)]
pub enum ModelTier {
    /// Cheap and fast.
    Small,
    /// Expensive and capable.
    Large,
}

/// How to choose between the tiers.
#[derive(Clone, Copy, Debug, PartialEq, Eq, Structural)]
pub enum TierRoutingPolicy {
    /// Small for simple requests, large for complex ones.
    Pick {
        /// Prompt tokens above which a request is complex.
        prompt_token_threshold: u32,
        /// Requested tokens above which a request is complex.
        max_token_threshold: u32,
        /// Whether a request with tools is complex.
        prefer_large_for_tools: bool,
    },
    /// Small first, large when that fails.
    Fallback,
}

/// Prompt tokens above which a request is complex, when nothing else is said.
pub fn default_prompt_threshold() -> (tokens: u32)
    ensures
        tokens == 2048,
{
    2048
}

/// Requested tokens above which a request is complex, when nothing else is said.
pub fn default_max_token_threshold() -> (tokens: u32)
    ensures
        tokens == 1024,
{
    1024
}

/// Whether a request with tools is complex, when nothing else is said.
pub fn default_prefer_large_for_tools() -> (prefer: bool)
    ensures
        prefer,
{
    true
}

impl Default for TierRoutingPolicy {
    fn default() -> (policy: Self)
        ensures
            policy == (TierRoutingPolicy::Pick {
                prompt_token_threshold: 2048,
                max_token_threshold: 1024,
                prefer_large_for_tools: true,
            }),
    {
        TierRoutingPolicy::Pick {
            prompt_token_threshold: default_prompt_threshold(),
            max_token_threshold: default_max_token_threshold(),
            prefer_large_for_tools: default_prefer_large_for_tools(),
        }
    }
}

/// The tier of one model.
#[derive(Debug)]
pub struct TierEntry {
    /// Name of the model.
    pub model: String,
    /// Its tier.
    pub tier: ModelTier,
}

impl Clone for TierEntry {
    fn clone(&self) -> (copy: Self)
        ensures
            copy == *self,
    {
        TierEntry { model: self.model.clone(), tier: self.tier }
    }
}

/// Configuration of model tiers.
#[derive(Clone, Debug)]
pub struct ModelTierConfig {
    /// Whether tiers take part in routing.
    pub enabled: bool,
    /// Weight of the tier in a hybrid score.
    pub weight: RealBits,
    /// How to choose.
    pub policy: TierRoutingPolicy,
    /// Tiers of the models.
    pub tiers: Vec<TierEntry>,
}

impl Default for ModelTierConfig {
    fn default() -> (config: Self)
        ensures
            !config.enabled,
            config.weight == RealBits(0x3FC9_9999_9999_999A),
            config.policy == (TierRoutingPolicy::Pick {
                prompt_token_threshold: 2048,
                max_token_threshold: 1024,
                prefer_large_for_tools: true,
            }),
            config.tiers@.len() == 0,
    {
        ModelTierConfig {
            enabled: false,
            weight: RealBits(0x3FC9_9999_9999_999A),
            policy: TierRoutingPolicy::default(),
            tiers: Vec::new(),
        }
    }
}

/// The tier of the first entry for a model.
pub open spec fn tier_in(tiers: Seq<TierEntry>, model: Seq<char>) -> Option<ModelTier>
    decreases tiers.len(),
{
    if tiers.len() == 0 {
        None
    } else if tiers[0].model@ == model {
        Some(tiers[0].tier)
    } else {
        tier_in(tiers.drop_first(), model)
    }
}

impl ModelTierConfig {
    /// The tier of a model, if it is listed.
    pub fn tier_for(&self, model: &str) -> (tier: Option<ModelTier>)
        ensures
            tier == tier_in(self.tiers@, model@),
    {
        let mut i: usize = 0;
        proof {
            assert(self.tiers@.skip(0) =~= self.tiers@);
        }
        while i < self.tiers.len()
            invariant
                i <= self.tiers@.len(),
                tier_in(self.tiers@, model@) == tier_in(self.tiers@.skip(i as int), model@),
            decreases self.tiers@.len() - i,
        {
            proof {
                assert(self.tiers@.skip(i as int).drop_first() =~= self.tiers@.skip(i + 1));
            }
            if reads(self.tiers[i].model.as_str(), model) {
                return Some(self.tiers[i].tier);
            }
            i = i + 1;
        }
        None
    }
}

/// A model has the tier of the first entry with its name, and none if no entry has it.
pub proof fn the_first_entry_gives_the_tier(tiers: Seq<TierEntry>, model: Seq<char>, i: int)
    ensures
        0 <= i < tiers.len() && tiers[i].model@ == model && (forall|k: int|
            0 <= k < i ==> (#[trigger] tiers[k]).model@ != model) ==> tier_in(tiers, model) == Some(
            tiers[i].tier,
        ),
        (forall|k: int| 0 <= k < tiers.len() ==> (#[trigger] tiers[k]).model@ != model) ==> tier_in(
            tiers,
            model,
        ) is None,
    decreases tiers.len(),
{
    if tiers.len() > 0 {
        let rest = tiers.drop_first();
        the_first_entry_gives_the_tier(rest, model, i - 1);
        assert forall|k: int| 0 <= k < rest.len() implies #[trigger] rest[k] == tiers[k + 1] by {}
        if tiers[0].model@ != model && 0 < i < tiers.len() {
            assert(rest[i - 1] == tiers[i]);
        }
    }
}

} // verus!
