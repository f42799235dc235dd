//! Configuration of KV-cache estimation.

use vstd::prelude::*;

use crate::metrics::RealBits;
use crate::named_map;
use crate::plugin::SpecCatalog;
use crate::spec::{ModelSpec, NamedModelSpec};

verus! {

/// Configuration of KV-cache estimation.
#[derive(Clone, Debug)]
pub struct KvEstimateConfig {
    /// Whether estimation takes part in routing.
    pub enabled: bool,
    /// Weight of the estimate in a hybrid score.
    pub weight: RealBits,
    /// Share of the free GPU memory that a request's cache may claim.
    pub gpu_mem_safety_fraction: RealBits,
    /// Whether a backend whose model is not known is left out.
    pub exclude_on_unknown_spec: bool,
    /// Architectures on top of the known ones.
    pub models: Vec<NamedModelSpec>,
}

/// Architectures by their names.
pub open spec fn model_entries(models: Seq<NamedModelSpec>) -> Seq<(Seq<char>, ModelSpec)> {
    models.map_values(|model: NamedModelSpec| (model.name@, model.spec))
}

impl Default for KvEstimateConfig {
    fn default() -> (config: Self)
        ensures
            !config.enabled,
            config.weight == RealBits(0x3FC9_9999_9999_999A),
            config.gpu_mem_safety_fraction == RealBits(0x3FE0_0000_0000_0000),
            !config.exclude_on_unknown_spec,
            config.models@.len() == 0,
    {
        KvEstimateConfig {
            enabled: false,
            weight: RealBits(0x3FC9_9999_9999_999A),
            gpu_mem_safety_fraction: RealBits(0x3FE0_0000_0000_0000),
            exclude_on_unknown_spec: false,
            models: Vec::new(),
        }
    }
}

impl KvEstimateConfig {
    /// The catalog with the configured architectures; of two with one name the later counts.
    pub fn build_catalog(&self) -> (catalog: SpecCatalog)
        ensures
            catalog@ == named_map::entries_of(model_entries(self.models@)),
    {
        let mut specs: Vec<(String, ModelSpec)> = Vec::new();
        let mut i: usize = 0;
        while i < self.models.len()
            invariant
                i <= self.models@.len(),
                specs@.len() == i,
                forall|k: int|
                    0 <= k < i ==> (#[trigger] specs@[k]).0@ == self.models@[k].name@ && specs@[k].1
                        == self.models@[k].spec,
            decreases self.models@.len() - i,
        {
            specs.push((self.models[i].name.clone(), self.models[i].spec));
            i = i + 1;
        }
        assert(named_map::named(specs@) =~= model_entries(self.models@));
        SpecCatalog::from_specs(specs)
    }

    /// Whether estimation takes part in routing.
    pub fn active(&self) -> (active: bool)
        ensures
            active == self.enabled,
    {
        self.enabled
    }

    /// The configured architectures with their names.
    pub fn custom_specs(&self) -> (specs: Vec<(&str, ModelSpec)>)
        ensures
            specs@.map_values(|entry: (&str, ModelSpec)| (entry.0@, entry.1)) == model_entries(
                self.models@,
            ),
    {
        let mut specs: Vec<(&str, ModelSpec)> = Vec::new();
        let mut i: usize = 0;
        while i < self.models.len()
            invariant
                i <= self.models@.len(),
                specs@.len() == i,
                forall|k: int|
                    0 <= k < i ==> (#[trigger] specs@[k]).0@ == self.models@[k].name@ && specs@[k].1
                        == self.models@[k].spec,
            decreases self.models@.len() - i,
        {
            specs.push((self.models[i].name.as_str(), self.models[i].spec));
            i = i + 1;
        }
        assert(specs@.map_values(|entry: (&str, ModelSpec)| (entry.0@, entry.1)) =~= model_entries(
            self.models@,
        ));
        specs
    }
}

/// A model has the architecture that its last entry says, and none of its own without one.
pub proof fn the_last_entry_of_a_model_describes_it(
    models: Seq<NamedModelSpec>,
    i: int,
    name: Seq<char>,
)
    ensures
        ({
            let specs = named_map::entries_of(model_entries(models));
            &&& 0 <= i < models.len() && models[i].name@ == name && (forall|k: int|
                i < k < models.len() ==> (#[trigger] models[k]).name@ != name)
                ==> specs.contains_key(name) && specs[name] == models[i].spec
            &&& (forall|k: int| 0 <= k < models.len() ==> (#[trigger] models[k]).name@ != name)
                ==> !specs.contains_key(name)
        }),
{
    let list = model_entries(models);
    assert forall|k: int| 0 <= k < list.len() implies (#[trigger] list[k]).0 == models[k].name@ by {}
    named_map::the_last_item_of_a_name_counts(list, i, name);
}

} // verus!
