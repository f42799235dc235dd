//! Estimators: what finds a model's architecture and says what a request needs.

use std::sync::Arc;

use vstd::hash_map::StringHashMap;
use vstd::prelude::*;

use crate::catalog;
use crate::catalog::lookup_builtin;
use crate::estimate;
use crate::estimate::{estimate_kv, EstimateInput, KvEstimate};
use crate::named_map;
use crate::named_map::map_of;
use crate::spec::ModelSpec;

verus! {

/// Finds a model's architecture and says what a request needs.
pub trait KvEstimator: Send + Sync {
    /// The architecture that is found for a model.
    open spec fn found(&self, model: Seq<char>) -> Option<ModelSpec> {
        arbitrary()
    }

    /// The requests that can be estimated.
    open spec fn accepts(&self, spec: ModelSpec, input: EstimateInput) -> bool {
        true
    }

    /// What a request needs.
    open spec fn estimated(&self, spec: ModelSpec, input: EstimateInput) -> KvEstimate {
        arbitrary()
    }

    /// Name of the estimator.
    fn name(&self) -> &str;

    /// Finds the architecture of `model`.
    fn spec_for(&self, model: &str) -> (spec: Option<ModelSpec>)
        ensures
            spec == self.found(model@),
    ;

    /// What `input` needs with an architecture that this estimator found.
    fn estimate(&self, spec: &ModelSpec, input: &EstimateInput) -> (estimate: KvEstimate)
        requires
            self.accepts(*spec, *input),
        ensures
            estimate == self.estimated(*spec, *input),
    ;
}

/// Architectures by name, on top of the known ones.
///
/// The entries are kept as they were given, for building a larger catalog, and in a map, for
/// looking them up.
pub struct SpecCatalog {
    entries: Arc<Vec<(String, ModelSpec)>>,
    custom: Arc<StringHashMap<ModelSpec>>,
}

impl Clone for SpecCatalog {
    fn clone(&self) -> (copy: Self)
        ensures
            copy@ == self@,
    {
        proof {
            use_type_invariant(self);
        }
        SpecCatalog { entries: self.entries.clone(), custom: self.custom.clone() }
    }
}

impl View for SpecCatalog {
    type V = Map<Seq<char>, ModelSpec>;

    closed spec fn view(&self) -> Map<Seq<char>, ModelSpec> {
        self.custom@
    }
}

/// The architecture of a model: its own entry, or the known one.
pub open spec fn looked_up(custom: Map<Seq<char>, ModelSpec>, model: Seq<char>) -> Option<
    ModelSpec,
> {
    if custom.contains_key(model) {
        Some(custom[model])
    } else {
        catalog::known_spec(model)
    }
}

impl SpecCatalog {
    /// The map holds the entries.
    #[verifier::type_invariant]
    spec fn map_holds_entries(&self) -> bool {
        self.custom@ == named_map::entries_of(named_map::named(self.entries@))
    }

    /// A catalog without entries of its own.
    pub fn new() -> (catalog: Self)
        ensures
            catalog@ == Map::<Seq<char>, ModelSpec>::empty(),
    {
        let entries: Vec<(String, ModelSpec)> = Vec::new();
        assert(named_map::named(entries@) =~= Seq::empty());
        SpecCatalog { entries: Arc::new(entries), custom: Arc::new(StringHashMap::new()) }
    }

    /// A catalog without entries of its own; the known architectures are always found.
    pub fn with_builtins() -> (catalog: Self)
        ensures
            catalog@ == Map::<Seq<char>, ModelSpec>::empty(),
    {
        SpecCatalog::new()
    }

    /// A catalog with entries of its own; of two with one name the later counts.
    pub fn from_specs(specs: Vec<(String, ModelSpec)>) -> (catalog: Self)
        ensures
            catalog@ == named_map::entries_of(named_map::named(specs@)),
    {
        let custom: StringHashMap<ModelSpec> = map_of(&specs);
        SpecCatalog { entries: Arc::new(specs), custom: Arc::new(custom) }
    }

    /// The catalog with one more entry, which replaces any other with its name.
    pub fn insert(self, name: &str, spec: ModelSpec) -> (catalog: Self)
        ensures
            catalog@ == self@.insert(name@, spec),
    {
        proof {
            use_type_invariant(&self);
        }
        let mut specs: Vec<(String, ModelSpec)> = Vec::new();
        let mut i: usize = 0;
        proof {
            assert(named_map::named(specs@) =~= named_map::named(self.entries@).take(0));
        }
        while i < self.entries.len()
            invariant
                i <= self.entries@.len(),
                named_map::named(specs@) == named_map::named(self.entries@).take(i as int),
            decreases self.entries@.len() - i,
        {
            let ghost listed = specs@;
            specs.push((self.entries[i].0.clone(), self.entries[i].1));
            proof {
                assert(named_map::named(specs@) =~= named_map::named(listed).push(named_map::named(self.entries@)[i as int]));
                assert(named_map::named(self.entries@).take(i + 1) =~= named_map::named(self.entries@).take(
                    i as int,
                ).push(named_map::named(self.entries@)[i as int]));
            }
            i = i + 1;
        }
        let ghost listed = specs@;
        specs.push((name.to_owned(), spec));
        proof {
            assert(named_map::named(self.entries@).take(i as int) =~= named_map::named(self.entries@));
            assert(named_map::named(specs@) =~= named_map::named(listed).push((name@, spec)));
            assert(named_map::named(specs@).drop_last() =~= named_map::named(self.entries@));
        }
        SpecCatalog::from_specs(specs)
    }

    /// Number of entries of its own.
    pub fn custom_len(&self) -> (n: usize)
        ensures
            n == self@.len(),
    {
        self.custom.len()
    }

    /// Finds a model: its own entry first, then the known architectures.
    pub fn lookup(&self, model: &str) -> (spec: Option<ModelSpec>)
        ensures
            spec == looked_up(self@, model@),
    {
        match self.custom.get(model) {
            Some(spec) => Some(*spec),
            None => lookup_builtin(model),
        }
    }
}

impl Default for SpecCatalog {
    fn default() -> (catalog: Self)
        ensures
            catalog@ == Map::<Seq<char>, ModelSpec>::empty(),
    {
        SpecCatalog::new()
    }
}

/// The estimator that goes by a catalog and the formulas of [`crate::estimate`].
pub struct StandardEstimator {
    catalog: Arc<SpecCatalog>,
}

impl View for StandardEstimator {
    type V = Map<Seq<char>, ModelSpec>;

    closed spec fn view(&self) -> Map<Seq<char>, ModelSpec> {
        self.catalog@
    }
}

impl Clone for StandardEstimator {
    fn clone(&self) -> (copy: Self)
        ensures
            copy@ == self@,
    {
        StandardEstimator { catalog: self.catalog.clone() }
    }
}

impl StandardEstimator {
    /// An estimator for the known architectures.
    pub fn with_builtins() -> (estimator: Self)
        ensures
            estimator@ == Map::<Seq<char>, ModelSpec>::empty(),
    {
        StandardEstimator { catalog: Arc::new(SpecCatalog::with_builtins()) }
    }

    /// An estimator for the architectures of a catalog.
    pub fn with_catalog(catalog: SpecCatalog) -> (estimator: Self)
        ensures
            estimator@ == catalog@,
    {
        StandardEstimator { catalog: Arc::new(catalog) }
    }

    /// The catalog.
    pub fn catalog(&self) -> (catalog: &SpecCatalog)
        ensures
            catalog@ == self@,
    {
        &self.catalog
    }
}

impl Default for StandardEstimator {
    fn default() -> (estimator: Self)
        ensures
            estimator@ == Map::<Seq<char>, ModelSpec>::empty(),
    {
        StandardEstimator::with_builtins()
    }
}

impl KvEstimator for StandardEstimator {
    open spec fn found(&self, model: Seq<char>) -> Option<ModelSpec> {
        looked_up(self@, model)
    }

    open spec fn accepts(&self, spec: ModelSpec, input: EstimateInput) -> bool {
        estimate::estimable(spec, input)
    }

    open spec fn estimated(&self, spec: ModelSpec, input: EstimateInput) -> KvEstimate {
        estimate::needed(spec, input)
    }

    fn name(&self) -> (name: &str)
        ensures
            name@ == "standard"@,
    {
        "standard"
    }

    fn spec_for(&self, model: &str) -> (spec: Option<ModelSpec>) {
        self.catalog.lookup(model)
    }

    fn estimate(&self, spec: &ModelSpec, input: &EstimateInput) -> (estimate: KvEstimate) {
        estimate_kv(spec, input)
    }
}

/// An entry of a catalog overrides the known architecture of a model with its name, and no other.
pub proof fn an_entry_overrides_what_is_known(
    custom: Map<Seq<char>, ModelSpec>,
    name: Seq<char>,
    spec: ModelSpec,
    model: Seq<char>,
)
    ensures
        looked_up(custom.insert(name, spec), name) == Some(spec),
        model != name ==> looked_up(custom.insert(name, spec), model) == looked_up(custom, model),
{
}

/// What no entry names is looked up among the known architectures.
pub proof fn what_has_no_entry_is_known_or_not(custom: Map<Seq<char>, ModelSpec>, model: Seq<char>)
    requires
        !custom.contains_key(model),
    ensures
        looked_up(custom, model) == catalog::known_spec(model),
{
}

} // verus!
