//! Which models each backend serves, and how well a backend matches a requested model.

use vstd::prelude::*;
use vstd::string::*;

use crate::backend::{copy_models, ModelInstance};
use crate::ids;
use crate::ids::{BackendId, BackendInstanceId, RegionId};
use crate::metrics::RealBits;
use crate::table::{KeyView, Table, TableKey};
use crate::text::reads;

verus! {

/// How well a model matches a requested name.
#[derive(Clone, Copy, Debug, PartialEq, Eq, Structural)]
pub enum ModelMatch {
    /// Not at all; worth nothing.
    Unrelated,
    /// The name is that of its architecture; worth seven tenths.
    Architecture,
    /// The name is its own; worth one.
    Exact,
}

impl ModelMatch {
    /// What the match is worth: 1.0, 0.7 or 0.0.
    pub open spec fn worth(self) -> RealBits {
        match self {
            ModelMatch::Exact => RealBits(0x3FF0_0000_0000_0000),
            ModelMatch::Architecture => RealBits(0x3FE6_6666_6666_6666),
            ModelMatch::Unrelated => RealBits(0),
        }
    }

    /// What the match is worth.
    pub fn score(self) -> (score: RealBits)
        ensures
            score == self.worth(),
    {
        match self {
            ModelMatch::Exact => RealBits(0x3FF0_0000_0000_0000),
            ModelMatch::Architecture => RealBits(0x3FE6_6666_6666_6666),
            ModelMatch::Unrelated => RealBits(0),
        }
    }
}

/// How well one model matches a name.
pub open spec fn match_of(model: ModelInstance, name: Seq<char>) -> ModelMatch {
    if model.model_name@ == name {
        ModelMatch::Exact
    } else if model.model_architecture@.len() > 0 && model.model_architecture@ == name {
        ModelMatch::Architecture
    } else {
        ModelMatch::Unrelated
    }
}

/// The best match among some models.
pub open spec fn best_match(models: Seq<ModelInstance>, name: Seq<char>) -> ModelMatch {
    if exists|i: int|
        0 <= i < models.len() && match_of(#[trigger] models[i], name) == ModelMatch::Exact {
        ModelMatch::Exact
    } else if exists|i: int|
        0 <= i < models.len() && match_of(#[trigger] models[i], name) == ModelMatch::Architecture {
        ModelMatch::Architecture
    } else {
        ModelMatch::Unrelated
    }
}

fn match_score(model: &ModelInstance, name: &str) -> (score: ModelMatch)
    ensures
        score == match_of(*model, name@),
{
    if reads(model.model_name.as_str(), name) {
        ModelMatch::Exact
    } else if !model.model_architecture.as_str().is_empty() && reads(
        model.model_architecture.as_str(),
        name,
    ) {
        ModelMatch::Architecture
    } else {
        ModelMatch::Unrelated
    }
}

fn best_score(models: &Vec<ModelInstance>, name: &str) -> (best: ModelMatch)
    ensures
        best == best_match(models@, name@),
{
    let mut best: ModelMatch = ModelMatch::Unrelated;
    let mut i: usize = 0;
    while i < models.len()
        invariant
            i <= models@.len(),
            best != ModelMatch::Exact,
            forall|j: int|
                0 <= j < i ==> match_of(#[trigger] models@[j], name@) != ModelMatch::Exact,
            (best == ModelMatch::Architecture) == (exists|j: int|
                0 <= j < i && match_of(#[trigger] models@[j], name@) == ModelMatch::Architecture),
        decreases models@.len() - i,
    {
        match match_score(&models[i], name) {
            ModelMatch::Exact => {
                assert(match_of(models@[i as int], name@) == ModelMatch::Exact);
                return ModelMatch::Exact;
            },
            ModelMatch::Architecture => {
                assert(match_of(models@[i as int], name@) == ModelMatch::Architecture);
                best = ModelMatch::Architecture;
            },
            ModelMatch::Unrelated => {},
        }
        i = i + 1;
    }
    best
}

/// What the registry holds: the models of each backend.
pub type ModelsView = Map<KeyView, Seq<ModelInstance>>;

/// How well a backend matches a name; one that is not registered does not match.
pub open spec fn backend_match(registry: ModelsView, backend: KeyView, name: Seq<char>) -> ModelMatch {
    if registry.contains_key(backend) {
        best_match(registry[backend], name)
    } else {
        ModelMatch::Unrelated
    }
}

/// Models of all backends.
pub struct ModelRegistry {
    backends: Table<Vec<ModelInstance>>,
}

impl View for ModelRegistry {
    type V = ModelsView;

    closed spec fn view(&self) -> ModelsView {
        self.backends@.map_values(|models: Vec<ModelInstance>| models@)
    }
}

impl ModelRegistry {
    /// Each backend is registered at most once, under its own key.
    pub closed spec fn wf(&self) -> bool {
        &&& self.backends.wf()
        &&& forall|key: KeyView| #[trigger] self.backends@.contains_key(key) ==> key.0 == 0
    }

    /// An empty registry.
    pub fn new() -> (registry: Self)
        ensures
            registry.wf(),
            registry@ == Map::<KeyView, Seq<ModelInstance>>::empty(),
    {
        let registry = ModelRegistry { backends: Table::new() };
        assert(registry@ =~= Map::empty());
        registry
    }

    /// Registers a backend with its models, in place of those it had.
    pub fn register(&mut self, backend: &BackendId, models: Vec<ModelInstance>)
        requires
            old(self).wf(),
        ensures
            final(self).wf(),
            final(self)@ == old(self)@.insert(ids::backend_key(backend@), models@),
    {
        let ghost listed = models@;
        self.backends.insert(backend.table_key(), models);
        assert(self@ =~= old(self)@.insert(ids::backend_key(backend@), listed));
    }

    /// Takes a backend out of the registry.
    pub fn unregister(&mut self, backend: &BackendId)
        requires
            old(self).wf(),
        ensures
            final(self).wf(),
            final(self)@ == old(self)@.remove(ids::backend_key(backend@)),
    {
        self.backends.remove(&backend.table_key());
        assert(self@ =~= old(self)@.remove(ids::backend_key(backend@)));
    }

    /// How well the best of a backend's models matches a name.
    pub fn model_match_score(&self, backend: &BackendId, model_name: &str) -> (best: ModelMatch)
        requires
            self.wf(),
        ensures
            best == backend_match(self@, ids::backend_key(backend@), model_name@),
    {
        match self.backends.get(&backend.table_key()) {
            Some(models) => best_score(models, model_name),
            None => ModelMatch::Unrelated,
        }
    }

    /// The backends with a model that matches a name, each once.
    pub fn model_find_backends(&self, model_name: &str) -> (found: Vec<BackendId>)
        requires
            self.wf(),
        ensures
            forall|i: int|
                0 <= i < found@.len() ==> backend_match(
                    self@,
                    ids::backend_key((#[trigger] found@[i])@),
                    model_name@,
                ) != ModelMatch::Unrelated,
            forall|i: int, j: int|
                #![trigger found@[i], found@[j]]
                0 <= i < j < found@.len() ==> found@[i]@ != found@[j]@,
            forall|key: KeyView|
                #![trigger backend_match(self@, key, model_name@)]
                backend_match(self@, key, model_name@) != ModelMatch::Unrelated ==> exists|i: int|
                    0 <= i < found@.len() && ids::backend_key((#[trigger] found@[i])@) == key,
    {
        let mut found: Vec<BackendId> = Vec::new();
        let n: usize = self.backends.len();
        let ghost rows = self.backends.rows();
        let ghost mut from: Seq<int> = Seq::empty();
        proof {
            self.backends.lemma_rows();
        }
        let mut i: usize = 0;
        while i < n
            invariant
                i <= n,
                n == rows.len(),
                self.wf(),
                rows == self.backends.rows(),
                crate::table::rows_hold(rows, self.backends@),
                from.len() == found@.len(),
                forall|j: int|
                    #![trigger from[j]]
                    #![trigger found@[j]]
                    0 <= j < found@.len() ==> 0 <= from[j] < i && ids::backend_key(found@[j]@)
                        == rows[from[j]].0 && best_match(rows[from[j]].1@, model_name@)
                        != ModelMatch::Unrelated,
                forall|j: int, k: int|
                    #![trigger from[j], from[k]]
                    0 <= j < k < from.len() ==> from[j] < from[k],
                forall|r: int|
                    #![trigger rows[r]]
                    0 <= r < i && best_match(rows[r].1@, model_name@) != ModelMatch::Unrelated
                        ==> from.contains(r),
            decreases n - i,
        {
            let key: &TableKey = self.backends.key_at(i);
            let ghost was = from;
            match best_score(self.backends.value_at(i), model_name) {
                ModelMatch::Unrelated => {},
                _ => {
                    proof {
                        assert(self.backends@.contains_key(rows[i as int].0));
                        from = from.push(i as int);
                        assert(from[was.len() as int] == i);
                    }
                    found.push(
                        BackendId {
                            region: RegionId(key.first.clone()),
                            instance: BackendInstanceId(key.second.clone()),
                        },
                    );
                },
            }
            proof {
                assert forall|r: int|
                    #![trigger rows[r]]
                    0 <= r < i + 1 && best_match(rows[r].1@, model_name@)
                        != ModelMatch::Unrelated implies from.contains(r) by {
                    if r < i {
                        let j = was.index_of(r);
                        assert(from[j] == r);
                    }
                }
            }
            i = i + 1;
        }
        proof {
            assert forall|j: int| 0 <= j < found@.len() implies backend_match(
                self@,
                ids::backend_key((#[trigger] found@[j])@),
                model_name@,
            ) != ModelMatch::Unrelated by {
                assert(rows[from[j]].0 == ids::backend_key(found@[j]@));
            }
            assert forall|j: int, k: int|
                #![trigger found@[j], found@[k]]
                0 <= j < k < found@.len() implies found@[j]@ != found@[k]@ by {
                assert(from[j] < from[k]);
                assert(rows[from[j]].0 != rows[from[k]].0);
            }
            assert forall|key: KeyView|
                #![trigger backend_match(self@, key, model_name@)]
                backend_match(self@, key, model_name@) != ModelMatch::Unrelated implies exists|
                j: int,
            |
                0 <= j < found@.len() && ids::backend_key((#[trigger] found@[j])@) == key by {
                assert(self.backends@.contains_key(key));
                let r = choose|r: int| 0 <= r < rows.len() && (#[trigger] rows[r]).0 == key;
                assert(from.contains(r));
                let j = from.index_of(r);
                assert(ids::backend_key(found@[j]@) == key);
            }
        }
        found
    }

    /// The models of a backend.
    pub fn get_instances(&self, backend: &BackendId) -> (models: Vec<ModelInstance>)
        requires
            self.wf(),
        ensures
            models@ == (if self@.contains_key(ids::backend_key(backend@)) {
                self@[ids::backend_key(backend@)]
            } else {
                Seq::empty()
            }),
    {
        match self.backends.get(&backend.table_key()) {
            Some(models) => copy_models(models),
            None => Vec::new(),
        }
    }

    /// Number of backends.
    pub fn len(&self) -> (n: usize)
        requires
            self.wf(),
        ensures
            n == self@.dom().len(),
    {
        assert(self@.dom() =~= self.backends@.dom());
        self.backends.len()
    }

    /// Whether no backend is registered.
    pub fn is_empty(&self) -> (empty: bool)
        requires
            self.wf(),
        ensures
            empty == (self@.dom().len() == 0),
    {
        self.len() == 0
    }
}

impl Default for ModelRegistry {
    fn default() -> (registry: Self)
        ensures
            registry.wf(),
            registry@ == Map::<KeyView, Seq<ModelInstance>>::empty(),
    {
        ModelRegistry::new()
    }
}

/// A backend that serves a model of the name matches it exactly; failing that, one that serves a
/// model whose architecture has the name matches it by that; and any other does not match, nor does
/// one that is not registered.
pub proof fn the_best_model_decides(
    registry: ModelsView,
    backend: KeyView,
    name: Seq<char>,
    i: int,
)
    ensures
        ({
            let found = backend_match(registry, backend, name);
            let models = registry[backend];
            &&& !registry.contains_key(backend) ==> found == ModelMatch::Unrelated
            &&& registry.contains_key(backend) && 0 <= i < models.len() ==> {
                &&& models[i].model_name@ == name ==> found == ModelMatch::Exact
                &&& models[i].model_architecture@ == name && name.len() > 0 ==> found
                    != ModelMatch::Unrelated
            }
            &&& found == ModelMatch::Exact ==> exists|k: int|
                0 <= k < models.len() && (#[trigger] models[k]).model_name@ == name
            &&& found == ModelMatch::Architecture ==> exists|k: int|
                0 <= k < models.len() && (#[trigger] models[k]).model_architecture@ == name
        }),
{
    if registry.contains_key(backend) {
        let models = registry[backend];
        if 0 <= i < models.len() {
            if models[i].model_name@ == name {
                assert(match_of(models[i], name) == ModelMatch::Exact);
            } else if models[i].model_architecture@ == name && name.len() > 0 {
                assert(match_of(models[i], name) == ModelMatch::Architecture);
            }
        }
    }
}

/// A better match is worth more: the bits of what is worth nothing, something and everything grow, as
/// the numbers do.
pub proof fn a_better_match_is_worth_more()
    ensures
        ModelMatch::Unrelated.worth().0 < ModelMatch::Architecture.worth().0,
        ModelMatch::Architecture.worth().0 < ModelMatch::Exact.worth().0,
{
}

} // verus!
