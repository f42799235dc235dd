//! Estimators in the order in which they are asked.

use std::sync::Arc;

use vstd::prelude::*;

use crate::estimate;
use crate::estimate::{EstimateInput, KvEstimate};
use crate::plugin;
use crate::plugin::{KvEstimator, SpecCatalog, StandardEstimator};
use crate::spec::ModelSpec;

verus! {

/// Estimators in the order in which they are asked.
pub struct EstimatorsView {
    /// Those before the standard one.
    pub front: Seq<Arc<dyn KvEstimator>>,
    /// Entries of the standard estimator's catalog.
    pub standard: Map<Seq<char>, ModelSpec>,
    /// Those after the standard one.
    pub back: Seq<Arc<dyn KvEstimator>>,
}

/// Which estimator answers.
pub enum Answering {
    /// One before the standard one.
    Front(int),
    /// The standard one.
    Standard,
    /// One after the standard one.
    Back(int),
}

/// Position of the first of some estimators that knows a model.
pub open spec fn first_to_know(estimators: Seq<Arc<dyn KvEstimator>>, model: Seq<char>) -> Option<
    int,
>
    decreases estimators.len(),
{
    if estimators.len() == 0 {
        None
    } else if estimators[0].found(model) is Some {
        Some(0)
    } else {
        match first_to_know(estimators.drop_first(), model) {
            Some(i) => Some(i + 1),
            None => None,
        }
    }
}

fn add_last<T>(item: T, items: &mut Vec<T>)
    ensures
        final(items)@ == old(items)@.push(item),
{
    items.push(item);
}

fn add_first<T>(item: T, items: &mut Vec<T>)
    ensures
        final(items)@ == old(items)@.insert(0, item),
{
    items.insert(0, item);
}

/// Whether none of some estimators knows a model.
pub open spec fn all_ignorant(estimators: Seq<Arc<dyn KvEstimator>>, model: Seq<char>) -> bool {
    forall|k: int| 0 <= k < estimators.len() ==> (#[trigger] estimators[k]).found(model) is None
}

impl EstimatorsView {
    /// Whether these are the estimators of `registry` and one more, which is asked last.
    pub open spec fn adds_last(self, registry: EstimatorsView) -> bool {
        &&& self.front == registry.front
        &&& self.standard == registry.standard
        &&& self.back.len() == registry.back.len() + 1
        &&& self.back.drop_last() == registry.back
    }

    /// Whether these are the estimators of `registry` and one more, which is asked first.
    pub open spec fn adds_first(self, registry: EstimatorsView) -> bool {
        &&& self.front.len() == registry.front.len() + 1
        &&& self.front.drop_first() == registry.front
        &&& self.standard == registry.standard
        &&& self.back == registry.back
    }

    /// The first estimator that knows a model.
    pub open spec fn answering(self, model: Seq<char>) -> Option<Answering> {
        match first_to_know(self.front, model) {
            Some(i) => Some(Answering::Front(i)),
            None => if plugin::looked_up(self.standard, model) is Some {
                Some(Answering::Standard)
            } else {
                match first_to_know(self.back, model) {
                    Some(i) => Some(Answering::Back(i)),
                    None => None,
                }
            },
        }
    }

    /// The architecture that it finds.
    pub open spec fn found(self, model: Seq<char>) -> Option<ModelSpec> {
        match self.answering(model) {
            Some(Answering::Front(i)) => self.front[i].found(model),
            Some(Answering::Standard) => plugin::looked_up(self.standard, model),
            Some(Answering::Back(i)) => self.back[i].found(model),
            None => None,
        }
    }

    /// Whether it can estimate a request.
    pub open spec fn accepts(self, model: Seq<char>, input: EstimateInput) -> bool {
        let spec = self.found(model)->0;
        match self.answering(model) {
            Some(Answering::Front(i)) => self.front[i].accepts(spec, input),
            Some(Answering::Standard) => estimate::estimable(spec, input),
            Some(Answering::Back(i)) => self.back[i].accepts(spec, input),
            None => true,
        }
    }

    /// What it says that a request needs.
    pub open spec fn estimated(self, model: Seq<char>, input: EstimateInput) -> Option<KvEstimate> {
        let spec = self.found(model)->0;
        match self.answering(model) {
            Some(Answering::Front(i)) => Some(self.front[i].estimated(spec, input)),
            Some(Answering::Standard) => Some(estimate::needed(spec, input)),
            Some(Answering::Back(i)) => Some(self.back[i].estimated(spec, input)),
            None => None,
        }
    }
}

/// Estimators in the order in which they are asked: the standard one, and others before and after
/// it.
pub struct KvEstimationRegistry {
    front: Vec<Arc<dyn KvEstimator>>,
    builtin: StandardEstimator,
    back: Vec<Arc<dyn KvEstimator>>,
}

impl View for KvEstimationRegistry {
    type V = EstimatorsView;

    closed spec fn view(&self) -> EstimatorsView {
        EstimatorsView { front: self.front@, standard: self.builtin@, back: self.back@ }
    }
}

impl Clone for KvEstimationRegistry {
    fn clone(&self) -> (copy: Self)
        ensures
            copy@ == self@,
    {
        KvEstimationRegistry {
            front: copy_estimators(&self.front),
            builtin: self.builtin.clone(),
            back: copy_estimators(&self.back),
        }
    }
}

fn copy_estimators(estimators: &Vec<Arc<dyn KvEstimator>>) -> (copy: Vec<Arc<dyn KvEstimator>>)
    ensures
        copy@ == estimators@,
{
    let mut copy: Vec<Arc<dyn KvEstimator>> = Vec::new();
    let mut i: usize = 0;
    while i < estimators.len()
        invariant
            i <= estimators@.len(),
            copy@ == estimators@.take(i as int),
        decreases estimators@.len() - i,
    {
        add_last(estimators[i].clone(), &mut copy);
        i = i + 1;
    }
    copy
}

fn find(estimators: &Vec<Arc<dyn KvEstimator>>, model: &str) -> (found: Option<(usize, ModelSpec)>)
    ensures
        match found {
            Some((i, spec)) => first_to_know(estimators@, model@) == Some(i as int) && i
                < estimators@.len() && estimators@[i as int].found(model@) == Some(spec),
            None => first_to_know(estimators@, model@) is None,
        },
{
    let mut i: usize = 0;
    proof {
        assert(estimators@.skip(0) =~= estimators@);
    }
    while i < estimators.len()
        invariant
            i <= estimators@.len(),
            first_to_know(estimators@, model@) == (match first_to_know(
                estimators@.skip(i as int),
                model@,
            ) {
                Some(j) => Some(i + j),
                None => None,
            }),
        decreases estimators@.len() - i,
    {
        proof {
            assert(estimators@.skip(i as int)[0] == estimators@[i as int]);
            assert(estimators@.skip(i as int).drop_first() =~= estimators@.skip(i + 1));
        }
        match estimators[i].spec_for(model) {
            Some(spec) => {
                return Some((i, spec));
            },
            None => {},
        }
        i = i + 1;
    }
    None
}

impl KvEstimationRegistry {
    /// The standard estimator with the known architectures.
    pub fn with_builtins() -> (registry: Self)
        ensures
            registry@ == (EstimatorsView {
                front: Seq::empty(),
                standard: Map::empty(),
                back: Seq::empty(),
            }),
    {
        KvEstimationRegistry::new(StandardEstimator::with_builtins())
    }

    /// The standard estimator with a catalog.
    pub fn with_catalog(catalog: SpecCatalog) -> (registry: Self)
        ensures
            registry@ == (EstimatorsView {
                front: Seq::empty(),
                standard: catalog@,
                back: Seq::empty(),
            }),
    {
        KvEstimationRegistry::new(StandardEstimator::with_catalog(catalog))
    }

    /// A standard estimator alone.
    pub fn new(builtin: StandardEstimator) -> (registry: Self)
        ensures
            registry@ == (EstimatorsView {
                front: Seq::empty(),
                standard: builtin@,
                back: Seq::empty(),
            }),
    {
        KvEstimationRegistry { front: Vec::new(), builtin, back: Vec::new() }
    }

    /// The registry with another estimator, asked after all others. Verus takes no call with a
    /// trait object as an argument, so this one is for callers that it does not see.
    #[must_use]
    pub fn with_estimator(self, plugin: Arc<dyn KvEstimator>) -> (registry: Self)
        ensures
            registry@.adds_last(self@),
            registry@.back.last() == plugin,
    {
        let KvEstimationRegistry { front, builtin, mut back } = self;
        add_last(plugin, &mut back);
        assert(back@.drop_last() =~= self@.back);
        KvEstimationRegistry { front, builtin, back }
    }

    /// The registry with another estimator, asked before all others. Verus takes no call with
    /// a trait object as an argument, so this one is for callers that it does not see.
    #[must_use]
    pub fn with_estimator_front(self, plugin: Arc<dyn KvEstimator>) -> (registry: Self)
        ensures
            registry@.adds_first(self@),
            registry@.front.first() == plugin,
    {
        let KvEstimationRegistry { mut front, builtin, back } = self;
        add_first(plugin, &mut front);
        assert(front@.drop_first() =~= self@.front);
        KvEstimationRegistry { front, builtin, back }
    }

    /// Number of estimators.
    pub fn estimator_count(&self) -> (n: usize)
        requires
            self@.front.len() + 1 + self@.back.len() <= usize::MAX,
        ensures
            n == self@.front.len() + 1 + self@.back.len(),
    {
        self.front.len() + 1 + self.back.len()
    }

    /// The architecture that the first estimator to know `model` finds.
    pub fn spec_for(&self, model: &str) -> (spec: Option<ModelSpec>)
        ensures
            spec == self@.found(model@),
    {
        match find(&self.front, model) {
            Some((_, spec)) => {
                return Some(spec);
            },
            None => {},
        }
        match self.builtin.spec_for(model) {
            Some(spec) => {
                return Some(spec);
            },
            None => {},
        }
        match find(&self.back, model) {
            Some((_, spec)) => Some(spec),
            None => None,
        }
    }

    /// What the first estimator to know `model` says that `input` needs.
    pub fn estimate(&self, model: &str, input: &EstimateInput) -> (estimate: Option<KvEstimate>)
        requires
            self@.accepts(model@, *input),
        ensures
            estimate == self@.estimated(model@, *input),
    {
        match find(&self.front, model) {
            Some((i, spec)) => {
                return Some(self.front[i].estimate(&spec, input));
            },
            None => {},
        }
        match self.builtin.spec_for(model) {
            Some(spec) => {
                return Some(self.builtin.estimate(&spec, input));
            },
            None => {},
        }
        match find(&self.back, model) {
            Some((i, spec)) => Some(self.back[i].estimate(&spec, input)),
            None => None,
        }
    }
}

impl Default for KvEstimationRegistry {
    fn default() -> (registry: Self)
        ensures
            registry@ == (EstimatorsView {
                front: Seq::empty(),
                standard: Map::empty(),
                back: Seq::empty(),
            }),
    {
        KvEstimationRegistry::with_builtins()
    }
}

proof fn lemma_extended(
    estimators: Seq<Arc<dyn KvEstimator>>,
    longer: Seq<Arc<dyn KvEstimator>>,
    model: Seq<char>,
)
    requires
        estimators.is_prefix_of(longer),
    ensures
        first_to_know(estimators, model) is Some ==> first_to_know(longer, model) == first_to_know(
            estimators,
            model,
        ) && 0 <= first_to_know(estimators, model)->0 < estimators.len(),
    decreases estimators.len(),
{
    if estimators.len() > 0 {
        assert(longer[0] == estimators[0]);
        assert(longer.drop_first().take(estimators.len() - 1) =~= estimators.drop_first());
        lemma_extended(estimators.drop_first(), longer.drop_first(), model);
    }
}

/// An estimator that is asked last changes nothing for models that are known without it.
pub proof fn a_last_estimator_shadows_nothing(
    registry: EstimatorsView,
    extended: EstimatorsView,
    model: Seq<char>,
    input: EstimateInput,
)
    requires
        extended.adds_last(registry),
        registry.found(model) is Some,
    ensures
        extended.found(model) == registry.found(model),
        extended.estimated(model, input) == registry.estimated(model, input),
        extended.accepts(model, input) == registry.accepts(model, input),
{
    assert(extended.back.take(registry.back.len() as int) =~= registry.back);
    lemma_extended(registry.back, extended.back, model);
}

proof fn lemma_first_to_know(estimators: Seq<Arc<dyn KvEstimator>>, model: Seq<char>)
    ensures
        match first_to_know(estimators, model) {
            Some(i) => 0 <= i < estimators.len() && estimators[i].found(model) is Some && all_ignorant(
                estimators.take(i),
                model,
            ),
            None => all_ignorant(estimators, model),
        },
    decreases estimators.len(),
{
    if estimators.len() > 0 {
        let others = estimators.drop_first();
        lemma_first_to_know(others, model);
        match first_to_know(estimators, model) {
            Some(i) => {
                assert forall|k: int| 0 <= k < i implies (#[trigger] estimators.take(i)[k]).found(
                    model,
                ) is None by {
                    if k > 0 {
                        assert(estimators.take(i)[k] == others.take(i - 1)[k - 1]);
                    }
                }
            },
            None => {
                assert forall|k: int| 0 <= k < estimators.len() implies (
                #[trigger] estimators[k]).found(model) is None by {
                    if k > 0 {
                        assert(estimators[k] == others[k - 1]);
                    }
                }
            },
        }
    }
}

proof fn lemma_last_to_know(
    estimators: Seq<Arc<dyn KvEstimator>>,
    longer: Seq<Arc<dyn KvEstimator>>,
    model: Seq<char>,
)
    requires
        first_to_know(estimators, model) is None,
        longer.len() == estimators.len() + 1,
        longer.drop_last() == estimators,
    ensures
        first_to_know(longer, model) == if longer.last().found(model) is Some {
            Some(estimators.len() as int)
        } else {
            None
        },
    decreases estimators.len(),
{
    if estimators.len() > 0 {
        assert(longer[0] == estimators[0]);
        assert(longer.drop_first().drop_last() =~= estimators.drop_first());
        assert(longer.drop_first().last() == longer.last());
        lemma_last_to_know(estimators.drop_first(), longer.drop_first(), model);
    } else {
        assert(longer[0] == longer.last());
        assert(first_to_know(longer.drop_first(), model) is None);
    }
}

/// An estimator that is asked last answers for the models that it knows and that are not known
/// without it; what neither knows is not known.
pub proof fn a_last_estimator_answers_for_the_rest(
    registry: EstimatorsView,
    extended: EstimatorsView,
    model: Seq<char>,
    input: EstimateInput,
)
    requires
        extended.adds_last(registry),
        registry.found(model) is None,
    ensures
        extended.found(model) == extended.back.last().found(model),
        extended.estimated(model, input) == match extended.back.last().found(model) {
            Some(spec) => Some(extended.back.last().estimated(spec, input)),
            None => None,
        },
{
    lemma_first_to_know(registry.front, model);
    lemma_first_to_know(registry.back, model);
    lemma_last_to_know(registry.back, extended.back, model);
}

/// An estimator that is asked first changes nothing for models that it does not know.
pub proof fn a_first_estimator_leaves_the_rest(
    registry: EstimatorsView,
    extended: EstimatorsView,
    model: Seq<char>,
    input: EstimateInput,
)
    requires
        extended.adds_first(registry),
        extended.front.first().found(model) is None,
    ensures
        extended.found(model) == registry.found(model),
        extended.estimated(model, input) == registry.estimated(model, input),
        extended.accepts(model, input) == registry.accepts(model, input),
{
    lemma_first_to_know(registry.front, model);
    match first_to_know(registry.front, model) {
        Some(i) => {
            assert(extended.front[i + 1] == registry.front[i]);
        },
        None => {},
    }
}

/// An estimator that is asked first answers for every model that it knows.
pub proof fn a_first_estimator_overrides(
    registry: EstimatorsView,
    extended: EstimatorsView,
    model: Seq<char>,
    input: EstimateInput,
)
    requires
        extended.adds_first(registry),
        extended.front.first().found(model) is Some,
    ensures
        extended.found(model) == extended.front.first().found(model),
        extended.estimated(model, input) == Some(
            extended.front.first().estimated(extended.found(model)->0, input),
        ),
{
}

/// The first estimator that knows a model answers for it, with the architecture that it finds; a
/// request is answered if and only if an architecture is found.
pub proof fn the_first_to_know_answers(
    registry: EstimatorsView,
    model: Seq<char>,
    input: EstimateInput,
)
    ensures
        registry.estimated(model, input) is None <==> registry.found(model) is None,
        match registry.answering(model) {
            Some(Answering::Front(i)) => {
                &&& 0 <= i < registry.front.len()
                &&& all_ignorant(registry.front.take(i), model)
                &&& registry.found(model) is Some
                &&& registry.found(model) == registry.front[i].found(model)
                &&& registry.estimated(model, input) == Some(
                    registry.front[i].estimated(registry.found(model)->0, input),
                )
            },
            Some(Answering::Standard) => {
                &&& all_ignorant(registry.front, model)
                &&& registry.found(model) is Some
                &&& registry.found(model) == plugin::looked_up(registry.standard, model)
                &&& registry.estimated(model, input) == Some(
                    estimate::needed(registry.found(model)->0, input),
                )
            },
            Some(Answering::Back(i)) => {
                &&& all_ignorant(registry.front, model)
                &&& plugin::looked_up(registry.standard, model) is None
                &&& 0 <= i < registry.back.len()
                &&& all_ignorant(registry.back.take(i), model)
                &&& registry.found(model) is Some
                &&& registry.found(model) == registry.back[i].found(model)
                &&& registry.estimated(model, input) == Some(
                    registry.back[i].estimated(registry.found(model)->0, input),
                )
            },
            None => {
                &&& all_ignorant(registry.front, model)
                &&& plugin::looked_up(registry.standard, model) is None
                &&& all_ignorant(registry.back, model)
                &&& registry.found(model) is None
            },
        },
{
    lemma_first_to_know(registry.front, model);
    lemma_first_to_know(registry.back, model);
}

} // verus!
