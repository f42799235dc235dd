//! Prices of models.

use std::sync::Arc;

use vstd::hash_map::StringHashMap;
use vstd::prelude::*;

use crate::metrics::RealBits;
use crate::named_map;
use crate::named_map::map_of;

verus! {

/// Price of a model, in dollars per million tokens.
#[derive(Clone, Copy, Debug, PartialEq, Eq, Structural)]
pub struct ModelPrice {
    /// Price of input tokens.
    pub input_per_1m: RealBits,
    /// Price of output tokens.
    pub output_per_1m: RealBits,
}

impl ModelPrice {
    /// The price of a model that costs nothing, which is a known price all the same.
    pub fn free() -> (price: Self)
        ensures
            price == (ModelPrice { input_per_1m: RealBits(0), output_per_1m: RealBits(0) }),
    {
        ModelPrice { input_per_1m: RealBits(0), output_per_1m: RealBits(0) }
    }
}

/// Knows the prices of models.
pub trait CostModel: Send + Sync {
    /// The known price of a model.
    open spec fn priced(&self, model: Seq<char>) -> Option<ModelPrice> {
        arbitrary()
    }

    /// The price of a model, if it is known.
    fn price_for(&self, model: &str) -> (price: Option<ModelPrice>)
        ensures
            price == self.priced(model@),
    ;
}

/// A fixed list of prices.
pub struct StaticCostModel {
    prices: Arc<StringHashMap<ModelPrice>>,
}

impl View for StaticCostModel {
    type V = Map<Seq<char>, ModelPrice>;

    closed spec fn view(&self) -> Map<Seq<char>, ModelPrice> {
        self.prices@
    }
}

impl Clone for StaticCostModel {
    fn clone(&self) -> (copy: Self)
        ensures
            copy@ == self@,
    {
        StaticCostModel { prices: self.prices.clone() }
    }
}

/// Price of one model, as configured.
#[derive(Debug)]
pub struct PriceEntry {
    /// Name of the model.
    pub model: String,
    /// Price of input tokens.
    pub input_per_1m: RealBits,
    /// Price of output tokens.
    pub output_per_1m: RealBits,
}

impl Clone for PriceEntry {
    fn clone(&self) -> (copy: Self)
        ensures
            copy == *self,
    {
        PriceEntry {
            model: self.model.clone(),
            input_per_1m: self.input_per_1m,
            output_per_1m: self.output_per_1m,
        }
    }
}

impl PriceEntry {
    /// The price.
    pub open spec fn price(self) -> ModelPrice {
        ModelPrice { input_per_1m: self.input_per_1m, output_per_1m: self.output_per_1m }
    }

    /// The price.
    pub fn to_price(&self) -> (price: ModelPrice)
        ensures
            price == self.price(),
    {
        ModelPrice { input_per_1m: self.input_per_1m, output_per_1m: self.output_per_1m }
    }
}

/// Prices by the names of their models.
pub open spec fn price_list(entries: Seq<PriceEntry>) -> Seq<(Seq<char>, ModelPrice)> {
    entries.map_values(|entry: PriceEntry| (entry.model@, entry.price()))
}

impl StaticCostModel {
    /// A list of prices; of two for one model the later counts.
    pub fn new(entries: Vec<(String, ModelPrice)>) -> (model: Self)
        ensures
            model@ == named_map::entries_of(named_map::named(entries@)),
    {
        StaticCostModel { prices: Arc::new(map_of(&entries)) }
    }

    /// The prices of configured entries; of two for one model the later counts.
    pub fn from_entries(entries: &[PriceEntry]) -> (model: Self)
        ensures
            model@ == named_map::entries_of(price_list(entries@)),
    {
        let mut prices: Vec<(String, ModelPrice)> = Vec::new();
        let mut i: usize = 0;
        while i < entries.len()
            invariant
                i <= entries@.len(),
                prices@.len() == i,
                forall|k: int|
                    0 <= k < i ==> (#[trigger] prices@[k]).0@ == entries@[k].model@ && prices@[k].1
                        == entries@[k].price(),
            decreases entries@.len() - i,
        {
            prices.push((entries[i].model.clone(), entries[i].to_price()));
            i = i + 1;
        }
        assert(named_map::named(prices@) =~= price_list(entries@));
        StaticCostModel::new(prices)
    }

    /// Number of models with a price.
    pub fn len(&self) -> (n: usize)
        ensures
            n == self@.len(),
    {
        self.prices.len()
    }

    /// Whether no model has a price.
    pub fn is_empty(&self) -> (empty: bool)
        ensures
            empty == self@.is_empty(),
    {
        self.prices.is_empty()
    }
}

impl Default for StaticCostModel {
    fn default() -> (model: Self)
        ensures
            model@ == Map::<Seq<char>, ModelPrice>::empty(),
    {
        StaticCostModel { prices: Arc::new(StringHashMap::new()) }
    }
}

impl CostModel for StaticCostModel {
    open spec fn priced(&self, model: Seq<char>) -> Option<ModelPrice> {
        if self@.contains_key(model) {
            Some(self@[model])
        } else {
            None
        }
    }

    fn price_for(&self, model: &str) -> (price: Option<ModelPrice>) {
        match self.prices.get(model) {
            Some(price) => Some(*price),
            None => None,
        }
    }
}

/// Configuration of cost-aware routing.
#[derive(Clone, Debug)]
pub struct CostConfig {
    /// Whether costs take part in routing.
    pub enabled: bool,
    /// The prices.
    pub prices: Vec<PriceEntry>,
    /// Weight of the cost in a hybrid score.
    pub weight: RealBits,
    /// Scale on the expected output.
    pub output_cost_scale: RealBits,
    /// Whether a backend whose model has no price is left out.
    pub exclude_on_unknown_price: bool,
}

impl Default for CostConfig {
    fn default() -> (config: Self)
        ensures
            !config.enabled,
            config.prices@.len() == 0,
            config.weight == RealBits(0x3FC3_3333_3333_3333),
            config.output_cost_scale == RealBits(0x3FF0_0000_0000_0000),
            !config.exclude_on_unknown_price,
    {
        CostConfig {
            enabled: false,
            prices: Vec::new(),
            weight: RealBits(0x3FC3_3333_3333_3333),
            output_cost_scale: RealBits(0x3FF0_0000_0000_0000),
            exclude_on_unknown_price: false,
        }
    }
}

impl CostConfig {
    /// The configured prices.
    pub fn build_model(&self) -> (model: StaticCostModel)
        ensures
            model@ == named_map::entries_of(price_list(self.prices@)),
    {
        StaticCostModel::from_entries(self.prices.as_slice())
    }
}

/// A model costs what its last entry says, for input and for output, and has no price without one.
pub proof fn the_last_entry_of_a_model_prices_it(entries: Seq<PriceEntry>, i: int, model: Seq<char>)
    ensures
        ({
            let prices = named_map::entries_of(price_list(entries));
            &&& 0 <= i < entries.len() && entries[i].model@ == model && (forall|k: int|
                i < k < entries.len() ==> (#[trigger] entries[k]).model@ != model)
                ==> prices.contains_key(model) && prices[model].input_per_1m
                == entries[i].input_per_1m && prices[model].output_per_1m == entries[i].output_per_1m
            &&& (forall|k: int| 0 <= k < entries.len() ==> (#[trigger] entries[k]).model@ != model)
                ==> !prices.contains_key(model)
        }),
{
    let list = price_list(entries);
    assert forall|k: int| 0 <= k < list.len() implies (#[trigger] list[k]).0 == entries[k].model@ by {}
    named_map::the_last_item_of_a_name_counts(list, i, model);
}

} // verus!
