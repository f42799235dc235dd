//! Which connector serves which backend.
//!
//! Connectors are numbered in the order in which they are registered. Each serves the backend that
//! it is anchored to, and may serve others.

use vstd::prelude::*;
use vstd::string::*;

use crate::backend::BackendType;
use crate::config::{BackendConfig, ForwardingConfig};
use crate::dynamo;
use crate::dynamo::DynamoConnectorConfig;
use crate::ids;
use crate::ids::{BackendId, BackendInstanceId, BackendView, RegionId};
use crate::openai_compat;
use crate::openai_compat::ConnectorProfile;
use crate::table;
use crate::table::{KeyView, Table};
use crate::text;
use crate::text::remove_all;

verus! {

/// The connector that a configured backend gets.
#[derive(Debug)]
pub enum ConnectorPlan {
    /// One for services that are compatible with the OpenAI API.
    OpenAiCompat(ConnectorProfile),
    /// One for SGLang servers.
    Sglang(ConnectorProfile),
    /// One for Dynamo workers.
    Dynamo(DynamoConnectorConfig),
}

/// The worker that a URL stands for: the URL without the name of its protocol.
pub open spec fn worker_of_url(url: Seq<char>) -> Seq<char> {
    openai_compat::instance_of_url(text::without_all(url, "nats://"@))
}

/// Whether a connection is the one for a configured backend.
pub open spec fn is_profile_for(
    profile: ConnectorProfile,
    config: BackendConfig,
    emit_token_ids: bool,
) -> bool {
    &&& profile.base_url@ == config.endpoint.url@
    &&& profile.backend_type == config.backend_type
    &&& profile.region == config.region
    &&& profile.instance_id@ == openai_compat::instance_of_url(config.endpoint.url@)
    &&& profile.models@ == config.models@
    &&& profile.kv_block_size == config.kv_block_size
    &&& profile.emit_token_ids == emit_token_ids
}

/// Whether a plan is the one for a configured backend.
pub open spec fn is_plan_for(
    plan: ConnectorPlan,
    config: BackendConfig,
    emit_token_ids: bool,
) -> bool {
    match config.backend_type {
        BackendType::SglangEngine => match plan {
            ConnectorPlan::Sglang(profile) => is_profile_for(profile, config, emit_token_ids),
            _ => false,
        },
        BackendType::DynamoEngine => match plan {
            ConnectorPlan::Dynamo(worker) => {
                &&& worker.nats_url == config.endpoint.url
                &&& worker.subject_prefix@ == dynamo::DEFAULT_DYNAMO_SUBJECT_PREFIX@
                &&& worker.region == config.region
                &&& worker.instance_id@ == worker_of_url(config.endpoint.url@)
                &&& worker.models@ == config.models@
                &&& worker.kv_block_size == config.kv_block_size
                &&& worker.request_timeout_ms is None
            },
            _ => false,
        },
        _ => match plan {
            ConnectorPlan::OpenAiCompat(profile) => is_profile_for(
                profile,
                config,
                emit_token_ids,
            ),
            _ => false,
        },
    }
}

fn copy_names(names: &Vec<String>) -> (copy: Vec<String>)
    ensures
        copy@ == names@,
{
    let copy: Vec<String> = names.clone();
    assert(copy@ =~= names@);
    copy
}

/// The connector that a configured backend gets.
pub fn plan_connector(config: &BackendConfig, forwarding: &ForwardingConfig) -> (plan:
    ConnectorPlan)
    ensures
        is_plan_for(plan, *config, forwarding.emit_token_ids),
{
    match config.backend_type {
        BackendType::DynamoEngine => {
            let url: String = remove_all(config.endpoint.url.as_str(), "nats://");
            let instance_id: BackendInstanceId = openai_compat::url_instance(url.as_str());
            ConnectorPlan::Dynamo(
                DynamoConnectorConfig::from_endpoint(
                    &config.endpoint,
                    &config.region,
                    instance_id,
                    copy_names(&config.models),
                    config.kv_block_size,
                ),
            )
        },
        _ => {
            let profile: ConnectorProfile = ConnectorProfile::from_endpoint(
                &config.endpoint,
                config.backend_type,
                &config.region,
                copy_names(&config.models),
                config.kv_block_size,
            ).with_emit_token_ids(forwarding.emit_token_ids);
            match config.backend_type {
                BackendType::SglangEngine => ConnectorPlan::Sglang(profile),
                _ => ConnectorPlan::OpenAiCompat(profile),
            }
        },
    }
}

impl ConnectorPlan {
    /// The backend that the connector is anchored to.
    pub open spec fn anchor(self) -> BackendView {
        match self {
            ConnectorPlan::OpenAiCompat(profile) => (profile.region@, profile.instance_id@),
            ConnectorPlan::Sglang(profile) => (profile.region@, profile.instance_id@),
            ConnectorPlan::Dynamo(worker) => (worker.region@, worker.instance_id@),
        }
    }

    /// Type of the backend.
    pub open spec fn kind(self) -> BackendType {
        match self {
            ConnectorPlan::OpenAiCompat(profile) => profile.backend_type,
            ConnectorPlan::Sglang(profile) => profile.backend_type,
            ConnectorPlan::Dynamo(_) => BackendType::DynamoEngine,
        }
    }

    /// The backend that the connector is anchored to.
    pub fn backend_id(&self) -> (id: BackendId)
        ensures
            id@ == self.anchor(),
    {
        match self {
            ConnectorPlan::OpenAiCompat(profile) => profile.backend_id(),
            ConnectorPlan::Sglang(profile) => profile.backend_id(),
            ConnectorPlan::Dynamo(worker) => worker.backend_id(),
        }
    }

    /// Type of the backend.
    pub fn backend_type(&self) -> (kind: BackendType)
        ensures
            kind == self.kind(),
    {
        match self {
            ConnectorPlan::OpenAiCompat(profile) => profile.backend_type,
            ConnectorPlan::Sglang(profile) => profile.backend_type,
            ConnectorPlan::Dynamo(_) => BackendType::DynamoEngine,
        }
    }

    /// Whether the backend tells of the blocks that it stores and removes: only Dynamo workers do.
    pub fn supports_kv_events(&self) -> (supported: bool)
        ensures
            supported == (self is Dynamo),
    {
        match self {
            ConnectorPlan::Dynamo(_) => true,
            _ => false,
        }
    }
}

/// A connector.
#[derive(Debug)]
struct Anchor {
    id: BackendId,
    backend_type: BackendType,
}

/// Connectors and the backends that they serve.
#[verifier::ext_equal]
pub struct ConnectorsView {
    /// The backend that each connector is anchored to, and its type.
    pub connectors: Seq<(BackendView, BackendType)>,
    /// The connector that serves each backend.
    pub backends: Map<KeyView, int>,
}

impl ConnectorsView {
    /// Whether a connector serves any backend.
    pub open spec fn serves(self, slot: int) -> bool {
        exists|key: KeyView| #[trigger]
            self.backends.contains_key(key) && self.backends[key] == slot
    }

    /// With another connector.
    pub open spec fn register(self, id: BackendView, backend_type: BackendType) -> ConnectorsView {
        ConnectorsView {
            connectors: self.connectors.push((id, backend_type)),
            backends: self.backends.insert(
                ids::backend_key(id),
                self.connectors.len() as int,
            ),
        }
    }

    /// With another backend for a connector, unless the backend has one.
    pub open spec fn alias(self, id: BackendView, slot: int) -> ConnectorsView {
        if self.backends.contains_key(ids::backend_key(id)) {
            self
        } else {
            ConnectorsView {
                backends: self.backends.insert(ids::backend_key(id), slot),
                ..self
            }
        }
    }

    /// Whether a connector that serves a backend is of a type.
    pub open spec fn covers(self, backend_type: BackendType) -> bool {
        exists|slot: int| #[trigger] self.serves(slot) && self.connectors[slot].1 == backend_type
    }
}

/// All types, by their names.
pub open spec fn all_types() -> Seq<BackendType> {
    seq![
        BackendType::DynamoEngine,
        BackendType::GenericOpenAI,
        BackendType::LlamaCppEngine,
        BackendType::LlmDCluster,
        BackendType::SglangEngine,
        BackendType::VllmEngine,
    ]
}

fn type_at(i: usize) -> (backend_type: BackendType)
    requires
        i < all_types().len(),
    ensures
        backend_type == all_types()[i as int],
{
    if i == 0 {
        BackendType::DynamoEngine
    } else if i == 1 {
        BackendType::GenericOpenAI
    } else if i == 2 {
        BackendType::LlamaCppEngine
    } else if i == 3 {
        BackendType::LlmDCluster
    } else if i == 4 {
        BackendType::SglangEngine
    } else {
        BackendType::VllmEngine
    }
}

/// Whether a list holds, for each backend that a serving connector is anchored to, one such
/// connector, in the order of their numbers.
pub open spec fn lists_connectors(list: Seq<usize>, registry: ConnectorsView) -> bool {
    &&& forall|i: int, j: int|
        #![trigger list[i], list[j]]
        0 <= i < j < list.len() ==> list[i] < list[j] && registry.connectors[list[i] as int].0
            != registry.connectors[list[j] as int].0
    &&& forall|i: int| 0 <= i < list.len() ==> registry.serves((#[trigger] list[i]) as int)
    &&& forall|slot: int| #[trigger]
        registry.serves(slot) ==> exists|i: int|
            0 <= i < list.len() && registry.connectors[(#[trigger] list[i]) as int].0
                == registry.connectors[slot].0
}

/// Connectors and the backends that they serve.
pub struct ConnectorRegistry {
    connectors: Vec<Anchor>,
    by_backend: Table<usize>,
}

impl View for ConnectorRegistry {
    type V = ConnectorsView;

    closed spec fn view(&self) -> ConnectorsView {
        ConnectorsView {
            connectors: self.connectors@.map_values(
                |anchor: Anchor| (anchor.id@, anchor.backend_type),
            ),
            backends: self.by_backend@.map_values(|slot: usize| slot as int),
        }
    }
}

impl ConnectorRegistry {
    /// Every backend is served by a connector that there is.
    pub closed spec fn wf(&self) -> bool {
        &&& self.by_backend.wf()
        &&& forall|key: KeyView| #[trigger]
            self.by_backend@.contains_key(key) ==> self.by_backend@[key] < self.connectors@.len()
    }

    /// No connectors.
    pub fn new() -> (registry: Self)
        ensures
            registry.wf(),
            registry@ == (ConnectorsView { connectors: Seq::empty(), backends: Map::empty() }),
    {
        let registry = ConnectorRegistry { connectors: Vec::new(), by_backend: Table::new() };
        proof {
            assert(registry@.connectors =~= Seq::empty());
            assert(registry@.backends =~= Map::empty());
        }
        registry
    }

    /// Registers a connector for the backend that it is anchored to, in place of any other; tells
    /// its number.
    pub fn register(&mut self, id: &BackendId, backend_type: BackendType) -> (slot: usize)
        requires
            old(self).wf(),
        ensures
            final(self).wf(),
            slot == old(self)@.connectors.len(),
            final(self)@ == old(self)@.register(id@, backend_type),
    {
        let slot: usize = self.connectors.len();
        self.connectors.push(Anchor { id: id.clone(), backend_type });
        self.by_backend.insert(id.table_key(), slot);
        proof {
            assert(self@.connectors =~= old(self)@.connectors.push((id@, backend_type)));
            assert(self@.backends =~= old(self)@.register(id@, backend_type).backends);
        }
        slot
    }

    /// Takes in a connector that serves no backend yet; tells its number.
    pub fn connect(&mut self, id: &BackendId, backend_type: BackendType) -> (slot: usize)
        requires
            old(self).wf(),
        ensures
            final(self).wf(),
            slot == old(self)@.connectors.len(),
            final(self)@ == (ConnectorsView {
                connectors: old(self)@.connectors.push((id@, backend_type)),
                ..old(self)@
            }),
    {
        let slot: usize = self.connectors.len();
        self.connectors.push(Anchor { id: id.clone(), backend_type });
        proof {
            assert(self@.connectors =~= old(self)@.connectors.push((id@, backend_type)));
        }
        slot
    }

    /// Lets a connector serve another backend, unless that backend has a connector.
    pub fn register_alias(&mut self, id: &BackendId, slot: usize)
        requires
            old(self).wf(),
            slot < old(self)@.connectors.len(),
        ensures
            final(self).wf(),
            final(self)@ == old(self)@.alias(id@, slot as int),
    {
        if !self.by_backend.contains(&id.table_key()) {
            self.by_backend.insert(id.table_key(), slot);
        }
        proof {
            assert(self@.backends =~= old(self)@.alias(id@, slot as int).backends);
        }
    }

    /// The connector that serves a backend.
    pub fn get(&self, backend: &BackendId) -> (slot: Option<usize>)
        requires
            self.wf(),
        ensures
            match slot {
                Some(i) => i < self@.connectors.len() && self@.backends.contains_key(
                    ids::backend_key(backend@),
                ) && self@.backends[ids::backend_key(backend@)] == i,
                None => !self@.backends.contains_key(ids::backend_key(backend@)),
            },
    {
        match self.by_backend.get(&backend.table_key()) {
            Some(slot) => Some(*slot),
            None => None,
        }
    }

    fn serving(&self) -> (marks: Vec<bool>)
        requires
            self.wf(),
        ensures
            marks@.len() == self@.connectors.len(),
            forall|slot: int|
                0 <= slot < marks@.len() ==> #[trigger] marks@[slot] == self@.serves(slot),
            forall|slot: int| #[trigger] self@.serves(slot) ==> 0 <= slot < marks@.len(),
    {
        let total: usize = self.connectors.len();
        let mut marks: Vec<bool> = Vec::new();
        let mut i: usize = 0;
        while i < total
            invariant
                i <= total,
                marks@.len() == i,
                forall|k: int| 0 <= k < i ==> !#[trigger] marks@[k],
            decreases total - i,
        {
            marks.push(false);
            i = i + 1;
        }
        let n: usize = self.by_backend.len();
        let ghost rows = self.by_backend.rows();
        proof {
            self.by_backend.lemma_rows();
        }
        let mut k: usize = 0;
        while k < n
            invariant
                k <= n,
                n == rows.len(),
                total == self.connectors@.len(),
                marks@.len() == total,
                self.wf(),
                rows == self.by_backend.rows(),
                table::rows_hold(rows, self.by_backend@),
                forall|slot: int|
                    0 <= slot < total ==> (#[trigger] marks@[slot] <==> exists|r: int|
                        0 <= r < k && (#[trigger] rows[r]).1 == slot),
            decreases n - k,
        {
            let slot: usize = *self.by_backend.value_at(k);
            let ghost before = marks@;
            proof {
                assert(self.by_backend@.contains_key(rows[k as int].0));
            }
            marks.set(slot, true);
            proof {
                assert forall|s: int| 0 <= s < total implies (#[trigger] marks@[s] <==> exists|
                    r: int,
                |
                    0 <= r < k + 1 && (#[trigger] rows[r]).1 == s) by {
                    if s == slot {
                        assert(rows[k as int].1 == s);
                    } else if before[s] {
                        let r = choose|r: int| 0 <= r < k && (#[trigger] rows[r]).1 == s;
                        assert(rows[r].1 == s);
                    } else if exists|r: int| 0 <= r < k + 1 && (#[trigger] rows[r]).1 == s {
                        let r = choose|r: int| 0 <= r < k + 1 && (#[trigger] rows[r]).1 == s;
                        assert(r < k);
                        assert(before[s]);
                    }
                }
            }
            k = k + 1;
        }
        proof {
            assert forall|slot: int| #[trigger] self@.serves(slot) implies 0 <= slot
                < marks@.len() by {
                let key = choose|key: KeyView| #[trigger]
                    self@.backends.contains_key(key) && self@.backends[key] == slot;
                assert(self.by_backend@.contains_key(key));
            }
            assert forall|slot: int| 0 <= slot < marks@.len() implies #[trigger] marks@[slot]
                == self@.serves(slot) by {
                if marks@[slot] {
                    let r = choose|r: int| 0 <= r < n && (#[trigger] rows[r]).1 == slot;
                    assert(self.by_backend@.contains_key(rows[r].0));
                    assert(self@.backends.contains_key(rows[r].0));
                }
                if self@.serves(slot) {
                    let key = choose|key: KeyView| #[trigger]
                        self@.backends.contains_key(key) && self@.backends[key] == slot;
                    assert(self.by_backend@.contains_key(key));
                    let r = choose|r: int| 0 <= r < rows.len() && (#[trigger] rows[r]).0 == key;
                    assert(rows[r].1 == slot);
                }
            }
        }
        marks
    }

    /// The connectors that serve any backend, one for each backend that they are anchored to.
    pub fn all(&self) -> (list: Vec<usize>)
        requires
            self.wf(),
        ensures
            lists_connectors(list@, self@),
    {
        let marks: Vec<bool> = self.serving();
        let total: usize = marks.len();
        let mut list: Vec<usize> = Vec::new();
        let mut i: usize = 0;
        while i < total
            invariant
                i <= total,
                total == marks@.len(),
                total == self.connectors@.len(),
                forall|slot: int|
                    0 <= slot < total ==> #[trigger] marks@[slot] == self@.serves(slot),
                forall|a: int|
                    0 <= a < list@.len() ==> (#[trigger] list@[a]) < i && self@.serves(
                        list@[a] as int,
                    ),
                forall|a: int, b: int|
                    #![trigger list@[a], list@[b]]
                    0 <= a < b < list@.len() ==> list@[a] < list@[b]
                        && self@.connectors[list@[a] as int].0
                        != self@.connectors[list@[b] as int].0,
                forall|slot: int|
                    0 <= slot < i && #[trigger] self@.serves(slot) ==> exists|a: int|
                        0 <= a < list@.len() && self@.connectors[(#[trigger] list@[a]) as int].0
                            == self@.connectors[slot].0,
            decreases total - i,
        {
            let ghost before = list@;
            if marks[i] {
                let mut known: bool = false;
                let mut a: usize = 0;
                while a < list.len() && !known
                    invariant
                        a <= list@.len(),
                        i < self.connectors@.len(),
                        forall|b: int|
                            0 <= b < list@.len() ==> (#[trigger] list@[b])
                                < self.connectors@.len(),
                        known ==> exists|b: int|
                            0 <= b < list@.len()
                                && self@.connectors[(#[trigger] list@[b]) as int].0
                                == self@.connectors[i as int].0,
                        !known ==> forall|b: int|
                            0 <= b < a ==> self@.connectors[(#[trigger] list@[b]) as int].0
                                != self@.connectors[i as int].0,
                    decreases list@.len() - a + if known {
                        0int
                    } else {
                        1
                    },
                {
                    if self.connectors[list[a]].id.same(&self.connectors[i].id) {
                        known = true;
                        assert(self@.connectors[list@[a as int] as int].0
                            == self@.connectors[i as int].0);
                    } else {
                        a = a + 1;
                    }
                }
                if !known {
                    list.push(i);
                }
                proof {
                    assert forall|slot: int| 0 <= slot < i + 1 && #[trigger] self@.serves(
                        slot,
                    ) implies exists|a: int|
                        0 <= a < list@.len() && self@.connectors[(#[trigger] list@[a]) as int].0
                            == self@.connectors[slot].0 by {
                        if slot < i {
                            let b = choose|b: int|
                                0 <= b < before.len()
                                    && self@.connectors[(#[trigger] before[b]) as int].0
                                    == self@.connectors[slot].0;
                            assert(list@[b] == before[b]);
                        } else if !known {
                            assert(list@[before.len() as int] == i);
                        }
                    }
                }
            }
            i = i + 1;
        }
        list
    }

    /// The types of the connectors that serve any backend, by their names.
    pub fn registered_types(&self) -> (types: Vec<BackendType>)
        requires
            self.wf(),
        ensures
            types@ == all_types().filter(|kind: BackendType| self@.covers(kind)),
    {
        let marks: Vec<bool> = self.serving();
        let ghost wanted = |kind: BackendType| self@.covers(kind);
        let mut types: Vec<BackendType> = Vec::new();
        let mut t: usize = 0;
        proof {
            assert(all_types().take(0) =~= Seq::empty());
            assert(all_types().take(0).filter(wanted) =~= Seq::empty()) by {
                reveal(Seq::filter);
            }
        }
        while t < 6
            invariant
                t <= 6,
                marks@.len() == self.connectors@.len(),
                wanted == (|kind: BackendType| self@.covers(kind)),
                forall|slot: int|
                    0 <= slot < marks@.len() ==> #[trigger] marks@[slot] == self@.serves(slot),
                forall|slot: int| #[trigger] self@.serves(slot) ==> 0 <= slot < marks@.len(),
                types@ == all_types().take(t as int).filter(wanted),
            decreases 6 - t,
        {
            let kind: BackendType = type_at(t);
            let mut found: bool = false;
            let mut i: usize = 0;
            while i < marks.len() && !found
                invariant
                    i <= marks@.len(),
                    marks@.len() == self.connectors@.len(),
                    forall|slot: int|
                        0 <= slot < marks@.len() ==> #[trigger] marks@[slot] == self@.serves(slot),
                    found ==> self@.covers(kind),
                    !found ==> forall|slot: int|
                        0 <= slot < i && #[trigger] self@.serves(slot)
                            ==> self@.connectors[slot].1 != kind,
                decreases marks@.len() - i + if found {
                    0int
                } else {
                    1
                },
            {
                if marks[i] && self.connectors[i].backend_type == kind {
                    found = true;
                    assert(self@.serves(i as int) && self@.connectors[i as int].1 == kind);
                } else {
                    i = i + 1;
                }
            }
            assert(found == self@.covers(kind));
            if found {
                types.push(kind);
            }
            proof {
                let longer = all_types().take(t + 1);
                assert(longer.drop_last() =~= all_types().take(t as int));
                assert(longer.last() == kind);
                assert(longer.filter(wanted) == if wanted(longer.last()) {
                    longer.drop_last().filter(wanted).push(longer.last())
                } else {
                    longer.drop_last().filter(wanted)
                }) by {
                    reveal(Seq::filter);
                }
            }
            t = t + 1;
        }
        proof {
            assert(all_types().take(6) =~= all_types());
        }
        types
    }

    /// The connectors for configured backends: the plan of each, and a registry in which it is
    /// registered under its number.
    pub fn from_configs(
        configs: &[BackendConfig],
        _region: &RegionId,
        forwarding: &ForwardingConfig,
    ) -> (planned: (Self, Vec<ConnectorPlan>))
        ensures
            planned.0.wf(),
            planned.1@.len() == configs@.len(),
            forall|i: int|
                0 <= i < configs@.len() ==> is_plan_for(
                    #[trigger] planned.1@[i],
                    configs@[i],
                    forwarding.emit_token_ids,
                ),
            planned.0@ == registered(planned.1@),
    {
        let mut registry: ConnectorRegistry = ConnectorRegistry::new();
        let mut plans: Vec<ConnectorPlan> = Vec::new();
        let mut i: usize = 0;
        proof {
            assert(registry@ =~= registered(plans@));
        }
        while i < configs.len()
            invariant
                i <= configs@.len(),
                registry.wf(),
                plans@.len() == i,
                forall|k: int|
                    0 <= k < i ==> is_plan_for(
                        #[trigger] plans@[k],
                        configs@[k],
                        forwarding.emit_token_ids,
                    ),
                registry@ == registered(plans@),
            decreases configs@.len() - i,
        {
            let plan: ConnectorPlan = plan_connector(&configs[i], forwarding);
            let ghost before = plans@;
            registry.register(&plan.backend_id(), plan.backend_type());
            plans.push(plan);
            proof {
                assert(plans@.drop_last() =~= before);
            }
            i = i + 1;
        }
        (registry, plans)
    }
}

/// The registry of planned connectors, registered in order.
pub open spec fn registered(plans: Seq<ConnectorPlan>) -> ConnectorsView
    decreases plans.len(),
{
    if plans.len() == 0 {
        ConnectorsView { connectors: Seq::empty(), backends: Map::empty() }
    } else {
        registered(plans.drop_last()).register(plans.last().anchor(), plans.last().kind())
    }
}

impl Default for ConnectorRegistry {
    fn default() -> (registry: Self)
        ensures
            registry.wf(),
            registry@ == (ConnectorsView { connectors: Seq::empty(), backends: Map::empty() }),
    {
        ConnectorRegistry::new()
    }
}

/// Registering a connector leaves the connectors of all other backends as they are, whatever their
/// types.
pub proof fn backends_keep_their_connectors(
    registry: ConnectorsView,
    id: BackendView,
    backend_type: BackendType,
    other: KeyView,
)
    requires
        other != ids::backend_key(id),
    ensures
        registry.register(id, backend_type).backends.contains_key(other)
            == registry.backends.contains_key(other),
        registry.register(id, backend_type).backends[other] == registry.backends[other],
{
}

/// A backend that has a connector keeps it when another connector is to serve it too.
pub proof fn an_alias_replaces_nothing(registry: ConnectorsView, id: BackendView, slot: int)
    requires
        registry.backends.contains_key(ids::backend_key(id)),
    ensures
        registry.alias(id, slot) == registry,
{
}

/// A backend that is registered is served by a new connector of its type, behind all that were there;
/// they stay as they were.
pub proof fn a_registered_backend_has_a_new_connector(
    registry: ConnectorsView,
    id: BackendView,
    backend_type: BackendType,
    slot: int,
)
    ensures
        ({
            let after = registry.register(id, backend_type);
            let new = registry.connectors.len() as int;
            &&& after.connectors.len() == new + 1
            &&& after.connectors[new] == (id, backend_type)
            &&& after.backends.contains_key(ids::backend_key(id))
            &&& after.backends[ids::backend_key(id)] == new
            &&& 0 <= slot < new ==> after.connectors[slot] == registry.connectors[slot]
        }),
{
}

/// An alias of a backend that is not known is served by the given connector; nothing else changes.
pub proof fn an_alias_is_served_by_its_connector(
    registry: ConnectorsView,
    id: BackendView,
    slot: int,
    other: KeyView,
)
    requires
        !registry.backends.contains_key(ids::backend_key(id)),
        other != ids::backend_key(id),
    ensures
        ({
            let after = registry.alias(id, slot);
            &&& after.backends.contains_key(ids::backend_key(id))
            &&& after.backends[ids::backend_key(id)] == slot
            &&& after.connectors == registry.connectors
            &&& after.backends.contains_key(other) == registry.backends.contains_key(other)
            &&& after.backends[other] == registry.backends[other]
        }),
{
}

/// A plan is made for what its configuration says: the connector of the backend's type, at its
/// address, in its region, for its models and with its block size.
pub proof fn a_plan_is_made_for_its_configuration(
    plan: ConnectorPlan,
    config: BackendConfig,
    emit_token_ids: bool,
)
    requires
        is_plan_for(plan, config, emit_token_ids),
    ensures
        plan.kind() == config.backend_type,
        plan.anchor().0 == config.region@,
        plan is Dynamo <==> config.backend_type == BackendType::DynamoEngine,
        plan is Sglang <==> config.backend_type == BackendType::SglangEngine,
        match plan {
            ConnectorPlan::Dynamo(worker) => worker.nats_url@ == config.endpoint.url@
                && worker.models@ == config.models@ && worker.kv_block_size == config.kv_block_size
                && plan.anchor().1 == worker.instance_id@,
            ConnectorPlan::OpenAiCompat(profile) => profile.base_url@ == config.endpoint.url@
                && profile.models@ == config.models@ && profile.kv_block_size
                == config.kv_block_size && profile.emit_token_ids == emit_token_ids
                && plan.anchor().1 == profile.instance_id@,
            ConnectorPlan::Sglang(profile) => profile.base_url@ == config.endpoint.url@
                && profile.models@ == config.models@ && profile.kv_block_size
                == config.kv_block_size && profile.emit_token_ids == emit_token_ids
                && plan.anchor().1 == profile.instance_id@,
        },
{
}

/// Plans have their connectors in order, each under its own number; a backend with several is served
/// by the last.
pub proof fn plans_are_registered_in_order(plans: Seq<ConnectorPlan>, i: int)
    ensures
        registered(plans).connectors.len() == plans.len(),
        0 <= i < plans.len() ==> registered(plans).connectors[i] == (
            plans[i].anchor(),
            plans[i].kind(),
        ),
        0 <= i < plans.len() && (forall|j: int|
            i < j < plans.len() ==> (#[trigger] plans[j]).anchor() != plans[i].anchor())
            ==> registered(plans).backends.contains_key(ids::backend_key(plans[i].anchor()))
            && registered(plans).backends[ids::backend_key(plans[i].anchor())] == i,
    decreases plans.len(),
{
    if plans.len() > 0 {
        plans_are_registered_in_order(plans.drop_last(), i);
        assert(plans[plans.len() - 1] == plans.last());
        if 0 <= i < plans.len() - 1 {
            assert(plans.drop_last()[i] == plans[i]);
        }
    }
}

/// All types of backends are listed, each once.
pub proof fn every_type_is_listed(backend_type: BackendType, i: int, j: int)
    ensures
        all_types().contains(backend_type),
        0 <= i < j < all_types().len() ==> all_types()[i] != all_types()[j],
{
    assert(all_types()[0] == BackendType::DynamoEngine);
    assert(all_types()[1] == BackendType::GenericOpenAI);
    assert(all_types()[2] == BackendType::LlamaCppEngine);
    assert(all_types()[3] == BackendType::LlmDCluster);
    assert(all_types()[4] == BackendType::SglangEngine);
    assert(all_types()[5] == BackendType::VllmEngine);
}

/// A worker is named after its host, whichever of the schemes its address has.
pub proof fn a_worker_is_named_after_its_host(host: Seq<char>)
    requires
        !host.contains('/'),
    ensures
        worker_of_url("nats://"@ + host) == host,
        worker_of_url(host) == host,
{
    reveal_strlit("nats://");
    openai_compat::a_backend_is_named_after_its_host(host);
    let url = "nats://"@ + host;
    assert(url.skip(0) =~= url);
    assert(url.take(7) =~= "nats://"@);
    assert(url.skip(7) =~= host);
    assert forall|i: int|
        #![trigger host.skip(i)]
        0 <= i < host.len() && i + 7 <= host.len() implies host.skip(i).take(7) != "nats://"@ by {
        assert(host.skip(i).take(7)[6] == host[i + 6]);
        assert(host.contains(host[i + 6]));
    }
    text::a_part_is_taken_out_where_it_occurs(host, "nats://"@, host.len() as int);
    text::a_part_is_taken_out_where_it_occurs(url, "nats://"@, 0);
    assert(url.take(0) + host =~= host);
}

/// A plan is named after its host, whichever of the schemes its address has.
pub proof fn a_plan_is_named_after_its_host(
    plan: ConnectorPlan,
    config: BackendConfig,
    emit_token_ids: bool,
    host: Seq<char>,
)
    requires
        is_plan_for(plan, config, emit_token_ids),
        !host.contains('/'),
        plan is Dynamo ==> config.endpoint.url@ == "nats://"@ + host,
        !(plan is Dynamo) ==> config.endpoint.url@ == "http://"@ + host || config.endpoint.url@
            == "https://"@ + host,
    ensures
        plan.anchor() == (config.region@, host),
{
    a_worker_is_named_after_its_host(host);
    openai_compat::a_backend_is_named_after_its_host(host);
}

/// A connector serves as long as some backend is served by it; a type of backend is covered as long as a
/// connector of the type serves. The list of connectors holds one that serves for each that does, and
/// no two of one name.
pub proof fn every_backend_is_served_by_a_listed_connector(
    list: Seq<usize>,
    registry: ConnectorsView,
    key: KeyView,
    i: int,
    j: int,
)
    requires
        lists_connectors(list, registry),
    ensures
        registry.backends.contains_key(key) ==> registry.serves(registry.backends[key])
            && registry.covers(registry.connectors[registry.backends[key]].1) && exists|k: int|
            0 <= k < list.len() && registry.connectors[(#[trigger] list[k]) as int].0
                == registry.connectors[registry.backends[key]].0,
        0 <= i < list.len() ==> exists|k: KeyView| #[trigger]
            registry.backends.contains_key(k) && registry.backends[k] == list[i],
        0 <= i < j < list.len() ==> registry.connectors[list[i] as int].0
            != registry.connectors[list[j] as int].0,
{
    if registry.backends.contains_key(key) {
        assert(registry.serves(registry.backends[key]));
    }
    if 0 <= i < list.len() {
        assert(registry.serves(list[i] as int));
    }
}

/// A type is covered if and only if some backend is served by a connector of the type.
pub proof fn a_type_is_covered_by_its_connectors(registry: ConnectorsView, kind: BackendType)
    ensures
        registry.covers(kind) <==> exists|key: KeyView| #[trigger]
            registry.backends.contains_key(key) && registry.connectors[registry.backends[key]].1
                == kind,
{
    if registry.covers(kind) {
        let slot = choose|slot: int| #[trigger]
            registry.serves(slot) && registry.connectors[slot].1 == kind;
        let key = choose|key: KeyView| #[trigger]
            registry.backends.contains_key(key) && registry.backends[key] == slot;
        assert(registry.backends.contains_key(key));
    }
    if exists|key: KeyView| #[trigger]
        registry.backends.contains_key(key) && registry.connectors[registry.backends[key]].1
            == kind {
        let key = choose|key: KeyView| #[trigger]
            registry.backends.contains_key(key) && registry.connectors[registry.backends[key]].1
                == kind;
        assert(registry.serves(registry.backends[key]));
    }
}

} // verus!
