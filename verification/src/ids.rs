//! Identifiers of regions, backends, gateway instances, sessions and requests.
//!
//! An identifier is its text: two of them are the same when their texts are. Each type has a
//! [`View`] onto that text, and a key under which it is filed in a [`crate::table::Table`].

use vstd::prelude::*;
use vstd::string::*;

use crate::table::{KeyView, TableKey};
use crate::text;
use crate::text::{chars_of, cut, find_char, join};

verus! {

/// Region identifier.
#[derive(Debug, PartialEq, Eq, Hash, PartialOrd, Ord)]
pub struct RegionId(pub String);

impl View for RegionId {
    type V = Seq<char>;

    open spec fn view(&self) -> Seq<char> {
        self.0@
    }
}

impl Clone for RegionId {
    fn clone(&self) -> (copy: Self)
        ensures
            copy == *self,
    {
        RegionId(self.0.clone())
    }
}

impl RegionId {
    /// The region named `name`.
    pub fn new(name: &str) -> (id: Self)
        ensures
            id@ == name@,
    {
        RegionId(name.to_owned())
    }

    /// The region's name.
    pub fn as_str(&self) -> (text: &str)
        ensures
            text@ == self@,
    {
        self.0.as_str()
    }

    /// Whether both name the same region.
    pub fn same(&self, other: &RegionId) -> (equal: bool)
        ensures
            equal == (self@ == other@),
    {
        self.0 == other.0
    }

    /// The key of this region in a table.
    pub open spec fn key(&self) -> KeyView {
        (0u64, self@, Seq::<char>::empty())
    }

    /// The key of this region in a table.
    pub fn table_key(&self) -> (key: TableKey)
        ensures
            key@ == self.key(),
    {
        TableKey { number: 0, first: self.0.clone(), second: String::new() }
    }
}

impl From<String> for RegionId {
    fn from(name: String) -> (id: Self) {
        RegionId(name)
    }
}

impl vstd::std_specs::convert::FromSpecImpl<String> for RegionId {
    open spec fn obeys_from_spec() -> bool {
        true
    }

    open spec fn from_spec(name: String) -> Self {
        RegionId(name)
    }
}

impl From<&str> for RegionId {
    fn from(name: &str) -> (id: Self)
        ensures
            id@ == name@,
    {
        RegionId::new(name)
    }
}

impl vstd::std_specs::convert::FromSpecImpl<&str> for RegionId {
    open spec fn obeys_from_spec() -> bool {
        false
    }

    open spec fn from_spec(name: &str) -> Self {
        arbitrary()
    }
}

/// Tier of a region in the cloud / edge / device hierarchy.
#[derive(Clone, Copy, Debug, PartialEq, Eq, Hash, Structural)]
pub enum RegionTier {
    /// Cloud region, often the central scheduling node.
    Cloud,
    /// Edge region, an access point close to users.
    Edge,
    /// Region on terminal devices.
    Device,
}

/// Identifier of a backend process within its region.
#[derive(Debug, PartialEq, Eq, Hash, PartialOrd, Ord)]
pub struct BackendInstanceId(pub String);

impl View for BackendInstanceId {
    type V = Seq<char>;

    open spec fn view(&self) -> Seq<char> {
        self.0@
    }
}

impl Clone for BackendInstanceId {
    fn clone(&self) -> (copy: Self)
        ensures
            copy == *self,
    {
        BackendInstanceId(self.0.clone())
    }
}

impl BackendInstanceId {
    /// The instance named `name`.
    pub fn new(name: &str) -> (id: Self)
        ensures
            id@ == name@,
    {
        BackendInstanceId(name.to_owned())
    }

    /// The instance's name.
    pub fn as_str(&self) -> (text: &str)
        ensures
            text@ == self@,
    {
        self.0.as_str()
    }
}

impl From<String> for BackendInstanceId {
    fn from(name: String) -> (id: Self) {
        BackendInstanceId(name)
    }
}

impl vstd::std_specs::convert::FromSpecImpl<String> for BackendInstanceId {
    open spec fn obeys_from_spec() -> bool {
        true
    }

    open spec fn from_spec(name: String) -> Self {
        BackendInstanceId(name)
    }
}

impl From<&str> for BackendInstanceId {
    fn from(name: &str) -> (id: Self)
        ensures
            id@ == name@,
    {
        BackendInstanceId::new(name)
    }
}

impl vstd::std_specs::convert::FromSpecImpl<&str> for BackendInstanceId {
    open spec fn obeys_from_spec() -> bool {
        false
    }

    open spec fn from_spec(name: &str) -> Self {
        arbitrary()
    }
}

/// A backend: an instance within a region.
#[derive(Debug, PartialEq, Eq, Hash, PartialOrd, Ord)]
pub struct BackendId {
    /// Region the backend resides in.
    pub region: RegionId,
    /// Instance within that region.
    pub instance: BackendInstanceId,
}

/// A backend's two names: its region's and its instance's.
pub type BackendView = (Seq<char>, Seq<char>);

impl View for BackendId {
    type V = BackendView;

    open spec fn view(&self) -> BackendView {
        (self.region@, self.instance@)
    }
}

impl Clone for BackendId {
    fn clone(&self) -> (copy: Self)
        ensures
            copy == *self,
    {
        BackendId { region: self.region.clone(), instance: self.instance.clone() }
    }
}

/// The wire form of a backend: region, a slash, instance.
pub open spec fn backend_text(id: BackendView) -> Seq<char> {
    id.0 + seq!['/'] + id.1
}

/// What a text names: the parts before and after its first slash, when neither is empty.
pub open spec fn parse_backend(text: Seq<char>) -> Option<BackendView> {
    let slash = text::first_at(text, '/') as int;
    if 0 < slash && slash + 1 < text.len() {
        Some((text.subrange(0, slash), text.subrange(slash + 1, text.len() as int)))
    } else {
        None
    }
}

/// The key of a backend in a table.
pub open spec fn backend_key(id: BackendView) -> KeyView {
    (0u64, id.0, id.1)
}

impl BackendId {
    /// The backend `instance` of `region`.
    pub fn new(region: &str, instance: &str) -> (id: Self)
        ensures
            id@ == (region@, instance@),
    {
        BackendId { region: RegionId::new(region), instance: BackendInstanceId::new(instance) }
    }

    /// Reads `"<region>/<instance>"`, splitting at the first slash; both parts must be non-empty.
    pub fn parse(s: &str) -> (id: Option<Self>)
        ensures
            match id {
                Some(b) => parse_backend(s@) == Some(b@),
                None => parse_backend(s@) is None,
            },
    {
        let chars: Vec<char> = chars_of(s);
        let len: usize = chars.len();
        let slash: usize = find_char(chars.as_slice(), '/');
        if slash == 0 || slash >= len || slash + 1 >= len {
            return None;
        }
        let region: String = cut(s, 0, slash);
        let instance: String = cut(s, slash + 1, len);
        Some(BackendId { region: RegionId(region), instance: BackendInstanceId(instance) })
    }

    /// The wire form `"<region>/<instance>"`.
    pub fn to_text(&self) -> (text: String)
        ensures
            text@ == backend_text(self@),
    {
        proof {
            reveal_strlit("/");
        }
        let mut text: String = self.region.0.clone();
        text.append("/");
        text.append(self.instance.0.as_str());
        assert(text@ =~= backend_text(self@)) by {
            assert("/"@ =~= seq!['/']);
        }
        text
    }

    /// Whether both name the same backend.
    pub fn same(&self, other: &BackendId) -> (equal: bool)
        ensures
            equal == (self@ == other@),
    {
        self.region.0 == other.region.0 && self.instance.0 == other.instance.0
    }

    /// The key of this backend in a table.
    pub fn table_key(&self) -> (key: TableKey)
        ensures
            key@ == backend_key(self@),
    {
        TableKey { number: 0, first: self.region.0.clone(), second: self.instance.0.clone() }
    }
}

/// Reading the wire form of a backend gives the backend back, for every backend whose parts are
/// non-empty and whose region holds no slash.
pub proof fn parse_reads_back_text(id: BackendView)
    requires
        id.0.len() > 0,
        id.1.len() > 0,
        !id.0.contains('/'),
    ensures
        parse_backend(backend_text(id)) == Some(id),
{
    let text = backend_text(id);
    let at = id.0.len();
    assert forall|i: int| 0 <= i < at implies text[i] != '/' by {
        assert(text[i] == id.0[i]);
    }
    assert(text[at as int] == '/');
    text::lemma_first_at_unique(text, '/', at);
    assert(text.subrange(0, at as int) =~= id.0);
    assert(text.subrange(at as int + 1, text.len() as int) =~= id.1);
}

/// Every text that names a backend is that backend's wire form, so no two texts name one backend.
pub proof fn text_is_that_of_what_it_names(text: Seq<char>)
    requires
        parse_backend(text) is Some,
    ensures
        backend_text(parse_backend(text)->0) == text,
{
    text::lemma_first_at(text, '/');
    assert(backend_text(parse_backend(text)->0) =~= text);
}

/// What the `Debug` formatting of a text gives: the text in quotes, with special characters
/// escaped.
pub uninterp spec fn quoted_text(text: Seq<char>) -> Seq<char>;

/// A text in quotes, with special characters escaped, as the `Debug` implementation of `str`
/// writes it: the result depends on the text alone.
#[verifier::external_body]
fn quoted(text: &str) -> (quoted: String)
    ensures
        quoted@ == quoted_text(text@),
{
    format!("{:?}", text)
}

/// What is said of a text that names no backend.
pub open spec fn parse_error(text: Seq<char>) -> Seq<char> {
    "invalid backend id "@ + quoted_text(text) + ", expected '<region>/<instance>'"@
}

impl std::str::FromStr for BackendId {
    type Err = String;

    fn from_str(s: &str) -> (id: Result<Self, String>)
        ensures
            match id {
                Ok(b) => parse_backend(s@) == Some(b@),
                Err(error) => parse_backend(s@) is None && error@ == parse_error(s@),
            },
    {
        match BackendId::parse(s) {
            Some(id) => Ok(id),
            None => {
                let start: String = join("invalid backend id ", quoted(s).as_str());
                Err(join(start.as_str(), ", expected '<region>/<instance>'"))
            },
        }
    }
}

/// Identifier of an indexer domain, within which backends share a KV cache index.
#[derive(Clone, Copy, Debug, PartialEq, Eq, Hash, PartialOrd, Ord)]
pub struct IndexerDomainId(pub u64);

impl IndexerDomainId {
    /// The domain numbered `v`.
    pub fn new(v: u64) -> (id: Self)
        ensures
            id.0 == v,
    {
        IndexerDomainId(v)
    }

    /// The key of this domain in a table.
    pub open spec fn key(&self) -> KeyView {
        (self.0, Seq::<char>::empty(), Seq::<char>::empty())
    }

    /// The key of this domain in a table.
    pub fn table_key(&self) -> (key: TableKey)
        ensures
            key@ == self.key(),
    {
        TableKey { number: self.0, first: String::new(), second: String::new() }
    }
}

impl From<u64> for IndexerDomainId {
    fn from(v: u64) -> (id: Self) {
        IndexerDomainId(v)
    }
}

impl vstd::std_specs::convert::FromSpecImpl<u64> for IndexerDomainId {
    open spec fn obeys_from_spec() -> bool {
        true
    }

    open spec fn from_spec(v: u64) -> Self {
        IndexerDomainId(v)
    }
}

/// A pool: the backends of one indexer domain in one region.
#[derive(Debug, PartialEq, Eq, Hash)]
pub struct PoolId {
    /// Indexer domain shared by the pool.
    pub domain: IndexerDomainId,
    /// Region of the pool.
    pub region: RegionId,
}

impl View for PoolId {
    type V = (u64, Seq<char>);

    open spec fn view(&self) -> (u64, Seq<char>) {
        (self.domain.0, self.region@)
    }
}

impl Clone for PoolId {
    fn clone(&self) -> (copy: Self)
        ensures
            copy == *self,
    {
        PoolId { domain: self.domain, region: self.region.clone() }
    }
}

impl PoolId {
    /// The key of this pool in a table.
    pub open spec fn key(&self) -> KeyView {
        (self.domain.0, self.region@, Seq::<char>::empty())
    }

    /// The key of this pool in a table.
    pub fn table_key(&self) -> (key: TableKey)
        ensures
            key@ == self.key(),
    {
        TableKey { number: self.domain.0, first: self.region.0.clone(), second: String::new() }
    }
}

/// Identifier of a gateway instance.
#[derive(Debug, PartialEq, Eq, Hash)]
pub struct InstanceId(pub String);

impl View for InstanceId {
    type V = Seq<char>;

    open spec fn view(&self) -> Seq<char> {
        self.0@
    }
}

impl Clone for InstanceId {
    fn clone(&self) -> (copy: Self)
        ensures
            copy == *self,
    {
        InstanceId(self.0.clone())
    }
}

impl InstanceId {
    /// The gateway instance named `name`.
    pub fn new(name: &str) -> (id: Self)
        ensures
            id@ == name@,
    {
        InstanceId(name.to_owned())
    }

    /// The instance's name.
    pub fn as_str(&self) -> (text: &str)
        ensures
            text@ == self@,
    {
        self.0.as_str()
    }

    /// Whether both name the same gateway instance.
    pub fn same(&self, other: &InstanceId) -> (equal: bool)
        ensures
            equal == (self@ == other@),
    {
        self.0 == other.0
    }

    /// The key of this instance in a table.
    pub open spec fn key(&self) -> KeyView {
        (0u64, self@, Seq::<char>::empty())
    }

    /// The key of this instance in a table.
    pub fn table_key(&self) -> (key: TableKey)
        ensures
            key@ == self.key(),
    {
        TableKey { number: 0, first: self.0.clone(), second: String::new() }
    }
}

impl From<String> for InstanceId {
    fn from(name: String) -> (id: Self) {
        InstanceId(name)
    }
}

impl vstd::std_specs::convert::FromSpecImpl<String> for InstanceId {
    open spec fn obeys_from_spec() -> bool {
        true
    }

    open spec fn from_spec(name: String) -> Self {
        InstanceId(name)
    }
}

impl From<&str> for InstanceId {
    fn from(name: &str) -> (id: Self)
        ensures
            id@ == name@,
    {
        InstanceId::new(name)
    }
}

impl vstd::std_specs::convert::FromSpecImpl<&str> for InstanceId {
    open spec fn obeys_from_spec() -> bool {
        false
    }

    open spec fn from_spec(name: &str) -> Self {
        arbitrary()
    }
}

/// Identifier of a request.
#[derive(Debug, PartialEq, Eq, Hash)]
pub struct RequestId(pub String);

impl View for RequestId {
    type V = Seq<char>;

    open spec fn view(&self) -> Seq<char> {
        self.0@
    }
}

impl Clone for RequestId {
    fn clone(&self) -> (copy: Self)
        ensures
            copy == *self,
    {
        RequestId(self.0.clone())
    }
}

impl RequestId {
    /// The request named `name`.
    pub fn new(name: &str) -> (id: Self)
        ensures
            id@ == name@,
    {
        RequestId(name.to_owned())
    }

    /// The request's name.
    pub fn as_str(&self) -> (text: &str)
        ensures
            text@ == self@,
    {
        self.0.as_str()
    }
}

impl From<String> for RequestId {
    fn from(name: String) -> (id: Self) {
        RequestId(name)
    }
}

impl vstd::std_specs::convert::FromSpecImpl<String> for RequestId {
    open spec fn obeys_from_spec() -> bool {
        true
    }

    open spec fn from_spec(name: String) -> Self {
        RequestId(name)
    }
}

impl From<&str> for RequestId {
    fn from(name: &str) -> (id: Self)
        ensures
            id@ == name@,
    {
        RequestId::new(name)
    }
}

impl vstd::std_specs::convert::FromSpecImpl<&str> for RequestId {
    open spec fn obeys_from_spec() -> bool {
        false
    }

    open spec fn from_spec(name: &str) -> Self {
        arbitrary()
    }
}

/// Identifier of a session, whose requests prefer one backend's cache.
#[derive(Debug, PartialEq, Eq, Hash)]
pub struct SessionId(pub String);

impl View for SessionId {
    type V = Seq<char>;

    open spec fn view(&self) -> Seq<char> {
        self.0@
    }
}

impl Clone for SessionId {
    fn clone(&self) -> (copy: Self)
        ensures
            copy == *self,
    {
        SessionId(self.0.clone())
    }
}

impl SessionId {
    /// The session named `name`.
    pub fn new(name: &str) -> (id: Self)
        ensures
            id@ == name@,
    {
        SessionId(name.to_owned())
    }

    /// The session's name.
    pub fn as_str(&self) -> (text: &str)
        ensures
            text@ == self@,
    {
        self.0.as_str()
    }

    /// The key of this session in a table.
    pub open spec fn key(&self) -> KeyView {
        (0u64, self@, Seq::<char>::empty())
    }

    /// The key of this session in a table.
    pub fn table_key(&self) -> (key: TableKey)
        ensures
            key@ == self.key(),
    {
        TableKey { number: 0, first: self.0.clone(), second: String::new() }
    }
}

impl From<String> for SessionId {
    fn from(name: String) -> (id: Self) {
        SessionId(name)
    }
}

impl vstd::std_specs::convert::FromSpecImpl<String> for SessionId {
    open spec fn obeys_from_spec() -> bool {
        true
    }

    open spec fn from_spec(name: String) -> Self {
        SessionId(name)
    }
}

impl From<&str> for SessionId {
    fn from(name: &str) -> (id: Self)
        ensures
            id@ == name@,
    {
        SessionId::new(name)
    }
}

impl vstd::std_specs::convert::FromSpecImpl<&str> for SessionId {
    open spec fn obeys_from_spec() -> bool {
        false
    }

    open spec fn from_spec(name: &str) -> Self {
        arbitrary()
    }
}

/// Identifier of a tenant.
#[derive(Debug, PartialEq, Eq, Hash)]
pub struct TenantId(pub String);

impl View for TenantId {
    type V = Seq<char>;

    open spec fn view(&self) -> Seq<char> {
        self.0@
    }
}

impl Clone for TenantId {
    fn clone(&self) -> (copy: Self)
        ensures
            copy == *self,
    {
        TenantId(self.0.clone())
    }
}

impl TenantId {
    /// The tenant named `name`.
    pub fn new(name: &str) -> (id: Self)
        ensures
            id@ == name@,
    {
        TenantId(name.to_owned())
    }

    /// The tenant's name.
    pub fn as_str(&self) -> (text: &str)
        ensures
            text@ == self@,
    {
        self.0.as_str()
    }
}

impl From<String> for TenantId {
    fn from(name: String) -> (id: Self) {
        TenantId(name)
    }
}

impl vstd::std_specs::convert::FromSpecImpl<String> for TenantId {
    open spec fn obeys_from_spec() -> bool {
        true
    }

    open spec fn from_spec(name: String) -> Self {
        TenantId(name)
    }
}

impl From<&str> for TenantId {
    fn from(name: &str) -> (id: Self)
        ensures
            id@ == name@,
    {
        TenantId::new(name)
    }
}

impl vstd::std_specs::convert::FromSpecImpl<&str> for TenantId {
    open spec fn obeys_from_spec() -> bool {
        false
    }

    open spec fn from_spec(name: &str) -> Self {
        arbitrary()
    }
}

/// A worker and its rank in its data-parallel group.
#[derive(Clone, Copy, Debug, PartialEq, Eq, Hash, PartialOrd, Ord)]
pub struct WorkerWithRank {
    /// Global identifier of the worker.
    pub worker_id: u64,
    /// Data-parallel rank; 0 for the first rank, or without data parallelism.
    pub dp_rank: u32,
}

impl WorkerWithRank {
    /// The worker `worker_id` at `dp_rank`.
    pub fn new(worker_id: u64, dp_rank: u32) -> (worker: Self)
        ensures
            worker == (WorkerWithRank { worker_id, dp_rank }),
    {
        WorkerWithRank { worker_id, dp_rank }
    }

    /// The worker `worker_id` at rank 0.
    pub fn from_worker_id(worker_id: u64) -> (worker: Self)
        ensures
            worker == (WorkerWithRank { worker_id, dp_rank: 0 }),
    {
        WorkerWithRank { worker_id, dp_rank: 0 }
    }
}

/// A text names a backend only with a region and an instance, neither of them empty, and the region
/// ends at the first slash.
pub proof fn a_named_backend_has_both_parts(text: Seq<char>)
    ensures
        match parse_backend(text) {
            Some(id) => id.0.len() > 0 && id.1.len() > 0 && !id.0.contains('/'),
            None => !text.contains('/') || text[0] == '/' || (text.last() == '/' && forall|i: int|
                0 <= i < text.len() - 1 ==> text[i] != '/'),
        },
{
    text::lemma_first_at(text, '/');
    let slash = text::first_at(text, '/') as int;
    match parse_backend(text) {
        Some(id) => {
            if id.0.contains('/') {
                let i = id.0.index_of('/');
                assert(text[i] == '/');
            }
        },
        None => {
            if text.contains('/') {
                let i = text.index_of('/');
                assert(text[i] == '/');
                assert(slash <= i);
            }
        },
    }
}

/// Different identifiers have different keys.
pub proof fn keys_tell_identifiers_apart(
    a: BackendView,
    b: BackendView,
    region: RegionId,
    other_region: RegionId,
    pool: PoolId,
    other_pool: PoolId,
    domain: IndexerDomainId,
    other_domain: IndexerDomainId,
)
    ensures
        backend_key(a) == backend_key(b) <==> a == b,
        region.key() == other_region.key() <==> region@ == other_region@,
        pool.key() == other_pool.key() <==> pool.domain == other_pool.domain && pool.region@
            == other_pool.region@,
        domain.key() == other_domain.key() <==> domain == other_domain,
{
}

/// Different instances and sessions have different keys.
pub proof fn keys_tell_instances_apart(
    a: InstanceId,
    b: InstanceId,
    session: SessionId,
    other: SessionId,
)
    ensures
        a.key() == b.key() <==> a@ == b@,
        session.key() == other.key() <==> session@ == other@,
{
}

} // verus!
