//! Members of a cluster.
//!
//! A member is alive while it answers, suspected when it has been silent for a while, and dead
//! when it stays silent.

use rand::seq::SliceRandom;
use vstd::prelude::*;

use crate::ids::{InstanceId, RegionId};
use crate::messages::MetaDigest;
use crate::table;
use crate::table::{KeyView, Table};

verus! {

/// Whether a member answers.
#[derive(Clone, Copy, Debug, PartialEq, Eq, Hash, Structural)]
pub enum MemberStatus {
    /// It does.
    Alive,
    /// It has been silent for a while.
    Suspect,
    /// It has stayed silent.
    Dead,
}

/// A member of a cluster.
#[derive(Debug)]
pub struct ClusterMember {
    /// The member.
    pub instance_id: InstanceId,
    /// Its region.
    pub region: RegionId,
    /// Where it is reached.
    pub addr: String,
    /// When it was last heard of, in Unix milliseconds.
    pub last_pong_unix: u64,
    /// Whether it answers.
    pub status: MemberStatus,
    /// Versions of its metadata.
    pub meta_digest: MetaDigest,
}

/// What is known of a member.
#[verifier::ext_equal]
pub struct MemberView {
    /// The member.
    pub instance_id: Seq<char>,
    /// Its region.
    pub region: Seq<char>,
    /// Where it is reached.
    pub addr: Seq<char>,
    /// When it was last heard of, in Unix milliseconds.
    pub last_pong_unix: u64,
    /// Whether it answers.
    pub status: MemberStatus,
    /// Versions of its metadata.
    pub meta_digest: MetaDigest,
}

/// Members by their keys.
pub type MembersView = Map<KeyView, MemberView>;

/// The key of a member.
pub open spec fn member_key(instance_id: Seq<char>) -> KeyView {
    (0u64, instance_id, Seq::<char>::empty())
}

impl View for ClusterMember {
    type V = MemberView;

    open spec fn view(&self) -> MemberView {
        MemberView {
            instance_id: self.instance_id@,
            region: self.region@,
            addr: self.addr@,
            last_pong_unix: self.last_pong_unix,
            status: self.status,
            meta_digest: self.meta_digest,
        }
    }
}

impl Clone for ClusterMember {
    fn clone(&self) -> (copy: Self)
        ensures
            copy == *self,
    {
        ClusterMember {
            instance_id: self.instance_id.clone(),
            region: self.region.clone(),
            addr: self.addr.clone(),
            last_pong_unix: self.last_pong_unix,
            status: self.status,
            meta_digest: self.meta_digest,
        }
    }
}

impl ClusterMember {
    /// A member that was heard of at `now_ms`.
    pub fn new(
        instance_id: InstanceId,
        region: RegionId,
        addr: String,
        meta_digest: MetaDigest,
        now_ms: u64,
    ) -> (member: Self)
        ensures
            member == (ClusterMember {
                instance_id,
                region,
                addr,
                last_pong_unix: now_ms,
                status: MemberStatus::Alive,
                meta_digest,
            }),
    {
        ClusterMember {
            instance_id,
            region,
            addr,
            last_pong_unix: now_ms,
            status: MemberStatus::Alive,
            meta_digest,
        }
    }
}

/// The members that meet a condition.
pub open spec fn those(members: MembersView, keep: spec_fn(MemberView) -> bool) -> MembersView {
    members.restrict(members.dom().filter(|key: KeyView| keep(members[key])))
}

/// Being alive.
pub open spec fn alive() -> spec_fn(MemberView) -> bool {
    |member: MemberView| member.status == MemberStatus::Alive
}

/// Residing in a region.
pub open spec fn inside(region: Seq<char>) -> spec_fn(MemberView) -> bool {
    |member: MemberView| member.region == region
}

/// Residing in any other region.
pub open spec fn outside(region: Seq<char>) -> spec_fn(MemberView) -> bool {
    |member: MemberView| member.region != region
}

/// Being any other member.
pub open spec fn other_than(instance_id: Seq<char>) -> spec_fn(MemberView) -> bool {
    |member: MemberView| member.instance_id != instance_id
}

/// Whether a list holds each of some members once, and nothing else.
pub open spec fn lists(list: Seq<ClusterMember>, members: MembersView) -> bool {
    &&& forall|i: int|
        0 <= i < list.len() ==> members.contains_key(
            member_key((#[trigger] list[i])@.instance_id),
        ) && members[member_key(list[i]@.instance_id)] == list[i]@
    &&& forall|i: int, j: int|
        #![trigger list[i], list[j]]
        0 <= i < j < list.len() ==> list[i]@.instance_id != list[j]@.instance_id
    &&& forall|key: KeyView| #[trigger]
        members.contains_key(key) ==> exists|i: int|
            0 <= i < list.len() && member_key((#[trigger] list[i])@.instance_id) == key
}

/// A list that holds each of some members once is as long as they are many.
pub proof fn lemma_lists(list: Seq<ClusterMember>, members: MembersView)
    requires
        lists(list, members),
    ensures
        members.dom().finite(),
        members.dom().len() == list.len(),
{
    let rows = list.map_values(|m: ClusterMember| (member_key(m@.instance_id), m@));
    assert(table::rows_hold(rows, members)) by {
        assert forall|i: int, j: int|
            #![trigger rows[i], rows[j]]
            0 <= i < j < rows.len() implies rows[i].0 != rows[j].0 by {
            assert(list[i]@.instance_id != list[j]@.instance_id);
        }
        assert forall|i: int|
            #![trigger rows[i]]
            0 <= i < rows.len() implies members.contains_key(rows[i].0) && members[rows[i].0]
            == rows[i].1 by {
            assert(members[member_key(list[i]@.instance_id)] == list[i]@);
        }
        assert forall|key: KeyView| #[trigger] members.contains_key(key) implies exists|i: int|
            0 <= i < rows.len() && (#[trigger] rows[i]).0 == key by {
            let i = choose|i: int|
                0 <= i < list.len() && member_key((#[trigger] list[i])@.instance_id) == key;
            assert(rows[i].0 == key);
        }
    }
    table::lemma_rows_count(rows, members);
}

/// A condition on members.
pub enum Sieve {
    /// Being alive.
    Alive,
    /// Residing in a region.
    Inside(RegionId),
    /// Residing in any other region.
    Outside(RegionId),
    /// Being any other member.
    OtherThan(InstanceId),
}

impl Sieve {
    /// The condition.
    pub open spec fn condition(self) -> spec_fn(MemberView) -> bool {
        match self {
            Sieve::Alive => alive(),
            Sieve::Inside(region) => inside(region@),
            Sieve::Outside(region) => outside(region@),
            Sieve::OtherThan(instance_id) => other_than(instance_id@),
        }
    }

    fn keeps(&self, member: &ClusterMember) -> (kept: bool)
        ensures
            kept == self.condition()(member@),
    {
        match self {
            Sieve::Alive => member.status == MemberStatus::Alive,
            Sieve::Inside(region) => member.region.same(region),
            Sieve::Outside(region) => !member.region.same(region),
            Sieve::OtherThan(instance_id) => !member.instance_id.same(instance_id),
        }
    }

    /// The listed members that meet the condition, in their order.
    pub fn sift(&self, list: &Vec<ClusterMember>) -> (kept: Vec<ClusterMember>)
        ensures
            forall|members: MembersView| #[trigger]
                lists(list@, members) ==> lists(kept@, those(members, self.condition())),
    {
        let mut kept: Vec<ClusterMember> = Vec::new();
        let ghost keep = self.condition();
        let ghost mut origin: Seq<int> = Seq::empty();
        let mut i: usize = 0;
        while i < list.len()
            invariant
                i <= list@.len(),
                keep == self.condition(),
                origin.len() == kept@.len(),
                forall|a: int|
                    0 <= a < kept@.len() ==> 0 <= (#[trigger] origin[a]) < i && kept@[a]
                        == list@[origin[a]] && keep(list@[origin[a]]@),
                forall|a: int, b: int|
                    #![trigger origin[a], origin[b]]
                    0 <= a < b < kept@.len() ==> origin[a] < origin[b],
                forall|j: int|
                    0 <= j < i && keep((#[trigger] list@[j])@) ==> exists|a: int|
                        0 <= a < kept@.len() && #[trigger] origin[a] == j,
            decreases list@.len() - i,
        {
            if self.keeps(&list[i]) {
                kept.push(list[i].clone());
                let ghost before = origin;
                proof {
                    origin = origin.push(i as int);
                    assert forall|j: int| 0 <= j < i + 1 && keep((#[trigger] list@[j])@) implies exists|
                        a: int,
                    |
                        0 <= a < kept@.len() && #[trigger] origin[a] == j by {
                        if j < i {
                            let a = choose|a: int| 0 <= a < before.len() && #[trigger] before[a] == j;
                            assert(origin[a] == j);
                        } else {
                            assert(origin[before.len() as int] == j);
                        }
                    }
                }
            }
            i = i + 1;
        }
        proof {
            assert forall|members: MembersView| #[trigger] lists(list@, members) implies lists(
                kept@,
                those(members, keep),
            ) by {
                let part = those(members, keep);
                assert forall|a: int| 0 <= a < kept@.len() implies part.contains_key(
                    member_key((#[trigger] kept@[a])@.instance_id),
                ) && part[member_key(kept@[a]@.instance_id)] == kept@[a]@ by {
                    assert(kept@[a] == list@[origin[a]]);
                }
                assert forall|a: int, b: int|
                    #![trigger kept@[a], kept@[b]]
                    0 <= a < b < kept@.len() implies kept@[a]@.instance_id
                    != kept@[b]@.instance_id by {
                    assert(origin[a] < origin[b]);
                    assert(list@[origin[a]]@.instance_id != list@[origin[b]]@.instance_id);
                }
                assert forall|key: KeyView| #[trigger] part.contains_key(key) implies exists|a: int|
                    0 <= a < kept@.len() && member_key((#[trigger] kept@[a])@.instance_id)
                        == key by {
                    assert(members.contains_key(key));
                    let j = choose|j: int|
                        0 <= j < list@.len() && member_key((#[trigger] list@[j])@.instance_id)
                            == key;
                    assert(keep(list@[j]@));
                    let a = choose|a: int| 0 <= a < kept@.len() && #[trigger] origin[a] == j;
                    assert(kept@[a] == list@[j]);
                }
            }
        }
        kept
    }
}

/// `shuffle` of `rand`'s `SliceRandom`, on the generator of the current thread. It puts the items
/// in some order, and neither adds nor drops any; which order it is depends on chance.
#[verifier::external_body]
fn shuffle(items: &mut Vec<usize>)
    ensures
        final(items)@.to_multiset() == old(items)@.to_multiset(),
{
    items.shuffle(&mut rand::rng());
}

/// Whether `order` names each position below `n` once.
pub open spec fn is_order(order: Seq<usize>, n: nat) -> bool {
    &&& order.len() == n
    &&& order.no_duplicates()
    &&& forall|i: int| 0 <= i < order.len() ==> (#[trigger] order[i]) < n
}

fn positions(n: usize) -> (order: Vec<usize>)
    ensures
        is_order(order@, n as nat),
{
    let mut order: Vec<usize> = Vec::new();
    let mut i: usize = 0;
    while i < n
        invariant
            i <= n,
            order@.len() == i,
            forall|k: int| 0 <= k < i ==> #[trigger] order@[k] == k,
        decreases n - i,
    {
        order.push(i);
        i = i + 1;
    }
    order
}

/// Some order of the positions below `n`, chosen by chance.
pub fn random_order(n: usize) -> (order: Vec<usize>)
    ensures
        is_order(order@, n as nat),
{
    let mut order: Vec<usize> = positions(n);
    let ghost before = order@;
    shuffle(&mut order);
    proof {
        broadcast use vstd::seq_lib::group_to_multiset_ensures;

        before.lemma_multiset_has_no_duplicates();
        assert(order@.to_multiset().len() == before.to_multiset().len());
        order@.lemma_multiset_has_no_duplicates_conv();
        assert forall|i: int| 0 <= i < order@.len() implies (#[trigger] order@[i]) < n by {
            assert(order@.contains(order@[i]));
            assert(before.to_multiset().count(order@[i]) > 0);
            assert(before.contains(order@[i]));
        }
    }
    order
}

/// Whether `chosen` are the members at the first `n` positions of an order, or at all of them if
/// there are fewer.
pub open spec fn first_in_order(
    chosen: Seq<ClusterMember>,
    list: Seq<ClusterMember>,
    order: Seq<usize>,
    n: nat,
) -> bool {
    &&& chosen.len() == if n < order.len() {
        n
    } else {
        order.len()
    }
    &&& forall|i: int| 0 <= i < chosen.len() ==> #[trigger] chosen[i] == list[order[i] as int]
}

/// The members at the first `n` positions of an order, or at all of them if there are fewer.
pub fn take_in_order(list: &Vec<ClusterMember>, order: &Vec<usize>, n: usize) -> (chosen: Vec<
    ClusterMember,
>)
    requires
        is_order(order@, list@.len()),
    ensures
        first_in_order(chosen@, list@, order@, n as nat),
{
    let mut chosen: Vec<ClusterMember> = Vec::new();
    let mut i: usize = 0;
    while i < n && i < order.len()
        invariant
            i <= n,
            i <= order@.len(),
            is_order(order@, list@.len()),
            chosen@.len() == i,
            forall|k: int| 0 <= k < i ==> #[trigger] chosen@[k] == list@[order@[k] as int],
        decreases order@.len() - i,
    {
        chosen.push(list[order[i]].clone());
        i = i + 1;
    }
    chosen
}

/// Whether `chosen` are some of the members, none twice: `n` of them, or all if there are fewer.
pub open spec fn chosen_from(chosen: Seq<ClusterMember>, members: MembersView, n: nat) -> bool {
    &&& chosen.len() == if n < members.dom().len() {
        n
    } else {
        members.dom().len()
    }
    &&& forall|i: int|
        0 <= i < chosen.len() ==> members.contains_key(
            member_key((#[trigger] chosen[i])@.instance_id),
        ) && members[member_key(chosen[i]@.instance_id)] == chosen[i]@
    &&& forall|i: int, j: int|
        #![trigger chosen[i], chosen[j]]
        0 <= i < j < chosen.len() ==> chosen[i]@.instance_id != chosen[j]@.instance_id
}

/// At most `n` of the listed members, chosen by chance.
pub fn choose_members(list: &Vec<ClusterMember>, n: usize) -> (chosen: Vec<ClusterMember>)
    ensures
        forall|members: MembersView| #[trigger]
            lists(list@, members) ==> chosen_from(chosen@, members, n as nat),
{
    let order: Vec<usize> = random_order(list.len());
    let chosen: Vec<ClusterMember> = take_in_order(list, &order, n);
    proof {
        assert forall|members: MembersView| #[trigger] lists(list@, members) implies chosen_from(
            chosen@,
            members,
            n as nat,
        ) by {
            lemma_lists(list@, members);
            assert forall|i: int, j: int|
                #![trigger chosen@[i], chosen@[j]]
                0 <= i < j < chosen@.len() implies chosen@[i]@.instance_id
                != chosen@[j]@.instance_id by {
                let a = order@[i] as int;
                let b = order@[j] as int;
                assert(order@[i] != order@[j]);
                if a < b {
                    assert(list@[a]@.instance_id != list@[b]@.instance_id);
                } else {
                    assert(list@[b]@.instance_id != list@[a]@.instance_id);
                }
            }
        }
    }
    chosen
}

/// The members of a cluster.
pub struct MemberList {
    members: Table<ClusterMember>,
}

impl View for MemberList {
    type V = MembersView;

    closed spec fn view(&self) -> MembersView {
        self.members@.map_values(|member: ClusterMember| member@)
    }
}

/// A member that was heard of at `now_ms`.
pub open spec fn heard(member: MemberView, digest: MetaDigest, now_ms: u64) -> MemberView {
    MemberView {
        last_pong_unix: now_ms,
        status: MemberStatus::Alive,
        meta_digest: digest,
        ..member
    }
}

/// Since when members are suspected, by their keys.
pub type SuspicionsView = Map<KeyView, u64>;

/// Since when a member is suspected, if that is known.
pub open spec fn since(suspicions: SuspicionsView, key: KeyView) -> Option<u64> {
    if suspicions.contains_key(key) {
        Some(suspicions[key])
    } else {
        None
    }
}

/// The status of a member after a scan at `now_ms`: one that is alive is suspected when it has been
/// silent for longer than `probe_timeout_ms`, and one that is suspected is dead when it has been
/// suspected for longer than `suspect_timeout_ms`.
pub open spec fn probed_status(
    member: MemberView,
    since: Option<u64>,
    now_ms: u64,
    probe_timeout_ms: u64,
    suspect_timeout_ms: u64,
) -> MemberStatus {
    match member.status {
        MemberStatus::Alive => if member.last_pong_unix + probe_timeout_ms < now_ms {
            MemberStatus::Suspect
        } else {
            MemberStatus::Alive
        },
        MemberStatus::Suspect => match since {
            Some(start) => if start + suspect_timeout_ms < now_ms {
                MemberStatus::Dead
            } else {
                MemberStatus::Suspect
            },
            None => MemberStatus::Suspect,
        },
        MemberStatus::Dead => MemberStatus::Dead,
    }
}

/// A member after a scan for silent members, of which `own` makes no part.
pub open spec fn probed(
    member: MemberView,
    since: Option<u64>,
    own: Seq<char>,
    now_ms: u64,
    probe_timeout_ms: u64,
    suspect_timeout_ms: u64,
) -> MemberView {
    if member.instance_id == own {
        member
    } else {
        MemberView {
            status: probed_status(member, since, now_ms, probe_timeout_ms, suspect_timeout_ms),
            ..member
        }
    }
}

/// Since when a member is suspected after a scan, if it is: since it was first found to be.
pub open spec fn suspicion(
    member: MemberView,
    since: Option<u64>,
    own: Seq<char>,
    now_ms: u64,
    probe_timeout_ms: u64,
    suspect_timeout_ms: u64,
) -> Option<u64> {
    let after = probed(member, since, own, now_ms, probe_timeout_ms, suspect_timeout_ms);
    if member.instance_id != own && after.status == MemberStatus::Suspect {
        if member.status == MemberStatus::Suspect && since is Some {
            since
        } else {
            Some(now_ms)
        }
    } else {
        None
    }
}

/// The members after a scan.
pub open spec fn scanned(
    members: MembersView,
    suspicions: SuspicionsView,
    own: Seq<char>,
    now_ms: u64,
    probe_timeout_ms: u64,
    suspect_timeout_ms: u64,
) -> MembersView {
    Map::new(
        |key: KeyView| members.contains_key(key),
        |key: KeyView|
            probed(
                members[key],
                since(suspicions, key),
                own,
                now_ms,
                probe_timeout_ms,
                suspect_timeout_ms,
            ),
    )
}

/// Since when members are suspected, after a scan.
pub open spec fn suspicions_after(
    members: MembersView,
    suspicions: SuspicionsView,
    own: Seq<char>,
    now_ms: u64,
    probe_timeout_ms: u64,
    suspect_timeout_ms: u64,
) -> SuspicionsView {
    Map::new(
        |key: KeyView|
            members.contains_key(key) && suspicion(
                members[key],
                since(suspicions, key),
                own,
                now_ms,
                probe_timeout_ms,
                suspect_timeout_ms,
            ) is Some,
        |key: KeyView|
            suspicion(
                members[key],
                since(suspicions, key),
                own,
                now_ms,
                probe_timeout_ms,
                suspect_timeout_ms,
            )->0,
    )
}

impl MemberList {
    /// Every member is filed under its own key.
    pub closed spec fn wf(&self) -> bool {
        &&& self.members.wf()
        &&& forall|key: KeyView| #[trigger]
            self.members@.contains_key(key) ==> key == member_key(
                self.members@[key].instance_id@,
            )
    }

    /// Every member is filed under its own key.
    pub proof fn members_are_filed_under_their_own_keys(&self)
        requires
            self.wf(),
        ensures
            self@.dom().finite(),
            forall|key: KeyView| #[trigger]
                self@.contains_key(key) ==> key == member_key(self@[key].instance_id),
    {
        self.members.lemma_rows();
        assert forall|key: KeyView| #[trigger] self@.contains_key(key) implies key == member_key(
            self@[key].instance_id,
        ) by {
            assert(self.members@.contains_key(key));
        }
        assert(self@.dom() =~= self.members@.dom());
    }

    /// No members.
    pub fn new() -> (list: Self)
        ensures
            list.wf(),
            list@ == Map::<KeyView, MemberView>::empty(),
    {
        let list = MemberList { members: Table::new() };
        assert(list@ =~= Map::empty());
        list
    }

    /// Adds a member, or replaces what is known of it.
    pub fn upsert(&mut self, member: ClusterMember)
        requires
            old(self).wf(),
        ensures
            final(self).wf(),
            final(self)@ == old(self)@.insert(member_key(member@.instance_id), member@),
    {
        let ghost known = member@;
        self.members.insert(member.instance_id.table_key(), member);
        assert(self@ =~= old(self)@.insert(member_key(known.instance_id), known));
    }

    /// Notes that a member was heard of at `now_ms`; one that is not known is passed over.
    pub fn update_pong(&mut self, instance_id: &InstanceId, digest: MetaDigest, now_ms: u64)
        requires
            old(self).wf(),
        ensures
            final(self).wf(),
            final(self)@ == (if old(self)@.contains_key(member_key(instance_id@)) {
                old(self)@.insert(
                    member_key(instance_id@),
                    heard(old(self)@[member_key(instance_id@)], digest, now_ms),
                )
            } else {
                old(self)@
            }),
            final(self)@ == told_of(old(self)@, instance_id@, digest, now_ms),
    {
        match self.members.find(&instance_id.table_key()) {
            Some(at) => {
                let mut member: ClusterMember = self.members.value_at(at).clone();
                member.last_pong_unix = now_ms;
                member.status = MemberStatus::Alive;
                member.meta_digest = digest;
                self.members.replace_at(at, member);
                assert(self@ =~= old(self)@.insert(
                    member_key(instance_id@),
                    heard(old(self)@[member_key(instance_id@)], digest, now_ms),
                ));
            },
            None => {},
        }
    }

    fn mark(&mut self, instance_id: &InstanceId, status: MemberStatus)
        requires
            old(self).wf(),
        ensures
            final(self).wf(),
            final(self)@ == marked(old(self)@, instance_id@, status),
    {
        match self.members.find(&instance_id.table_key()) {
            Some(at) => {
                let mut member: ClusterMember = self.members.value_at(at).clone();
                member.status = status;
                self.members.replace_at(at, member);
            },
            None => {},
        }
        assert(self@ =~= marked(old(self)@, instance_id@, status));
    }

    /// Suspects a member; one that is not known is passed over.
    pub fn mark_suspect(&mut self, instance_id: &InstanceId)
        requires
            old(self).wf(),
        ensures
            final(self).wf(),
            final(self)@ == marked(old(self)@, instance_id@, MemberStatus::Suspect),
    {
        self.mark(instance_id, MemberStatus::Suspect);
    }

    /// Declares a member dead; one that is not known is passed over.
    pub fn mark_dead(&mut self, instance_id: &InstanceId)
        requires
            old(self).wf(),
        ensures
            final(self).wf(),
            final(self)@ == marked(old(self)@, instance_id@, MemberStatus::Dead),
    {
        self.mark(instance_id, MemberStatus::Dead);
    }

    /// What is known of a member.
    pub fn get(&self, instance_id: &InstanceId) -> (member: Option<ClusterMember>)
        requires
            self.wf(),
        ensures
            match member {
                Some(found) => self@.contains_key(member_key(instance_id@)) && found@
                    == self@[member_key(instance_id@)],
                None => !self@.contains_key(member_key(instance_id@)),
            },
    {
        match self.members.get(&instance_id.table_key()) {
            Some(member) => Some(member.clone()),
            None => None,
        }
    }

    /// All members.
    pub fn all_members(&self) -> (list: Vec<ClusterMember>)
        requires
            self.wf(),
        ensures
            lists(list@, self@),
    {
        let mut list: Vec<ClusterMember> = Vec::new();
        let n: usize = self.members.len();
        let ghost rows = self.members.rows();
        proof {
            self.members.lemma_rows();
        }
        let mut i: usize = 0;
        while i < n
            invariant
                i <= n,
                n == rows.len(),
                self.wf(),
                rows == self.members.rows(),
                list@.len() == i,
                forall|k: int| 0 <= k < i ==> #[trigger] list@[k] == rows[k].1,
            decreases n - i,
        {
            list.push(self.members.value_at(i).clone());
            i = i + 1;
        }
        proof {
            assert forall|k: int| 0 <= k < list@.len() implies self@.contains_key(
                member_key((#[trigger] list@[k])@.instance_id),
            ) && self@[member_key(list@[k]@.instance_id)] == list@[k]@ by {
                assert(self.members@.contains_key(rows[k].0));
            }
            assert forall|a: int, b: int|
                #![trigger list@[a], list@[b]]
                0 <= a < b < list@.len() implies list@[a]@.instance_id
                != list@[b]@.instance_id by {
                assert(self.members@.contains_key(rows[a].0));
                assert(self.members@.contains_key(rows[b].0));
                assert(rows[a].0 != rows[b].0);
            }
            assert forall|key: KeyView| #[trigger] self@.contains_key(key) implies exists|k: int|
                0 <= k < list@.len() && member_key((#[trigger] list@[k])@.instance_id) == key by {
                assert(self.members@.contains_key(key));
                let k = choose|k: int| 0 <= k < rows.len() && (#[trigger] rows[k]).0 == key;
                assert(list@[k] == rows[k].1);
            }
        }
        list
    }

    /// The members that are alive.
    pub fn alive_members(&self) -> (list: Vec<ClusterMember>)
        requires
            self.wf(),
        ensures
            lists(list@, those(self@, alive())),
    {
        let all: Vec<ClusterMember> = self.all_members();
        assert(lists(all@, self@));
        Sieve::Alive.sift(&all)
    }

    /// At most `n` of the members that are alive, chosen by chance.
    pub fn random_members(&self, n: usize) -> (chosen: Vec<ClusterMember>)
        requires
            self.wf(),
        ensures
            chosen_from(chosen@, those(self@, alive()), n as nat),
    {
        let list: Vec<ClusterMember> = self.alive_members();
        assert(lists(list@, those(self@, alive())));
        choose_members(&list, n)
    }

    /// Number of members.
    pub fn len(&self) -> (n: usize)
        requires
            self.wf(),
        ensures
            n == self@.dom().len(),
    {
        proof {
            assert(self@.dom() =~= self.members@.dom());
        }
        self.members.len()
    }

    /// Whether there are no members.
    pub fn is_empty(&self) -> (empty: bool)
        requires
            self.wf(),
        ensures
            empty == (self@.dom().len() == 0),
    {
        self.len() == 0
    }

    /// Drops a member.
    pub fn remove(&mut self, instance_id: &InstanceId) -> (member: Option<ClusterMember>)
        requires
            old(self).wf(),
        ensures
            final(self).wf(),
            final(self)@ == old(self)@.remove(member_key(instance_id@)),
            match member {
                Some(found) => old(self)@.contains_key(member_key(instance_id@)) && found@ == old(
                    self,
                )@[member_key(instance_id@)],
                None => !old(self)@.contains_key(member_key(instance_id@)),
            },
    {
        let member: Option<ClusterMember> = self.members.remove(&instance_id.table_key());
        assert(self@ =~= old(self)@.remove(member_key(instance_id@)));
        member
    }

    /// Scans for silent members, other than `own`. Notes in `suspicions` since when members are
    /// suspected.
    pub fn probe(
        &mut self,
        suspicions: &mut Table<u64>,
        own: &InstanceId,
        now_ms: u64,
        probe_timeout_ms: u64,
        suspect_timeout_ms: u64,
    )
        requires
            old(self).wf(),
            old(suspicions).wf(),
        ensures
            final(self).wf(),
            final(suspicions).wf(),
            final(self)@ == scanned(
                old(self)@,
                old(suspicions)@,
                own@,
                now_ms,
                probe_timeout_ms,
                suspect_timeout_ms,
            ),
            final(suspicions)@ == suspicions_after(
                old(self)@,
                old(suspicions)@,
                own@,
                now_ms,
                probe_timeout_ms,
                suspect_timeout_ms,
            ),
    {
        let n: usize = self.members.len();
        let ghost start = self.members@;
        let ghost rows = self.members.rows();
        let ghost known = suspicions@;
        proof {
            self.members.lemma_rows();
        }
        let probe_too_old: u64 = now_ms.saturating_sub(probe_timeout_ms);
        let suspect_too_old: u64 = now_ms.saturating_sub(suspect_timeout_ms);
        let mut noted: Table<u64> = Table::new();
        let mut i: usize = 0;
        while i < n
            invariant
                i <= n,
                n == rows.len(),
                table::rows_hold(rows, start),
                forall|key: KeyView| #[trigger]
                    start.contains_key(key) ==> key == member_key(start[key].instance_id@),
                probe_too_old == if now_ms >= probe_timeout_ms {
                    now_ms - probe_timeout_ms
                } else {
                    0
                },
                suspect_too_old == if now_ms >= suspect_timeout_ms {
                    now_ms - suspect_timeout_ms
                } else {
                    0
                },
                self.wf(),
                suspicions.wf(),
                suspicions@ == known,
                noted.wf(),
                self.members.rows().len() == n,
                self.members@.dom() == start.dom(),
                forall|k: int|
                    0 <= k < n ==> (#[trigger] self.members.rows()[k]).0 == rows[k].0,
                forall|k: int|
                    0 <= k < i ==> (#[trigger] self.members.rows()[k]).1@ == probed(
                        rows[k].1@,
                        since(known, rows[k].0),
                        own@,
                        now_ms,
                        probe_timeout_ms,
                        suspect_timeout_ms,
                    ),
                forall|k: int| i <= k < n ==> #[trigger] self.members.rows()[k] == rows[k],
                forall|k: int|
                    #![trigger rows[k]]
                    0 <= k < i ==> since(noted@, rows[k].0) == suspicion(
                        rows[k].1@,
                        since(known, rows[k].0),
                        own@,
                        now_ms,
                        probe_timeout_ms,
                        suspect_timeout_ms,
                    ),
                forall|key: KeyView| #[trigger]
                    noted@.contains_key(key) ==> exists|k: int|
                        0 <= k < i && (#[trigger] rows[k]).0 == key,
            decreases n - i,
        {
            let ghost before = noted@;
            let ghost key = rows[i as int].0;
            let mut member: ClusterMember = self.members.value_at(i).clone();
            proof {
                assert(self.members.rows()[i as int] == rows[i as int]);
                self.members.lemma_rows();
                assert(start.contains_key(key));
                assert(self.members@.dom().contains(key));
                assert(!before.contains_key(key)) by {
                    if before.contains_key(key) {
                        let k = choose|k: int| 0 <= k < i && (#[trigger] rows[k]).0 == key;
                        assert(rows[k].0 != rows[i as int].0);
                    }
                }
            }
            if !member.instance_id.same(own) {
                let found: Option<u64> = match suspicions.get(&member.instance_id.table_key()) {
                    Some(start_ms) => Some(*start_ms),
                    None => None,
                };
                match member.status {
                    MemberStatus::Alive => {
                        if member.last_pong_unix < probe_too_old {
                            member.status = MemberStatus::Suspect;
                            noted.insert(member.instance_id.table_key(), now_ms);
                        }
                    },
                    MemberStatus::Suspect => match found {
                        Some(start_ms) => {
                            if start_ms < suspect_too_old {
                                member.status = MemberStatus::Dead;
                            } else {
                                noted.insert(member.instance_id.table_key(), start_ms);
                            }
                        },
                        None => {
                            noted.insert(member.instance_id.table_key(), now_ms);
                        },
                    },
                    MemberStatus::Dead => {},
                }
            }
            self.members.replace_at(i, member);
            proof {
                assert(self.members@.dom() =~= start.dom());
                assert forall|k: int|
                    #![trigger rows[k]]
                    0 <= k < i + 1 implies since(noted@, rows[k].0) == suspicion(
                    rows[k].1@,
                    since(known, rows[k].0),
                    own@,
                    now_ms,
                    probe_timeout_ms,
                    suspect_timeout_ms,
                ) by {
                    if k < i {
                        assert(rows[k].0 != rows[i as int].0);
                        assert(since(noted@, rows[k].0) == since(before, rows[k].0));
                    }
                }
                assert forall|other: KeyView| #[trigger] noted@.contains_key(other) implies exists|
                    k: int,
                |
                    0 <= k < i + 1 && (#[trigger] rows[k]).0 == other by {
                    if before.contains_key(other) {
                        let k = choose|k: int| 0 <= k < i && (#[trigger] rows[k]).0 == other;
                        assert(rows[k].0 == other);
                    } else {
                        assert(rows[i as int].0 == other);
                    }
                }
            }
            i = i + 1;
        }
        *suspicions = noted;
        proof {
            self.members.lemma_rows();
            let expected = scanned(
                old(self)@,
                known,
                own@,
                now_ms,
                probe_timeout_ms,
                suspect_timeout_ms,
            );
            assert(self@.dom() =~= expected.dom());
            assert forall|key: KeyView| #[trigger] self@.contains_key(key) implies self@[key]
                == expected[key] by {
                assert(start.contains_key(key));
                let k = choose|k: int| 0 <= k < rows.len() && (#[trigger] rows[k]).0 == key;
                assert(self.members.rows()[k].0 == key);
            }
            assert(self@ =~= expected);
            let times = suspicions_after(
                old(self)@,
                known,
                own@,
                now_ms,
                probe_timeout_ms,
                suspect_timeout_ms,
            );
            assert forall|key: KeyView| #[trigger] noted@.contains_key(key)
                == times.contains_key(key) && since(noted@, key) == since(times, key) by {
                if start.contains_key(key) {
                    let k = choose|k: int| 0 <= k < rows.len() && (#[trigger] rows[k]).0 == key;
                    assert(since(noted@, rows[k].0) == suspicion(
                        rows[k].1@,
                        since(known, rows[k].0),
                        own@,
                        now_ms,
                        probe_timeout_ms,
                        suspect_timeout_ms,
                    ));
                } else if noted@.contains_key(key) {
                    let k = choose|k: int| 0 <= k < n && (#[trigger] rows[k]).0 == key;
                    assert(start.contains_key(rows[k].0));
                }
            }
            assert(noted@ =~= times) by {
                assert forall|key: KeyView| noted@.contains_key(key) implies noted@[key]
                    == times[key] by {
                    assert(since(noted@, key) == since(times, key));
                }
            }
        }
    }
}

/// The members after one of them got another status.
pub open spec fn marked(
    members: MembersView,
    instance_id: Seq<char>,
    status: MemberStatus,
) -> MembersView {
    let key = member_key(instance_id);
    if members.contains_key(key) {
        members.insert(key, MemberView { status, ..members[key] })
    } else {
        members
    }
}

impl Default for MemberList {
    fn default() -> (list: Self)
        ensures
            list.wf(),
            list@ == Map::<KeyView, MemberView>::empty(),
    {
        MemberList::new()
    }
}

/// A scan for silent members suspects no member that was heard of within the timeout, brings none
/// back to life, and takes no member past the next status.
pub proof fn a_scan_goes_one_step(
    member: MemberView,
    since: Option<u64>,
    own: Seq<char>,
    now_ms: u64,
    probe_timeout_ms: u64,
    suspect_timeout_ms: u64,
)
    ensures
        ({
            let after = probed(member, since, own, now_ms, probe_timeout_ms, suspect_timeout_ms);
            &&& member.status == MemberStatus::Dead ==> after == member
            &&& member.status == MemberStatus::Suspect ==> after.status != MemberStatus::Alive
            &&& member.status == MemberStatus::Alive ==> after.status != MemberStatus::Dead
            &&& member.status == MemberStatus::Alive && now_ms - member.last_pong_unix
                <= probe_timeout_ms ==> after == member
        }),
{
}

/// A member that is alive and then silent for longer than the timeout is suspected by a scan. A
/// later scan finds it dead if it has been suspected for longer than the second timeout by then;
/// until then it stays suspected, from the same time on.
pub proof fn a_silent_member_dies(
    member: MemberView,
    before: Option<u64>,
    own: Seq<char>,
    now_ms: u64,
    later_ms: u64,
    probe_timeout_ms: u64,
    suspect_timeout_ms: u64,
)
    requires
        member.instance_id != own,
        member.status == MemberStatus::Alive,
        now_ms - member.last_pong_unix > probe_timeout_ms,
    ensures
        ({
            let suspect = probed(member, before, own, now_ms, probe_timeout_ms, suspect_timeout_ms);
            let since = suspicion(
                member,
                before,
                own,
                now_ms,
                probe_timeout_ms,
                suspect_timeout_ms,
            );
            let after = probed(suspect, since, own, later_ms, probe_timeout_ms, suspect_timeout_ms);
            &&& suspect.status == MemberStatus::Suspect
            &&& since == Some(now_ms)
            &&& later_ms - now_ms > suspect_timeout_ms ==> after.status == MemberStatus::Dead
            &&& later_ms - now_ms <= suspect_timeout_ms ==> after == suspect && suspicion(
                suspect,
                since,
                own,
                later_ms,
                probe_timeout_ms,
                suspect_timeout_ms,
            ) == since
        }),
{
}

/// A member that is heard of again is alive, whatever it was before, and a scan within the timeout
/// leaves it so.
pub proof fn a_member_that_is_heard_of_is_alive(
    member: MemberView,
    since: Option<u64>,
    digest: MetaDigest,
    heard_ms: u64,
    own: Seq<char>,
    now_ms: u64,
    probe_timeout_ms: u64,
    suspect_timeout_ms: u64,
)
    requires
        now_ms - heard_ms <= probe_timeout_ms,
    ensures
        probed(
            heard(member, digest, heard_ms),
            since,
            own,
            now_ms,
            probe_timeout_ms,
            suspect_timeout_ms,
        ).status == MemberStatus::Alive,
{
}

/// Members that satisfy a condition are those of all members that do, as they are.
pub proof fn those_are_the_members_that_satisfy(
    members: MembersView,
    region: Seq<char>,
    own: Seq<char>,
    key: KeyView,
)
    ensures
        those(members, alive()).contains_key(key) <==> members.contains_key(key)
            && members[key].status == MemberStatus::Alive,
        those(members, inside(region)).contains_key(key) <==> members.contains_key(key)
            && members[key].region == region,
        those(members, outside(region)).contains_key(key) <==> members.contains_key(key)
            && members[key].region != region,
        those(members, other_than(own)).contains_key(key) <==> members.contains_key(key)
            && members[key].instance_id != own,
        members.contains_key(key) && members[key].status == MemberStatus::Alive ==> those(
            members,
            alive(),
        )[key] == members[key],
        members.contains_key(key) && members[key].region == region ==> those(
            members,
            inside(region),
        )[key] == members[key],
        members.contains_key(key) && members[key].region != region ==> those(
            members,
            outside(region),
        )[key] == members[key],
        members.contains_key(key) && members[key].instance_id != own ==> those(
            members,
            other_than(own),
        )[key] == members[key],
{
}

/// A choice holds as many members as asked for, or all if there are fewer; each is one of those to
/// choose from, and none comes twice. A choice of at least as many as there are holds them all.
pub proof fn a_choice_is_as_large_as_asked(
    chosen: Seq<ClusterMember>,
    members: MembersView,
    n: nat,
    i: int,
    j: int,
)
    requires
        chosen_from(chosen, members, n),
    ensures
        chosen.len() <= n,
        chosen.len() <= members.dom().len(),
        chosen.len() == n || chosen.len() == members.dom().len(),
        0 <= i < chosen.len() ==> members.contains_key(member_key(chosen[i]@.instance_id))
            && members[member_key(chosen[i]@.instance_id)] == chosen[i]@,
        0 <= i < j < chosen.len() ==> chosen[i]@.instance_id != chosen[j]@.instance_id,
{
}

/// A scan leaves no member out and adds none. It changes nothing of a member but its status, and
/// nothing at all of the member that scans, of one that is dead, and of one that was heard of in
/// time. One that was not is suspected, and one that has been suspected for longer than it takes is
/// dead, and not before.
pub proof fn a_scan_finds_silent_members(
    members: MembersView,
    suspicions: SuspicionsView,
    own: Seq<char>,
    now_ms: u64,
    probe_timeout_ms: u64,
    suspect_timeout_ms: u64,
    key: KeyView,
)
    ensures
        ({
            let after = scanned(
                members,
                suspicions,
                own,
                now_ms,
                probe_timeout_ms,
                suspect_timeout_ms,
            );
            let member = members[key];
            let silent_ms = now_ms - member.last_pong_unix;
            &&& after.contains_key(key) == members.contains_key(key)
            &&& members.contains_key(key) ==> {
                &&& after[key].instance_id == member.instance_id
                &&& after[key].region == member.region
                &&& after[key].addr == member.addr
                &&& after[key].last_pong_unix == member.last_pong_unix
                &&& after[key].meta_digest == member.meta_digest
                &&& member.instance_id == own ==> after[key].status == member.status
                &&& member.status == MemberStatus::Dead ==> after[key].status == MemberStatus::Dead
                &&& member.instance_id != own && member.status == MemberStatus::Alive ==> (
                after[key].status == if silent_ms > probe_timeout_ms {
                    MemberStatus::Suspect
                } else {
                    MemberStatus::Alive
                })
                &&& member.instance_id != own && member.status == MemberStatus::Suspect
                    && suspicions.contains_key(key) ==> (after[key].status == if now_ms
                    - suspicions[key] > suspect_timeout_ms {
                    MemberStatus::Dead
                } else {
                    MemberStatus::Suspect
                })
                &&& member.instance_id != own && member.status == MemberStatus::Suspect
                    && !suspicions.contains_key(key) ==> after[key].status == MemberStatus::Suspect
            }
        }),
{
}

/// After a scan there is a suspicion of each suspected member but the one that scans, and of no
/// other: since the scan that first found it silent.
pub proof fn suspicions_begin_with_the_scan_that_finds_silence(
    members: MembersView,
    suspicions: SuspicionsView,
    own: Seq<char>,
    now_ms: u64,
    probe_timeout_ms: u64,
    suspect_timeout_ms: u64,
    key: KeyView,
)
    ensures
        ({
            let scan = scanned(
                members,
                suspicions,
                own,
                now_ms,
                probe_timeout_ms,
                suspect_timeout_ms,
            );
            let after = suspicions_after(
                members,
                suspicions,
                own,
                now_ms,
                probe_timeout_ms,
                suspect_timeout_ms,
            );
            &&& after.contains_key(key) <==> members.contains_key(key) && members[key].instance_id
                != own && scan[key].status == MemberStatus::Suspect
            &&& after.contains_key(key) && members[key].status == MemberStatus::Alive ==> after[key]
                == now_ms
            &&& after.contains_key(key) && members[key].status == MemberStatus::Suspect ==> after[key]
                == if suspicions.contains_key(key) {
                suspicions[key]
            } else {
                now_ms
            }
        }),
{
}

/// Hearing of a member renews its digest and the time, makes it alive, and changes nothing else of
/// it; marking it changes its status alone. Marking a member that is not known does nothing, and what
/// is known of others stays as it was.
pub proof fn hearing_and_marking_change_one_member(
    members: MembersView,
    instance_id: Seq<char>,
    status: MemberStatus,
    digest: MetaDigest,
    now_ms: u64,
    other: KeyView,
)
    ensures
        ({
            let key = member_key(instance_id);
            let after = marked(members, instance_id, status);
            let told = heard(members[key], digest, now_ms);
            &&& after.contains_key(other) == members.contains_key(other)
            &&& other != key ==> after[other] == members[other]
            &&& members.contains_key(key) ==> after[key].status == status && after[key].instance_id
                == members[key].instance_id && after[key].region == members[key].region
                && after[key].addr == members[key].addr && after[key].last_pong_unix
                == members[key].last_pong_unix && after[key].meta_digest == members[key].meta_digest
            &&& told.status == MemberStatus::Alive
            &&& told.last_pong_unix == now_ms
            &&& told.meta_digest == digest
            &&& told.addr == members[key].addr
            &&& told.region == members[key].region
            &&& told.instance_id == members[key].instance_id
        }),
{
    let key = member_key(instance_id);
    if members.contains_key(key) {
        assert(marked(members, instance_id, status).dom() =~= members.dom());
    }
}

/// Two members have one key only if they are one instance.
pub proof fn members_have_their_own_keys(a: Seq<char>, b: Seq<char>)
    ensures
        member_key(a) == member_key(b) <==> a == b,
{
}

/// A sieve keeps the members it is named after.
pub proof fn a_sieve_keeps_what_it_says(
    member: MemberView,
    region: RegionId,
    instance_id: InstanceId,
)
    ensures
        Sieve::Alive.condition()(member) <==> member.status == MemberStatus::Alive,
        Sieve::Inside(region).condition()(member) <==> member.region == region@,
        Sieve::Outside(region).condition()(member) <==> member.region != region@,
        Sieve::OtherThan(instance_id).condition()(member) <==> member.instance_id != instance_id@,
{
}

/// A list of members holds as many as there are, each once and as it is.
pub proof fn a_list_holds_every_member_once(
    list: Seq<ClusterMember>,
    members: MembersView,
    i: int,
    j: int,
)
    requires
        lists(list, members),
    ensures
        list.len() == members.dom().len(),
        0 <= i < list.len() ==> members.contains_key(member_key(list[i]@.instance_id))
            && members[member_key(list[i]@.instance_id)] == list[i]@,
        0 <= i < j < list.len() ==> list[i]@.instance_id != list[j]@.instance_id,
        forall|key: KeyView| #[trigger]
            members.contains_key(key) ==> exists|k: int|
                0 <= k < list.len() && member_key((#[trigger] list[k])@.instance_id) == key,
{
    lemma_lists(list, members);
}

/// Members are taken in the given order, as many as asked for, or all if there are fewer.
pub proof fn members_are_taken_in_order(
    chosen: Seq<ClusterMember>,
    list: Seq<ClusterMember>,
    order: Seq<usize>,
    n: nat,
    i: int,
)
    requires
        first_in_order(chosen, list, order, n),
    ensures
        chosen.len() <= n,
        chosen.len() <= order.len(),
        chosen.len() == n || chosen.len() == order.len(),
        0 <= i < chosen.len() ==> chosen[i] == list[order[i] as int],
{
}

/// Members after one was heard of.
pub open spec fn told_of(
    members: MembersView,
    instance_id: Seq<char>,
    digest: MetaDigest,
    now_ms: u64,
) -> MembersView {
    let key = member_key(instance_id);
    if members.contains_key(key) {
        members.insert(key, heard(members[key], digest, now_ms))
    } else {
        members
    }
}

/// A member that was heard of is alive from then on, with what it told; one that is not known stays
/// unknown, and what is known of others stays as it was.
pub proof fn who_was_heard_of_is_alive(
    members: MembersView,
    instance_id: Seq<char>,
    digest: MetaDigest,
    now_ms: u64,
    other: KeyView,
)
    requires
        other != member_key(instance_id),
    ensures
        ({
            let key = member_key(instance_id);
            let after = told_of(members, instance_id, digest, now_ms);
            &&& after.contains_key(key) == members.contains_key(key)
            &&& members.contains_key(key) ==> after[key].status == MemberStatus::Alive
                && after[key].last_pong_unix == now_ms && after[key].meta_digest == digest
                && after[key].addr == members[key].addr && after[key].region == members[key].region
                && after[key].instance_id == members[key].instance_id
            &&& after.contains_key(other) == members.contains_key(other)
            &&& after[other] == members[other]
        }),
{
}

} // verus!
