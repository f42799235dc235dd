//! The members of a cluster, region by region.

use vstd::prelude::*;

use crate::ids::RegionId;
use crate::member;
use crate::member::{ClusterMember, MemberList, MembersView, Sieve};
use crate::table::KeyView;
use crate::text;
use crate::text::precedes;

verus! {

/// The regions of some members.
pub open spec fn regions_of(members: MembersView) -> Set<Seq<char>> {
    Set::new(
        |region: Seq<char>|
            exists|key: KeyView| #[trigger]
                members.contains_key(key) && members[key].region == region,
    )
}

/// Regions in the order of dictionaries, none twice, and exactly those of `regions`.
pub open spec fn lists_regions(list: Seq<RegionId>, regions: Set<Seq<char>>) -> bool {
    &&& forall|i: int, j: int|
        #![trigger list[i], list[j]]
        0 <= i < j < list.len() ==> text::before(list[i]@, list[j]@)
    &&& forall|i: int| 0 <= i < list.len() ==> regions.contains((#[trigger] list[i])@)
    &&& forall|region: Seq<char>| #[trigger]
        regions.contains(region) ==> exists|i: int|
            0 <= i < list.len() && (#[trigger] list[i])@ == region
}

/// Adds a region to a sorted list, unless it is there.
fn file_region(list: &mut Vec<RegionId>, region: &RegionId, Ghost(regions): Ghost<Set<Seq<char>>>)
    requires
        lists_regions(old(list)@, regions),
    ensures
        lists_regions(final(list)@, regions.insert(region@)),
{
    let mut at: usize = 0;
    let ghost start = list@;
    while at < list.len() && precedes(list[at].as_str(), region.as_str())
        invariant
            at <= list@.len(),
            list@ == start,
            forall|k: int| 0 <= k < at ==> text::before((#[trigger] list@[k])@, region@),
        decreases list@.len() - at,
    {
        at = at + 1;
    }
    if at < list.len() && list[at].same(region) {
        proof {
            assert(regions.contains(start[at as int]@));
            assert(regions.insert(region@) =~= regions);
        }
        return ;
    }
    list.insert(at, region.clone());
    proof {
        let filed = list@;
        let all = regions.insert(region@);
        assert(filed[at as int]@ == region@);
        if at < start.len() {
            text::lemma_before_total(start[at as int]@, region@);
        }
        assert forall|i: int, j: int|
            #![trigger filed[i], filed[j]]
            0 <= i < j < filed.len() implies text::before(filed[i]@, filed[j]@) by {
            if j < at {
                assert(text::before(start[i]@, start[j]@));
            } else if j == at {
                assert(text::before(start[i]@, region@));
            } else if i == at {
                if j - 1 > at {
                    assert(text::before(start[at as int]@, start[j - 1]@));
                    text::lemma_before_transitive(region@, start[at as int]@, start[j - 1]@);
                }
                assert(filed[j] == start[j - 1]);
            } else if i < at {
                assert(filed[i] == start[i]);
                assert(filed[j] == start[j - 1]);
                assert(text::before(start[i]@, start[j - 1]@));
            } else {
                assert(filed[i] == start[i - 1]);
                assert(filed[j] == start[j - 1]);
                assert(text::before(start[i - 1]@, start[j - 1]@));
            }
        }
        assert forall|i: int| 0 <= i < filed.len() implies all.contains((#[trigger] filed[i])@) by {
            if i < at {
                assert(filed[i] == start[i]);
            } else if i > at {
                assert(filed[i] == start[i - 1]);
            }
        }
        assert forall|r: Seq<char>| #[trigger] all.contains(r) implies exists|i: int|
            0 <= i < filed.len() && (#[trigger] filed[i])@ == r by {
            if r == region@ {
                assert(filed[at as int]@ == r);
            } else {
                let i = choose|i: int| 0 <= i < start.len() && (#[trigger] start[i])@ == r;
                if i < at {
                    assert(filed[i] == start[i]);
                } else {
                    assert(filed[i + 1] == start[i]);
                }
            }
        }
    }
}

/// The regions of listed members, sorted.
fn sorted_regions(list: &Vec<ClusterMember>) -> (regions: Vec<RegionId>)
    ensures
        forall|members: MembersView| #[trigger]
            member::lists(list@, members) ==> lists_regions(regions@, regions_of(members)),
{
    let mut regions: Vec<RegionId> = Vec::new();
    let ghost mut seen: Set<Seq<char>> = Set::empty();
    let mut i: usize = 0;
    while i < list.len()
        invariant
            i <= list@.len(),
            lists_regions(regions@, seen),
            forall|r: Seq<char>| #[trigger]
                seen.contains(r) <==> exists|k: int|
                    0 <= k < i && (#[trigger] list@[k])@.region == r,
        decreases list@.len() - i,
    {
        file_region(&mut regions, &list[i].region, Ghost(seen));
        proof {
            let before = seen;
            seen = seen.insert(list@[i as int]@.region);
            assert forall|r: Seq<char>| #[trigger] seen.contains(r) <==> exists|k: int|
                0 <= k < i + 1 && (#[trigger] list@[k])@.region == r by {
                if seen.contains(r) {
                    if r == list@[i as int]@.region {
                        assert(list@[i as int]@.region == r);
                    } else {
                        assert(before.contains(r));
                        let k = choose|k: int| 0 <= k < i && (#[trigger] list@[k])@.region == r;
                        assert(list@[k]@.region == r);
                    }
                }
                if exists|k: int| 0 <= k < i + 1 && (#[trigger] list@[k])@.region == r {
                    let k = choose|k: int| 0 <= k < i + 1 && (#[trigger] list@[k])@.region == r;
                    if k < i {
                        assert(before.contains(r));
                    }
                }
            }
        }
        i = i + 1;
    }
    proof {
        assert forall|members: MembersView| #[trigger]
            member::lists(list@, members) implies lists_regions(regions@, regions_of(members)) by {
            assert forall|r: Seq<char>| seen.contains(r) == regions_of(members).contains(r) by {
                if seen.contains(r) {
                    let k = choose|k: int|
                        0 <= k < list@.len() && (#[trigger] list@[k])@.region == r;
                    assert(members.contains_key(member::member_key(list@[k]@.instance_id)));
                }
                if regions_of(members).contains(r) {
                    let key = choose|key: KeyView| #[trigger]
                        members.contains_key(key) && members[key].region == r;
                    let k = choose|k: int|
                        0 <= k < list@.len() && member::member_key(
                            (#[trigger] list@[k])@.instance_id,
                        ) == key;
                    assert(list@[k]@.region == r);
                }
            }
            assert(seen =~= regions_of(members));
        }
    }
    regions
}

/// The members of a cluster, region by region.
#[derive(Clone, Copy)]
pub struct RegionMemberView<'a> {
    members: &'a MemberList,
}

impl<'a> View for RegionMemberView<'a> {
    type V = MembersView;

    closed spec fn view(&self) -> MembersView {
        self.members@
    }
}

impl<'a> RegionMemberView<'a> {
    /// The member list is well-formed.
    pub closed spec fn wf(&self) -> bool {
        self.members.wf()
    }

    /// A view of a member list.
    pub fn new(members: &'a MemberList) -> (view: Self)
        requires
            members.wf(),
        ensures
            view.wf(),
            view@ == members@,
    {
        RegionMemberView { members }
    }

    fn sifted(&self, sieve: Sieve) -> (list: Vec<ClusterMember>)
        requires
            self.wf(),
        ensures
            member::lists(
                list@,
                member::those(member::those(self@, member::alive()), sieve.condition()),
            ),
    {
        let alive: Vec<ClusterMember> = self.members.alive_members();
        assert(member::lists(alive@, member::those(self@, member::alive())));
        sieve.sift(&alive)
    }

    /// The members of a region that are alive.
    pub fn alive_in_region(&self, region: &RegionId) -> (list: Vec<ClusterMember>)
        requires
            self.wf(),
        ensures
            member::lists(
                list@,
                member::those(member::those(self@, member::alive()), member::inside(region@)),
            ),
    {
        self.sifted(Sieve::Inside(region.clone()))
    }

    /// The members of other regions that are alive.
    pub fn foreign_alive(&self, self_region: &RegionId) -> (list: Vec<ClusterMember>)
        requires
            self.wf(),
        ensures
            member::lists(
                list@,
                member::those(
                    member::those(self@, member::alive()),
                    member::outside(self_region@),
                ),
            ),
    {
        self.sifted(Sieve::Outside(self_region.clone()))
    }

    /// The members of one's own region that are alive.
    pub fn local_alive(&self, self_region: &RegionId) -> (list: Vec<ClusterMember>)
        requires
            self.wf(),
        ensures
            member::lists(
                list@,
                member::those(
                    member::those(self@, member::alive()),
                    member::inside(self_region@),
                ),
            ),
    {
        self.alive_in_region(self_region)
    }

    /// For each other region that has a member that is alive, at most `n_per_region` of those
    /// members.
    pub fn foreign_alive_per_region(&self, self_region: &RegionId, n_per_region: usize) -> (groups:
        Vec<(RegionId, Vec<ClusterMember>)>)
        requires
            self.wf(),
        ensures
            lists_regions(
                groups@.map_values(|group: (RegionId, Vec<ClusterMember>)| group.0),
                regions_of(
                    member::those(
                        member::those(self@, member::alive()),
                        member::outside(self_region@),
                    ),
                ),
            ),
            forall|i: int|
                0 <= i < groups@.len() ==> member::chosen_from(
                    (#[trigger] groups@[i]).1@,
                    member::those(
                        member::those(self@, member::alive()),
                        member::inside(groups@[i].0@),
                    ),
                    n_per_region as nat,
                ),
    {
        let regions: Vec<RegionId> = self.foreign_regions(self_region);
        let mut groups: Vec<(RegionId, Vec<ClusterMember>)> = Vec::new();
        let mut i: usize = 0;
        while i < regions.len()
            invariant
                i <= regions@.len(),
                self.wf(),
                groups@.len() == i,
                forall|k: int| 0 <= k < i ==> (#[trigger] groups@[k]).0 == regions@[k],
                forall|k: int|
                    0 <= k < i ==> member::chosen_from(
                        (#[trigger] groups@[k]).1@,
                        member::those(
                            member::those(self@, member::alive()),
                            member::inside(groups@[k].0@),
                        ),
                        n_per_region as nat,
                    ),
            decreases regions@.len() - i,
        {
            let list: Vec<ClusterMember> = self.alive_in_region(&regions[i]);
            let ghost part = member::those(
                member::those(self@, member::alive()),
                member::inside(regions@[i as int]@),
            );
            let mut few: Vec<ClusterMember> = Vec::new();
            proof {
                member::lemma_lists(list@, part);
            }
            let mut j: usize = 0;
            while j < n_per_region && j < list.len()
                invariant
                    j <= n_per_region,
                    j <= list@.len(),
                    few@ == list@.take(j as int),
                decreases list@.len() - j,
            {
                few.push(list[j].clone());
                assert(few@ =~= list@.take(j + 1));
                j = j + 1;
            }
            proof {
                assert forall|a: int| 0 <= a < few@.len() implies few@[a] == list@[a] by {}
                assert(member::chosen_from(few@, part, n_per_region as nat));
            }
            groups.push((regions[i].clone(), few));
            i = i + 1;
        }
        proof {
            assert(groups@.map_values(|group: (RegionId, Vec<ClusterMember>)| group.0)
                =~= regions@);
        }
        groups
    }

    /// The regions that have a member that is alive, sorted.
    pub fn known_regions(&self) -> (regions: Vec<RegionId>)
        requires
            self.wf(),
        ensures
            lists_regions(regions@, regions_of(member::those(self@, member::alive()))),
    {
        let alive: Vec<ClusterMember> = self.members.alive_members();
        assert(member::lists(alive@, member::those(self@, member::alive())));
        sorted_regions(&alive)
    }

    /// The other regions that have a member that is alive, sorted.
    pub fn foreign_regions(&self, self_region: &RegionId) -> (regions: Vec<RegionId>)
        requires
            self.wf(),
        ensures
            lists_regions(
                regions@,
                regions_of(
                    member::those(
                        member::those(self@, member::alive()),
                        member::outside(self_region@),
                    ),
                ),
            ),
    {
        let foreign: Vec<ClusterMember> = self.foreign_alive(self_region);
        assert(member::lists(
            foreign@,
            member::those(member::those(self@, member::alive()), member::outside(self_region@)),
        ));
        sorted_regions(&foreign)
    }

    /// For each region that has a member that is alive, the number of those members.
    pub fn region_counts(&self) -> (counts: Vec<(RegionId, usize)>)
        requires
            self.wf(),
        ensures
            lists_regions(
                counts@.map_values(|count: (RegionId, usize)| count.0),
                regions_of(member::those(self@, member::alive())),
            ),
            forall|i: int|
                0 <= i < counts@.len() ==> (#[trigger] counts@[i]).1 == member::those(
                    member::those(self@, member::alive()),
                    member::inside(counts@[i].0@),
                ).dom().len(),
    {
        let regions: Vec<RegionId> = self.known_regions();
        let mut counts: Vec<(RegionId, usize)> = Vec::new();
        let mut i: usize = 0;
        while i < regions.len()
            invariant
                i <= regions@.len(),
                self.wf(),
                counts@.len() == i,
                forall|k: int| 0 <= k < i ==> (#[trigger] counts@[k]).0 == regions@[k],
                forall|k: int|
                    0 <= k < i ==> (#[trigger] counts@[k]).1 == member::those(
                        member::those(self@, member::alive()),
                        member::inside(counts@[k].0@),
                    ).dom().len(),
            decreases regions@.len() - i,
        {
            let list: Vec<ClusterMember> = self.alive_in_region(&regions[i]);
            proof {
                member::lemma_lists(
                    list@,
                    member::those(
                        member::those(self@, member::alive()),
                        member::inside(regions@[i as int]@),
                    ),
                );
            }
            counts.push((regions[i].clone(), list.len()));
            i = i + 1;
        }
        proof {
            assert(counts@.map_values(|count: (RegionId, usize)| count.0) =~= regions@);
        }
        counts
    }

    /// Number of members that are alive.
    pub fn alive_count(&self) -> (n: usize)
        requires
            self.wf(),
        ensures
            n == member::those(self@, member::alive()).dom().len(),
    {
        let alive: Vec<ClusterMember> = self.members.alive_members();
        proof {
            member::lemma_lists(alive@, member::those(self@, member::alive()));
        }
        alive.len()
    }
}

/// Every member that is alive is either in a region or outside it.
pub proof fn inside_and_outside_make_up_all(members: MembersView, region: Seq<char>, key: KeyView)
    ensures
        members.contains_key(key) <==> member::those(members, member::inside(region)).contains_key(
            key,
        ) || member::those(members, member::outside(region)).contains_key(key),
        !(member::those(members, member::inside(region)).contains_key(key) && member::those(
            members,
            member::outside(region),
        ).contains_key(key)),
{
}

/// A region is known through members if and only if one of them is in it.
pub proof fn a_region_is_known_by_its_members(members: MembersView, key: KeyView, region: Seq<char>)
    ensures
        members.contains_key(key) ==> regions_of(members).contains(members[key].region),
        regions_of(members).contains(region) ==> exists|k: KeyView| #[trigger]
            members.contains_key(k) && members[k].region == region,
        regions_of(member::those(members, member::outside(region))).contains(region) == false,
{
}

/// A list of regions is in order, holds no region twice, leaves none out and has no other.
pub proof fn a_list_of_regions_is_sorted_and_complete(
    list: Seq<RegionId>,
    regions: Set<Seq<char>>,
    region: Seq<char>,
    i: int,
    j: int,
)
    requires
        lists_regions(list, regions),
    ensures
        0 <= i < j < list.len() ==> text::before(list[i]@, list[j]@) && list[i]@ != list[j]@,
        regions.contains(region) <==> exists|k: int|
            0 <= k < list.len() && (#[trigger] list[k])@ == region,
{
    if 0 <= i < j < list.len() {
        text::lemma_before_total(list[i]@, list[j]@);
    }
}

} // verus!
