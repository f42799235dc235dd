//! The exact index of cached blocks: a tree whose paths are block-hash sequences.
//!
//! A node stands for a block in the context of the blocks before it, and lists the backends that
//! hold it. Nodes that nobody holds and that lead to no held node are reclaimed.

use vstd::prelude::*;

use crate::ids;
use crate::ids::{BackendId, BackendView};
use crate::kv_event;
use crate::kv_event::{stale, KvCacheEvent, KvChange};
use crate::lane_grid;
use crate::table::{KeyView, Table, TableKey};

verus! {

/// A holder of a block: a backend and a rank within it.
pub type Owner = (BackendId, u32);

/// A holder by its names.
pub type OwnerView = (BackendView, u32);

/// What a tree holds: each path that exists, from the root's empty one on, with its holders.
pub type TreeView = Map<Seq<u64>, Set<OwnerView>>;

/// A node of the tree.
#[derive(Debug)]
pub struct Node {
    /// Hash of the node's block; 0 at the root.
    pub hash: u64,
    /// Holders of the block, each once.
    pub owners: Vec<Owner>,
    /// Child nodes, with distinct hashes.
    pub children: Vec<Node>,
    /// Number of holders.
    pub ref_count: u32,
}

/// A list of holders by their names.
pub open spec fn owner_names(owners: Seq<Owner>) -> Seq<OwnerView> {
    owners.map_values(|owner: Owner| (owner.0@, owner.1))
}

/// A number of holders, as far as the counter goes.
pub open spec fn counted(n: nat) -> u32 {
    if n <= u32::MAX {
        n as u32
    } else {
        u32::MAX
    }
}

/// Whether a node and all nodes below it list each holder and each child once, and count their
/// holders.
pub open spec fn node_wf(node: Node) -> bool
    decreases node,
{
    &&& owner_names(node.owners@).no_duplicates()
    &&& node.ref_count == counted(node.owners@.len())
    &&& forall|i: int, j: int|
        #![trigger node.children@[i], node.children@[j]]
        0 <= i < j < node.children@.len() ==> node.children@[i].hash != node.children@[j].hash
    &&& forall|i: int|
        0 <= i < node.children@.len() ==> node_wf(#[trigger] node.children@[i])
}

/// The position of the child with a hash.
pub open spec fn child_at(children: Seq<Node>, hash: u64) -> Option<int> {
    if exists|i: int| 0 <= i < children.len() && (#[trigger] children[i]).hash == hash {
        Some(choose|i: int| 0 <= i < children.len() && (#[trigger] children[i]).hash == hash)
    } else {
        None
    }
}

/// The holders of the node at a path below `node`, if it exists.
pub open spec fn owners_at(node: Node, path: Seq<u64>) -> Option<Set<OwnerView>>
    decreases path.len(),
{
    if path.len() == 0 {
        Some(owner_names(node.owners@).to_set())
    } else {
        match child_at(node.children@, path[0]) {
            Some(i) => owners_at(node.children@[i], path.drop_first()),
            None => None,
        }
    }
}

/// The tree below a node.
pub open spec fn tree_of(node: Node) -> TreeView {
    Map::new(|path: Seq<u64>| owners_at(node, path) is Some, |path: Seq<u64>| owners_at(node, path)->0)
}

/// Whether a backend is among some holders, at any rank.
pub open spec fn held_by(owners: Set<OwnerView>, backend: BackendView) -> bool {
    exists|rank: u32| owners.contains((backend, rank))
}

/// Whether a path exists and a backend holds its last block.
pub open spec fn holds_path(tree: TreeView, path: Seq<u64>, backend: BackendView) -> bool {
    tree.contains_key(path) && held_by(tree[path], backend)
}

/// Number of leading hashes, as a path from the root, whose blocks a backend holds.
pub open spec fn tree_overlap(tree: TreeView, hashes: Seq<u64>, backend: BackendView) -> nat
    decreases hashes.len(),
{
    if hashes.len() == 0 {
        0
    } else {
        let before = tree_overlap(tree, hashes.drop_last(), backend);
        if before == hashes.len() - 1 && holds_path(tree, hashes, backend) {
            before + 1
        } else {
            before
        }
    }
}

/// The overlap ends where the first block that the backend does not hold stands.
pub proof fn tree_overlap_stops_at_the_first_miss(
    tree: TreeView,
    hashes: Seq<u64>,
    backend: BackendView,
)
    ensures
        tree_overlap(tree, hashes, backend) <= hashes.len(),
        forall|n: int|
            0 < n <= tree_overlap(tree, hashes, backend) ==> holds_path(
                tree,
                #[trigger] hashes.take(n),
                backend,
            ),
        tree_overlap(tree, hashes, backend) < hashes.len() ==> !holds_path(
            tree,
            hashes.take(tree_overlap(tree, hashes, backend) as int + 1),
            backend,
        ),
    decreases hashes.len(),
{
    if hashes.len() > 0 {
        let shorter = hashes.drop_last();
        tree_overlap_stops_at_the_first_miss(tree, shorter, backend);
        let before = tree_overlap(tree, shorter, backend);
        assert forall|n: int| 0 < n <= tree_overlap(tree, hashes, backend) implies holds_path(
            tree,
            #[trigger] hashes.take(n),
            backend,
        ) by {
            if n < hashes.len() {
                assert(shorter.take(n) =~= hashes.take(n));
            } else {
                assert(hashes.take(n) =~= hashes);
            }
        }
        if before < shorter.len() {
            assert(shorter.take(before as int + 1) =~= hashes.take(before as int + 1));
        } else {
            assert(hashes.take(hashes.len() as int) =~= hashes);
        }
    }
}

/// An overlap is the number up to which all paths are held and after which one is not.
pub proof fn lemma_tree_overlap_is(
    tree: TreeView,
    hashes: Seq<u64>,
    backend: BackendView,
    n: nat,
)
    requires
        n <= hashes.len(),
        forall|k: int| 0 < k <= n ==> holds_path(tree, #[trigger] hashes.take(k), backend),
        n < hashes.len() ==> !holds_path(tree, hashes.take(n as int + 1), backend),
    ensures
        tree_overlap(tree, hashes, backend) == n,
{
    tree_overlap_stops_at_the_first_miss(tree, hashes, backend);
    let found = tree_overlap(tree, hashes, backend);
    if found < n {
        assert(holds_path(tree, hashes.take(found as int + 1), backend));
    } else if n < found {
        assert(holds_path(tree, hashes.take(n as int + 1), backend));
    }
}

/// The tree after a holder has stored a sequence of blocks: it holds every non-empty prefix of the
/// sequence.
pub open spec fn with_path(tree: TreeView, hashes: Seq<u64>, owner: OwnerView) -> TreeView {
    Map::new(
        |path: Seq<u64>|
            tree.contains_key(path) || (path.len() > 0 && path.is_prefix_of(hashes)),
        |path: Seq<u64>|
            {
                let before = if tree.contains_key(path) {
                    tree[path]
                } else {
                    Set::empty()
                };
                if path.len() > 0 && path.is_prefix_of(hashes) {
                    before.insert(owner)
                } else {
                    before
                }
            },
    )
}

/// What a removal takes away: the holdings of a backend, all of them, or those of some blocks at
/// rank 0.
pub struct Cut {
    /// The backend.
    pub backend: BackendView,
    /// The blocks, when not all are meant.
    pub blocks: Option<Set<u64>>,
}

impl Cut {
    /// Whether a holding of block `hash` is taken away.
    pub open spec fn takes(self, hash: u64, owner: OwnerView) -> bool {
        owner.0 == self.backend && (self.blocks matches Some(blocks) ==> owner.1 == 0
            && blocks.contains(hash))
    }

    /// The holders of block `hash` that are left.
    pub open spec fn left(self, hash: u64, owners: Set<OwnerView>) -> Set<OwnerView> {
        owners.filter(|owner: OwnerView| !self.takes(hash, owner))
    }
}

/// The hash of a path's last block, or `root` for the empty path.
pub open spec fn last_hash(root: u64, path: Seq<u64>) -> u64 {
    if path.len() == 0 {
        root
    } else {
        path.last()
    }
}

/// Whether a path leads to a block that is still held after a cut.
pub open spec fn survives(tree: TreeView, root: u64, cut: Cut, path: Seq<u64>) -> bool {
    exists|further: Seq<u64>| #[trigger]
        still_held(tree, root, cut, further) && path.is_prefix_of(further)
}

/// Whether a path exists and its last block is still held after a cut.
pub open spec fn still_held(tree: TreeView, root: u64, cut: Cut, path: Seq<u64>) -> bool {
    tree.contains_key(path) && cut.left(last_hash(root, path), tree[path]) != Set::<
        OwnerView,
    >::empty()
}

/// The tree after a cut: the holdings are taken away, and the nodes that then lead to no held
/// block are gone, but for the root.
pub open spec fn cut_tree(tree: TreeView, root: u64, cut: Cut) -> TreeView {
    Map::new(
        |path: Seq<u64>|
            tree.contains_key(path) && (path.len() == 0 || survives(tree, root, cut, path)),
        |path: Seq<u64>| cut.left(last_hash(root, path), tree[path]),
    )
}

proof fn lemma_child_at(children: Seq<Node>, i: int)
    requires
        forall|i: int, j: int|
            #![trigger children[i], children[j]]
            0 <= i < j < children.len() ==> children[i].hash != children[j].hash,
        0 <= i < children.len(),
    ensures
        child_at(children, children[i].hash) == Some(i),
{
    let found = child_at(children, children[i].hash)->0;
    assert(0 <= found < children.len() && children[found].hash == children[i].hash);
    if found < i {
        assert(children[found].hash != children[i].hash);
    } else if i < found {
        assert(children[i].hash != children[found].hash);
    }
}

/// The position of the child with a hash.
fn find_child(children: &Vec<Node>, hash: u64) -> (at: Option<usize>)
    requires
        forall|i: int, j: int|
            #![trigger children@[i], children@[j]]
            0 <= i < j < children@.len() ==> children@[i].hash != children@[j].hash,
    ensures
        match at {
            Some(i) => i < children@.len() && child_at(children@, hash) == Some(i as int)
                && children@[i as int].hash == hash,
            None => child_at(children@, hash) is None,
        },
{
    let mut i: usize = 0;
    while i < children.len()
        invariant
            i <= children@.len(),
            forall|j: int| 0 <= j < i ==> (#[trigger] children@[j]).hash != hash,
            forall|i: int, j: int|
                #![trigger children@[i], children@[j]]
                0 <= i < j < children@.len() ==> children@[i].hash != children@[j].hash,
        decreases children@.len() - i,
    {
        if children[i].hash == hash {
            proof {
                lemma_child_at(children@, i as int);
            }
            return Some(i);
        }
        i = i + 1;
    }
    None
}

fn count_owners(owners: &Vec<Owner>) -> (n: u32)
    ensures
        n == counted(owners@.len()),
{
    let len: usize = owners.len();
    if len <= u32::MAX as usize {
        len as u32
    } else {
        u32::MAX
    }
}

impl Node {
    /// A node for block `hash` that nobody holds.
    pub fn new(hash: u64) -> (node: Self)
        ensures
            node.hash == hash,
            node.owners@.len() == 0,
            node.children@.len() == 0,
            node_wf(node),
            tree_of(node) == Map::<Seq<u64>, Set<OwnerView>>::empty().insert(
                Seq::empty(),
                Set::empty(),
            ),
    {
        let node = Node { hash, owners: Vec::new(), children: Vec::new(), ref_count: 0 };
        proof {
            assert(owner_names(node.owners@) =~= Seq::empty());
            assert(owner_names(node.owners@).to_set() =~= Set::empty());
            let expected = Map::<Seq<u64>, Set<OwnerView>>::empty().insert(
                Seq::empty(),
                Set::empty(),
            );
            assert forall|path: Seq<u64>| tree_of(node).contains_key(path)
                == expected.contains_key(path) by {
                if path.len() == 0 {
                    assert(path =~= Seq::empty());
                }
            }
            assert(tree_of(node) =~= expected);
        }
        node
    }

    fn owner_position(&self, owner: &Owner) -> (at: Option<usize>)
        ensures
            match at {
                Some(i) => i < self.owners@.len() && owner_names(self.owners@)[i as int] == (
                    owner.0@,
                    owner.1,
                ),
                None => !owner_names(self.owners@).contains((owner.0@, owner.1)),
            },
    {
        let mut i: usize = 0;
        while i < self.owners.len()
            invariant
                i <= self.owners@.len(),
                forall|j: int|
                    0 <= j < i ==> #[trigger] owner_names(self.owners@)[j] != (owner.0@, owner.1),
            decreases self.owners@.len() - i,
        {
            if self.owners[i].1 == owner.1 && self.owners[i].0.same(&owner.0) {
                return Some(i);
            }
            i = i + 1;
        }
        None
    }

    /// Adds a holder, unless it is one already.
    fn add_owner(&mut self, owner: &Owner)
        requires
            node_wf(*old(self)),
        ensures
            node_wf(*final(self)),
            final(self).hash == old(self).hash,
            final(self).children == old(self).children,
            owner_names(final(self).owners@).to_set() == owner_names(
                old(self).owners@,
            ).to_set().insert((owner.0@, owner.1)),
    {
        let ghost name = (owner.0@, owner.1);
        let ghost before = owner_names(self.owners@);
        if self.owner_position(owner).is_some() {
            assert(before.to_set() =~= before.to_set().insert(name));
            return ;
        }
        self.owners.push((owner.0.clone(), owner.1));
        self.ref_count = count_owners(&self.owners);
        proof {
            let after = owner_names(self.owners@);
            assert(after =~= before.push(name));
            assert forall|o: OwnerView| after.to_set().contains(o) == before.to_set().insert(
                name,
            ).contains(o) by {
                if before.contains(o) {
                    let i = before.index_of(o);
                    assert(after[i] == o);
                }
                if o == name {
                    assert(after[before.len() as int] == o);
                }
            }
            assert(after.to_set() =~= before.to_set().insert(name));
        }
    }

    /// Whether a backend holds the node's block.
    fn is_owned_by(&self, backend: &BackendId) -> (owned: bool)
        ensures
            owned == held_by(owner_names(self.owners@).to_set(), backend@),
    {
        let mut i: usize = 0;
        let ghost names = owner_names(self.owners@);
        while i < self.owners.len()
            invariant
                i <= self.owners@.len(),
                names == owner_names(self.owners@),
                forall|j: int| 0 <= j < i ==> (#[trigger] names[j]).0 != backend@,
            decreases self.owners@.len() - i,
        {
            if self.owners[i].0.same(backend) {
                proof {
                    assert(names[i as int] == (backend@, self.owners@[i as int].1));
                    assert(names.to_set().contains((backend@, self.owners@[i as int].1)));
                }
                return true;
            }
            assert(names[i as int].0 != backend@);
            i = i + 1;
        }
        proof {
            assert forall|rank: u32| !names.to_set().contains((backend@, rank)) by {
                if names.contains((backend@, rank)) {
                    let j = names.index_of((backend@, rank));
                    assert(names[j].0 != backend@);
                }
            }
        }
        false
    }
}

impl Default for Node {
    fn default() -> (node: Self)
        ensures
            node.hash == 0,
            node_wf(node),
            node.owners@.len() == 0,
            node.children@.len() == 0,
    {
        Node::new(0)
    }
}

proof fn lemma_prefix_step(path: Seq<u64>, hashes: Seq<u64>, from: int)
    requires
        0 <= from < hashes.len(),
        path.len() > 0,
    ensures
        path.is_prefix_of(hashes.skip(from)) == (path[0] == hashes[from]
            && path.drop_first().is_prefix_of(hashes.skip(from + 1))),
{
    let here = hashes.skip(from);
    let next = hashes.skip(from + 1);
    assert(here.drop_first() =~= next);
    if path.is_prefix_of(here) {
        assert(path[0] == here[0]);
        assert forall|i: int| 0 <= i < path.drop_first().len() implies path.drop_first()[i]
            == next[i] by {
            assert(path[i + 1] == here[i + 1]);
        }
        assert(path.drop_first() =~= next.take(path.len() - 1));
    }
    if path[0] == hashes[from] && path.drop_first().is_prefix_of(next) {
        assert forall|i: int| 0 <= i < path.len() implies path[i] == here[i] by {
            if i > 0 {
                assert(path.drop_first()[i - 1] == next[i - 1]);
            }
        }
        assert(path =~= here.take(path.len() as int));
    }
}

/// What storing a path does to the holders of a path.
spec fn stored_at(
    before: Option<Set<OwnerView>>,
    path: Seq<u64>,
    hashes: Seq<u64>,
    owner: OwnerView,
) -> Option<Set<OwnerView>> {
    if path.len() > 0 && path.is_prefix_of(hashes) {
        Some(
            (match before {
                Some(owners) => owners,
                None => Set::empty(),
            }).insert(owner),
        )
    } else {
        before
    }
}

/// Makes `owner` a holder of every block on the path of the hashes from position `from` on.
fn store_path(node: &mut Node, hashes: &Vec<u64>, from: usize, owner: &Owner)
    requires
        node_wf(*old(node)),
        from <= hashes@.len(),
    ensures
        node_wf(*final(node)),
        final(node).hash == old(node).hash,
        final(node).owners == old(node).owners,
        forall|path: Seq<u64>|
            #![trigger owners_at(*final(node), path)]
            owners_at(*final(node), path) == stored_at(
                owners_at(*old(node), path),
                path,
                hashes@.skip(from as int),
                (owner.0@, owner.1),
            ),
    decreases hashes@.len() - from,
{
    let ghost name = (owner.0@, owner.1);
    let ghost start = *node;
    if from >= hashes.len() {
        proof {
            assert forall|path: Seq<u64>|
                #![trigger owners_at(*node, path)]
                owners_at(*node, path) == stored_at(
                    owners_at(start, path),
                    path,
                    hashes@.skip(from as int),
                    name,
                ) by {
                if path.is_prefix_of(hashes@.skip(from as int)) {
                    assert(path.len() == 0);
                }
            }
        }
        return ;
    }
    let hash: u64 = hashes[from];
    let at: usize;
    let ghost extended: Seq<Node>;
    match find_child(&node.children, hash) {
        Some(i) => {
            at = i;
            proof {
                extended = node.children@;
            }
        },
        None => {
            at = node.children.len();
            node.children.push(Node::new(hash));
            proof {
                extended = node.children@;
            }
        },
    }
    let ghost fresh = extended[at as int];
    proof {
        assert(node_wf(fresh));
        assert(fresh.hash == hash);
    }
    node.children[at].add_owner(owner);
    let ghost owned = node.children@[at as int];
    store_path(&mut node.children[at], hashes, from + 1, owner);
    proof {
        let done = node.children@[at as int];
        assert(node.children@ =~= extended.update(at as int, done));
        assert(done.hash == hash);
        assert forall|i: int, j: int|
            #![trigger node.children@[i], node.children@[j]]
            0 <= i < j < node.children@.len() implies node.children@[i].hash
            != node.children@[j].hash by {
            assert(extended[i].hash == node.children@[i].hash);
            assert(extended[j].hash == node.children@[j].hash);
            if i < start.children@.len() && j < start.children@.len() {
                assert(start.children@[i].hash != start.children@[j].hash);
            } else {
                assert(child_at(start.children@, hash) is None);
                assert(start.children@[i].hash != hash);
            }
        }
        assert forall|i: int| 0 <= i < node.children@.len() implies node_wf(
            #[trigger] node.children@[i],
        ) by {
            if i != at {
                assert(node.children@[i] == start.children@[i]);
            }
        }
        assert(node_wf(*node));
        assert forall|path: Seq<u64>|
            #![trigger owners_at(*node, path)]
            owners_at(*node, path) == stored_at(
                owners_at(start, path),
                path,
                hashes@.skip(from as int),
                name,
            ) by {
            if path.len() > 0 {
                lemma_prefix_step(path, hashes@, from as int);
                let rest = path.drop_first();
                if path[0] == hash {
                    lemma_child_at(node.children@, at as int);
                    assert(owners_at(*node, path) == owners_at(done, rest));
                    assert(owners_at(done, rest) == stored_at(
                        owners_at(owned, rest),
                        rest,
                        hashes@.skip(from + 1),
                        name,
                    ));
                    assert(rest.len() > 0 ==> owners_at(owned, rest) == owners_at(fresh, rest)) by {
                        if rest.len() > 0 {
                            assert(owned.children == fresh.children);
                        }
                    }
                    if child_at(start.children@, hash) is Some {
                        assert(owners_at(start, path) == owners_at(fresh, rest));
                    } else {
                        assert(owners_at(start, path) is None);
                        assert(rest.len() > 0 ==> owners_at(fresh, rest) is None);
                        if rest.len() == 0 {
                            assert(owner_names(fresh.owners@) =~= Seq::empty());
                            assert(owner_names(fresh.owners@).to_set() =~= Set::empty());
                        }
                    }
                    if rest.len() == 0 {
                        assert(path.is_prefix_of(hashes@.skip(from as int)));
                    }
                } else {
                    assert(!path.is_prefix_of(hashes@.skip(from as int)));
                    match child_at(start.children@, path[0]) {
                        Some(i) => {
                            assert(start.children@[i].hash == path[0]);
                            assert(node.children@[i] == start.children@[i]);
                            lemma_child_at(node.children@, i);
                        },
                        None => {
                            match child_at(node.children@, path[0]) {
                                Some(i) => {
                                    assert(node.children@[i].hash == path[0]);
                                    assert(i != at);
                                    assert(start.children@[i].hash == path[0]);
                                },
                                None => {},
                            }
                        },
                    }
                }
            }
        }
    }
}

/// A path below a child survives exactly when the path through the child does.
proof fn lemma_survives_below(node: Node, cut: Cut, path: Seq<u64>, i: int)
    requires
        node_wf(node),
        path.len() > 0,
        0 <= i < node.children@.len(),
        node.children@[i].hash == path[0],
    ensures
        child_at(node.children@, path[0]) == Some(i),
        survives(tree_of(node), node.hash, cut, path) == survives(
            tree_of(node.children@[i]),
            node.children@[i].hash,
            cut,
            path.drop_first(),
        ),
{
    let child = node.children@[i];
    let rest = path.drop_first();
    lemma_child_at(node.children@, i);
    if survives(tree_of(node), node.hash, cut, path) {
        let further = choose|q: Seq<u64>| #[trigger]
            still_held(tree_of(node), node.hash, cut, q) && path.is_prefix_of(q);
        let below = further.drop_first();
        assert(further[0] == path[0]);
        assert(owners_at(node, further) == owners_at(child, below));
        if below.len() > 0 {
            assert(below.last() == further.last());
        }
        assert(still_held(tree_of(child), child.hash, cut, below));
        assert(rest =~= below.take(rest.len() as int)) by {
            assert(path =~= further.take(path.len() as int));
        }
    }
    if survives(tree_of(child), child.hash, cut, rest) {
        let below = choose|q: Seq<u64>| #[trigger]
            still_held(tree_of(child), child.hash, cut, q) && rest.is_prefix_of(q);
        let further = seq![path[0]] + below;
        assert(further.drop_first() =~= below);
        assert(owners_at(node, further) == owners_at(child, below));
        if below.len() > 0 {
            assert(below.last() == further.last());
        }
        assert(still_held(tree_of(node), node.hash, cut, further));
        assert(path =~= further.take(path.len() as int)) by {
            assert(rest =~= below.take(rest.len() as int));
            assert forall|k: int| 0 <= k < path.len() implies path[k] == further[k] by {
                if k > 0 {
                    assert(rest[k - 1] == below[k - 1]);
                }
            }
        }
    }
}

/// A node survives when it is still held, or one of its children survives.
proof fn lemma_survives_here(node: Node, cut: Cut)
    requires
        node_wf(node),
    ensures
        survives(tree_of(node), node.hash, cut, Seq::empty()) == (cut.left(
            node.hash,
            owner_names(node.owners@).to_set(),
        ) != Set::<OwnerView>::empty() || exists|i: int|
            0 <= i < node.children@.len() && survives(
                tree_of(#[trigger] node.children@[i]),
                node.children@[i].hash,
                cut,
                Seq::empty(),
            )),
{
    let root = Seq::<u64>::empty();
    if survives(tree_of(node), node.hash, cut, root) {
        let further = choose|q: Seq<u64>| #[trigger]
            still_held(tree_of(node), node.hash, cut, q) && root.is_prefix_of(q);
        if further.len() > 0 {
            let i = child_at(node.children@, further[0])->0;
            assert(node.children@[i].hash == further[0]);
            assert(further =~= further.take(further.len() as int));
            assert(survives(tree_of(node), node.hash, cut, further)) by {
                assert(still_held(tree_of(node), node.hash, cut, further));
                assert(further.is_prefix_of(further));
            }
            lemma_survives_below(node, cut, further, i);
            let child = node.children@[i];
            let below = choose|q: Seq<u64>| #[trigger]
                still_held(tree_of(child), child.hash, cut, q)
                    && further.drop_first().is_prefix_of(q);
            assert(root.is_prefix_of(below)) by {
                assert(root =~= below.take(0));
            }
            assert(survives(tree_of(node.children@[i]), node.children@[i].hash, cut, root));
        } else {
            assert(further =~= root);
        }
    }
    if cut.left(node.hash, owner_names(node.owners@).to_set()) != Set::<OwnerView>::empty() {
        assert(still_held(tree_of(node), node.hash, cut, root));
        assert(root.is_prefix_of(root)) by {
            assert(root =~= root.take(0));
        }
    }
    if exists|i: int|
        0 <= i < node.children@.len() && survives(
            tree_of(#[trigger] node.children@[i]),
            node.children@[i].hash,
            cut,
            root,
        ) {
        let i = choose|i: int|
            0 <= i < node.children@.len() && survives(
                tree_of(#[trigger] node.children@[i]),
                node.children@[i].hash,
                cut,
                root,
            );
        let step = seq![node.children@[i].hash];
        assert(step.drop_first() =~= root);
        lemma_survives_below(node, cut, step, i);
        let further = choose|q: Seq<u64>| #[trigger]
            still_held(tree_of(node), node.hash, cut, q) && step.is_prefix_of(q);
        assert(root.is_prefix_of(further)) by {
            assert(root =~= further.take(0));
        }
    }
}

proof fn lemma_survives_shorter(tree: TreeView, root: u64, cut: Cut, path: Seq<u64>)
    requires
        survives(tree, root, cut, path),
    ensures
        survives(tree, root, cut, Seq::empty()),
{
    let further = choose|q: Seq<u64>| #[trigger]
        still_held(tree, root, cut, q) && path.is_prefix_of(q);
    assert(Seq::<u64>::empty() =~= further.take(0));
    assert(Seq::<u64>::empty().is_prefix_of(further));
}

/// What a cut is made of.
pub open spec fn cut_of(backend: BackendView, blocks: Option<&Vec<u64>>) -> Cut {
    Cut {
        backend,
        blocks: match blocks {
            Some(list) => Some(list@.to_set()),
            None => None,
        },
    }
}

fn lists_hash(hashes: &Vec<u64>, hash: u64) -> (found: bool)
    ensures
        found == hashes@.to_set().contains(hash),
{
    let mut i: usize = 0;
    while i < hashes.len()
        invariant
            i <= hashes@.len(),
            forall|j: int| 0 <= j < i ==> hashes@[j] != hash,
        decreases hashes@.len() - i,
    {
        if hashes[i] == hash {
            assert(hashes@.contains(hash));
            return true;
        }
        i = i + 1;
    }
    false
}

/// Takes the holdings of a cut out of a node's own list.
fn cut_owners(node: &mut Node, backend: &BackendId, blocks: Option<&Vec<u64>>)
    requires
        node_wf(*old(node)),
    ensures
        node_wf(*final(node)),
        final(node).hash == old(node).hash,
        final(node).children == old(node).children,
        owner_names(final(node).owners@).to_set() == cut_of(backend@, blocks).left(
            old(node).hash,
            owner_names(old(node).owners@).to_set(),
        ),
{
    let ghost cut = cut_of(backend@, blocks);
    let ghost before = owner_names(node.owners@);
    let hash: u64 = node.hash;
    let listed: bool = match blocks {
        Some(list) => lists_hash(list, hash),
        None => true,
    };
    let every_rank: bool = blocks.is_none();
    let mut kept: Vec<Owner> = Vec::new();
    let mut i: usize = 0;
    while i < node.owners.len()
        invariant
            i <= node.owners@.len(),
            node.owners@ == old(node).owners@,
            node.hash == old(node).hash,
            node.children == old(node).children,
            hash == node.hash,
            cut == cut_of(backend@, blocks),
            every_rank == blocks is None,
            listed == (match blocks {
                Some(list) => list@.to_set().contains(hash),
                None => true,
            }),
            before == owner_names(node.owners@),
            before.no_duplicates(),
            owner_names(kept@).no_duplicates(),
            forall|o: OwnerView|
                #![trigger owner_names(kept@).contains(o)]
                owner_names(kept@).contains(o) == (before.take(i as int).contains(o) && !cut.takes(
                    hash,
                    o,
                )),
        decreases node.owners@.len() - i,
    {
        let taken: bool = listed && (every_rank || node.owners[i].1 == 0) && node.owners[i].0.same(
            backend,
        );
        let ghost name = before[i as int];
        let ghost shown = owner_names(kept@);
        proof {
            assert(taken == cut.takes(hash, name));
            assert(before.take(i + 1) =~= before.take(i as int).push(name));
            assert(!before.take(i as int).contains(name)) by {
                if before.take(i as int).contains(name) {
                    let j = before.take(i as int).index_of(name);
                    assert(before[j] == name);
                }
            }
        }
        if !taken {
            kept.push((node.owners[i].0.clone(), node.owners[i].1));
            proof {
                assert(owner_names(kept@) =~= shown.push(name));
                assert(!shown.contains(name));
            }
        }
        proof {
            let longer = before.take(i + 1);
            assert forall|o: OwnerView|
                #![trigger owner_names(kept@).contains(o)]
                owner_names(kept@).contains(o) == (longer.contains(o) && !cut.takes(hash, o)) by {
                assert(longer[i as int] == name);
                assert(longer.contains(o) == (before.take(i as int).contains(o) || o == name)) by {
                    if before.take(i as int).contains(o) {
                        let j = before.take(i as int).index_of(o);
                        assert(longer[j] == o);
                    }
                    if longer.contains(o) && o != name {
                        let j = longer.index_of(o);
                        assert(before.take(i as int)[j] == o);
                    }
                }
                assert(shown.contains(o) == (before.take(i as int).contains(o) && !cut.takes(
                    hash,
                    o,
                )));
                if !taken {
                    assert(owner_names(kept@)[shown.len() as int] == name);
                    if shown.contains(o) {
                        let j = shown.index_of(o);
                        assert(owner_names(kept@)[j] == o);
                    }
                    if owner_names(kept@).contains(o) && o != name {
                        let j = owner_names(kept@).index_of(o);
                        assert(shown[j] == o);
                    }
                }
            }
        }
        i = i + 1;
    }
    proof {
        assert(before.take(i as int) =~= before);
        let after = owner_names(kept@);
        assert forall|o: OwnerView| after.to_set().contains(o) == cut.left(
            hash,
            before.to_set(),
        ).contains(o) by {
            assert(after.contains(o) == (before.contains(o) && !cut.takes(hash, o)));
        }
        assert(after.to_set() =~= cut.left(hash, before.to_set()));
    }
    let n: u32 = count_owners(&kept);
    node.owners = kept;
    node.ref_count = n;
}

/// Takes the holdings of a cut out of a subtree, and reclaims the nodes below its root that then
/// lead to no held block. Tells whether the root itself leads to none.
fn prune(node: &mut Node, backend: &BackendId, blocks: Option<&Vec<u64>>) -> (dead: bool)
    requires
        node_wf(*old(node)),
    ensures
        node_wf(*final(node)),
        final(node).hash == old(node).hash,
        tree_of(*final(node)) == cut_tree(
            tree_of(*old(node)),
            old(node).hash,
            cut_of(backend@, blocks),
        ),
        dead == !survives(
            tree_of(*old(node)),
            old(node).hash,
            cut_of(backend@, blocks),
            Seq::empty(),
        ),
    decreases *old(node),
{
    let ghost cut = cut_of(backend@, blocks);
    let ghost start = *node;
    let ghost root = Seq::<u64>::empty();
    cut_owners(node, backend, blocks);
    let mut i: usize = 0;
    let ghost mut done: int = 0;
    let ghost mut kept: Seq<int> = Seq::empty();
    let ghost left = node.owners@;
    proof {
        assert(node.children@.skip(0) =~= start.children@.skip(0));
    }
    while i < node.children.len()
        invariant
            i <= node.children@.len(),
            node_wf(start),
            start == *old(node),
            root == Seq::<u64>::empty(),
            cut == cut_of(backend@, blocks),
            node.hash == start.hash,
            node.owners@ == left,
            owner_names(left).no_duplicates(),
            node.ref_count == counted(left.len()),
            0 <= done <= start.children@.len(),
            node.children@.len() - i == start.children@.len() - done,
            forall|j: int|
                i <= j < node.children@.len() ==> #[trigger] node.children@[j]
                    == start.children@[j - i + done],
            kept.len() == i,
            forall|a: int, b: int|
                #![trigger kept[a], kept[b]]
                0 <= a < b < kept.len() ==> kept[a] < kept[b],
            forall|j: int|
                #![trigger kept[j]]
                #![trigger node.children@[j]]
                0 <= j < i ==> 0 <= kept[j] < done && node_wf(node.children@[j])
                    && node.children@[j].hash == start.children@[kept[j]].hash && tree_of(
                    node.children@[j],
                ) == cut_tree(
                    tree_of(start.children@[kept[j]]),
                    start.children@[kept[j]].hash,
                    cut,
                ),
            forall|m: int|
                0 <= m < done ==> (survives(
                    tree_of(#[trigger] start.children@[m]),
                    start.children@[m].hash,
                    cut,
                    root,
                ) <==> kept.contains(m)),
        decreases node.children@.len() - i,
    {
        let ghost shown = node.children@;
        let ghost was = kept;
        proof {
            assert(node.children@[i as int] == start.children@[done]);
            assert(decreases_to!(start => start.children));
        }
        let gone: bool = prune(&mut node.children[i], backend, blocks);
        let ghost pruned = node.children@[i as int];
        proof {
            assert(node.children@ =~= shown.update(i as int, pruned));
        }
        if gone {
            node.children.remove(i);
            proof {
                assert(node.children@ =~= shown.remove(i as int));
                assert(!was.contains(done)) by {
                    if was.contains(done) {
                        let j = was.index_of(done);
                        assert(was[j] < done);
                    }
                }
                assert forall|j: int| i <= j < node.children@.len() implies #[trigger]
                    node.children@[j] == start.children@[j - i + done + 1] by {
                    assert(node.children@[j] == shown[j + 1]);
                }
                assert forall|j: int| 0 <= j < i implies #[trigger] node.children@[j]
                    == shown[j] by {}
                done = done + 1;
            }
        } else {
            proof {
                kept = kept.push(done);
                assert forall|m: int| 0 <= m < done + 1 implies (survives(
                    tree_of(#[trigger] start.children@[m]),
                    start.children@[m].hash,
                    cut,
                    root,
                ) <==> kept.contains(m)) by {
                    if m < done {
                        if was.contains(m) {
                            let j = was.index_of(m);
                            assert(kept[j] == m);
                        }
                        if kept.contains(m) {
                            let j = kept.index_of(m);
                            assert(was[j] == m);
                        }
                    } else {
                        assert(kept[i as int] == done);
                    }
                }
                assert forall|j: int| 0 <= j < i implies #[trigger] node.children@[j]
                    == shown[j] by {}
                assert forall|j: int| i < j < node.children@.len() implies #[trigger]
                    node.children@[j] == start.children@[j - i + done] by {
                    assert(node.children@[j] == shown[j]);
                }
                done = done + 1;
            }
            i = i + 1;
        }
    }
    proof {
        assert forall|a: int, b: int|
            #![trigger node.children@[a], node.children@[b]]
            0 <= a < b < node.children@.len() implies node.children@[a].hash
            != node.children@[b].hash by {
            assert(kept[a] < kept[b]);
            assert(start.children@[kept[a]].hash != start.children@[kept[b]].hash);
        }
        assert(node_wf(*node));
        lemma_pruned(start, *node, cut, kept);
        lemma_survives_here(start, cut);
        if node.children@.len() > 0 {
            assert(0 <= kept[0] < start.children@.len());
            assert(kept.contains(kept[0]));
            assert(survives(
                tree_of(start.children@[kept[0]]),
                start.children@[kept[0]].hash,
                cut,
                root,
            ));
        }
        let names = owner_names(node.owners@);
        if node.owners@.len() > 0 {
            assert(names.to_set().contains(names[0]));
        } else {
            assert(names.to_set() =~= Set::empty());
        }
    }
    node.ref_count == 0 && node.children.len() == 0
}

/// A node whose holders and children are what a cut leaves of them has the tree that the cut
/// leaves.
proof fn lemma_pruned(start: Node, node: Node, cut: Cut, kept: Seq<int>)
    requires
        node_wf(start),
        node_wf(node),
        node.hash == start.hash,
        owner_names(node.owners@).to_set() == cut.left(
            start.hash,
            owner_names(start.owners@).to_set(),
        ),
        kept.len() == node.children@.len(),
        forall|j: int|
            #![trigger kept[j]]
            #![trigger node.children@[j]]
            0 <= j < kept.len() ==> 0 <= kept[j] < start.children@.len() && node.children@[j].hash
                == start.children@[kept[j]].hash && tree_of(node.children@[j]) == cut_tree(
                tree_of(start.children@[kept[j]]),
                start.children@[kept[j]].hash,
                cut,
            ),
        forall|m: int|
            0 <= m < start.children@.len() ==> (survives(
                tree_of(#[trigger] start.children@[m]),
                start.children@[m].hash,
                cut,
                Seq::empty(),
            ) <==> kept.contains(m)),
    ensures
        tree_of(node) == cut_tree(tree_of(start), start.hash, cut),
{
    let root = Seq::<u64>::empty();
    let after = tree_of(node);
    let expected = cut_tree(tree_of(start), start.hash, cut);
    assert forall|path: Seq<u64>|
        #![trigger after.contains_key(path)]
        #![trigger expected.contains_key(path)]
        after.contains_key(path) == expected.contains_key(path) && (after.contains_key(path)
            ==> after[path] == expected[path]) by {
        if path.len() == 0 {
            assert(path =~= root);
        } else {
            let rest = path.drop_first();
            match child_at(start.children@, path[0]) {
                Some(m) => {
                    let child = start.children@[m];
                    assert(child.hash == path[0]);
                    lemma_survives_below(start, cut, path, m);
                    assert(owners_at(start, path) == owners_at(child, rest));
                    assert(last_hash(start.hash, path) == last_hash(child.hash, rest)) by {
                        if rest.len() > 0 {
                            assert(rest.last() == path.last());
                        }
                    }
                    if rest.len() == 0 {
                        assert(rest =~= root);
                    }
                    if kept.contains(m) {
                        let j = kept.index_of(m);
                        assert(node.children@[j].hash == path[0]);
                        lemma_child_at(node.children@, j);
                        assert(owners_at(node, path) == owners_at(node.children@[j], rest));
                        let below = tree_of(node.children@[j]);
                        assert(below.contains_key(rest) == (owners_at(
                            node.children@[j],
                            rest,
                        ) is Some));
                        if after.contains_key(path) {
                            assert(after[path] == below[rest]);
                            assert(tree_of(start)[path] == tree_of(child)[rest]);
                            assert(below[rest] == cut.left(
                                last_hash(child.hash, rest),
                                tree_of(child)[rest],
                            ));
                        }
                    } else {
                        if survives(tree_of(child), child.hash, cut, rest) {
                            lemma_survives_shorter(tree_of(child), child.hash, cut, rest);
                        }
                        match child_at(node.children@, path[0]) {
                            Some(j) => {
                                assert(node.children@[j].hash == path[0]);
                                let other = kept[j];
                                assert(start.children@[other].hash == path[0]);
                                lemma_child_at(start.children@, other);
                                assert(kept.contains(other));
                            },
                            None => {},
                        }
                    }
                },
                None => {
                    match child_at(node.children@, path[0]) {
                        Some(j) => {
                            assert(node.children@[j].hash == path[0]);
                            assert(start.children@[kept[j]].hash == path[0]);
                        },
                        None => {},
                    }
                },
            }
        }
    }
    assert(after =~= expected);
}

/// Number of nodes of a subtree, its root included.
spec fn subtree_nodes(node: Node) -> nat
    decreases node,
{
    1 + forest_nodes(node.children@)
}

/// Number of nodes of some subtrees.
spec fn forest_nodes(nodes: Seq<Node>) -> nat
    decreases nodes,
{
    if nodes.len() == 0 {
        0
    } else {
        forest_nodes(nodes.drop_last()) + subtree_nodes(nodes[nodes.len() - 1])
    }
}

/// Number of holdings in a subtree.
spec fn subtree_blocks(node: Node) -> nat
    decreases node,
{
    node.owners@.len() + forest_blocks(node.children@)
}

/// Number of holdings in some subtrees.
spec fn forest_blocks(nodes: Seq<Node>) -> nat
    decreases nodes,
{
    if nodes.len() == 0 {
        0
    } else {
        forest_blocks(nodes.drop_last()) + subtree_blocks(nodes[nodes.len() - 1])
    }
}

/// Number of levels of a subtree.
spec fn subtree_depth(node: Node) -> nat
    decreases node,
{
    1 + forest_depth(node.children@)
}

/// Number of levels of the deepest of some subtrees.
spec fn forest_depth(nodes: Seq<Node>) -> nat
    decreases nodes,
{
    if nodes.len() == 0 {
        0
    } else {
        let before = forest_depth(nodes.drop_last());
        let last = subtree_depth(nodes[nodes.len() - 1]);
        if before < last {
            last
        } else {
            before
        }
    }
}

proof fn lemma_depth_within_nodes(nodes: Seq<Node>)
    ensures
        forest_depth(nodes) <= forest_nodes(nodes),
    decreases nodes,
{
    if nodes.len() > 0 {
        lemma_depth_within_nodes(nodes.drop_last());
        let last = nodes[nodes.len() - 1];
        lemma_depth_within_nodes(last.children@);
        assert(subtree_depth(last) == 1 + forest_depth(last.children@));
        assert(subtree_nodes(last) == 1 + forest_nodes(last.children@));
    }
}

proof fn lemma_forest_prefix(nodes: Seq<Node>, n: int)
    requires
        0 <= n <= nodes.len(),
    ensures
        forest_nodes(nodes.take(n)) <= forest_nodes(nodes),
        forest_blocks(nodes.take(n)) <= forest_blocks(nodes),
    decreases nodes.len() - n,
{
    if n < nodes.len() {
        lemma_forest_prefix(nodes, n + 1);
        assert(nodes.take(n + 1).drop_last() =~= nodes.take(n));
    } else {
        assert(nodes.take(n) =~= nodes);
    }
}

proof fn lemma_forest_prefix_within(nodes: Seq<Node>)
    ensures
        forall|i: int|
            0 <= i < nodes.len() ==> subtree_nodes(#[trigger] nodes[i]) <= forest_nodes(nodes)
                && subtree_blocks(nodes[i]) <= forest_blocks(nodes),
    decreases nodes.len(),
{
    if nodes.len() > 0 {
        let shorter = nodes.drop_last();
        lemma_forest_prefix_within(shorter);
        assert forall|i: int| 0 <= i < nodes.len() implies subtree_nodes(#[trigger] nodes[i])
            <= forest_nodes(nodes) && subtree_blocks(nodes[i]) <= forest_blocks(nodes) by {
            if i < shorter.len() {
                assert(shorter[i] == nodes[i]);
            }
        }
    }
}

/// The holdings in a tree: each path with each of its holders.
pub open spec fn holdings(tree: TreeView) -> Set<(Seq<u64>, OwnerView)> {
    Set::new(
        |holding: (Seq<u64>, OwnerView)|
            tree.contains_key(holding.0) && tree[holding.0].contains(holding.1),
    )
}

/// Whether `n` is the length of the longest path of a tree.
pub open spec fn is_depth(tree: TreeView, n: nat) -> bool {
    &&& exists|path: Seq<u64>| #[trigger] tree.contains_key(path) && path.len() == n
    &&& forall|path: Seq<u64>| #[trigger] tree.contains_key(path) ==> path.len() <= n
}

/// What stands below a node with the children `nodes`: each of their paths, from the child's hash
/// on, with its holders.
spec fn forest_tree(nodes: Seq<Node>) -> TreeView {
    Map::new(
        |path: Seq<u64>|
            path.len() > 0 && (child_at(nodes, path[0]) matches Some(i) && owners_at(
                nodes[i],
                path.drop_first(),
            ) is Some),
        |path: Seq<u64>| owners_at(nodes[child_at(nodes, path[0])->0], path.drop_first())->0,
    )
}

/// A tree one level further down, below a node for block `hash`.
spec fn lowered(tree: TreeView, hash: u64) -> TreeView {
    Map::new(
        |path: Seq<u64>|
            path.len() > 0 && path[0] == hash && tree.contains_key(path.drop_first()),
        |path: Seq<u64>| tree[path.drop_first()],
    )
}

proof fn lemma_lowered(tree: TreeView, hash: u64)
    requires
        tree.dom().finite(),
        holdings(tree).finite(),
    ensures
        lowered(tree, hash).dom().finite(),
        lowered(tree, hash).dom().len() == tree.dom().len(),
        holdings(lowered(tree, hash)).finite(),
        holdings(lowered(tree, hash)).len() == holdings(tree).len(),
{
    let low = lowered(tree, hash);
    let down = |path: Seq<u64>| seq![hash] + path;
    let moved = |holding: (Seq<u64>, OwnerView)| (seq![hash] + holding.0, holding.1);
    assert forall|path: Seq<u64>| #![trigger seq![hash] + path]
        (seq![hash] + path).drop_first() == path && (seq![hash] + path)[0] == hash by {
        assert((seq![hash] + path).drop_first() =~= path);
    }
    assert forall|path: Seq<u64>| path.len() > 0 && path[0] == hash implies #[trigger] down(
        path.drop_first(),
    ) == path by {
        assert(seq![hash] + path.drop_first() =~= path);
    }
    assert(vstd::relations::injective_on(down, tree.dom())) by {
        assert forall|a: Seq<u64>, b: Seq<u64>| #[trigger] down(a) == #[trigger] down(b) implies a
            == b by {
            assert((seq![hash] + a).drop_first() == a);
            assert((seq![hash] + b).drop_first() == b);
        }
    }
    assert(tree.dom().map(down) =~= low.dom()) by {
        assert forall|path: Seq<u64>| #[trigger] low.dom().contains(path) implies tree.dom().map(
            down,
        ).contains(path) by {
            assert(down(path.drop_first()) == path);
            assert(tree.dom().contains(path.drop_first()));
        }
    }
    vstd::set_lib::lemma_map_size(tree.dom(), low.dom(), down);
    assert(vstd::relations::injective_on(moved, holdings(tree))) by {
        assert forall|a: (Seq<u64>, OwnerView), b: (Seq<u64>, OwnerView)| #[trigger] moved(a)
            == #[trigger] moved(b) implies a == b by {
            assert((seq![hash] + a.0).drop_first() == a.0);
            assert((seq![hash] + b.0).drop_first() == b.0);
        }
    }
    assert(holdings(tree).map(moved) =~= holdings(low)) by {
        assert forall|holding: (Seq<u64>, OwnerView)| #[trigger]
            holdings(low).contains(holding) implies holdings(tree).map(moved).contains(
            holding,
        ) by {
            let above = (holding.0.drop_first(), holding.1);
            assert(down(holding.0.drop_first()) == holding.0);
            assert(moved(above) == holding);
            assert(holdings(tree).contains(above));
        }
    }
    vstd::set_lib::lemma_map_size(holdings(tree), holdings(low), moved);
}

/// The last of some children adds its own subtree to those of the others, and nothing else.
proof fn lemma_forest_tree(nodes: Seq<Node>)
    requires
        nodes.len() > 0,
        forall|i: int, j: int|
            #![trigger nodes[i], nodes[j]]
            0 <= i < j < nodes.len() ==> nodes[i].hash != nodes[j].hash,
    ensures
        ({
            let others = forest_tree(nodes.drop_last());
            let last = lowered(tree_of(nodes.last()), nodes.last().hash);
            &&& forest_tree(nodes).dom() == others.dom() + last.dom()
            &&& others.dom().disjoint(last.dom())
            &&& holdings(forest_tree(nodes)) == holdings(others) + holdings(last)
            &&& holdings(others).disjoint(holdings(last))
        }),
{
    let shorter = nodes.drop_last();
    let whole = forest_tree(nodes);
    let others = forest_tree(shorter);
    let last = lowered(tree_of(nodes.last()), nodes.last().hash);
    lemma_child_at(nodes, nodes.len() - 1);
    assert forall|path: Seq<u64>| #![trigger whole.contains_key(path)]
        #![trigger others.contains_key(path)]
        #![trigger last.contains_key(path)]
        {
            &&& whole.contains_key(path) == (others.contains_key(path) || last.contains_key(path))
            &&& !(others.contains_key(path) && last.contains_key(path))
            &&& others.contains_key(path) ==> whole[path] == others[path]
            &&& last.contains_key(path) ==> whole[path] == last[path]
        } by {
        if path.len() > 0 {
            if path[0] == nodes.last().hash {
                assert(child_at(shorter, path[0]) is None) by {
                    if child_at(shorter, path[0]) is Some {
                        let i = choose|i: int|
                            0 <= i < shorter.len() && (#[trigger] shorter[i]).hash == path[0];
                        assert(nodes[i].hash != nodes[nodes.len() - 1].hash);
                    }
                }
            } else {
                match child_at(nodes, path[0]) {
                    Some(i) => {
                        assert(0 <= i < nodes.len() && nodes[i].hash == path[0]);
                        assert(shorter[i] == nodes[i]);
                        lemma_child_at(shorter, i);
                    },
                    None => {
                        if child_at(shorter, path[0]) is Some {
                            let i = choose|i: int|
                                0 <= i < shorter.len() && (#[trigger] shorter[i]).hash == path[0];
                            assert(nodes[i].hash == path[0]);
                        }
                    },
                }
            }
        }
    }
    assert(whole.dom() =~= others.dom() + last.dom());
    assert(holdings(whole) =~= holdings(others) + holdings(last));
}

proof fn lemma_forest_counts(nodes: Seq<Node>)
    requires
        forall|i: int, j: int|
            #![trigger nodes[i], nodes[j]]
            0 <= i < j < nodes.len() ==> nodes[i].hash != nodes[j].hash,
        forall|i: int| 0 <= i < nodes.len() ==> node_wf(#[trigger] nodes[i]),
    ensures
        forest_tree(nodes).dom().finite(),
        forest_tree(nodes).dom().len() == forest_nodes(nodes),
        holdings(forest_tree(nodes)).finite(),
        holdings(forest_tree(nodes)).len() == forest_blocks(nodes),
        forall|path: Seq<u64>| #[trigger]
            forest_tree(nodes).contains_key(path) ==> path.len() <= forest_depth(nodes),
        nodes.len() > 0 ==> exists|path: Seq<u64>| #[trigger]
            forest_tree(nodes).contains_key(path) && path.len() == forest_depth(nodes),
    decreases nodes,
{
    if nodes.len() == 0 {
        assert(forest_tree(nodes).dom() =~= Set::empty());
        assert(holdings(forest_tree(nodes)) =~= Set::empty());
    } else {
        let shorter = nodes.drop_last();
        let last = nodes[nodes.len() - 1];
        let low = lowered(tree_of(last), last.hash);
        assert forall|i: int| 0 <= i < shorter.len() implies node_wf(#[trigger] shorter[i]) by {
            assert(shorter[i] == nodes[i]);
        }
        assert(node_wf(last));
        lemma_forest_counts(shorter);
        lemma_forest_counts(last.children@);
        lemma_node_counts(last);
        lemma_lowered(tree_of(last), last.hash);
        lemma_forest_tree(nodes);
        vstd::set_lib::lemma_set_disjoint_lens(forest_tree(shorter).dom(), low.dom());
        vstd::set_lib::lemma_set_disjoint_lens(holdings(forest_tree(shorter)), holdings(low));
        assert(subtree_nodes(last) == 1 + forest_nodes(last.children@));
        assert(subtree_blocks(last) == last.owners@.len() + forest_blocks(last.children@));
        assert(subtree_depth(last) == 1 + forest_depth(last.children@));
        assert forall|path: Seq<u64>| #[trigger]
            forest_tree(nodes).contains_key(path) implies path.len() <= forest_depth(nodes) by {
            assert(forest_tree(shorter).contains_key(path) || low.contains_key(path));
            if low.contains_key(path) {
                assert(tree_of(last).contains_key(path.drop_first()));
            }
        }
        if subtree_depth(last) == forest_depth(nodes) {
            let below = choose|path: Seq<u64>| #[trigger]
                tree_of(last).contains_key(path) && path.len() == forest_depth(last.children@);
            let path = seq![last.hash] + below;
            assert(path.drop_first() =~= below);
            assert(low.contains_key(path));
            assert(forest_tree(nodes).dom().contains(path));
            assert(forest_tree(nodes).contains_key(path));
        } else {
            let path = choose|path: Seq<u64>| #[trigger]
                forest_tree(shorter).contains_key(path) && path.len() == forest_depth(shorter);
            assert(forest_tree(nodes).dom().contains(path));
            assert(forest_tree(nodes).contains_key(path));
        }
    }
}

/// A node adds itself and its holders to what stands below it.
proof fn lemma_node_counts(node: Node)
    requires
        node_wf(node),
        forest_tree(node.children@).dom().finite(),
        forest_tree(node.children@).dom().len() == forest_nodes(node.children@),
        holdings(forest_tree(node.children@)).finite(),
        holdings(forest_tree(node.children@)).len() == forest_blocks(node.children@),
        forall|path: Seq<u64>| #[trigger]
            forest_tree(node.children@).contains_key(path) ==> path.len() <= forest_depth(
                node.children@,
            ),
        node.children@.len() > 0 ==> exists|path: Seq<u64>| #[trigger]
            forest_tree(node.children@).contains_key(path) && path.len() == forest_depth(
                node.children@,
            ),
    ensures
        tree_of(node).dom().finite(),
        tree_of(node).dom().len() == 1 + forest_nodes(node.children@),
        holdings(tree_of(node)).finite(),
        holdings(tree_of(node)).len() == node.owners@.len() + forest_blocks(node.children@),
        is_depth(tree_of(node), forest_depth(node.children@)),
{
    let tree = tree_of(node);
    let below = forest_tree(node.children@);
    let names = owner_names(node.owners@);
    assert forall|path: Seq<u64>| #![trigger tree.contains_key(path)]
        #![trigger below.contains_key(path)]
        {
            &&& tree.contains_key(path) == (path.len() == 0 || below.contains_key(path))
            &&& below.contains_key(path) ==> path.len() > 0 && tree[path] == below[path]
        } by {}
    let root: Seq<u64> = Seq::empty();
    assert(tree.dom() =~= below.dom().insert(root)) by {
        assert forall|path: Seq<u64>| path.len() == 0 implies path == root by {
            assert(path =~= root);
        }
    }
    assert(!below.contains_key(root));
    assert(tree[root] == names.to_set());
    let own = |owner: OwnerView| (root, owner);
    let held = names.to_set().map(own);
    names.unique_seq_to_set();
    vstd::set_lib::lemma_map_size(names.to_set(), held, own);
    assert(holdings(tree) =~= holdings(below) + held) by {
        assert forall|holding: (Seq<u64>, OwnerView)| #[trigger]
            holdings(tree).contains(holding) implies (holdings(below) + held).contains(holding) by {
            if holding.0.len() == 0 {
                assert(holding.0 =~= root);
                assert(own(holding.1) == holding);
            }
        }
        assert forall|holding: (Seq<u64>, OwnerView)| #[trigger]
            held.contains(holding) implies holdings(tree).contains(holding) by {
            assert(tree.contains_key(root));
        }
    }
    assert(holdings(below).disjoint(held));
    vstd::set_lib::lemma_set_disjoint_lens(holdings(below), held);
    assert(tree.contains_key(root));
    if node.children@.len() > 0 {
        let path = choose|path: Seq<u64>| #[trigger]
            below.contains_key(path) && path.len() == forest_depth(node.children@);
        assert(tree.contains_key(path));
    }
}

proof fn lemma_tree_counts(node: Node)
    requires
        node_wf(node),
    ensures
        tree_of(node).dom().finite(),
        tree_of(node).dom().len() == 1 + forest_nodes(node.children@),
        holdings(tree_of(node)).finite(),
        holdings(tree_of(node)).len() == node.owners@.len() + forest_blocks(node.children@),
        is_depth(tree_of(node), forest_depth(node.children@)),
{
    lemma_forest_counts(node.children@);
    lemma_node_counts(node);
}

/// Statistics of a tree.
#[derive(Clone, Copy, Debug)]
pub struct RadixStats {
    /// Number of nodes, without the root.
    pub total_nodes: usize,
    /// Number of holdings over all nodes.
    pub total_blocks: usize,
    /// Number of backends that have stored blocks and were not cleared since.
    pub backends: usize,
    /// Length of the longest path.
    pub depth: usize,
}

impl Default for RadixStats {
    fn default() -> (stats: Self)
        ensures
            stats == (RadixStats { total_nodes: 0, total_blocks: 0, backends: 0, depth: 0 }),
    {
        RadixStats { total_nodes: 0, total_blocks: 0, backends: 0, depth: 0 }
    }
}

/// Counts the nodes, the holdings and the levels of some subtrees.
fn forest_stats(nodes: &Vec<Node>) -> (counts: (usize, usize, usize))
    requires
        forest_nodes(nodes@) <= usize::MAX,
        forest_blocks(nodes@) <= usize::MAX,
    ensures
        counts.0 == forest_nodes(nodes@),
        counts.1 == forest_blocks(nodes@),
        counts.2 == forest_depth(nodes@),
    decreases *nodes,
{
    let mut total: usize = 0;
    let mut blocks: usize = 0;
    let mut depth: usize = 0;
    let mut i: usize = 0;
    proof {
        assert(nodes@.take(0) =~= Seq::empty());
    }
    while i < nodes.len()
        invariant
            i <= nodes@.len(),
            forest_nodes(nodes@) <= usize::MAX,
            forest_blocks(nodes@) <= usize::MAX,
            total == forest_nodes(nodes@.take(i as int)),
            blocks == forest_blocks(nodes@.take(i as int)),
            depth == forest_depth(nodes@.take(i as int)),
        decreases nodes@.len() - i,
    {
        let ghost node = nodes@[i as int];
        proof {
            lemma_forest_prefix_within(nodes@);
            lemma_forest_prefix(nodes@, i + 1);
            assert(nodes@.take(i + 1).drop_last() =~= nodes@.take(i as int));
            assert(nodes@.take(i + 1)[i as int] == node);
            lemma_depth_within_nodes(node.children@);
            assert(subtree_depth(node) == 1 + forest_depth(node.children@));
            assert(subtree_nodes(node) == 1 + forest_nodes(node.children@));
            assert(subtree_blocks(node) == node.owners@.len() + forest_blocks(node.children@));
            assert(decreases_to!(*nodes => nodes@[i as int]));
            assert(decreases_to!(node => node.children));
        }
        let below: (usize, usize, usize) = forest_stats(&nodes[i].children);
        total = total + (1 + below.0);
        blocks = blocks + (nodes[i].owners.len() + below.1);
        let levels: usize = 1 + below.2;
        if depth < levels {
            depth = levels;
        }
        i = i + 1;
    }
    assert(nodes@.take(i as int) =~= nodes@);
    (total, blocks, depth)
}

/// What an index knows: its tree, and the backends that it counts.
#[verifier::ext_equal]
pub struct RadixView {
    /// The tree.
    pub tree: TreeView,
    /// Backends that have stored blocks and were not cleared since.
    pub backends: Set<BackendView>,
    /// The generation of each backend's last reset.
    pub generations: Map<KeyView, u64>,
}

/// What an index knows that has seen nothing: a root without holders.
pub open spec fn empty_radix() -> RadixView {
    RadixView {
        tree: Map::empty().insert(Seq::empty(), Set::empty()),
        backends: Set::empty(),
        generations: Map::empty(),
    }
}

impl RadixView {
    /// Whether a change is passed over: a reset to an earlier generation than is known.
    pub open spec fn ignores(self, change: KvChange, backend: BackendView) -> bool {
        match change {
            KvChange::Reset(generation) => kv_event::is_stale(
                self.generations,
                ids::backend_key(backend),
                generation,
            ),
            _ => false,
        }
    }

    /// A change to the blocks of a backend.
    pub open spec fn apply(self, change: KvChange, backend: BackendView) -> RadixView {
        match change {
            KvChange::Store(hashes) => RadixView {
                tree: with_path(self.tree, hashes, (backend, 0)),
                backends: self.backends.insert(backend),
                ..self
            },
            KvChange::Remove(hashes) => RadixView {
                tree: cut_tree(self.tree, 0, Cut { backend, blocks: Some(hashes.to_set()) }),
                ..self
            },
            KvChange::Clear => self.without(backend),
            KvChange::Reset(generation) => if self.ignores(change, backend) {
                self
            } else {
                RadixView {
                    generations: self.generations.insert(ids::backend_key(backend), generation),
                    ..self.without(backend)
                }
            },
        }
    }

    /// No block of a backend is left.
    pub open spec fn without(self, backend: BackendView) -> RadixView {
        RadixView {
            tree: cut_tree(self.tree, 0, Cut { backend, blocks: None }),
            backends: self.backends.remove(backend),
            ..self
        }
    }
}

/// The index of cached blocks.
pub struct RadixTree {
    root: Node,
    backends: Vec<BackendId>,
    generations: Table<u64>,
}

spec fn backend_names(backends: Seq<BackendId>) -> Seq<BackendView> {
    backends.map_values(|backend: BackendId| backend@)
}

impl View for RadixTree {
    type V = RadixView;

    closed spec fn view(&self) -> RadixView {
        RadixView {
            tree: tree_of(self.root),
            backends: backend_names(self.backends@).to_set(),
            generations: self.generations@,
        }
    }
}

fn name_position(backends: &Vec<BackendId>, backend: &BackendId) -> (at: Option<usize>)
    ensures
        match at {
            Some(i) => i < backends@.len() && backends@[i as int]@ == backend@,
            None => forall|i: int| 0 <= i < backends@.len() ==> backends@[i]@ != backend@,
        },
{
    let mut i: usize = 0;
    while i < backends.len()
        invariant
            i <= backends@.len(),
            forall|j: int| 0 <= j < i ==> backends@[j]@ != backend@,
        decreases backends@.len() - i,
    {
        if backends[i].same(backend) {
            return Some(i);
        }
        i = i + 1;
    }
    None
}

impl RadixTree {
    /// The tree is well-formed, its root stands for no block and has no holders, and no backend is
    /// counted twice.
    pub closed spec fn wf(&self) -> bool {
        &&& node_wf(self.root)
        &&& self.root.hash == 0
        &&& self.root.owners@.len() == 0
        &&& backend_names(self.backends@).no_duplicates()
        &&& self.generations.wf()
    }

    /// An empty index.
    pub fn new() -> (tree: Self)
        ensures
            tree.wf(),
            tree@ == empty_radix(),
            tree@.tree.dom().len() == 1,
            holdings(tree@.tree).len() == 0,
    {
        let tree = RadixTree {
            root: Node::new(0),
            backends: Vec::new(),
            generations: Table::new(),
        };
        proof {
            assert(backend_names(tree.backends@) =~= Seq::empty());
            assert(tree@.backends =~= Set::empty());
            an_empty_index_holds_nothing();
        }
        tree
    }

    /// Applies an event of `backend`, which adds no more paths and holdings than it stores blocks.
    pub fn apply_event(&mut self, backend: &BackendId, event: &KvCacheEvent)
        requires
            old(self).wf(),
        ensures
            final(self).wf(),
            final(self)@ == old(self)@.apply(event@, backend@),
            final(self)@.tree.dom().len() <= old(self)@.tree.dom().len() + stored_blocks(event@),
            holdings(final(self)@.tree).len() <= holdings(old(self)@.tree).len() + stored_blocks(
                event@,
            ),
    {
        proof {
            self.what_is_known_is_finite();
            events_add_no_more_than_they_store(self@, event@, backend@);
        }
        match event {
            KvCacheEvent::Stored { block_hashes, .. } => {
                self.note_backend(backend);
                self.apply_stored(backend, block_hashes);
            },
            KvCacheEvent::Removed { block_hashes, .. } => {
                self.apply_removed(backend, block_hashes);
            },
            KvCacheEvent::Clear { .. } => {
                self.clear_backend(backend);
            },
            KvCacheEvent::Reset { generation, .. } => {
                let filed: TableKey = backend.table_key();
                if !stale(&self.generations, &filed, *generation) {
                    self.clear_backend(backend);
                    self.generations.insert(filed, *generation);
                }
            },
        }
    }

    fn note_backend(&mut self, backend: &BackendId)
        requires
            old(self).wf(),
        ensures
            final(self).wf(),
            final(self)@ == (RadixView {
                backends: old(self)@.backends.insert(backend@),
                ..old(self)@
            }),
    {
        let ghost before = backend_names(self.backends@);
        match name_position(&self.backends, backend) {
            Some(i) => {
                proof {
                    assert(before[i as int] == backend@);
                    assert(self@.backends =~= old(self)@.backends.insert(backend@));
                }
            },
            None => {
                proof {
                    if before.contains(backend@) {
                        let i = before.index_of(backend@);
                        assert(self.backends@[i]@ == backend@);
                    }
                }
                self.backends.push(backend.clone());
                proof {
                    let after = backend_names(self.backends@);
                    assert(after =~= before.push(backend@));
                    assert forall|b: BackendView| after.to_set().contains(b)
                        == before.to_set().insert(backend@).contains(b) by {
                        if before.contains(b) {
                            let i = before.index_of(b);
                            assert(after[i] == b);
                        }
                        if b == backend@ {
                            assert(after[before.len() as int] == b);
                        }
                    }
                    assert(self@.backends =~= old(self)@.backends.insert(backend@));
                }
            },
        }
    }

    fn apply_stored(&mut self, backend: &BackendId, hashes: &Vec<u64>)
        requires
            old(self).wf(),
        ensures
            final(self).wf(),
            final(self)@ == (RadixView {
                tree: with_path(old(self)@.tree, hashes@, (backend@, 0)),
                ..old(self)@
            }),
    {
        let owner: Owner = (backend.clone(), 0);
        let ghost before = self.root;
        store_path(&mut self.root, hashes, 0, &owner);
        proof {
            assert(hashes@.skip(0) =~= hashes@);
            let after = tree_of(self.root);
            let expected = with_path(tree_of(before), hashes@, (backend@, 0));
            assert forall|path: Seq<u64>|
                #![trigger after.contains_key(path)]
                #![trigger expected.contains_key(path)]
                after.contains_key(path) == expected.contains_key(path) && (after.contains_key(path)
                    ==> after[path] == expected[path]) by {
                assert(owners_at(self.root, path) == stored_at(
                    owners_at(before, path),
                    path,
                    hashes@,
                    (backend@, 0),
                ));
            }
            assert(after =~= expected);
        }
    }

    fn apply_removed(&mut self, backend: &BackendId, hashes: &Vec<u64>)
        requires
            old(self).wf(),
        ensures
            final(self).wf(),
            final(self)@ == (RadixView {
                tree: cut_tree(
                    old(self)@.tree,
                    0,
                    Cut { backend: backend@, blocks: Some(hashes@.to_set()) },
                ),
                ..old(self)@
            }),
    {
        prune(&mut self.root, backend, Some(hashes));
        proof {
            self.lemma_root_unheld(*old(self), cut_of(backend@, Some(hashes)));
        }
    }

    fn clear_backend(&mut self, backend: &BackendId)
        requires
            old(self).wf(),
        ensures
            final(self).wf(),
            final(self)@ == old(self)@.without(backend@),
    {
        let ghost before = backend_names(self.backends@);
        match name_position(&self.backends, backend) {
            Some(i) => {
                self.backends.remove(i);
                proof {
                    let after = backend_names(self.backends@);
                    assert(after =~= before.remove(i as int));
                    assert(before[i as int] == backend@);
                    assert forall|b: BackendView| after.to_set().contains(b)
                        == before.to_set().remove(backend@).contains(b) by {
                        if after.contains(b) {
                            let j = after.index_of(b);
                            if j < i {
                                assert(before[j] == b);
                            } else {
                                assert(before[j + 1] == b);
                            }
                        }
                        if before.contains(b) && b != backend@ {
                            let j = before.index_of(b);
                            if j < i {
                                assert(after[j] == b);
                            } else {
                                assert(after[j - 1] == b);
                            }
                        }
                    }
                    assert(after.to_set() =~= before.to_set().remove(backend@));
                }
            },
            None => {
                proof {
                    if before.contains(backend@) {
                        let i = before.index_of(backend@);
                        assert(self.backends@[i]@ == backend@);
                    }
                    assert(before.to_set() =~= before.to_set().remove(backend@));
                }
            },
        }
        prune(&mut self.root, backend, None);
        proof {
            self.lemma_root_unheld(*old(self), cut_of(backend@, None));
        }
    }

    proof fn lemma_root_unheld(&self, before: RadixTree, cut: Cut)
        requires
            before.wf(),
            node_wf(self.root),
            tree_of(self.root) == cut_tree(tree_of(before.root), 0, cut),
        ensures
            self.root.owners@.len() == 0,
    {
        let root = Seq::<u64>::empty();
        assert(tree_of(before.root).contains_key(root));
        assert(tree_of(self.root).contains_key(root));
        let names = owner_names(self.root.owners@);
        assert(tree_of(self.root)[root] == names.to_set());
        let earlier = owner_names(before.root.owners@);
        assert(earlier =~= Seq::empty());
        assert(tree_of(before.root)[root] =~= Set::empty());
        if names.len() > 0 {
            assert(names.to_set().contains(names[0]));
        }
    }

    /// Number of leading hashes, as a path from the root, whose blocks `backend` holds.
    pub fn find_matches(&self, hashes: &[u64], backend: &BackendId) -> (n: u32)
        requires
            self.wf(),
            lane_grid::countable(hashes@, tree_overlap(self@.tree, hashes@, backend@)),
        ensures
            n == tree_overlap(self@.tree, hashes@, backend@),
    {
        let ghost tree = self@.tree;
        let mut current: &Node = &self.root;
        let mut n: usize = 0;
        proof {
            tree_overlap_stops_at_the_first_miss(tree, hashes@, backend@);
            assert forall|rest: Seq<u64>|
                #![trigger owners_at(*current, rest)]
                owners_at(*current, rest) == owners_at(self.root, hashes@.take(0) + rest) by {
                assert(hashes@.take(0) + rest =~= rest);
            }
        }
        while n < hashes.len()
            invariant
                n <= hashes@.len(),
                tree_overlap(tree, hashes@, backend@) <= u32::MAX,
                self.wf(),
                tree == self@.tree,
                node_wf(*current),
                forall|rest: Seq<u64>|
                    #![trigger owners_at(*current, rest)]
                    owners_at(*current, rest) == owners_at(
                        self.root,
                        hashes@.take(n as int) + rest,
                    ),
                forall|k: int|
                    0 < k <= n ==> holds_path(tree, #[trigger] hashes@.take(k), backend@),
            decreases hashes@.len() - n,
        {
            let hash: u64 = hashes[n];
            let ghost longer = hashes@.take(n + 1);
            let ghost step = seq![hash];
            proof {
                assert(hashes@.take(n as int) + step =~= longer);
                assert(step.drop_first() =~= Seq::empty());
                assert(owners_at(*current, step) == owners_at(self.root, longer));
            }
            match find_child(&current.children, hash) {
                Some(i) => {
                    let child: &Node = &current.children[i];
                    proof {
                        assert(owners_at(*current, step) == owners_at(*child, Seq::empty()));
                        assert(tree.contains_key(longer));
                        assert(tree[longer] == owner_names(child.owners@).to_set());
                    }
                    if !child.is_owned_by(backend) {
                        proof {
                            lemma_tree_overlap_is(tree, hashes@, backend@, n as nat);
                        }
                        return n as u32;
                    }
                    proof {
                        assert forall|rest: Seq<u64>|
                            #![trigger owners_at(*child, rest)]
                            owners_at(*child, rest) == owners_at(self.root, longer + rest) by {
                            let through = step + rest;
                            assert(through.drop_first() =~= rest);
                            assert(owners_at(*current, through) == owners_at(*child, rest));
                            assert(hashes@.take(n as int) + through =~= longer + rest);
                        }
                    }
                    current = child;
                },
                None => {
                    proof {
                        assert(owners_at(*current, step) is None);
                        assert(!tree.contains_key(longer));
                        lemma_tree_overlap_is(tree, hashes@, backend@, n as nat);
                    }
                    return n as u32;
                },
            }
            n = n + 1;
        }
        proof {
            lemma_tree_overlap_is(tree, hashes@, backend@, n as nat);
        }
        n as u32
    }

    /// Every backend with an overlap, once, with its overlap.
    pub fn find_all_matches(&self, hashes: &[u64]) -> (matches: Vec<(BackendId, u32)>)
        requires
            self.wf(),
            forall|backend: BackendView|
                lane_grid::countable(hashes@, #[trigger] tree_overlap(self@.tree, hashes@, backend)),
        ensures
            lists_overlaps(matches@, self@.tree, hashes@),
    {
        let ghost tree = self@.tree;
        let mut matches: Vec<(BackendId, u32)> = Vec::new();
        if hashes.len() == 0 {
            return matches;
        }
        let ghost first = hashes@.take(1);
        let ghost step = seq![hashes@[0]];
        proof {
            assert(first =~= step);
            assert(step.drop_first() =~= Seq::empty());
        }
        match find_child(&self.root.children, hashes[0]) {
            Some(at) => {
                let child: &Node = &self.root.children[at];
                let ghost names = owner_names(child.owners@);
                proof {
                    assert(owners_at(self.root, step) == owners_at(*child, Seq::empty()));
                    assert(tree.contains_key(first) && tree[first] == names.to_set());
                }
                let mut i: usize = 0;
                while i < child.owners.len()
                    invariant
                        i <= child.owners@.len(),
                        self.wf(),
                        forall|backend: BackendView|
                            lane_grid::countable(hashes@, #[trigger] tree_overlap(tree, hashes@, backend)),
                        hashes@.len() > 0,
                        tree == self@.tree,
                        names == owner_names(child.owners@),
                        first == hashes@.take(1),
                        tree.contains_key(first) && tree[first] == names.to_set(),
                        forall|j: int|
                            0 <= j < matches@.len() ==> {
                                &&& (#[trigger] matches@[j]).1 == tree_overlap(
                                    tree,
                                    hashes@,
                                    matches@[j].0@,
                                )
                                &&& matches@[j].1 > 0
                            },
                        forall|j: int, k: int|
                            #![trigger matches@[j], matches@[k]]
                            0 <= j < k < matches@.len() ==> matches@[j].0@ != matches@[k].0@,
                        forall|m: int|
                            0 <= m < i ==> exists|j: int|
                                0 <= j < matches@.len() && (#[trigger] matches@[j]).0@ == (
                                #[trigger] names[m]).0,
                    decreases child.owners@.len() - i,
                {
                    let backend: &BackendId = &child.owners[i].0;
                    let mut known: bool = false;
                    let mut j: usize = 0;
                    while j < matches.len()
                        invariant
                            j <= matches@.len(),
                            known == exists|k: int|
                                0 <= k < j && (#[trigger] matches@[k]).0@ == backend@,
                        decreases matches@.len() - j,
                    {
                        if matches[j].0.same(backend) {
                            assert(matches@[j as int].0@ == backend@);
                            known = true;
                        }
                        j = j + 1;
                    }
                    let ghost listed = matches@;
                    if !known {
                        let n: u32 = self.find_matches(hashes, backend);
                        proof {
                            assert(names[i as int] == (backend@, child.owners@[i as int].1));
                            assert(names.to_set().contains(names[i as int]));
                            assert(holds_path(tree, first, backend@));
                            tree_overlap_stops_at_the_first_miss(tree, hashes@, backend@);
                        }
                        matches.push((backend.clone(), n));
                    }
                    proof {
                        assert forall|m: int| 0 <= m < i + 1 implies exists|j: int|
                            0 <= j < matches@.len() && (#[trigger] matches@[j]).0@ == (
                            #[trigger] names[m]).0 by {
                            if m < i {
                                let k = choose|k: int|
                                    0 <= k < listed.len() && (#[trigger] listed[k]).0@ == names[m].0;
                                assert(matches@[k].0@ == names[m].0);
                            } else if known {
                                let k = choose|k: int|
                                    0 <= k < listed.len() && (#[trigger] listed[k]).0@ == backend@;
                                assert(matches@[k].0@ == names[m].0);
                            } else {
                                assert(matches@[listed.len() as int].0@ == names[m].0);
                            }
                        }
                    }
                    i = i + 1;
                }
                proof {
                    assert forall|b: BackendView| #[trigger]
                        tree_overlap(tree, hashes@, b) > 0 implies exists|j: int|
                        0 <= j < matches@.len() && (#[trigger] matches@[j]).0@ == b by {
                        tree_overlap_stops_at_the_first_miss(tree, hashes@, b);
                        assert(holds_path(tree, hashes@.take(1), b));
                        let rank = choose|rank: u32| names.to_set().contains((b, rank));
                        let m = names.index_of((b, rank));
                        assert(names[m].0 == b);
                    }
                }
            },
            None => {
                proof {
                    assert(owners_at(self.root, step) is None);
                    assert forall|b: BackendView| #[trigger] tree_overlap(tree, hashes@, b) == 0 by {
                        tree_overlap_stops_at_the_first_miss(tree, hashes@, b);
                        assert(!holds_path(tree, hashes@.take(1), b));
                    }
                }
            },
        }
        matches
    }

    /// Whether an event of `backend` is passed over: a reset to an earlier generation than is known.
    pub fn ignores(&self, backend: &BackendId, event: &KvCacheEvent) -> (ignored: bool)
        requires
            self.wf(),
        ensures
            ignored == self@.ignores(event@, backend@),
    {
        match event {
            KvCacheEvent::Reset { generation, .. } => stale(
                &self.generations,
                &backend.table_key(),
                *generation,
            ),
            _ => false,
        }
    }

    /// Takes all blocks of a backend out of the index.
    pub fn remove_backend(&mut self, backend: &BackendId)
        requires
            old(self).wf(),
        ensures
            final(self).wf(),
            final(self)@ == old(self)@.without(backend@),
            final(self)@.tree.dom().len() <= old(self)@.tree.dom().len(),
            holdings(final(self)@.tree).len() <= holdings(old(self)@.tree).len(),
    {
        proof {
            self.what_is_known_is_finite();
            events_add_no_more_than_they_store(self@, KvChange::Clear, backend@);
        }
        self.clear_backend(backend);
    }

    /// An index knows finitely many paths, with finitely many holders; the root is one of them, and
    /// nobody holds it.
    pub proof fn what_is_known_is_finite(&self)
        requires
            self.wf(),
        ensures
            self@.tree.dom().finite(),
            holdings(self@.tree).finite(),
            self@.tree.contains_key(Seq::empty()),
            self@.tree[Seq::empty()] == Set::<OwnerView>::empty(),
            self@.backends.finite(),
    {
        lemma_tree_counts(self.root);
        assert(owner_names(self.root.owners@) =~= Seq::empty());
        assert(owners_at(self.root, Seq::empty()) is Some);
        assert(self@.tree[Seq::empty()] =~= Set::empty());
        backend_names(self.backends@).unique_seq_to_set();
    }

    /// Statistics of the index, as far as its counters go: the number of paths but for the root's,
    /// the number of holdings, and the length of the longest path.
    pub fn stats(&self) -> (stats: RadixStats)
        requires
            self.wf(),
            self@.tree.dom().len() - 1 <= usize::MAX,
            holdings(self@.tree).len() <= usize::MAX,
        ensures
            stats.total_nodes == self@.tree.dom().len() - 1,
            stats.total_blocks == holdings(self@.tree).len(),
            is_depth(self@.tree, stats.depth as nat),
            stats.backends == self@.backends.len(),
    {
        proof {
            lemma_tree_counts(self.root);
        }
        let counts: (usize, usize, usize) = forest_stats(&self.root.children);
        proof {
            backend_names(self.backends@).unique_seq_to_set();
        }
        RadixStats {
            total_nodes: counts.0,
            total_blocks: counts.1,
            backends: self.backends.len(),
            depth: counts.2,
        }
    }
}

impl Default for RadixTree {
    fn default() -> (tree: Self)
        ensures
            tree.wf(),
            tree@ == empty_radix(),
            tree@.tree.dom().len() == 1,
            holdings(tree@.tree).len() == 0,
    {
        RadixTree::new()
    }
}

/// A list of overlaps: every backend that has one, once, with its overlap.
pub open spec fn lists_overlaps(
    matches: Seq<(BackendId, u32)>,
    tree: TreeView,
    hashes: Seq<u64>,
) -> bool {
    &&& forall|i: int|
        0 <= i < matches.len() ==> (#[trigger] matches[i]).1 == tree_overlap(
            tree,
            hashes,
            matches[i].0@,
        ) && matches[i].1 > 0
    &&& forall|i: int, j: int|
        #![trigger matches[i], matches[j]]
        0 <= i < j < matches.len() ==> matches[i].0@ != matches[j].0@
    &&& forall|backend: BackendView| #[trigger]
        tree_overlap(tree, hashes, backend) > 0 ==> exists|i: int|
            0 <= i < matches.len() && (#[trigger] matches[i]).0@ == backend
}

/// What a backend has stored it is found to hold, all of it.
pub proof fn a_stored_path_is_found(tree: TreeView, hashes: Seq<u64>, backend: BackendView)
    ensures
        tree_overlap(with_path(tree, hashes, (backend, 0)), hashes, backend) == hashes.len(),
{
    let after = with_path(tree, hashes, (backend, 0));
    assert forall|n: int| 0 < n <= hashes.len() implies holds_path(
        after,
        #[trigger] hashes.take(n),
        backend,
    ) by {
        assert(after[hashes.take(n)].contains((backend, 0u32)));
    }
    lemma_tree_overlap_is(after, hashes, backend, hashes.len());
}

/// Storing blocks of one backend changes no overlap of another.
pub proof fn storing_leaves_others_alone(
    tree: TreeView,
    stored: Seq<u64>,
    backend: BackendView,
    hashes: Seq<u64>,
    other: BackendView,
)
    requires
        other != backend,
    ensures
        tree_overlap(with_path(tree, stored, (backend, 0)), hashes, other) == tree_overlap(
            tree,
            hashes,
            other,
        ),
    decreases hashes.len(),
{
    let after = with_path(tree, stored, (backend, 0));
    if hashes.len() > 0 {
        storing_leaves_others_alone(tree, stored, backend, hashes.drop_last(), other);
        assert(holds_path(after, hashes, other) == holds_path(tree, hashes, other)) by {
            if holds_path(tree, hashes, other) {
                let rank = choose|rank: u32| tree[hashes].contains((other, rank));
                assert(after[hashes].contains((other, rank)));
            }
            if holds_path(after, hashes, other) {
                let rank = choose|rank: u32| after[hashes].contains((other, rank));
                assert(tree.contains_key(hashes) && tree[hashes].contains((other, rank)));
            }
        }
    }
}

/// A cut of one backend's holdings changes no overlap of another.
pub proof fn cutting_leaves_others_alone(
    tree: TreeView,
    cut: Cut,
    hashes: Seq<u64>,
    other: BackendView,
)
    requires
        other != cut.backend,
    ensures
        tree_overlap(cut_tree(tree, 0, cut), hashes, other) == tree_overlap(tree, hashes, other),
    decreases hashes.len(),
{
    let after = cut_tree(tree, 0, cut);
    if hashes.len() > 0 {
        cutting_leaves_others_alone(tree, cut, hashes.drop_last(), other);
        assert(holds_path(after, hashes, other) == holds_path(tree, hashes, other)) by {
            if holds_path(tree, hashes, other) {
                let rank = choose|rank: u32| tree[hashes].contains((other, rank));
                assert(cut.left(last_hash(0, hashes), tree[hashes]).contains((other, rank)));
                assert(still_held(tree, 0, cut, hashes));
                assert(hashes.is_prefix_of(hashes)) by {
                    assert(hashes =~= hashes.take(hashes.len() as int));
                }
                assert(after[hashes].contains((other, rank)));
            }
            if holds_path(after, hashes, other) {
                let rank = choose|rank: u32| after[hashes].contains((other, rank));
                assert(tree[hashes].contains((other, rank)));
            }
        }
    }
}

/// A backend that was cleared holds nothing.
pub proof fn a_cleared_backend_holds_nothing(
    tree: TreeView,
    backend: BackendView,
    hashes: Seq<u64>,
)
    ensures
        tree_overlap(cut_tree(tree, 0, Cut { backend, blocks: None }), hashes, backend) == 0,
    decreases hashes.len(),
{
    let after = cut_tree(tree, 0, Cut { backend, blocks: None });
    if hashes.len() > 0 {
        a_cleared_backend_holds_nothing(tree, backend, hashes.drop_last());
        if holds_path(after, hashes, backend) {
            let rank = choose|rank: u32| after[hashes].contains((backend, rank));
            assert(false);
        }
    }
}

/// A reset to an earlier generation than that of a backend's last one changes nothing, whatever
/// events came in between: no event takes a known generation back.
pub proof fn generations_never_fall(
    view: RadixView,
    change: KvChange,
    backend: BackendView,
    other: BackendView,
    generation: u64,
)
    requires
        view.ignores(KvChange::Reset(generation), other),
    ensures
        view.apply(change, backend).ignores(KvChange::Reset(generation), other),
        view.apply(KvChange::Reset(generation), other) == view,
{
}

/// A reset that is not passed over leaves its backend without blocks, and every earlier generation
/// is passed over from then on.
pub proof fn a_reset_outdates_earlier_generations(
    view: RadixView,
    backend: BackendView,
    generation: u64,
    earlier: u64,
    hashes: Seq<u64>,
)
    requires
        !view.ignores(KvChange::Reset(generation), backend),
        earlier < generation,
    ensures
        ({
            let after = view.apply(KvChange::Reset(generation), backend);
            &&& tree_overlap(after.tree, hashes, backend) == 0
            &&& after.ignores(KvChange::Reset(earlier), backend)
        }),
{
    a_cleared_backend_holds_nothing(view.tree, backend, hashes);
}

/// Whether every holding is at rank 0.
pub open spec fn all_at_rank_zero(tree: TreeView) -> bool {
    forall|path: Seq<u64>, owner: OwnerView|
        #![trigger tree[path].contains(owner)]
        tree.contains_key(path) && tree[path].contains(owner) ==> owner.1 == 0
}

/// Events keep every holding at rank 0.
pub proof fn events_keep_holdings_at_rank_zero(
    view: RadixView,
    change: KvChange,
    backend: BackendView,
)
    requires
        all_at_rank_zero(view.tree),
    ensures
        all_at_rank_zero(view.apply(change, backend).tree),
{
}

/// Whether every backend that holds a block is counted.
pub open spec fn holders_are_counted(view: RadixView) -> bool {
    forall|path: Seq<u64>, owner: OwnerView|
        #![trigger view.tree[path].contains(owner)]
        view.tree.contains_key(path) && view.tree[path].contains(owner)
            ==> view.backends.contains(owner.0)
}

/// Events keep every backend that holds a block counted.
pub proof fn events_keep_holders_counted(view: RadixView, change: KvChange, backend: BackendView)
    requires
        holders_are_counted(view),
    ensures
        holders_are_counted(view.apply(change, backend)),
{
}

/// A backend that gave up blocks is found to hold what it held of a path before the first of them,
/// and no more: `k` is the position of the first, or the length of the path if there is none.
pub proof fn removed_blocks_are_not_held(
    tree: TreeView,
    blocks: Set<u64>,
    backend: BackendView,
    hashes: Seq<u64>,
    k: int,
)
    requires
        all_at_rank_zero(tree),
        0 <= k <= hashes.len(),
        forall|j: int| 0 <= j < k ==> !blocks.contains(#[trigger] hashes[j]),
        k < hashes.len() ==> blocks.contains(hashes[k]),
    ensures
        tree_overlap(cut_tree(tree, 0, Cut { backend, blocks: Some(blocks) }), hashes, backend)
            == tree_overlap(tree, hashes.take(k), backend),
    decreases hashes.len(),
{
    let cut = Cut { backend, blocks: Some(blocks) };
    let after = cut_tree(tree, 0, cut);
    if hashes.len() > 0 {
        let shorter = hashes.drop_last();
        if k < hashes.len() {
            removed_blocks_are_not_held(tree, blocks, backend, shorter, k);
            assert(shorter.take(k) =~= hashes.take(k));
            tree_overlap_stops_at_the_first_miss(tree, hashes.take(k), backend);
            if k == hashes.len() - 1 && holds_path(after, hashes, backend) {
                let rank = choose|rank: u32| after[hashes].contains((backend, rank));
                assert(tree[hashes].contains((backend, rank)));
            }
        } else {
            removed_blocks_are_not_held(tree, blocks, backend, shorter, k - 1);
            assert(shorter.take(k - 1) =~= shorter);
            assert(hashes.take(k) =~= hashes);
            assert(!blocks.contains(hashes[k - 1]));
            if holds_path(tree, hashes, backend) {
                let rank = choose|rank: u32| tree[hashes].contains((backend, rank));
                assert(cut.left(last_hash(0, hashes), tree[hashes]).contains((backend, rank)));
                assert(still_held(tree, 0, cut, hashes));
                assert(hashes.is_prefix_of(hashes)) by {
                    assert(hashes =~= hashes.take(hashes.len() as int));
                }
                assert(after[hashes].contains((backend, rank)));
            }
            if holds_path(after, hashes, backend) {
                let rank = choose|rank: u32| after[hashes].contains((backend, rank));
                assert(tree[hashes].contains((backend, rank)));
            }
        }
    }
}

/// Whether every node but the root leads to a held block.
pub open spec fn no_dead_nodes(tree: TreeView) -> bool {
    forall|path: Seq<u64>|
        #![trigger tree.contains_key(path)]
        tree.contains_key(path) && path.len() > 0 ==> leads_to_holder(tree, path)
}

/// Whether a path leads to a held block.
pub open spec fn leads_to_holder(tree: TreeView, path: Seq<u64>) -> bool {
    exists|further: Seq<u64>|
        #![trigger tree.contains_key(further)]
        tree.contains_key(further) && tree[further] != Set::<OwnerView>::empty()
            && path.is_prefix_of(further)
}

/// No event leaves a node behind that leads to no held block.
pub proof fn events_leave_no_dead_nodes(view: RadixView, change: KvChange, backend: BackendView)
    requires
        no_dead_nodes(view.tree),
    ensures
        no_dead_nodes(view.apply(change, backend).tree),
{
    let tree = view.tree;
    let after = view.apply(change, backend).tree;
    match change {
        KvChange::Store(hashes) => {
            assert forall|path: Seq<u64>|
                #![trigger after.contains_key(path)]
                after.contains_key(path) && path.len() > 0 implies leads_to_holder(after, path) by {
                if path.is_prefix_of(hashes) {
                    assert(after[path].contains((backend, 0u32)));
                    assert(path.is_prefix_of(path)) by {
                        assert(path =~= path.take(path.len() as int));
                    }
                } else {
                    assert(tree.contains_key(path));
                    let further = choose|further: Seq<u64>|
                        #![trigger tree.contains_key(further)]
                        tree.contains_key(further) && tree[further] != Set::<OwnerView>::empty()
                            && path.is_prefix_of(further);
                    assert(after.contains_key(further));
                    if after[further] == Set::<OwnerView>::empty() {
                        assert(tree[further] =~= Set::empty());
                    }
                }
            }
        },
        KvChange::Remove(hashes) => {
            lemma_cut_leaves_no_dead_nodes(
                tree,
                Cut { backend, blocks: Some(hashes.to_set()) },
            );
        },
        _ => {
            lemma_cut_leaves_no_dead_nodes(tree, Cut { backend, blocks: None });
        },
    }
}

proof fn lemma_cut_path_leads_to_holder(tree: TreeView, cut: Cut, path: Seq<u64>)
    requires
        survives(tree, 0, cut, path),
    ensures
        leads_to_holder(cut_tree(tree, 0, cut), path),
{
    let after = cut_tree(tree, 0, cut);
    let further = choose|further: Seq<u64>| #[trigger]
        still_held(tree, 0, cut, further) && path.is_prefix_of(further);
    assert(survives(tree, 0, cut, further)) by {
        assert(still_held(tree, 0, cut, further));
        assert(further =~= further.take(further.len() as int));
        assert(further.is_prefix_of(further));
    }
    assert(after.contains_key(further));
    assert(after[further] == cut.left(last_hash(0, further), tree[further]));
}

proof fn lemma_cut_leaves_no_dead_nodes(tree: TreeView, cut: Cut)
    ensures
        no_dead_nodes(cut_tree(tree, 0, cut)),
{
    let after = cut_tree(tree, 0, cut);
    assert forall|path: Seq<u64>|
        #![trigger after.contains_key(path)]
        after.contains_key(path) && path.len() > 0 implies leads_to_holder(after, path) by {
        assert(survives(tree, 0, cut, path));
        lemma_cut_path_leads_to_holder(tree, cut, path);
    }
}

/// An index that has seen nothing knows the root's path alone, and no holding.
pub proof fn an_empty_index_holds_nothing()
    ensures
        empty_radix().tree.dom().finite(),
        empty_radix().tree.dom().len() == 1,
        holdings(empty_radix().tree) == Set::<(Seq<u64>, OwnerView)>::empty(),
        is_depth(empty_radix().tree, 0),
{
    let tree = empty_radix().tree;
    assert(tree.dom() =~= Set::empty().insert(Seq::<u64>::empty()));
    assert(holdings(tree) =~= Set::empty());
    assert(tree.contains_key(Seq::<u64>::empty()));
}

/// Number of blocks that a change stores.
pub open spec fn stored_blocks(change: KvChange) -> nat {
    match change {
        KvChange::Store(hashes) => hashes.len(),
        _ => 0,
    }
}

/// An event adds no more paths, and no more holdings, than it stores blocks; and what is known
/// stays finite.
pub proof fn events_add_no_more_than_they_store(
    view: RadixView,
    change: KvChange,
    backend: BackendView,
)
    requires
        view.tree.dom().finite(),
        holdings(view.tree).finite(),
    ensures
        ({
            let after = view.apply(change, backend).tree;
            &&& after.dom().finite()
            &&& after.dom().len() <= view.tree.dom().len() + stored_blocks(change)
            &&& holdings(after).finite()
            &&& holdings(after).len() <= holdings(view.tree).len() + stored_blocks(change)
        }),
{
    let tree = view.tree;
    let after = view.apply(change, backend).tree;
    match change {
        KvChange::Store(hashes) => {
            let lengths = vstd::set_lib::set_int_range(1, hashes.len() as int + 1);
            vstd::set_lib::lemma_int_range(1, hashes.len() as int + 1);
            let path_of = |n: int| hashes.take(n);
            let holding_of = |n: int| (hashes.take(n), (backend, 0u32));
            let paths = lengths.map(path_of);
            let held = lengths.map(holding_of);
            vstd::set_lib::lemma_map_size_bound(lengths, paths, path_of);
            vstd::set_lib::lemma_map_size_bound(lengths, held, holding_of);
            assert forall|path: Seq<u64>| path.len() > 0 && path.is_prefix_of(
                hashes,
            ) implies lengths.contains(path.len() as int) && #[trigger] hashes.take(
                path.len() as int,
            ) == path by {
                assert(hashes.take(path.len() as int) =~= path);
            }
            assert forall|path: Seq<u64>| #[trigger] after.dom().contains(path) implies (tree.dom()
                + paths).contains(path) by {
                if !tree.contains_key(path) {
                    assert(path_of(path.len() as int) == path);
                }
            }
            assert forall|holding: (Seq<u64>, OwnerView)| #[trigger]
                holdings(after).contains(holding) implies (holdings(tree) + held).contains(
                holding,
            ) by {
                if !holdings(tree).contains(holding) {
                    assert(holding_of(holding.0.len() as int) == holding);
                }
            }
            vstd::set_lib::lemma_len_union(tree.dom(), paths);
            vstd::set_lib::lemma_len_union(holdings(tree), held);
            lemma_part(after.dom(), tree.dom() + paths);
            lemma_part(holdings(after), holdings(tree) + held);
        },
        _ => {
            lemma_part(after.dom(), tree.dom());
            lemma_part(holdings(after), holdings(tree));
        },
    }
}

proof fn lemma_part<T>(part: Set<T>, whole: Set<T>)
    requires
        whole.finite(),
        part.subset_of(whole),
    ensures
        part.finite(),
        part.len() <= whole.len(),
{
    vstd::set_lib::lemma_set_subset_finite(whole, part);
    vstd::set_lib::lemma_len_subset(part, whole);
}

/// The overlap that a list gives for a backend: none, if the backend is not on it.
pub open spec fn listed_overlap(matches: Seq<(BackendId, u32)>, backend: BackendView) -> nat {
    if exists|i: int| 0 <= i < matches.len() && (#[trigger] matches[i]).0@ == backend {
        matches[choose|i: int| 0 <= i < matches.len() && (#[trigger] matches[i]).0@ == backend].1
            as nat
    } else {
        0
    }
}

/// The overlaps of all backends are those that each is found to have by itself.
pub proof fn overlaps_of_all_are_those_of_each(
    matches: Seq<(BackendId, u32)>,
    tree: TreeView,
    hashes: Seq<u64>,
    backend: BackendView,
)
    requires
        lists_overlaps(matches, tree, hashes),
    ensures
        listed_overlap(matches, backend) == tree_overlap(tree, hashes, backend),
{
}

proof fn lemma_held_after_store(
    tree: TreeView,
    hashes: Seq<u64>,
    backend: BackendView,
    path: Seq<u64>,
    other: BackendView,
)
    ensures
        holds_path(with_path(tree, hashes, (backend, 0)), path, other) == (holds_path(
            tree,
            path,
            other,
        ) || (other == backend && path.len() > 0 && path.is_prefix_of(hashes))),
{
    let after = with_path(tree, hashes, (backend, 0));
    if holds_path(tree, path, other) {
        let rank = choose|rank: u32| tree[path].contains((other, rank));
        assert(after[path].contains((other, rank)));
    }
    if other == backend && path.len() > 0 && path.is_prefix_of(hashes) {
        assert(after[path].contains((backend, 0u32)));
    }
    if holds_path(after, path, other) {
        let rank = choose|rank: u32| after[path].contains((other, rank));
        assert(after[path].contains((other, rank)));
        if tree.contains_key(path) && tree[path].contains((other, rank)) {
            assert(held_by(tree[path], other));
        }
    }
}

proof fn lemma_held_after_cut(
    tree: TreeView,
    cut: Cut,
    path: Seq<u64>,
    other: BackendView,
)
    requires
        all_at_rank_zero(tree),
        path.len() > 0,
    ensures
        holds_path(cut_tree(tree, 0, cut), path, other) == (holds_path(tree, path, other) && !(other
            == cut.backend && (cut.blocks matches Some(blocks) ==> blocks.contains(path.last())))),
{
    let after = cut_tree(tree, 0, cut);
    if holds_path(tree, path, other) {
        let rank = choose|rank: u32| tree[path].contains((other, rank));
        assert(tree[path].contains((other, rank)));
        if !cut.takes(path.last(), (other, rank)) {
            assert(cut.left(last_hash(0, path), tree[path]).contains((other, rank)));
            assert(still_held(tree, 0, cut, path));
            assert(path.is_prefix_of(path)) by {
                assert(path =~= path.take(path.len() as int));
            }
            assert(after[path].contains((other, rank)));
        }
    }
    if holds_path(after, path, other) {
        let rank = choose|rank: u32| after[path].contains((other, rank));
        assert(after[path].contains((other, rank)));
        assert(tree[path].contains((other, rank)));
        assert(held_by(tree[path], other));
    }
}

/// A backend holds a path once it has stored blocks that begin with the path, until it removes the
/// path's last block or is cleared; a reset that is not passed over clears it too. What other backends
/// hold stays as it was.
pub proof fn a_path_is_held_until_it_is_given_up(
    view: RadixView,
    event: KvCacheEvent,
    backend: BackendView,
    path: Seq<u64>,
    other: BackendView,
)
    requires
        all_at_rank_zero(view.tree),
        path.len() > 0,
    ensures
        ({
            let after = view.apply(event@, backend);
            let key = ids::backend_key(backend);
            let held = holds_path(view.tree, path, other);
            &&& event is Stored ==> holds_path(after.tree, path, other) == (held || (other == backend
                && path.is_prefix_of(event->Stored_block_hashes@)))
            &&& event is Removed ==> holds_path(after.tree, path, other) == (held && !(other
                == backend && event->Removed_block_hashes@.contains(path.last())))
            &&& event is Clear ==> holds_path(after.tree, path, other) == (held && other != backend)
            &&& event is Reset && view.generations.contains_key(key) && event->generation
                < view.generations[key] ==> after == view
            &&& event is Reset && !(view.generations.contains_key(key) && event->generation
                < view.generations[key]) ==> holds_path(after.tree, path, other) == (held && other
                != backend) && after.generations == view.generations.insert(key, event->generation)
            &&& !(event is Reset) ==> after.generations == view.generations
        }),
{
    match event {
        KvCacheEvent::Stored { block_hashes, .. } => {
            lemma_held_after_store(view.tree, block_hashes@, backend, path, other);
        },
        KvCacheEvent::Removed { block_hashes, .. } => {
            lemma_held_after_cut(
                view.tree,
                Cut { backend, blocks: Some(block_hashes@.to_set()) },
                path,
                other,
            );
        },
        _ => {
            lemma_held_after_cut(view.tree, Cut { backend, blocks: None }, path, other);
        },
    }
}

/// A backend is counted from its first stored block until it is cleared or reset.
pub proof fn a_backend_is_counted_until_it_is_cleared(
    view: RadixView,
    event: KvCacheEvent,
    backend: BackendView,
    other: BackendView,
)
    ensures
        ({
            let after = view.apply(event@, backend);
            &&& other != backend ==> after.backends.contains(other) == view.backends.contains(other)
            &&& event is Stored ==> after.backends.contains(backend)
            &&& event is Removed ==> after.backends == view.backends
            &&& event is Clear ==> !after.backends.contains(backend)
            &&& event is Reset && after != view ==> !after.backends.contains(backend)
        }),
{
}

/// The only event that is passed over is a reset to an earlier generation than the known one.
pub proof fn only_outdated_resets_are_passed_over(
    view: RadixView,
    event: KvCacheEvent,
    backend: BackendView,
)
    ensures
        view.ignores(event@, backend) <==> event is Reset && view.generations.contains_key(
            ids::backend_key(backend),
        ) && event->generation < view.generations[ids::backend_key(backend)],
        view.ignores(event@, backend) ==> view.apply(event@, backend) == view,
{
}

/// A backend that is taken out holds no path and is not counted; others hold what they held, and the
/// known generations stay.
pub proof fn a_backend_is_taken_out_alone(
    view: RadixView,
    backend: BackendView,
    path: Seq<u64>,
    other: BackendView,
)
    requires
        all_at_rank_zero(view.tree),
        path.len() > 0,
    ensures
        ({
            let after = view.without(backend);
            &&& holds_path(after.tree, path, other) == (holds_path(view.tree, path, other) && other
                != backend)
            &&& after.backends.contains(other) == (view.backends.contains(other) && other
                != backend)
            &&& after.generations == view.generations
        }),
{
    lemma_held_after_cut(view.tree, Cut { backend, blocks: None }, path, other);
}

} // verus!
