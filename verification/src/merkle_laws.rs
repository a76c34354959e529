//! What a score root promises: it does not depend on the order of the
//! entries, and it commits to every one of them.

use vstd::prelude::*;

use crate::bytes::{be_bytes, be_injective, be_length, int_ranges};
use crate::crypto::sha256_of;
use crate::merkle::{
    ascending_entries, empty_bytes, has_duplicate, leaf_bytes, leaf_level, level_root, next_level,
    node_bytes, root_of, score_map, score_map_domain, score_map_value, ScoreEntry,
};
use crate::order::{sorted, sorted_lists};
use crate::types::IdentityId;

verus! {

/// The identities of some entries.
pub open spec fn entry_ids(entries: Seq<ScoreEntry>) -> Seq<IdentityId> {
    entries.map_values(|e: ScoreEntry| e.identity)
}

/// No identity repeats exactly if there are as many identities as entries.
proof fn duplicates_by_count(entries: Seq<ScoreEntry>)
    ensures
        !has_duplicate(entries) <==> entry_ids(entries).to_set().len() == entries.len(),
{
    let ids = entry_ids(entries);
    if ids.to_set().len() == ids.len() {
        ids.lemma_no_dup_set_cardinality();
        if has_duplicate(entries) {
            let (i, j) = choose|i: int, j: int|
                0 <= i < j < entries.len() && (#[trigger] entries[i]).identity == (
                #[trigger] entries[j]).identity;
            assert(ids[i] == ids[j]);
        }
    }
    if !has_duplicate(entries) {
        assert forall|i: int, j: int| 0 <= i < ids.len() && 0 <= j < ids.len() && i != j implies
            ids[i] != ids[j] by {
            if i < j {
                assert(entries[i].identity != entries[j].identity);
            } else {
                assert(entries[j].identity != entries[i].identity);
            }
        }
        ids.unique_seq_to_set();
    }
}

/// The root does not depend on the order of the entries.
pub proof fn root_ignores_order(a: Seq<ScoreEntry>, b: Seq<ScoreEntry>, domain: Seq<u8>)
    requires
        a.to_multiset() =~= b.to_multiset(),
    ensures
        root_of(a, domain) == root_of(b, domain),
{
    broadcast use vstd::seq_lib::group_to_multiset_ensures;

    assert(a.len() == a.to_multiset().len());
    assert(b.len() == b.to_multiset().len());
    assert forall|e: ScoreEntry|
        #![trigger a.contains(e)]
        #![trigger b.contains(e)]
        a.contains(e) == b.contains(e) by {
        assert(a.contains(e) <==> a.to_multiset().count(e) > 0);
        assert(b.contains(e) <==> b.to_multiset().count(e) > 0);
    }
    assert forall|id: IdentityId| #[trigger] entry_ids(a).to_set().contains(id) == entry_ids(
        b,
    ).to_set().contains(id) by {
        if entry_ids(a).to_set().contains(id) {
            same_member(a, b, id);
        }
        if entry_ids(b).to_set().contains(id) {
            same_member(b, a, id);
        }
    }
    assert(entry_ids(a).to_set() =~= entry_ids(b).to_set());
    duplicates_by_count(a);
    duplicates_by_count(b);
    if !has_duplicate(a) {
        let ma = score_map(a);
        let mb = score_map(b);
        assert forall|id: IdentityId| #[trigger] ma.dom().contains(id) == mb.dom().contains(id) by {
            score_map_domain(a, id);
            score_map_domain(b, id);
            member_named(a, id);
            member_named(b, id);
        }
        assert forall|id: IdentityId| #[trigger] ma.dom().contains(id) implies ma[id] == mb[id] by {
            score_map_domain(a, id);
            let i = choose|i: int| 0 <= i < a.len() && (#[trigger] a[i]).identity == id;
            assert(a.contains(a[i]));
            assert(b.contains(a[i]));
            let j = b.index_of(a[i]);
            score_map_value(a, i);
            score_map_value(b, j);
        }
        assert(ma =~= mb);
    }
}

proof fn same_member(a: Seq<ScoreEntry>, b: Seq<ScoreEntry>, id: IdentityId)
    requires
        forall|e: ScoreEntry| #[trigger] a.contains(e) ==> b.contains(e),
        entry_ids(a).to_set().contains(id),
    ensures
        entry_ids(b).to_set().contains(id),
{
    let i = entry_ids(a).index_of(id);
    assert(a.contains(a[i]));
    let j = b.index_of(a[i]);
    assert(entry_ids(b)[j] == id);
}

/// An identity is listed exactly if some entry names it.
proof fn member_named(entries: Seq<ScoreEntry>, id: IdentityId)
    ensures
        entry_ids(entries).to_set().contains(id) <==> exists|i: int|
            0 <= i < entries.len() && (#[trigger] entries[i]).identity == id,
{
    let ids = entry_ids(entries);
    if ids.contains(id) {
        let i = ids.index_of(id);
        assert(entries[i].identity == id);
    }
    if exists|i: int| 0 <= i < entries.len() && (#[trigger] entries[i]).identity == id {
        let i = choose|i: int| 0 <= i < entries.len() && (#[trigger] entries[i]).identity == id;
        assert(ids[i] == id);
    }
}

/// A hash tree over leaf contents.
pub enum Tree {
    Leaf(Seq<u8>),
    Node(Box<Tree>, Box<Tree>),
}

/// The hash at the root of a tree.
pub open spec fn tree_hash(t: Tree) -> [u8; 32]
    decreases t,
{
    match t {
        Tree::Leaf(bytes) => sha256_of(bytes),
        Tree::Node(l, r) => sha256_of(node_bytes(tree_hash(*l), tree_hash(*r))),
    }
}

/// Everything that is hashed in a tree.
pub open spec fn tree_inputs(t: Tree) -> Set<Seq<u8>>
    decreases t,
{
    match t {
        Tree::Leaf(bytes) => set![bytes],
        Tree::Node(l, r) => tree_inputs(*l).union(tree_inputs(*r)).insert(
            node_bytes(tree_hash(*l), tree_hash(*r)),
        ),
    }
}

/// The contents of the leaves, from left to right.
pub open spec fn tree_leaves(t: Tree) -> Seq<Seq<u8>>
    decreases t,
{
    match t {
        Tree::Leaf(bytes) => seq![bytes],
        Tree::Node(l, r) => tree_leaves(*l) + tree_leaves(*r),
    }
}

/// Every leaf starts with the leaf prefix.
pub open spec fn leaves_marked(t: Tree) -> bool
    decreases t,
{
    match t {
        Tree::Leaf(bytes) => bytes.len() > 0 && bytes[0] == crate::merkle::LEAF_PREFIX,
        Tree::Node(l, r) => leaves_marked(*l) && leaves_marked(*r),
    }
}

/// The trees of the level above.
pub open spec fn next_trees(level: Seq<Tree>) -> Seq<Tree> {
    Seq::new(
        ((level.len() + 1) / 2) as nat,
        |i: int|
            if 2 * i + 1 < level.len() {
                Tree::Node(Box::new(level[2 * i]), Box::new(level[2 * i + 1]))
            } else {
                level[2 * i]
            },
    )
}

/// The single tree above a level.
pub open spec fn root_tree(level: Seq<Tree>) -> Tree
    decreases level.len(),
{
    if level.len() <= 1 {
        level[0]
    } else {
        root_tree(next_trees(level))
    }
}

/// The leaves of the trees of a level, from left to right.
pub open spec fn level_leaves(level: Seq<Tree>) -> Seq<Seq<u8>>
    decreases level.len(),
{
    if level.len() == 0 {
        Seq::empty()
    } else {
        level_leaves(level.drop_last()) + tree_leaves(level.last())
    }
}

/// The tree of a list of entries.
pub open spec fn entry_tree(entries: Seq<ScoreEntry>) -> Tree {
    root_tree(entries.map_values(|e: ScoreEntry| Tree::Leaf(leaf_bytes(e))))
}

/// The root hash of trees is the root of their hashes.
proof fn root_tree_hash(level: Seq<Tree>)
    requires
        level.len() > 0,
    ensures
        tree_hash(root_tree(level)) == level_root(level.map_values(|t: Tree| tree_hash(t))),
    decreases level.len(),
{
    let hashes = level.map_values(|t: Tree| tree_hash(t));
    if level.len() > 1 {
        let up = next_trees(level);
        root_tree_hash(up);
        let up_hashes = up.map_values(|t: Tree| tree_hash(t));
        assert forall|i: int| 0 <= i < up.len() implies #[trigger] up_hashes[i] == next_level(
            hashes,
        )[i] by {}
        assert(up_hashes =~= next_level(hashes));
    }
}

/// Building the level above keeps the leaves and their order.
proof fn next_trees_leaves(level: Seq<Tree>)
    ensures
        level_leaves(next_trees(level)) == level_leaves(level),
    decreases level.len(),
{
    let up = next_trees(level);
    let n = level.len() as int;
    if n == 0 {
        assert(up =~= Seq::<Tree>::empty());
    } else if n % 2 == 1 {
        let rest = level.drop_last();
        next_trees_leaves(rest);
        assert(up.drop_last() =~= next_trees(rest));
        assert(up.last() == level.last());
    } else {
        let rest = level.drop_last().drop_last();
        next_trees_leaves(rest);
        assert(up.drop_last() =~= next_trees(rest));
        assert(up.last() == Tree::Node(Box::new(level[n - 2]), Box::new(level[n - 1])));
        assert(level.drop_last().last() == level[n - 2]);
        let base = level_leaves(rest);
        let x = tree_leaves(level[n - 2]);
        let y = tree_leaves(level[n - 1]);
        assert(level_leaves(level.drop_last()) == base + x);
        assert((base + x) + y =~= base + (x + y));
        assert(tree_leaves(up.last()) == x + y);
    }
}

/// The root tree has the leaves of its level.
proof fn root_tree_leaves(level: Seq<Tree>)
    requires
        level.len() > 0,
    ensures
        tree_leaves(root_tree(level)) == level_leaves(level),
    decreases level.len(),
{
    if level.len() > 1 {
        root_tree_leaves(next_trees(level));
        next_trees_leaves(level);
    } else {
        assert(level.drop_last() =~= Seq::<Tree>::empty());
        assert(level_leaves(level.drop_last()) =~= Seq::<Seq<u8>>::empty());
        assert(level_leaves(level) =~= tree_leaves(level[0]));
    }
}

/// Marked leaves stay marked up to the root.
proof fn root_tree_marked(level: Seq<Tree>)
    requires
        level.len() > 0,
        forall|i: int| 0 <= i < level.len() ==> leaves_marked(#[trigger] level[i]),
    ensures
        leaves_marked(root_tree(level)),
    decreases level.len(),
{
    if level.len() > 1 {
        let up = next_trees(level);
        assert forall|i: int| 0 <= i < up.len() implies leaves_marked(#[trigger] up[i]) by {
            assert(leaves_marked(level[2 * i]));
            if 2 * i + 1 < level.len() {
                assert(leaves_marked(level[2 * i + 1]));
            }
        }
        root_tree_marked(up);
    }
}

/// The leaves of entries are their leaf bytes.
proof fn entry_tree_leaves(entries: Seq<ScoreEntry>)
    requires
        entries.len() > 0,
    ensures
        tree_leaves(entry_tree(entries)) == entries.map_values(|e: ScoreEntry| leaf_bytes(e)),
        leaves_marked(entry_tree(entries)),
        tree_hash(entry_tree(entries)) == level_root(leaf_level(entries)),
{
    let level = entries.map_values(|e: ScoreEntry| Tree::Leaf(leaf_bytes(e)));
    root_tree_leaves(level);
    flat_leaves(entries);
    root_tree_hash(level);
    assert(level.map_values(|t: Tree| tree_hash(t)) =~= leaf_level(entries));
    assert forall|i: int| 0 <= i < level.len() implies leaves_marked(#[trigger] level[i]) by {
        assert(leaf_bytes(entries[i])[0] == crate::merkle::LEAF_PREFIX);
    }
    root_tree_marked(level);
}

proof fn flat_leaves(entries: Seq<ScoreEntry>)
    ensures
        level_leaves(entries.map_values(|e: ScoreEntry| Tree::Leaf(leaf_bytes(e))))
            == entries.map_values(|e: ScoreEntry| leaf_bytes(e)),
    decreases entries.len(),
{
    let level = entries.map_values(|e: ScoreEntry| Tree::Leaf(leaf_bytes(e)));
    let leaves = entries.map_values(|e: ScoreEntry| leaf_bytes(e));
    if entries.len() > 0 {
        flat_leaves(entries.drop_last());
        assert(level.drop_last() =~= entries.drop_last().map_values(
            |e: ScoreEntry| Tree::Leaf(leaf_bytes(e)),
        ));
        assert(leaves =~= entries.drop_last().map_values(|e: ScoreEntry| leaf_bytes(e)) + seq![
            leaf_bytes(entries.last()),
        ]);
    } else {
        assert(level_leaves(level) =~= leaves);
    }
}

/// No two of these inputs collide under the hash.
pub open spec fn collision_free(a: Set<Seq<u8>>, b: Set<Seq<u8>>) -> bool {
    forall|x: Seq<u8>, y: Seq<u8>|
        #![trigger a.contains(x), b.contains(y)]
        a.contains(x) && b.contains(y) && sha256_of(x) == sha256_of(y) ==> x == y
}

/// Node inputs determine the two hashes.
pub proof fn node_bytes_injective(l1: [u8; 32], r1: [u8; 32], l2: [u8; 32], r2: [u8; 32])
    requires
        node_bytes(l1, r1) == node_bytes(l2, r2),
    ensures
        l1 == l2,
        r1 == r2,
{
    let a = node_bytes(l1, r1);
    let b = node_bytes(l2, r2);
    assert(a.subrange(1, 33) =~= l1@);
    assert(b.subrange(1, 33) =~= l2@);
    assert(a.subrange(33, 65) =~= r1@);
    assert(b.subrange(33, 65) =~= r2@);
    assert(l1 =~= l2);
    assert(r1 =~= r2);
}

/// Leaf inputs determine the entry.
pub proof fn leaf_bytes_injective(a: ScoreEntry, b: ScoreEntry)
    requires
        leaf_bytes(a) == leaf_bytes(b),
    ensures
        a == b,
{
    be_length(a.score as nat, 16);
    be_length(b.score as nat, 16);
    int_ranges();
    let x = leaf_bytes(a);
    let y = leaf_bytes(b);
    assert(x.subrange(1, 33) =~= a.identity.0@);
    assert(y.subrange(1, 33) =~= b.identity.0@);
    assert(x.subrange(33, 49) =~= be_bytes(a.score as nat, 16));
    assert(y.subrange(33, 49) =~= be_bytes(b.score as nat, 16));
    be_injective(a.score as nat, b.score as nat, 16);
    assert(a.identity.0 =~= b.identity.0);
}

/// The inputs hashed for leaves, for nodes and for an empty epoch are never
/// the same.
pub proof fn inputs_are_separated(
    entry: ScoreEntry,
    left: [u8; 32],
    right: [u8; 32],
    domain: Seq<u8>,
)
    ensures
        leaf_bytes(entry) != node_bytes(left, right),
        leaf_bytes(entry) != empty_bytes(domain),
        node_bytes(left, right) != empty_bytes(domain),
{
    assert(leaf_bytes(entry)[0] == crate::merkle::LEAF_PREFIX);
    assert(node_bytes(left, right)[0] == crate::merkle::NODE_PREFIX);
    assert(empty_bytes(domain)[0] == crate::merkle::EMPTY_PREFIX);
}

/// Trees with the same hash are the same tree.
proof fn tree_hash_injective(a: Tree, b: Tree)
    requires
        leaves_marked(a),
        leaves_marked(b),
        collision_free(tree_inputs(a), tree_inputs(b)),
        tree_hash(a) == tree_hash(b),
    ensures
        a == b,
    decreases a,
{
    match (a, b) {
        (Tree::Leaf(x), Tree::Leaf(y)) => {
            assert(tree_inputs(a).contains(x));
            assert(tree_inputs(b).contains(y));
        },
        (Tree::Leaf(x), Tree::Node(l, r)) => {
            let y = node_bytes(tree_hash(*l), tree_hash(*r));
            assert(tree_inputs(a).contains(x));
            assert(tree_inputs(b).contains(y));
            assert(y[0] == crate::merkle::NODE_PREFIX);
        },
        (Tree::Node(l, r), Tree::Leaf(y)) => {
            let x = node_bytes(tree_hash(*l), tree_hash(*r));
            assert(tree_inputs(a).contains(x));
            assert(tree_inputs(b).contains(y));
            assert(x[0] == crate::merkle::NODE_PREFIX);
        },
        (Tree::Node(l1, r1), Tree::Node(l2, r2)) => {
            let x = node_bytes(tree_hash(*l1), tree_hash(*r1));
            let y = node_bytes(tree_hash(*l2), tree_hash(*r2));
            assert(tree_inputs(a).contains(x));
            assert(tree_inputs(b).contains(y));
            node_bytes_injective(
                tree_hash(*l1),
                tree_hash(*r1),
                tree_hash(*l2),
                tree_hash(*r2),
            );
            assert forall|p: Seq<u8>, q: Seq<u8>|
                #![trigger tree_inputs(*l1).contains(p), tree_inputs(*l2).contains(q)]
                tree_inputs(*l1).contains(p) && tree_inputs(*l2).contains(q) && sha256_of(p)
                    == sha256_of(q) implies p == q by {
                assert(tree_inputs(a).contains(p));
                assert(tree_inputs(b).contains(q));
            }
            assert forall|p: Seq<u8>, q: Seq<u8>|
                #![trigger tree_inputs(*r1).contains(p), tree_inputs(*r2).contains(q)]
                tree_inputs(*r1).contains(p) && tree_inputs(*r2).contains(q) && sha256_of(p)
                    == sha256_of(q) implies p == q by {
                assert(tree_inputs(a).contains(p));
                assert(tree_inputs(b).contains(q));
            }
            tree_hash_injective(*l1, *l2);
            tree_hash_injective(*r1, *r2);
        },
    }
}

/// Everything that is hashed for a score root.
pub open spec fn root_inputs(entries: Seq<ScoreEntry>, domain: Seq<u8>) -> Set<Seq<u8>> {
    if entries.len() == 0 {
        set![empty_bytes(domain)]
    } else {
        tree_inputs(entry_tree(ascending_entries(score_map(entries))))
    }
}

/// The root commits to the scores: unless two of the inputs hashed for them
/// collide, entries with the same root give every identity the same score.
pub proof fn root_commits_to_scores(a: Seq<ScoreEntry>, b: Seq<ScoreEntry>, domain: Seq<u8>)
    requires
        root_of(a, domain) is Ok,
        root_of(a, domain) == root_of(b, domain),
        collision_free(root_inputs(a, domain), root_inputs(b, domain)),
    ensures
        score_map(a) == score_map(b),
{
    if a.len() > 0 {
        listed(a);
    }
    if b.len() > 0 {
        listed(b);
    }
    if a.len() == 0 && b.len() == 0 {
        assert(a =~= b);
    } else if a.len() == 0 {
        empty_differs(b, domain);
        let t = entry_tree(ascending_entries(score_map(b)));
        let y = top_input(t);
        assert(root_inputs(a, domain).contains(empty_bytes(domain)));
        assert(root_inputs(b, domain).contains(y));
    } else if b.len() == 0 {
        empty_differs(a, domain);
        let t = entry_tree(ascending_entries(score_map(a)));
        let x = top_input(t);
        assert(root_inputs(b, domain).contains(empty_bytes(domain)));
        assert(root_inputs(a, domain).contains(x));
    } else {
        let ea = ascending_entries(score_map(a));
        let eb = ascending_entries(score_map(b));
        entry_tree_leaves(ea);
        entry_tree_leaves(eb);
        tree_hash_injective(entry_tree(ea), entry_tree(eb));
        let la = ea.map_values(|e: ScoreEntry| leaf_bytes(e));
        let lb = eb.map_values(|e: ScoreEntry| leaf_bytes(e));
        assert(la == lb);
        assert(ea.len() == la.len());
        assert(eb.len() == lb.len());
        assert forall|i: int| 0 <= i < ea.len() implies ea[i] == eb[i] by {
            assert(la[i] == lb[i]);
            leaf_bytes_injective(ea[i], eb[i]);
        }
        assert(ea =~= eb);
        score_map_domain(a, a[0].identity);
        score_map_domain(b, b[0].identity);
        same_listing(score_map(a), score_map(b));
    }
}

/// The input hashed at the top of a tree.
pub open spec fn top_input(t: Tree) -> Seq<u8> {
    match t {
        Tree::Leaf(bytes) => bytes,
        Tree::Node(l, r) => node_bytes(tree_hash(*l), tree_hash(*r)),
    }
}

/// The input at the top of a tree of entries is not that of an empty epoch.
proof fn empty_differs(entries: Seq<ScoreEntry>, domain: Seq<u8>)
    requires
        entries.len() > 0,
        ascending_entries(score_map(entries)).len() > 0,
    ensures
        ({
            let t = entry_tree(ascending_entries(score_map(entries)));
            &&& top_input(t) != empty_bytes(domain)
            &&& tree_inputs(t).contains(top_input(t))
            &&& tree_hash(t) == sha256_of(top_input(t))
            &&& tree_hash(t) == level_root(leaf_level(ascending_entries(score_map(entries))))
        }),
{
    let t = entry_tree(ascending_entries(score_map(entries)));
    entry_tree_leaves(ascending_entries(score_map(entries)));
    assert(empty_bytes(domain)[0] == crate::merkle::EMPTY_PREFIX);
    match t {
        Tree::Leaf(bytes) => {},
        Tree::Node(l, r) => {
            assert(top_input(t)[0] == crate::merkle::NODE_PREFIX);
        },
    }
}

/// A non-empty list of entries has a non-empty ascending list.
proof fn listed(entries: Seq<ScoreEntry>)
    requires
        entries.len() > 0,
    ensures
        ascending_entries(score_map(entries)).len() > 0,
{
    let id = entries[0].identity;
    score_map_domain(entries, id);
    sorted_lists::<IdentityId>(score_map(entries).dom());
    let keys = sorted::<IdentityId>(score_map(entries).dom());
    assert(keys.to_set().contains(id));
}

/// Maps with the same ascending entries are the same.
proof fn same_listing(a: Map<IdentityId, u128>, b: Map<IdentityId, u128>)
    requires
        a.dom().finite(),
        b.dom().finite(),
        ascending_entries(a) == ascending_entries(b),
    ensures
        a == b,
{
    let ka = sorted::<IdentityId>(a.dom());
    let kb = sorted::<IdentityId>(b.dom());
    sorted_lists::<IdentityId>(a.dom());
    sorted_lists::<IdentityId>(b.dom());
    let ea = ascending_entries(a);
    let eb = ascending_entries(b);
    assert(ka.len() == ea.len());
    assert(kb.len() == eb.len());
    assert forall|i: int| 0 <= i < ka.len() implies ka[i] == kb[i] && a[ka[i]] == b[kb[i]] by {
        assert(ea[i] == eb[i]);
    }
    assert(ka =~= kb);
    assert forall|id: IdentityId| #[trigger] a.dom().contains(id) implies a[id] == b[id] by {
        assert(ka.to_set().contains(id));
        let i = ka.index_of(id);
        assert(ka[i] == id);
    }
    assert(a.dom() =~= b.dom());
    assert(a =~= b);
}

} // verus!
