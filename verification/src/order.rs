//! Keeping the nodes of one level in display order: where a new node goes,
//! and what the order that results from it is.

use vstd::prelude::*;
use crate::text::{lemma_lex_irreflexive, lemma_lex_le_transitive, lemma_lex_less_implies_le, lex_le, lex_less, str_less};
use crate::tree::{
    forest_size, forest_view, lemma_forest_size_insert, lemma_forest_size_push, node_size, sort_key, DirEntry, TreeNode,
};

verus! {

/// The sort keys of `level` never decrease.
pub open spec fn keys_sorted(level: Seq<TreeNode>) -> bool {
    forall|i: int, j: int|
        0 <= i < j < level.len() ==> lex_le(#[trigger] sort_key(level[i]), #[trigger] sort_key(level[j]))
}

/// Where a node with the given key goes in a sorted level: behind every node
/// whose key does not come after it, so that equal keys keep the order in
/// which they arrived.
pub open spec fn insert_position(level: Seq<TreeNode>, key: Seq<char>) -> nat
    decreases level.len(),
{
    if level.len() == 0 {
        0
    } else if lex_less(key, sort_key(level.last())) {
        insert_position(level.drop_last(), key)
    } else {
        level.len()
    }
}

/// `level` with `node` put at its `insert_position`.
pub open spec fn insert_sorted(level: Seq<TreeNode>, node: TreeNode) -> Seq<TreeNode> {
    level.insert(insert_position(level, sort_key(node)) as int, node)
}

/// The nodes of `nodes` ordered by sort key; nodes with equal keys stay in the
/// order they have in `nodes`.
pub open spec fn sort_level(nodes: Seq<TreeNode>) -> Seq<TreeNode>
    decreases nodes.len(),
{
    if nodes.len() == 0 {
        Seq::empty()
    } else {
        insert_sorted(sort_level(nodes.drop_last()), nodes.last())
    }
}

/// The position is within the level, every node from it on has a greater
/// key, and the node before it has none.
pub proof fn lemma_insert_position(level: Seq<TreeNode>, key: Seq<char>)
    ensures
        insert_position(level, key) <= level.len(),
        forall|j: int|
            insert_position(level, key) <= j < level.len() ==> lex_less(
                key,
                #[trigger] sort_key(level[j]),
            ),
        insert_position(level, key) > 0 ==> lex_le(
            sort_key(level[insert_position(level, key) - 1]),
            key,
        ),
    decreases level.len(),
{
    if level.len() > 0 && lex_less(key, sort_key(level.last())) {
        lemma_insert_position(level.drop_last(), key);
        let p = insert_position(level, key);
        assert forall|j: int| p <= j < level.len() implies lex_less(
            key,
            #[trigger] sort_key(level[j]),
        ) by {
            if j < level.len() - 1 {
                assert(level[j] == level.drop_last()[j]);
            }
        }
        if p > 0 {
            assert(level[p - 1] == level.drop_last()[p - 1]);
        }
    }
}

/// Putting a node at its position keeps a sorted level sorted.
pub proof fn lemma_insert_keeps_sorted(level: Seq<TreeNode>, node: TreeNode)
    requires
        keys_sorted(level),
    ensures
        keys_sorted(insert_sorted(level, node)),
{
    let key = sort_key(node);
    let p = insert_position(level, key) as int;
    let out = insert_sorted(level, node);
    lemma_insert_position(level, key);
    assert forall|i: int, j: int| 0 <= i < j < out.len() implies lex_le(
        #[trigger] sort_key(out[i]),
        #[trigger] sort_key(out[j]),
    ) by {
        if j < p {
            assert(out[i] == level[i] && out[j] == level[j]);
        } else if j == p {
            assert(out[i] == level[i]);
            if i < p - 1 {
                assert(lex_le(sort_key(level[i]), sort_key(level[p - 1])));
            } else {
                lemma_lex_irreflexive(sort_key(level[i]));
            }
            lemma_lex_le_transitive(sort_key(level[i]), sort_key(level[p - 1]), key);
        } else if i < p {
            assert(out[i] == level[i] && out[j] == level[j - 1]);
            if i < j - 1 {
                assert(lex_le(sort_key(level[i]), sort_key(level[j - 1])));
            }
        } else if i == p {
            assert(out[j] == level[j - 1]);
            assert(lex_less(key, sort_key(level[j - 1])));
            lemma_lex_less_implies_le(key, sort_key(level[j - 1]));
        } else {
            assert(out[i] == level[i - 1] && out[j] == level[j - 1]);
            assert(lex_le(sort_key(level[i - 1]), sort_key(level[j - 1])));
        }
    }
}

/// What `sort_level` gives is sorted.
pub proof fn lemma_sort_level_sorted(nodes: Seq<TreeNode>)
    ensures
        keys_sorted(sort_level(nodes)),
    decreases nodes.len(),
{
    if nodes.len() > 0 {
        lemma_sort_level_sorted(nodes.drop_last());
        lemma_insert_keeps_sorted(sort_level(nodes.drop_last()), nodes.last());
    }
}

/// `sort_level` keeps every node, each as often as it occurs.
pub proof fn lemma_sort_level_permutes(nodes: Seq<TreeNode>)
    ensures
        sort_level(nodes).to_multiset() == nodes.to_multiset(),
        sort_level(nodes).len() == nodes.len(),
    decreases nodes.len(),
{
    broadcast use vstd::seq_lib::group_to_multiset_ensures;

    if nodes.len() > 0 {
        let rest = nodes.drop_last();
        let sorted = sort_level(rest);
        lemma_sort_level_permutes(rest);
        lemma_insert_position(sorted, sort_key(nodes.last()));
        let p = insert_position(sorted, sort_key(nodes.last())) as int;
        vstd::seq_lib::to_multiset_insert(sorted, p, nodes.last());
        assert(nodes == rest.push(nodes.last()));
    }
}

/// `keys` holds, place by place, the sort keys of `level`.
pub open spec fn keys_match(keys: Seq<String>, level: Seq<DirEntry>) -> bool {
    &&& keys.len() == level.len()
    &&& forall|i: int| 0 <= i < level.len() ==> (#[trigger] keys[i])@ == sort_key(level[i]@)
}

/// Puts `entry` into `level` at its `insert_position`, and its key into `keys`
/// at the same place.
pub fn insert_by_key(level: &mut Vec<DirEntry>, keys: &mut Vec<String>, entry: DirEntry, key: String)
    requires
        keys_match(old(keys)@, old(level)@),
        key@ == sort_key(entry@),
    ensures
        forest_view(final(level)@) == insert_sorted(forest_view(old(level)@), entry@),
        keys_match(final(keys)@, final(level)@),
{
    let ghost before = forest_view(level@);
    let mut p: usize = level.len();
    assert(before.take(p as int) =~= before);
    while p > 0 && str_less(key.as_str(), keys[p - 1].as_str())
        invariant
            p <= level.len(),
            level@ == old(level)@,
            keys@ == old(keys)@,
            keys_match(keys@, level@),
            before == forest_view(level@),
            insert_position(before, key@) == insert_position(before.take(p as int), key@),
        decreases p,
    {
        proof {
            let head = before.take(p as int);
            assert(head.last() == level@[p - 1]@);
            assert(head.drop_last() =~= before.take(p - 1));
        }
        p -= 1;
    }
    proof {
        let head = before.take(p as int);
        if p > 0 {
            assert(head.last() == level@[p - 1]@);
        }
        assert(insert_position(before, key@) == p);
    }
    level.insert(p, entry);
    keys.insert(p, key);
    proof {
        assert(forest_view(level@) =~= before.insert(p as int, entry@));
    }
}

/// A level with one node put in has that node's subtree more.
pub proof fn lemma_insert_sorted_size(level: Seq<TreeNode>, node: TreeNode)
    ensures
        forest_size(insert_sorted(level, node)) == forest_size(level) + node_size(node),
        insert_sorted(level, node).len() == level.len() + 1,
{
    lemma_insert_position(level, sort_key(node));
    lemma_forest_size_insert(level, insert_position(level, sort_key(node)) as int, node);
}

/// The nodes of the result of `insert_sorted` are `node` and those of `level`.
pub proof fn lemma_insert_sorted_members(level: Seq<TreeNode>, node: TreeNode)
    ensures
        forall|i: int|
            0 <= i < insert_sorted(level, node).len() ==> {
                ||| #[trigger] insert_sorted(level, node)[i] == node
                ||| level.contains(insert_sorted(level, node)[i])
            },
{
    lemma_insert_position(level, sort_key(node));
    let p = insert_position(level, sort_key(node)) as int;
    let out = insert_sorted(level, node);
    assert forall|i: int| 0 <= i < out.len() implies (#[trigger] out[i] == node || level.contains(
        out[i],
    )) by {
        if i < p {
            assert(out[i] == level[i]);
        } else if i > p {
            assert(out[i] == level[i - 1]);
        }
    }
}

/// `sort_level` keeps the number of nodes in the subtrees.
pub proof fn lemma_sort_level_size(nodes: Seq<TreeNode>)
    ensures
        forest_size(sort_level(nodes)) == forest_size(nodes),
    decreases nodes.len(),
{
    if nodes.len() > 0 {
        let rest = nodes.drop_last();
        lemma_sort_level_size(rest);
        lemma_insert_sorted_size(sort_level(rest), nodes.last());
        assert(nodes =~= rest.push(nodes.last()));
        lemma_forest_size_push(rest, nodes.last());
    }
}

/// Every node of `sort_level(nodes)` is a node of `nodes`.
pub proof fn lemma_sort_level_members(nodes: Seq<TreeNode>)
    ensures
        sort_level(nodes).len() == nodes.len(),
        forall|i: int|
            0 <= i < nodes.len() ==> nodes.contains(#[trigger] sort_level(nodes)[i]),
    decreases nodes.len(),
{
    if nodes.len() > 0 {
        let rest = nodes.drop_last();
        let sorted = sort_level(rest);
        lemma_sort_level_members(rest);
        lemma_insert_sorted_members(sorted, nodes.last());
        lemma_insert_sorted_size(sorted, nodes.last());
        let out = sort_level(nodes);
        assert forall|i: int| 0 <= i < nodes.len() implies nodes.contains(#[trigger] out[i]) by {
            if out[i] == nodes.last() {
                assert(nodes[nodes.len() - 1] == out[i]);
            } else {
                assert(sorted.contains(out[i]));
                let k = choose|k: int| 0 <= k < sorted.len() && sorted[k] == out[i];
                assert(rest.contains(sorted[k]));
                let m = choose|m: int| 0 <= m < rest.len() && rest[m] == sorted[k];
                assert(nodes[m] == out[i]);
            }
        }
    }
}

/// A level that is sorted already is left as it is: nodes are moved only to
/// mend the order, so nodes with equal keys never change places.
pub proof fn lemma_sort_level_keeps_sorted(nodes: Seq<TreeNode>)
    requires
        keys_sorted(nodes),
    ensures
        sort_level(nodes) == nodes,
    decreases nodes.len(),
{
    if nodes.len() > 0 {
        let rest = nodes.drop_last();
        assert(keys_sorted(rest)) by {
            assert forall|i: int, j: int| 0 <= i < j < rest.len() implies lex_le(
                #[trigger] sort_key(rest[i]),
                #[trigger] sort_key(rest[j]),
            ) by {
                assert(rest[i] == nodes[i] && rest[j] == nodes[j]);
            }
        }
        lemma_sort_level_keeps_sorted(rest);
        if rest.len() > 0 {
            assert(rest.last() == nodes[nodes.len() - 2]);
            assert(lex_le(sort_key(nodes[nodes.len() - 2]), sort_key(nodes[nodes.len() - 1])));
        }
        assert(insert_position(rest, sort_key(nodes.last())) == rest.len());
        assert(rest.insert(rest.len() as int, nodes.last()) =~= nodes);
    }
}

} // verus!
