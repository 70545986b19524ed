//! The nodes of a scan result, their mathematical model, and what holds of a
//! result: which nodes it has, how they are ordered and how many there are.

use vstd::prelude::*;
use crate::text::{lex_le, lowercase_of};

verus! {

/// One node of a scanned tree: a directory with the nodes kept below it, or a
/// file.
#[derive(Debug)]
pub struct DirEntry {
    /// Display name: the final segment of `path`.
    pub name: String,
    /// Full path of the node.
    pub path: String,
    pub is_directory: bool,
    /// The nodes below a directory, in display order; empty for a file.
    pub children: Vec<DirEntry>,
}

/// The model of a `DirEntry`: texts as sequences of characters, children as a
/// sequence of models.
pub struct TreeNode {
    pub name: Seq<char>,
    pub path: Seq<char>,
    pub is_directory: bool,
    pub children: Seq<TreeNode>,
}

impl View for DirEntry {
    type V = TreeNode;

    open spec fn view(&self) -> TreeNode
        decreases self,
    {
        TreeNode {
            name: self.name@,
            path: self.path@,
            is_directory: self.is_directory,
            children: Seq::new(
                self.children@.len(),
                |i: int|
                    if 0 <= i < self.children@.len() {
                        self.children@[i]@
                    } else {
                        arbitrary()
                    },
            ),
        }
    }
}

/// The models of a sequence of nodes, in the same order.
pub open spec fn forest_view(entries: Seq<DirEntry>) -> Seq<TreeNode> {
    Seq::new(entries.len(), |i: int| entries[i]@)
}

/// The model of a node holds the models of its children.
pub proof fn lemma_node_children(entry: DirEntry)
    ensures
        entry@.children == forest_view(entry.children@),
{
    reveal_with_fuel(<DirEntry as View>::view, 2);
    assert(entry@.children =~= forest_view(entry.children@));
}

/// The text by which a node is ordered among its siblings: its name in
/// lowercase.
pub open spec fn sort_key(node: TreeNode) -> Seq<char> {
    lowercase_of(node.name)
}

/// The number of nodes in a node's subtree, the node included.
pub open spec fn node_size(node: TreeNode) -> nat
    decreases node, 0nat,
{
    1 + forest_size_upto(node.children, node.children.len())
}

/// The number of nodes in the subtrees of the first `k` nodes of `forest`.
pub open spec fn forest_size_upto(forest: Seq<TreeNode>, k: nat) -> nat
    decreases forest, k,
{
    if k == 0 || k > forest.len() {
        0
    } else {
        forest_size_upto(forest, (k - 1) as nat) + node_size(forest[k - 1])
    }
}

/// The number of nodes anywhere in `forest`.
pub open spec fn forest_size(forest: Seq<TreeNode>) -> nat {
    forest_size_upto(forest, forest.len())
}

/// No directory in the subtree is empty, and no file has children.
pub open spec fn node_pruned(node: TreeNode) -> bool
    decreases node,
{
    &&& node.is_directory <==> node.children.len() > 0
    &&& forall|i: int| 0 <= i < node.children.len() ==> #[trigger] node_pruned(node.children[i])
}

/// `node_pruned` holds of every node of `forest`.
pub open spec fn forest_pruned(forest: Seq<TreeNode>) -> bool {
    forall|i: int| 0 <= i < forest.len() ==> #[trigger] node_pruned(forest[i])
}

/// Siblings in display order: every directory before every file, and within
/// each of the two groups the sort keys never decrease.
pub open spec fn level_ordered(level: Seq<TreeNode>) -> bool {
    forall|i: int, j: int|
        0 <= i < j < level.len() ==> {
            &&& #[trigger] level[i].is_directory || !(#[trigger] level[j].is_directory)
            &&& level[i].is_directory == level[j].is_directory ==> lex_le(
                sort_key(level[i]),
                sort_key(level[j]),
            )
        }
}

/// `level_ordered` holds of the children of every node in the subtree.
pub open spec fn node_ordered(node: TreeNode) -> bool
    decreases node,
{
    &&& level_ordered(node.children)
    &&& forall|i: int| 0 <= i < node.children.len() ==> #[trigger] node_ordered(node.children[i])
}

/// `level_ordered` holds of `forest` and of every level below it.
pub open spec fn forest_ordered(forest: Seq<TreeNode>) -> bool {
    &&& level_ordered(forest)
    &&& forall|i: int| 0 <= i < forest.len() ==> #[trigger] node_ordered(forest[i])
}

/// The length of the longest chain of nodes from `node` downwards.
pub open spec fn node_height(node: TreeNode) -> nat
    decreases node, 0nat,
{
    1 + forest_height_upto(node.children, node.children.len())
}

/// The greatest `node_height` among the first `k` nodes of `forest`.
pub open spec fn forest_height_upto(forest: Seq<TreeNode>, k: nat) -> nat
    decreases forest, k,
{
    if k == 0 || k > forest.len() {
        0
    } else {
        let rest = forest_height_upto(forest, (k - 1) as nat);
        let last = node_height(forest[k - 1]);
        if last > rest {
            last
        } else {
            rest
        }
    }
}

/// The number of levels of `forest`: 0 when it is empty.
pub open spec fn forest_height(forest: Seq<TreeNode>) -> nat {
    forest_height_upto(forest, forest.len())
}

/// The count over the first `k` nodes looks at those nodes only.
pub proof fn lemma_forest_size_upto_agrees(a: Seq<TreeNode>, b: Seq<TreeNode>, k: nat)
    requires
        k <= a.len(),
        k <= b.len(),
        forall|i: int| 0 <= i < k ==> a[i] == b[i],
    ensures
        forest_size_upto(a, k) == forest_size_upto(b, k),
    decreases k,
{
    if k > 0 {
        lemma_forest_size_upto_agrees(a, b, (k - 1) as nat);
    }
}

/// A forest with one more node at its end has that node's subtree more.
pub proof fn lemma_forest_size_push(forest: Seq<TreeNode>, node: TreeNode)
    ensures
        forest_size(forest.push(node)) == forest_size(forest) + node_size(node),
{
    lemma_forest_size_upto_agrees(forest.push(node), forest, forest.len());
}

/// A forest with one more node at any place has that node's subtree more.
pub proof fn lemma_forest_size_insert(forest: Seq<TreeNode>, at: int, node: TreeNode)
    requires
        0 <= at <= forest.len(),
    ensures
        forest_size(forest.insert(at, node)) == forest_size(forest) + node_size(node),
    decreases forest.len() - at,
{
    if at == forest.len() {
        assert(forest.insert(at, node) =~= forest.push(node));
        lemma_forest_size_push(forest, node);
    } else {
        let head = forest.drop_last();
        lemma_forest_size_insert(head, at, node);
        assert(forest.insert(at, node) =~= head.insert(at, node).push(forest.last()));
        lemma_forest_size_push(head.insert(at, node), forest.last());
        assert(forest =~= head.push(forest.last()));
        lemma_forest_size_push(head, forest.last());
    }
}

/// Two forests one behind the other have the nodes of both.
pub proof fn lemma_forest_size_concat(a: Seq<TreeNode>, b: Seq<TreeNode>)
    ensures
        forest_size(a + b) == forest_size(a) + forest_size(b),
    decreases b.len(),
{
    if b.len() == 0 {
        assert(a + b =~= a);
    } else {
        lemma_forest_size_concat(a, b.drop_last());
        assert(a + b =~= (a + b.drop_last()).push(b.last()));
        lemma_forest_size_push(a + b.drop_last(), b.last());
        assert(b =~= b.drop_last().push(b.last()));
        lemma_forest_size_push(b.drop_last(), b.last());
    }
}

/// A forest in which no node is higher than `bound` is no higher itself.
pub proof fn lemma_forest_height_bound(forest: Seq<TreeNode>, k: nat, bound: nat)
    requires
        k <= forest.len(),
        forall|i: int| 0 <= i < forest.len() ==> #[trigger] node_height(forest[i]) <= bound,
    ensures
        forest_height_upto(forest, k) <= bound,
    decreases k,
{
    if k > 0 {
        lemma_forest_height_bound(forest, (k - 1) as nat, bound);
        assert(node_height(forest[k - 1]) <= bound);
    }
}

} // verus!
