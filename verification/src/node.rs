//! Parse-tree nodes and their mathematical model.

use vstd::prelude::*;

verus! {

/// A labeled tree node: a grammar-symbol label and an ordered sequence of
/// owned children. Leaves have no children.
#[derive(Debug)]
pub struct NODE {
    pub label: String,
    pub children: Vec<NODE>,
}

/// The mathematical model of a parse tree.
#[verifier::ext_equal]
pub struct Tree {
    pub label: Seq<char>,
    pub children: Seq<Tree>,
}

/// A leaf of the model tree.
pub open spec fn sp_leaf(label: Seq<char>) -> Tree {
    Tree { label: label, children: seq![] }
}

/// The model of a node: its label text and the models of its children.
pub open spec fn tree_of(n: NODE) -> Tree
    decreases n, 0int,
{
    Tree { label: n.label@, children: trees_of(n.children@, 0) }
}

/// The models of the nodes of `ns` from position `k` on.
pub open spec fn trees_of(ns: Seq<NODE>, k: int) -> Seq<Tree>
    decreases ns, ns.len() - k,
{
    if 0 <= k < ns.len() {
        seq![tree_of(ns[k])] + trees_of(ns, k + 1)
    } else {
        seq![]
    }
}

/// The model of a node sequence, element by element.
pub proof fn lemma_trees_of(ns: Seq<NODE>, k: int)
    requires
        0 <= k <= ns.len(),
    ensures
        trees_of(ns, k).len() == ns.len() - k,
        forall|m: int|
            0 <= m < ns.len() - k ==> #[trigger] trees_of(ns, k)[m] == tree_of(ns[k + m]),
    decreases ns.len() - k,
{
    if k < ns.len() {
        lemma_trees_of(ns, k + 1);
        assert forall|m: int| 0 <= m < ns.len() - k implies #[trigger] trees_of(ns, k)[m]
            == tree_of(ns[k + m]) by {
            if m > 0 {
                assert(trees_of(ns, k)[m] == trees_of(ns, k + 1)[m - 1]);
                assert(trees_of(ns, k + 1)[m - 1] == tree_of(ns[k + 1 + (m - 1)]));
            }
        }
    }
}

/// The leaf labels of the first `m` trees of `cs`, in order.
pub open spec fn frontier_seq(cs: Seq<Tree>, m: int) -> Seq<Seq<char>>
    decreases cs, m,
{
    if 0 < m <= cs.len() {
        frontier_seq(cs, m - 1) + frontier(cs[m - 1])
    } else {
        seq![]
    }
}

/// The leaf labels of `t` in left-to-right order: its frontier.
pub open spec fn frontier(t: Tree) -> Seq<Seq<char>>
    decreases t, 0int,
{
    if t.children.len() == 0 {
        seq![t.label]
    } else {
        frontier_seq(t.children, t.children.len() as int)
    }
}

impl NODE {
    /// A node with the given label and no children.
    pub fn leaf(label: &str) -> (n: NODE)
        ensures
            tree_of(n) == sp_leaf(label@),
    {
        let n = NODE { label: label.to_owned(), children: Vec::new() };
        proof {
            assert(tree_of(n) =~= sp_leaf(label@));
        }
        n
    }

    /// A node with the given label and the given children, in order.
    pub fn with(label: &str, children: Vec<NODE>) -> (n: NODE)
        ensures
            tree_of(n) == (Tree { label: label@, children: trees_of(children@, 0) }),
    {
        NODE { label: label.to_owned(), children }
    }
}

} // verus!
