//! Breadth-first rendering of a parse tree: one text line per tree depth,
//! holding that level's node labels in left-to-right order, space-separated.

use vstd::prelude::*;
use vstd::string::StringExecFns;
use crate::node::{NODE, Tree, tree_of, trees_of};

verus! {

/// The greatest depth among the first `m` trees of `cs`, zero for none.
pub open spec fn depth_seq(cs: Seq<Tree>, m: int) -> nat
    decreases cs, m,
{
    if 0 < m <= cs.len() {
        let rest = depth_seq(cs, m - 1);
        let d = depth(cs[m - 1]);
        if d > rest {
            d
        } else {
            rest
        }
    } else {
        0
    }
}

/// The depth of a tree: one for the root plus the deepest child.
pub open spec fn depth(t: Tree) -> nat
    decreases t, 0int,
{
    1 + depth_seq(t.children, t.children.len() as int)
}

/// The labels found at distance `k` below the roots of the first `m`
/// trees of `cs`, in left-to-right order.
pub open spec fn level_seq(cs: Seq<Tree>, k: int, m: int) -> Seq<Seq<char>>
    decreases cs, m,
{
    if 0 < m <= cs.len() {
        level_seq(cs, k, m - 1) + level_labels(cs[m - 1], k)
    } else {
        seq![]
    }
}

/// The labels found at distance `k` below the root of `t`, in
/// left-to-right order: the breadth-first level `k` of the tree.
pub open spec fn level_labels(t: Tree, k: int) -> Seq<Seq<char>>
    decreases t, 0int,
{
    if k <= 0 {
        seq![t.label]
    } else {
        level_seq(t.children, k - 1, t.children.len() as int)
    }
}

/// A level of the first `m` children holds a label exactly when one of
/// those children is deep enough.
pub proof fn lemma_level_empty_seq(cs: Seq<Tree>, k: int, m: int)
    requires
        0 <= k,
        0 <= m <= cs.len(),
    ensures
        level_seq(cs, k, m).len() > 0 <==> k < depth_seq(cs, m),
    decreases cs, m,
{
    if 0 < m {
        lemma_level_empty_seq(cs, k, m - 1);
        lemma_level_empty(cs[m - 1], k);
    }
}

/// A level of a tree holds a label exactly when the level lies above the
/// tree's depth.
pub proof fn lemma_level_empty(t: Tree, k: int)
    requires
        0 <= k,
    ensures
        level_labels(t, k).len() > 0 <==> k < depth(t),
    decreases t, 0int,
{
    if k > 0 {
        lemma_level_empty_seq(t.children, k - 1, t.children.len() as int);
    }
}

/// The labels of `ls` joined with single spaces.
pub open spec fn join_labels(ls: Seq<Seq<char>>) -> Seq<char>
    decreases ls.len(),
{
    if ls.len() == 0 {
        seq![]
    } else if ls.len() == 1 {
        ls[0]
    } else {
        join_labels(ls.drop_last()) + seq![' '] + ls.last()
    }
}

/// Joins strings with single spaces.
pub fn join_with_spaces(parts: &Vec<String>) -> (r: String)
    ensures
        r@ == join_labels(parts@.map_values(|s: String| s@)),
{
    let ghost views = parts@.map_values(|s: String| s@);
    let mut out = String::new();
    let mut i: usize = 0;
    while i < parts.len()
        invariant
            i <= parts.len(),
            views == parts@.map_values(|s: String| s@),
            out@ == join_labels(views.take(i as int)),
        decreases parts.len() - i,
    {
        if i > 0 {
            out.append(" ");
        }
        out.append(parts[i].as_str());
        proof {
            reveal_strlit(" ");
            assert(" "@ =~= seq![' ']);
            assert(views.take(i + 1).drop_last() =~= views.take(i as int));
            assert(views.take(i + 1).last() == views[i as int]);
            if i == 0 {
                assert(out@ =~= join_labels(views.take(1)));
            } else {
                assert(out@ =~= join_labels(views.take(i + 1)));
            }
        }
        i = i + 1;
    }
    proof {
        assert(views.take(parts@.len() as int) =~= views);
    }
    out
}

impl NODE {
    /// Appends to `out` the labels at distance `k` below this node, in
    /// left-to-right order.
    pub fn collect_level(&self, k: usize, out: &mut Vec<String>)
        ensures
            final(out)@.map_values(|s: String| s@) == old(out)@.map_values(|s: String| s@)
                + level_labels(tree_of(*self), k as int),
        decreases self, 0int,
    {
        if k == 0 {
            out.push(self.label.clone());
            proof {
                assert(out@.map_values(|s: String| s@) =~= old(out)@.map_values(
                    |s: String| s@,
                ) + level_labels(tree_of(*self), 0));
            }
        } else {
            let ghost gcs = trees_of(self.children@, 0);
            proof {
                crate::node::lemma_trees_of(self.children@, 0);
            }
            let mut i: usize = 0;
            while i < self.children.len()
                invariant
                    i <= self.children.len(),
                    gcs == trees_of(self.children@, 0),
                    gcs == tree_of(*self).children,
                    gcs.len() == self.children@.len(),
                    forall|m: int|
                        0 <= m < gcs.len() ==> gcs[m] == tree_of(#[trigger] self.children@[m]),
                    1 <= k <= usize::MAX,
                    out@.map_values(|s: String| s@) == old(out)@.map_values(|s: String| s@)
                        + level_seq(gcs, k - 1, i as int),
                decreases self.children.len() - i,
            {
                let child = &self.children[i];
                child.collect_level(k - 1, out);
                proof {
                    assert(level_seq(gcs, k - 1, i + 1) == level_seq(gcs, k - 1, i as int)
                        + level_labels(gcs[i as int], k - 1));
                }
                i = i + 1;
            }
        }
    }

    /// The breadth-first rendering of this tree: one string per level, the
    /// level's labels in left-to-right order joined with spaces.
    pub fn bfs_levels(&self) -> (r: Vec<String>)
        ensures
            forall|m: int|
                0 <= m < r@.len() ==> r@[m]@ == join_labels(
                    level_labels(tree_of(*self), m),
                ),
            r@.len() == depth(tree_of(*self)) || (r@.len() == usize::MAX && depth(
                tree_of(*self),
            ) >= usize::MAX),
    {
        let ghost gt = tree_of(*self);
        let mut lines: Vec<String> = Vec::new();
        let mut k: usize = 0;
        loop
            invariant
                k == lines@.len(),
                k <= depth(gt),
                gt == tree_of(*self),
                forall|m: int|
                    0 <= m < k ==> lines@[m]@ == join_labels(level_labels(gt, m)),
            ensures
                k == lines@.len(),
                forall|m: int|
                    0 <= m < k ==> lines@[m]@ == join_labels(level_labels(gt, m)),
                k == depth(gt) || (k == usize::MAX && depth(gt) >= usize::MAX),
            decreases depth(gt) - k,
        {
            if k == usize::MAX {
                break;
            }
            let mut lv: Vec<String> = Vec::new();
            self.collect_level(k, &mut lv);
            proof {
                lemma_level_empty(gt, k as int);
            }
            if lv.len() == 0 {
                proof {
                    assert(level_labels(gt, k as int).len() == 0);
                }
                break;
            }
            let line = join_with_spaces(&lv);
            lines.push(line);
            k = k + 1;
        }
        lines
    }
}

} // verus!
