//! The tree-building variant of the traversal: the same walk, with the
//! discovered references assembled into parent/child structure.
//!
//! During the walk every discovered reference is recorded as an edge that
//! remembers the slot of the edge that discovered its parent.  Those
//! slots order children strictly after their parents, so the forest can
//! be assembled afterwards by a walk over the slots, and the result is
//! acyclic by construction.

use vstd::prelude::*;
use crate::ids::{ChildReference, ChildReferenceView};
use crate::walk::{Edge, EdgeView, Traversal};

verus! {

/// One node of the assembled result: the discovered reference and the
/// subtrees of the references discovered by browsing it, in discovery
/// order.
pub struct ResultTree {
    pub reference: ChildReference,
    pub children: Vec<ResultTree>,
}

/// Spec-level shape of a `ResultTree`.
pub struct ResultTreeView {
    pub reference: ChildReferenceView,
    pub children: Seq<ResultTreeView>,
}

broadcast use vstd::std_specs::vec::axiom_vec_decreases_to_view, vstd::seq::axiom_seq_index_decreases;

/// Spec-level value of an assembled tree.
pub open spec fn tree_view(t: ResultTree) -> ResultTreeView
    decreases t, 1int,
{
    ResultTreeView { reference: t.reference@, children: forest_view(t.children@) }
}

/// Spec-level values of a sequence of assembled trees.
pub open spec fn forest_view(ts: Seq<ResultTree>) -> Seq<ResultTreeView>
    decreases ts, 0int,
{
    if ts.len() == 0 {
        Seq::empty()
    } else {
        forest_view(ts.drop_last()).push(tree_view(ts.last()))
    }
}

proof fn lemma_forest_view_push(ts: Seq<ResultTree>, t: ResultTree)
    ensures
        forest_view(ts.push(t)) == forest_view(ts).push(tree_view(t)),
{
    assert(ts.push(t).drop_last() =~= ts);
    assert(ts.push(t).last() == t);
}

/// Every edge's parent slot points strictly backwards: what the walk
/// guarantees of its discovery order.
pub open spec fn tree_edges_ok(edges: Seq<EdgeView>) -> bool {
    forall|i: int|
        0 <= i < edges.len() ==> match (#[trigger] edges[i]).parent_slot {
            Some(p) => 0 <= p < i,
            None => true,
        }
}

/// Rank of a parent slot for the assembly's termination measure.
pub open spec fn parent_rank(edges: Seq<EdgeView>, parent: Option<int>) -> int {
    match parent {
        Some(p) => edges.len() - p - 1,
        None => edges.len() as int,
    }
}

pub open spec fn children_args_ok(edges: Seq<EdgeView>, parent: Option<int>, upto: int) -> bool {
    &&& upto <= edges.len()
    &&& match parent {
        Some(p) => 0 <= p < edges.len(),
        None => true,
    }
    &&& tree_edges_ok(edges)
}

/// The subtrees whose root edges lie in slots `[0, upto)` and have the
/// given parent slot (`None`: the forest roots), in slot order.
pub open spec fn children_spec(edges: Seq<EdgeView>, parent: Option<int>, upto: int) -> Seq<
    ResultTreeView,
>
    decreases parent_rank(edges, parent), 1int, upto,
        when children_args_ok(edges, parent, upto)
{
    if upto <= 0 {
        Seq::empty()
    } else {
        let j = upto - 1;
        let rest = children_spec(edges, parent, j);
        let is_child = match (edges[j].parent_slot, parent) {
            (Some(a), Some(b)) => a == b && b < j,
            (None, None) => true,
            _ => false,
        };
        if is_child {
            rest.push(subtree_spec(edges, j))
        } else {
            rest
        }
    }
}

/// The subtree rooted at edge slot `i`.
pub open spec fn subtree_args_ok(edges: Seq<EdgeView>, i: int) -> bool {
    0 <= i < edges.len() && tree_edges_ok(edges)
}

pub open spec fn subtree_spec(edges: Seq<EdgeView>, i: int) -> ResultTreeView
    decreases edges.len() - i, 0int, 0int,
        when subtree_args_ok(edges, i)
{
    ResultTreeView {
        reference: edges[i].reference,
        children: children_spec(edges, Some(i), edges.len() as int),
    }
}

/// The whole forest assembled from the walk's edges.
pub open spec fn forest_spec(edges: Seq<EdgeView>) -> Seq<ResultTreeView> {
    children_spec(edges, None, edges.len() as int)
}

pub open spec fn edge_views(s: Seq<Edge>) -> Seq<EdgeView> {
    s.map(|_i: int, e: Edge| e@)
}

/// Builds the subtree rooted at slot `i`.
fn build_subtree(edges: &Vec<Edge>, i: usize) -> (t: ResultTree)
    requires
        tree_edges_ok(edge_views(edges@)),
        i < edges@.len(),
    ensures
        tree_view(t) == subtree_spec(edge_views(edges@), i as int),
    decreases edges@.len() - i,
{
    let ghost ev = edge_views(edges@);
    let n = edges.len();
    let mut children: Vec<ResultTree> = Vec::new();
    let mut j: usize = i + 1;
    proof {
        lemma_children_spec_empty(ev, i as int, i + 1);
        assert(forest_view(children@) =~= children_spec(ev, Some(i as int), i + 1 as int));
    }
    while j < edges.len()
        invariant
            tree_edges_ok(ev),
            ev == edge_views(edges@),
            i < j <= edges@.len(),
            forest_view(children@) == children_spec(ev, Some(i as int), j as int),
        decreases edges@.len() - j,
    {
        let is_child = match edges[j].parent_slot {
            Some(p) => p == i,
            None => false,
        };
        if is_child {
            let sub = build_subtree(edges, j);
            let ghost pre = children@;
            let ghost subg = sub;
            children.push(sub);
            proof {
                lemma_forest_view_push(pre, subg);
                assert(forest_view(children@) == children_spec(ev, Some(i as int), j + 1 as int));
            }
        } else {
            proof {
                assert(forest_view(children@) == children_spec(ev, Some(i as int), j + 1 as int));
            }
        }
        j += 1;
    }
    let t = ResultTree { reference: edges[i].reference.clone(), children };
    proof {
        assert(tree_view(t) == subtree_spec(ev, i as int));
    }
    t
}

/// `children_spec` below the first candidate slot is empty.
proof fn lemma_children_spec_empty(edges: Seq<EdgeView>, p: int, upto: int)
    requires
        tree_edges_ok(edges),
        0 <= p < edges.len(),
        upto <= p + 1,
    ensures
        children_spec(edges, Some(p), upto) == Seq::<ResultTreeView>::empty(),
    decreases upto,
{
    if upto > 0 {
        lemma_children_spec_empty(edges, p, upto - 1);
    }
}

/// Assembles the forest of the walk's edges: one tree per edge whose
/// parent was a walk root, children in discovery order.
pub fn build_forest(edges: &Vec<Edge>) -> (r: Vec<ResultTree>)
    requires
        tree_edges_ok(edge_views(edges@)),
    ensures
        forest_view(r@) == forest_spec(edge_views(edges@)),
{
    let ghost ev = edge_views(edges@);
    let mut out: Vec<ResultTree> = Vec::new();
    let mut j: usize = 0;
    proof {
        assert(forest_view(out@) =~= children_spec(ev, None, 0));
    }
    while j < edges.len()
        invariant
            tree_edges_ok(ev),
            ev == edge_views(edges@),
            j <= edges@.len(),
            forest_view(out@) == children_spec(ev, None, j as int),
        decreases edges@.len() - j,
    {
        let is_root = match edges[j].parent_slot {
            Some(_) => false,
            None => true,
        };
        if is_root {
            let sub = build_subtree(edges, j);
            let ghost pre = out@;
            let ghost subg = sub;
            out.push(sub);
            proof {
                lemma_forest_view_push(pre, subg);
                assert(forest_view(out@) == children_spec(ev, None, j + 1 as int));
            }
        } else {
            proof {
                assert(forest_view(out@) == children_spec(ev, None, j + 1 as int));
            }
        }
        j += 1;
    }
    out
}

impl Traversal {
    /// The tree traversal result: the flat result's references assembled
    /// into parent/child structure, children ordered as the gateway
    /// returned them.
    pub fn into_tree(self) -> (r: Vec<ResultTree>)
        requires
            self@.inv(),
        ensures
            forest_view(r@) == forest_spec(self@.edges),
    {
        let ghost m = self@;
        let edges = self.into_edges();
        proof {
            assert(tree_edges_ok(edge_views(edges@)));
        }
        build_forest(&edges)
    }
}

} // verus!
