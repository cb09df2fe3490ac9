//! The traversal engine: a depth-bounded walk of the remote namespace
//! with cycle avoidance and work budgets.
//!
//! The namespace is reachable only through a "browse one node" network
//! call, which this crate cannot make itself.  `Traversal` is therefore
//! an event-driven state machine: the caller repeatedly asks
//! `next_request` which node to browse, performs the one browse call,
//! and hands the outcome back through `deliver`.  The machine guarantees
//! that no node is ever requested twice, that no request is issued for a
//! node reached at or beyond the depth budget, and that the node budget
//! caps the number of requests, so any driving loop terminates on any
//! namespace graph, cyclic ones included.
//!
//! A per-node browse failure is counted and treated as "no children";
//! only a transport-level failure aborts the walk.

use vstd::prelude::*;
use vstd::set_lib::lemma_len_subset;
use crate::ids::{ChildReference, ChildReferenceView, NodeId, NodeIdView};

verus! {

/// Work ceilings for one traversal.  `u32::MAX` / `usize::MAX` stand for
/// "no ceiling": no realistic walk reaches them.
#[derive(Clone, Copy, Debug, PartialEq, Eq, Structural)]
pub struct Budget {
    pub max_depth: u32,
    pub max_nodes: usize,
    pub max_queue: usize,
}

impl Budget {
    /// A depth ceiling alone.
    pub fn depth_limited(max_depth: u32) -> (r: Budget)
        ensures
            r == (Budget { max_depth, max_nodes: usize::MAX, max_queue: usize::MAX }),
    {
        Budget { max_depth, max_nodes: usize::MAX, max_queue: usize::MAX }
    }

    /// Node-count and queue ceilings with no depth ceiling.
    pub fn node_limited(max_nodes: usize, max_queue: usize) -> (r: Budget)
        ensures
            r == (Budget { max_depth: u32::MAX, max_nodes, max_queue }),
    {
        Budget { max_depth: u32::MAX, max_nodes, max_queue }
    }
}

/// A discovered-but-not-yet-expanded node: where it was found and how
/// deep it lies.  `parent_slot` is the index, in the discovery order of
/// the walk's edges, of the reference by which this node was found;
/// `None` for a walk root.
pub struct FrontierEntry {
    pub node: NodeId,
    pub depth: u32,
    pub parent_slot: Option<usize>,
}

pub struct FrontierEntryView {
    pub node: NodeIdView,
    pub depth: u32,
    pub parent_slot: Option<int>,
}

impl View for FrontierEntry {
    type V = FrontierEntryView;

    open spec fn view(&self) -> FrontierEntryView {
        FrontierEntryView {
            node: self.node@,
            depth: self.depth,
            parent_slot: match self.parent_slot {
                Some(s) => Some(s as int),
                None => None,
            },
        }
    }
}

/// One discovered reference: the reference itself, the node whose browse
/// produced it, the depth of the referenced node, and the slot of the
/// edge that discovered the parent (`None` when the parent is a root).
pub struct Edge {
    pub reference: ChildReference,
    pub parent: NodeId,
    pub depth: u32,
    pub parent_slot: Option<usize>,
}

pub struct EdgeView {
    pub reference: ChildReferenceView,
    pub parent: NodeIdView,
    pub depth: u32,
    pub parent_slot: Option<int>,
}

impl View for Edge {
    type V = EdgeView;

    open spec fn view(&self) -> EdgeView {
        EdgeView {
            reference: self.reference@,
            parent: self.parent@,
            depth: self.depth,
            parent_slot: match self.parent_slot {
                Some(s) => Some(s as int),
                None => None,
            },
        }
    }
}

/// What one browse call came back with.
pub enum BrowseOutcome {
    /// A good status: the node's forward hierarchical references (possibly
    /// none).
    Children(Vec<ChildReference>),
    /// A bad status code: the node is treated as having no children and
    /// the walk goes on.
    Failed(u32),
    /// A transport-level failure: the walk aborts.
    TransportLost,
}

pub enum BrowseOutcomeView {
    Children(Seq<ChildReferenceView>),
    Failed(u32),
    TransportLost,
}

impl View for BrowseOutcome {
    type V = BrowseOutcomeView;

    open spec fn view(&self) -> BrowseOutcomeView {
        match self {
            BrowseOutcome::Children(cs) => BrowseOutcomeView::Children(ref_views(cs@)),
            BrowseOutcome::Failed(code) => BrowseOutcomeView::Failed(*code),
            BrowseOutcome::TransportLost => BrowseOutcomeView::TransportLost,
        }
    }
}

pub open spec fn node_views(s: Seq<NodeId>) -> Seq<NodeIdView> {
    s.map(|_i: int, n: NodeId| n@)
}

pub open spec fn ref_views(s: Seq<ChildReference>) -> Seq<ChildReferenceView> {
    s.map(|_i: int, r: ChildReference| r@)
}

/// The node identifiers of all discovered references.
pub open spec fn edge_nodes(edges: Seq<EdgeView>) -> Set<NodeIdView> {
    Set::new(|n: NodeIdView| exists|i: int| 0 <= i < edges.len() && edges[i].reference.id == n)
}

/// Spec-level state of a traversal.  `issued` is the history of issued
/// browse requests and `roots` the set the walk started from; both are
/// ghost instrumentation that the laws below speak of.
pub struct TraversalModel {
    pub visited: Seq<NodeIdView>,
    pub frontier: Seq<FrontierEntryView>,
    pub edges: Seq<EdgeView>,
    pub skipped: nat,
    pub budget: Budget,
    pub pending: Option<FrontierEntryView>,
    pub aborted: bool,
    pub issued: Seq<FrontierEntryView>,
    pub roots: Set<NodeIdView>,
}

impl TraversalModel {
    /// A frontier or pending entry points at existing edges and at a node
    /// that the walk has actually seen.
    pub open spec fn entry_ok(self, e: FrontierEntryView) -> bool {
        &&& match e.parent_slot {
            Some(p) => 0 <= p < self.edges.len(),
            None => true,
        }
        &&& (self.roots.contains(e.node) || edge_nodes(self.edges).contains(e.node))
    }

    pub open spec fn inv(self) -> bool {
        &&& self.visited.len() == self.issued.len()
        &&& forall|i: int|
            0 <= i < self.issued.len() ==> (#[trigger] self.issued[i]).node == self.visited[i]
        &&& forall|i: int, j: int|
            0 <= i < j < self.visited.len() ==> self.visited[i] != self.visited[j]
        &&& forall|i: int|
            0 <= i < self.issued.len() ==> (#[trigger] self.issued[i]).depth
                < self.budget.max_depth
        &&& self.visited.len() <= self.budget.max_nodes
        &&& self.skipped + (if self.pending is Some {
            1int
        } else {
            0int
        }) <= self.visited.len()
        &&& forall|i: int|
            0 <= i < self.frontier.len() ==> self.entry_ok(#[trigger] self.frontier[i])
        &&& match self.pending {
            Some(e) => self.entry_ok(e) && e.depth < self.budget.max_depth
                && self.visited.contains(e.node),
            None => true,
        }
        &&& forall|i: int|
            0 <= i < self.edges.len() ==> match (#[trigger] self.edges[i]).parent_slot {
                Some(p) => 0 <= p < i,
                None => true,
            }
        &&& forall|i: int|
            0 <= i < self.visited.len() ==> self.roots.contains(#[trigger] self.visited[i])
                || edge_nodes(self.edges).contains(self.visited[i])
    }
}

/// The starting state: the roots on the frontier at depth zero, nothing
/// visited, nothing discovered.
pub open spec fn begin_spec(roots: Seq<NodeIdView>, budget: Budget) -> TraversalModel {
    TraversalModel {
        visited: Seq::empty(),
        frontier: roots.map(
            |_i: int, n: NodeIdView| FrontierEntryView { node: n, depth: 0, parent_slot: None },
        ),
        edges: Seq::empty(),
        skipped: 0,
        budget,
        pending: None,
        aborted: false,
        issued: Seq::empty(),
        roots: roots.to_set(),
    }
}

pub open spec fn opt_node_view(r: Option<NodeId>) -> Option<NodeIdView> {
    match r {
        Some(n) => Some(n@),
        None => None,
    }
}

/// What `next_request` does: pop frontier entries, skipping the already
/// visited and the too-deep, until one can be issued or the frontier or
/// the node budget is exhausted.
pub open spec fn next_request_spec(m: TraversalModel) -> (TraversalModel, Option<NodeIdView>)
    decreases m.frontier.len(),
{
    if m.aborted || m.pending is Some {
        (m, None)
    } else if m.frontier.len() == 0 {
        (m, None)
    } else if m.visited.len() >= m.budget.max_nodes {
        (m, None)
    } else {
        let e = m.frontier[0];
        let rest = m.frontier.drop_first();
        let popped = TraversalModel { frontier: rest, ..m };
        if m.visited.contains(e.node) || e.depth >= m.budget.max_depth {
            next_request_spec(popped)
        } else {
            (
                TraversalModel {
                    visited: m.visited.push(e.node),
                    frontier: rest,
                    pending: Some(e),
                    issued: m.issued.push(e),
                    ..m
                },
                Some(e.node),
            )
        }
    }
}

/// The traversal state machine.  See the module doc for the protocol:
/// `next_request`, then exactly one `deliver`, until `next_request`
/// returns `None`.
pub struct Traversal {
    visited: Vec<NodeId>,
    frontier: Vec<FrontierEntry>,
    edges: Vec<Edge>,
    skipped: usize,
    budget: Budget,
    pending: Option<FrontierEntry>,
    aborted: bool,
    issued: Ghost<Seq<FrontierEntryView>>,
    roots: Ghost<Set<NodeIdView>>,
}

impl View for Traversal {
    type V = TraversalModel;

    closed spec fn view(&self) -> TraversalModel {
        TraversalModel {
            visited: node_views(self.visited@),
            frontier: self.frontier@.map(|_i: int, e: FrontierEntry| e@),
            edges: self.edges@.map(|_i: int, e: Edge| e@),
            skipped: self.skipped as nat,
            budget: self.budget,
            pending: match &self.pending {
                Some(e) => Some(e@),
                None => None,
            },
            aborted: self.aborted,
            issued: self.issued@,
            roots: self.roots@,
        }
    }
}

/// Whether `v` holds a node with the view of `n`.
fn contains_node(v: &Vec<NodeId>, n: &NodeId) -> (r: bool)
    ensures
        r == node_views(v@).contains(n@),
{
    let mut i: usize = 0;
    while i < v.len()
        invariant
            i <= v@.len(),
            forall|j: int| 0 <= j < i ==> node_views(v@)[j] != n@,
        decreases v@.len() - i,
    {
        let e = &v[i];
        if e.eq(n) {
            proof {
                assert(node_views(v@)[i as int] == n@);
            }
            return true;
        }
        i += 1;
    }
    proof {
        assert forall|j: int| 0 <= j < node_views(v@).len() implies node_views(v@)[j] != n@ by {}
    }
    false
}

impl Traversal {
    /// Starts a walk from the given roots under the given budget.
    pub fn begin(roots: Vec<NodeId>, budget: Budget) -> (t: Traversal)
        ensures
            t@ == begin_spec(node_views(roots@), budget),
            t@.inv(),
    {
        let ghost root_views = node_views(roots@);
        let mut frontier: Vec<FrontierEntry> = Vec::new();
        let mut rs = roots;
        let ghost all = rs@;
        let mut i: usize = 0;
        proof {
            assert(node_views(all) =~= root_views);
        }
        while i < rs.len()
            invariant
                i <= rs@.len(),
                rs@ == all,
                frontier@.len() == i,
                forall|j: int|
                    0 <= j < i ==> (#[trigger] frontier@[j])@ == (FrontierEntryView {
                        node: node_views(all)[j],
                        depth: 0u32,
                        parent_slot: None::<int>,
                    }),
            decreases rs@.len() - i,
        {
            let n = rs[i].clone();
            frontier.push(FrontierEntry { node: n, depth: 0, parent_slot: None });
            i += 1;
        }
        let t = Traversal {
            visited: Vec::new(),
            frontier,
            edges: Vec::new(),
            skipped: 0,
            budget,
            pending: None,
            aborted: false,
            issued: Ghost(Seq::empty()),
            roots: Ghost(root_views.to_set()),
        };
        proof {
            assert(t@.frontier =~= begin_spec(root_views, budget).frontier);
            assert(t@.visited =~= Seq::<NodeIdView>::empty());
            assert(t@.edges =~= Seq::<EdgeView>::empty());
            assert(t@ == begin_spec(root_views, budget));
            assert forall|j: int| 0 <= j < t@.frontier.len() implies t@.entry_ok(
                #[trigger] t@.frontier[j],
            ) by {
                assert(t@.frontier[j].node == root_views[j]);
                assert(t@.roots.contains(root_views[j]));
            }
        }
        t
    }

    /// Picks the next node to browse, marks it visited, and records the
    /// outstanding request.  Returns `None` when the walk is over: the
    /// frontier holds nothing browsable, the node budget is spent, or the
    /// walk was aborted.  A returned node was never requested before.
    pub fn next_request(&mut self) -> (r: Option<NodeId>)
        requires
            old(self)@.inv(),
            old(self)@.pending is None,
        ensures
            final(self)@.inv(),
            (final(self)@, opt_node_view(r)) == next_request_spec(old(self)@),
            final(self)@.edges == old(self)@.edges,
            final(self)@.skipped == old(self)@.skipped,
            final(self)@.aborted == old(self)@.aborted,
            final(self)@.budget == old(self)@.budget,
            final(self)@.roots == old(self)@.roots,
            r matches Some(n) ==> !old(self)@.visited.contains(n@) && final(self)@.visited
                == old(self)@.visited.push(n@) && (final(self)@.pending matches Some(e) && e.node
                == n@ && e.depth < old(self)@.budget.max_depth) && final(self)@.issued == old(
                self,
            )@.issued.push(final(self)@.pending->Some_0),
            r is None ==> final(self)@.pending is None && final(self)@.visited == old(
                self,
            )@.visited && final(self)@.issued == old(self)@.issued,
    {
        proof {
            lemma_next_request_spec_props(old(self)@);
        }
        if self.aborted {
            return None;
        }
        while self.frontier.len() > 0
            invariant
                self@.inv(),
                self@.pending is None,
                !self@.aborted,
                next_request_spec(self@) == next_request_spec(old(self)@),
                self@.visited == old(self)@.visited,
                self@.edges == old(self)@.edges,
                self@.skipped == old(self)@.skipped,
                self@.budget == old(self)@.budget,
                self@.roots == old(self)@.roots,
                self@.issued == old(self)@.issued,
            decreases self@.frontier.len(),
        {
            proof {
                lemma_next_request_spec_props(self@);
            }
            if self.visited.len() >= self.budget.max_nodes {
                return None;
            }
            let ghost pre = self@;
            let e = self.frontier.remove(0);
            proof {
                assert(self@.frontier =~= pre.frontier.drop_first());
                assert(e@ == pre.frontier[0]);
            }
            let is_visited = contains_node(&self.visited, &e.node);
            if !is_visited && e.depth < self.budget.max_depth {
                let ret = e.node.clone();
                let pushed = e.node.clone();
                self.visited.push(pushed);
                proof {
                    assert(self@.visited =~= pre.visited.push(e@.node));
                }
                self.pending = Some(e);
                proof {
                    self.issued@ = self.issued@.push(self@.pending->Some_0);
                }
                proof {
                    let m2 = next_request_spec(pre).0;
                    assert(self@.frontier =~= m2.frontier);
                    assert(self@ == m2);
                    lemma_next_request_spec_props(pre);
                }
                return Some(ret);
            }
            proof {
                let popped = TraversalModel { frontier: pre.frontier.drop_first(), ..pre };
                assert(self@ == popped);
            }
        }
        None
    }
}

/// One discovered child folded into the state: the edge is always
/// recorded; the child is enqueued when its depth will still be browsed,
/// it is not yet visited, and the queue budget allows.
pub open spec fn step_one(
    m: TraversalModel,
    p: FrontierEntryView,
    c: ChildReferenceView,
) -> TraversalModel {
    let slot = m.edges.len() as int;
    let d2 = (p.depth + 1) as u32;
    let edges2 = m.edges.push(
        EdgeView { reference: c, parent: p.node, depth: d2, parent_slot: p.parent_slot },
    );
    let enq = p.depth + 1 < m.budget.max_depth && !m.visited.contains(c.id) && m.frontier.len()
        < m.budget.max_queue;
    TraversalModel {
        edges: edges2,
        frontier: if enq {
            m.frontier.push(FrontierEntryView { node: c.id, depth: d2, parent_slot: Some(slot) })
        } else {
            m.frontier
        },
        ..m
    }
}

pub open spec fn enqueue_children_spec(
    m: TraversalModel,
    p: FrontierEntryView,
    cs: Seq<ChildReferenceView>,
) -> TraversalModel
    decreases cs.len(),
{
    if cs.len() == 0 {
        m
    } else {
        enqueue_children_spec(step_one(m, p, cs[0]), p, cs.drop_first())
    }
}

/// The edges that delivering `cs` under the pending entry `p` appends.
pub open spec fn child_edges(p: FrontierEntryView, cs: Seq<ChildReferenceView>) -> Seq<EdgeView> {
    Seq::new(
        cs.len(),
        |i: int|
            EdgeView {
                reference: cs[i],
                parent: p.node,
                depth: ((p.depth + 1) as u32),
                parent_slot: p.parent_slot,
            },
    )
}

/// What `deliver` does: children are folded in one by one; a bad status
/// counts one skipped node; a transport loss aborts the walk.  In every
/// case the pending request is retired.
pub open spec fn deliver_spec(m: TraversalModel, outcome: BrowseOutcomeView) -> TraversalModel {
    let m0 = TraversalModel { pending: None, ..m };
    match outcome {
        BrowseOutcomeView::Children(cs) => enqueue_children_spec(m0, m.pending->Some_0, cs),
        BrowseOutcomeView::Failed(_) => TraversalModel { skipped: m0.skipped + 1, ..m0 },
        BrowseOutcomeView::TransportLost => TraversalModel { aborted: true, ..m0 },
    }
}

proof fn lemma_edge_nodes_grow(edges: Seq<EdgeView>, e: EdgeView)
    ensures
        forall|n: NodeIdView|
            edge_nodes(edges).contains(n) ==> edge_nodes(edges.push(e)).contains(n),
        edge_nodes(edges.push(e)).contains(e.reference.id),
{
    assert forall|n: NodeIdView| edge_nodes(edges).contains(n) implies edge_nodes(
        edges.push(e),
    ).contains(n) by {
        let i = choose|i: int| 0 <= i < edges.len() && edges[i].reference.id == n;
        assert(edges.push(e)[i].reference.id == n);
    }
    assert(edges.push(e)[edges.len() as int].reference.id == e.reference.id);
}

/// What folding a batch of children preserves and adds.
proof fn lemma_enqueue_props(m: TraversalModel, p: FrontierEntryView, cs: Seq<ChildReferenceView>)
    requires
        m.inv(),
        m.pending is None,
        match p.parent_slot {
            Some(s) => 0 <= s < m.edges.len(),
            None => true,
        },
    ensures
        ({
            let m2 = enqueue_children_spec(m, p, cs);
            &&& m2.inv()
            &&& m2.pending is None
            &&& m2.edges == m.edges + child_edges(p, cs)
            &&& m2.visited == m.visited
            &&& m2.issued == m.issued
            &&& m2.skipped == m.skipped
            &&& m2.aborted == m.aborted
            &&& m2.budget == m.budget
            &&& m2.roots == m.roots
        }),
    decreases cs.len(),
{
    if cs.len() == 0 {
        assert(m.edges + child_edges(p, cs) =~= m.edges);
    } else {
        let c = cs[0];
        let m1 = step_one(m, p, c);
        let e0 = EdgeView {
            reference: c,
            parent: p.node,
            depth: ((p.depth + 1) as u32),
            parent_slot: p.parent_slot,
        };
        lemma_edge_nodes_grow(m.edges, e0);
        assert forall|i: int| 0 <= i < m1.frontier.len() implies m1.entry_ok(
            #[trigger] m1.frontier[i],
        ) by {
            if i < m.frontier.len() {
                assert(m.entry_ok(m.frontier[i]));
            }
        }
        assert forall|i: int|
            0 <= i < m1.visited.len() implies m1.roots.contains(#[trigger] m1.visited[i])
            || edge_nodes(m1.edges).contains(m1.visited[i]) by {
            assert(m.roots.contains(m.visited[i]) || edge_nodes(m.edges).contains(m.visited[i]));
        }
        assert(m1.inv());
        lemma_enqueue_props(m1, p, cs.drop_first());
        let m2 = enqueue_children_spec(m, p, cs);
        assert(child_edges(p, cs.drop_first()) =~= child_edges(p, cs).drop_first());
        assert(m2.edges =~= m.edges + child_edges(p, cs));
    }
}

impl Traversal {
    /// Hands the outcome of the one outstanding browse call back to the
    /// walk.  Children are recorded as edges, in the order delivered, and
    /// enqueued for expansion where depth, queue budget and the visited
    /// set allow; a bad status is counted and skipped; a transport loss
    /// aborts the walk.
    pub fn deliver(&mut self, outcome: BrowseOutcome)
        requires
            old(self)@.inv(),
            old(self)@.pending is Some,
        ensures
            final(self)@.inv(),
            final(self)@ == deliver_spec(old(self)@, outcome@),
            final(self)@.pending is None,
            final(self)@.visited == old(self)@.visited,
            final(self)@.issued == old(self)@.issued,
            final(self)@.budget == old(self)@.budget,
            final(self)@.roots == old(self)@.roots,
            outcome matches BrowseOutcome::Children(cs) ==> final(self)@.edges == old(self)@.edges
                + child_edges(old(self)@.pending->Some_0, ref_views(cs@)) && final(self)@.skipped
                == old(self)@.skipped && final(self)@.aborted == old(self)@.aborted,
            outcome matches BrowseOutcome::Failed(c) ==> final(self)@.edges == old(self)@.edges
                && final(self)@.skipped == old(self)@.skipped + 1 && final(self)@.frontier == old(
                self,
            )@.frontier && final(self)@.aborted == old(self)@.aborted,
            outcome is TransportLost ==> final(self)@.aborted && final(self)@.edges == old(
                self,
            )@.edges && final(self)@.skipped == old(self)@.skipped && final(self)@.frontier == old(
                self,
            )@.frontier,
    {
        let ghost m_in = self@;
        let p = self.pending.take().unwrap();
        let ghost pv = p@;
        let ghost m0 = self@;
        proof {
            assert(m0 == (TraversalModel { pending: None, ..m_in }));
            assert(m0.inv());
        }
        match outcome {
            BrowseOutcome::Children(mut cs) => {
                let ghost cs_all = ref_views(cs@);
                proof {
                    lemma_enqueue_props(m0, pv, cs_all);
                }
                while cs.len() > 0
                    invariant
                        p@ == pv,
                        pv.depth < self@.budget.max_depth,
                        match pv.parent_slot {
                            Some(s) => 0 <= s < self@.edges.len(),
                            None => true,
                        },
                        self@.budget == m0.budget,
                        self@.pending is None,
                        enqueue_children_spec(self@, pv, ref_views(cs@))
                            == enqueue_children_spec(m0, pv, cs_all),
                    decreases cs@.len(),
                {
                    let ghost pre = self@;
                    let ghost cs_pre = ref_views(cs@);
                    let c = cs.remove(0);
                    proof {
                        assert(c@ == cs_pre[0]);
                        assert(ref_views(cs@) =~= cs_pre.drop_first());
                    }
                    let slot = self.edges.len();
                    let d2 = p.depth + 1;
                    let cid = c.id.clone();
                    self.edges.push(
                        Edge {
                            reference: c,
                            parent: p.node.clone(),
                            depth: d2,
                            parent_slot: p.parent_slot,
                        },
                    );
                    let enq = d2 < self.budget.max_depth && !contains_node(&self.visited, &cid)
                        && self.frontier.len() < self.budget.max_queue;
                    if enq {
                        self.frontier.push(
                            FrontierEntry { node: cid, depth: d2, parent_slot: Some(slot) },
                        );
                    }
                    proof {
                        let m1 = step_one(pre, pv, cs_pre[0]);
                        assert(self@.edges =~= m1.edges);
                        assert(self@.frontier =~= m1.frontier);
                        assert(self@ == m1);
                    }
                }
                proof {
                    assert(ref_views(cs@) =~= Seq::<ChildReferenceView>::empty());
                    assert(enqueue_children_spec(self@, pv, ref_views(cs@)) == self@);
                }
            },
            BrowseOutcome::Failed(_) => {
                self.skipped = self.skipped + 1;
                proof {
                    assert(self@ == (TraversalModel { skipped: m0.skipped + 1, ..m0 }));
                }
            },
            BrowseOutcome::TransportLost => {
                self.aborted = true;
                proof {
                    assert(self@ == (TraversalModel { aborted: true, ..m0 }));
                }
            },
        }
    }

    /// The node of the outstanding browse request, if one is outstanding.
    pub fn pending_node(&self) -> (r: Option<NodeId>)
        ensures
            match r {
                Some(n) => self@.pending matches Some(e) && e.node == n@,
                None => self@.pending is None,
            },
    {
        match &self.pending {
            Some(e) => Some(e.node.clone()),
            None => None,
        }
    }

    /// True when a transport-level failure ended the walk early.
    pub fn was_aborted(&self) -> (r: bool)
        ensures
            r == self@.aborted,
    {
        self.aborted
    }

    /// How many browsed nodes failed with a bad status and were skipped.
    pub fn skipped_count(&self) -> (r: usize)
        ensures
            r == self@.skipped,
    {
        self.skipped
    }

    /// How many nodes have been browsed (equivalently: requests issued).
    pub fn nodes_processed(&self) -> (r: usize)
        ensures
            r == self@.visited.len(),
    {
        self.visited.len()
    }

    /// The flat traversal result: every discovered reference, in
    /// discovery order, each one reported once per discovering edge.
    pub fn flat_references(&self) -> (r: Vec<ChildReference>)
        ensures
            r@.len() == self@.edges.len(),
            forall|i: int| 0 <= i < r@.len() ==> (#[trigger] r@[i])@ == self@.edges[i].reference,
    {
        let mut out: Vec<ChildReference> = Vec::new();
        let mut i: usize = 0;
        while i < self.edges.len()
            invariant
                i <= self.edges@.len(),
                out@.len() == i,
                forall|j: int|
                    0 <= j < i ==> (#[trigger] out@[j])@ == self@.edges[j].reference,
            decreases self.edges@.len() - i,
        {
            out.push(self.edges[i].reference.clone());
            i += 1;
        }
        out
    }

    /// The discovered edges themselves (reference, parent, depth, and the
    /// slot of the discovering edge), in discovery order.
    pub fn into_edges(self) -> (r: Vec<Edge>)
        ensures
            r@.map(|_i: int, e: Edge| e@) == self@.edges,
    {
        self.edges
    }
}

// ---------------------------------------------------------------------
// Laws of the walk
// ---------------------------------------------------------------------

/// No node identifier is ever visited twice: the visited sequence is
/// duplicate-free, and it lists exactly the issued browse requests.
pub proof fn lemma_no_node_visited_twice(m: TraversalModel)
    requires
        m.inv(),
    ensures
        m.visited.no_duplicates(),
        m.issued.len() == m.visited.len(),
        forall|k: int| 0 <= k < m.issued.len() ==> (#[trigger] m.issued[k]).node == m.visited[k],
{
    reveal(Seq::no_duplicates);
    assert forall|i: int, j: int|
        0 <= i < m.visited.len() && 0 <= j < m.visited.len() && i != j implies m.visited[i]
        != m.visited[j] by {
        if i < j {
        } else {
            assert(m.visited[j] != m.visited[i]);
        }
    }
}

/// The node budget bounds the number of browse requests a walk issues.
pub proof fn lemma_budget_bounds_requests(m: TraversalModel)
    requires
        m.inv(),
    ensures
        m.issued.len() <= m.budget.max_nodes,
{
}

/// Every browse request was issued for a node enqueued strictly below
/// the depth budget; nodes first reached at or beyond it are never
/// browsed.
pub proof fn lemma_depth_bound(m: TraversalModel)
    requires
        m.inv(),
    ensures
        forall|k: int|
            0 <= k < m.issued.len() ==> (#[trigger] m.issued[k]).depth < m.budget.max_depth,
{
}

/// Termination on any namespace, cyclic ones included: when every root
/// and every delivered child lies in a finite pool of nodes, the walk
/// issues at most as many browse requests as the pool has nodes.
pub proof fn lemma_finite_namespace_bounds_requests(m: TraversalModel, pool: Set<NodeIdView>)
    requires
        m.inv(),
        pool.finite(),
        m.roots.subset_of(pool),
        forall|i: int|
            0 <= i < m.edges.len() ==> pool.contains((#[trigger] m.edges[i]).reference.id),
    ensures
        m.issued.len() <= pool.len(),
{
    lemma_no_node_visited_twice(m);
    assert forall|n: NodeIdView| m.visited.to_set().contains(n) implies pool.contains(n) by {
        let i = choose|i: int| 0 <= i < m.visited.len() && m.visited[i] == n;
        assert(m.roots.contains(n) || edge_nodes(m.edges).contains(n));
        if edge_nodes(m.edges).contains(n) {
            let j = choose|j: int| 0 <= j < m.edges.len() && m.edges[j].reference.id == n;
            assert(pool.contains(m.edges[j].reference.id));
        }
    }
    m.visited.unique_seq_to_set();
    lemma_len_subset(m.visited.to_set(), pool);
}

/// What `next_request_spec` preserves and what each outcome implies.
proof fn lemma_next_request_spec_props(m: TraversalModel)
    requires
        m.inv(),
        m.pending is None,
    ensures
        ({
            let (m2, r) = next_request_spec(m);
            &&& m2.inv()
            &&& m2.edges == m.edges
            &&& m2.skipped == m.skipped
            &&& m2.aborted == m.aborted
            &&& m2.budget == m.budget
            &&& m2.roots == m.roots
            &&& match r {
                Some(n) => !m.visited.contains(n) && m2.visited == m.visited.push(n)
                    && (m2.pending matches Some(e) && e.node == n && e.depth < m.budget.max_depth)
                    && m2.issued == m.issued.push(m2.pending->Some_0),
                None => m2.pending is None && m2.visited == m.visited && m2.issued == m.issued,
            }
        }),
    decreases m.frontier.len(),
{
    if m.aborted || m.pending is Some {
    } else if m.frontier.len() == 0 {
    } else if m.visited.len() >= m.budget.max_nodes {
    } else {
        let e = m.frontier[0];
        let rest = m.frontier.drop_first();
        let popped = TraversalModel { frontier: rest, ..m };
        assert(m.entry_ok(e));
        if m.visited.contains(e.node) || e.depth >= m.budget.max_depth {
            assert forall|i: int| 0 <= i < popped.frontier.len() implies popped.entry_ok(
                #[trigger] popped.frontier[i],
            ) by {
                assert(popped.frontier[i] == m.frontier[i + 1]);
                assert(m.entry_ok(m.frontier[i + 1]));
            }
            assert(popped.inv());
            lemma_next_request_spec_props(popped);
        } else {
            let m2 = next_request_spec(m).0;
            assert forall|i: int| 0 <= i < m2.frontier.len() implies m2.entry_ok(
                #[trigger] m2.frontier[i],
            ) by {
                assert(m2.frontier[i] == m.frontier[i + 1]);
                assert(m.entry_ok(m.frontier[i + 1]));
            }
            assert forall|i: int, j: int|
                0 <= i < j < m2.visited.len() implies m2.visited[i] != m2.visited[j] by {
                if j < m.visited.len() {
                } else {
                    assert(m2.visited[j] == e.node);
                    assert(!m.visited.contains(e.node));
                }
            }
            assert(m2.visited.contains(e.node)) by {
                assert(m2.visited[m.visited.len() as int] == e.node);
            }
            assert(m2.inv());
        }
    }
}

} // verus!
