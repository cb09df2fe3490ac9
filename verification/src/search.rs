//! The progressive name search: a traversal that records every reference
//! whose display or browse name matches a term, case-insensitively, and
//! stops the moment an exact match is seen.
//!
//! The search escalates over three passes — quick (depth 3), broad
//! (depth 5), deep (depth unbounded, node and queue budgets) — from the
//! three standard anchors (Objects, Server, Types).  A pass that finds
//! any match ends the search; the caller runs the passes with `next_pass`
//! until one succeeds or all are spent.

use vstd::prelude::*;
use crate::ids::{ChildReference, ChildReferenceView, NodeClass, NodeId, NodeIdView};
use crate::ids::{objects_folder_id, objects_folder_view, server_object_id, server_object_view,
    types_folder_id, types_folder_view};
use crate::matching::{ClassFilter, chars_vec, class_filter_passes, class_passes, is_exact_match,
    is_partial_match, lower_of, lowercase, match_names};
use crate::walk::{BrowseOutcome, BrowseOutcomeView, Budget, Traversal, TraversalModel};
use crate::walk::{begin_spec, deliver_spec, next_request_spec, node_views, opt_node_view,
    ref_views};

verus! {

/// Work ceilings for one search pass, as the surrounding command surface
/// configures them.
#[derive(Clone, Copy, Debug, PartialEq, Eq, Structural)]
pub struct SearchConfig {
    pub max_nodes: usize,
    pub max_depth: u32,
    pub search_methods_only: bool,
    pub search_variables_only: bool,
}

impl Default for SearchConfig {
    /// The default single-pass budget: up to 1000 nodes, depth 10, all
    /// node classes.
    fn default() -> (r: SearchConfig)
        ensures
            r == (SearchConfig {
                max_nodes: 1000,
                max_depth: 10,
                search_methods_only: false,
                search_variables_only: false,
            }),
    {
        SearchConfig {
            max_nodes: 1000,
            max_depth: 10,
            search_methods_only: false,
            search_variables_only: false,
        }
    }
}

/// The class filter a configuration asks for; methods win when both
/// restriction flags are set.
pub open spec fn config_filter_spec(c: SearchConfig) -> ClassFilter {
    if c.search_methods_only {
        ClassFilter::MethodsOnly
    } else if c.search_variables_only {
        ClassFilter::VariablesOnly
    } else {
        ClassFilter::Any
    }
}

pub fn config_filter(c: &SearchConfig) -> (r: ClassFilter)
    ensures
        r == config_filter_spec(*c),
{
    if c.search_methods_only {
        ClassFilter::MethodsOnly
    } else if c.search_variables_only {
        ClassFilter::VariablesOnly
    } else {
        ClassFilter::Any
    }
}

/// The walk budget a configuration asks for.
pub fn config_budget(c: &SearchConfig) -> (r: Budget)
    ensures
        r == (Budget {
            max_depth: c.max_depth,
            max_nodes: c.max_nodes,
            max_queue: usize::MAX,
        }),
{
    Budget { max_depth: c.max_depth, max_nodes: c.max_nodes, max_queue: usize::MAX }
}

/// One search hit: the matching node, its display name and class, and
/// the node whose browse discovered it.
pub struct SearchResult {
    pub node_id: NodeId,
    pub display_name: String,
    pub node_class: NodeClass,
    pub parent_node_id: Option<NodeId>,
}

pub struct SearchResultView {
    pub node_id: NodeIdView,
    pub display_name: Seq<char>,
    pub node_class: NodeClass,
    pub parent_node_id: Option<NodeIdView>,
}

impl View for SearchResult {
    type V = SearchResultView;

    open spec fn view(&self) -> SearchResultView {
        SearchResultView {
            node_id: self.node_id@,
            display_name: self.display_name@,
            node_class: self.node_class,
            parent_node_id: match &self.parent_node_id {
                Some(p) => Some(p@),
                None => None,
            },
        }
    }
}

pub open spec fn result_views(s: Seq<SearchResult>) -> Seq<SearchResultView> {
    s.map(|_i: int, r: SearchResult| r@)
}

/// Spec-level state of a name search.
pub struct NameSearchModel {
    pub trav: TraversalModel,
    pub term_lower: Seq<char>,
    pub filter: ClassFilter,
    pub matches: Seq<SearchResultView>,
    pub exact_found: bool,
}

impl NameSearchModel {
    pub open spec fn inv(self) -> bool {
        &&& self.trav.inv()
        &&& forall|i: int|
            0 <= i < self.matches.len() ==> (#[trigger] self.matches[i]).parent_node_id is Some
                && class_passes(self.filter, self.matches[i].node_class)
    }
}

/// The starting state of one search pass.
pub open spec fn search_begin_spec(
    roots: Seq<NodeIdView>,
    term_lower: Seq<char>,
    budget: Budget,
    filter: ClassFilter,
) -> NameSearchModel {
    NameSearchModel {
        trav: begin_spec(roots, budget),
        term_lower,
        filter,
        matches: Seq::empty(),
        exact_found: false,
    }
}

/// One delivered reference folded into the match list.  After an exact
/// match nothing further is recorded: the pass is over.
pub open spec fn search_step_one(
    m: NameSearchModel,
    parent: NodeIdView,
    c: ChildReferenceView,
) -> NameSearchModel {
    if m.exact_found {
        m
    } else if class_passes(m.filter, c.node_class) && is_partial_match(c, m.term_lower) {
        NameSearchModel {
            matches: m.matches.push(
                SearchResultView {
                    node_id: c.id,
                    display_name: c.display_name,
                    node_class: c.node_class,
                    parent_node_id: Some(parent),
                },
            ),
            exact_found: is_exact_match(c, m.term_lower),
            ..m
        }
    } else {
        m
    }
}

pub open spec fn search_scan(
    m: NameSearchModel,
    parent: NodeIdView,
    cs: Seq<ChildReferenceView>,
) -> NameSearchModel
    decreases cs.len(),
{
    if cs.len() == 0 {
        m
    } else {
        search_scan(search_step_one(m, parent, cs[0]), parent, cs.drop_first())
    }
}

/// What delivering one browse outcome does to a search: the children are
/// matched against the term, then folded into the walk as usual.
pub open spec fn search_deliver_spec(
    m: NameSearchModel,
    outcome: BrowseOutcomeView,
) -> NameSearchModel {
    let parent = m.trav.pending->Some_0.node;
    let scanned = match outcome {
        BrowseOutcomeView::Children(cs) => search_scan(m, parent, cs),
        _ => m,
    };
    NameSearchModel { trav: deliver_spec(m.trav, outcome), ..scanned }
}

/// What asking for the next browse request does: nothing once an exact
/// match was found, the underlying walk's step otherwise.
pub open spec fn search_next_spec(m: NameSearchModel) -> (NameSearchModel, Option<NodeIdView>) {
    if m.exact_found {
        (m, None)
    } else {
        let (t2, r) = next_request_spec(m.trav);
        (NameSearchModel { trav: t2, ..m }, r)
    }
}

proof fn lemma_search_scan_props(m: NameSearchModel, parent: NodeIdView, cs: Seq<ChildReferenceView>)
    ensures
        ({
            let m2 = search_scan(m, parent, cs);
            &&& m2.trav == m.trav
            &&& m2.term_lower == m.term_lower
            &&& m2.filter == m.filter
            &&& m2.matches.len() >= m.matches.len()
            &&& forall|i: int| 0 <= i < m.matches.len() ==> m2.matches[i] == m.matches[i]
            &&& forall|i: int|
                m.matches.len() <= i < m2.matches.len() ==> (#[trigger] m2.matches[i]).parent_node_id
                    == Some(parent) && class_passes(m.filter, m2.matches[i].node_class)
        }),
    decreases cs.len(),
{
    if cs.len() > 0 {
        lemma_search_scan_props(search_step_one(m, parent, cs[0]), parent, cs.drop_first());
    }
}

/// The search state machine: drive it exactly as a `Traversal`.
pub struct NameSearch {
    trav: Traversal,
    term_lower: Vec<char>,
    filter: ClassFilter,
    matches: Vec<SearchResult>,
    exact_found: bool,
}

impl View for NameSearch {
    type V = NameSearchModel;

    closed spec fn view(&self) -> NameSearchModel {
        NameSearchModel {
            trav: self.trav@,
            term_lower: self.term_lower@,
            filter: self.filter,
            matches: result_views(self.matches@),
            exact_found: self.exact_found,
        }
    }
}

impl NameSearch {
    /// Starts one search pass over the given roots: the term is matched
    /// case-insensitively against display and browse names, restricted by
    /// the class filter.
    pub fn new(roots: Vec<NodeId>, term: &str, budget: Budget, filter: ClassFilter) -> (s:
        NameSearch)
        ensures
            s@ == search_begin_spec(node_views(roots@), lower_of(term@), budget, filter),
            s@.inv(),
    {
        let lowered = lowercase(term);
        let term_lower = chars_vec(lowered.as_str());
        let trav = Traversal::begin(roots, budget);
        let s = NameSearch { trav, term_lower, filter, matches: Vec::new(), exact_found: false };
        proof {
            assert(s@.matches =~= Seq::<SearchResultView>::empty());
        }
        s
    }

    /// Picks the next node to browse, or `None` when the pass is over —
    /// in particular the moment an exact match has been found, whatever
    /// is left on the frontier.
    pub fn next_request(&mut self) -> (r: Option<NodeId>)
        requires
            old(self)@.inv(),
            old(self)@.trav.pending is None,
        ensures
            final(self)@.inv(),
            (final(self)@, opt_node_view(r)) == search_next_spec(old(self)@),
            final(self)@.matches == old(self)@.matches,
            final(self)@.exact_found == old(self)@.exact_found,
            old(self)@.exact_found ==> r is None && final(self)@ == old(self)@,
            r is Some ==> final(self)@.trav.pending is Some,
            r is None ==> final(self)@.trav.pending is None,
    {
        if self.exact_found {
            return None;
        }
        let r = self.trav.next_request();
        r
    }

    /// Hands back the outcome of the one outstanding browse call.  Every
    /// delivered reference that passes the class filter and matches the
    /// term is recorded, until the first exact match ends the scan; the
    /// walk itself is fed as usual.
    pub fn deliver(&mut self, outcome: BrowseOutcome)
        requires
            old(self)@.inv(),
            old(self)@.trav.pending is Some,
        ensures
            final(self)@.inv(),
            final(self)@ == search_deliver_spec(old(self)@, outcome@),
            final(self)@.trav.pending is None,
            final(self)@.matches.len() >= old(self)@.matches.len(),
            forall|i: int|
                0 <= i < old(self)@.matches.len() ==> final(self)@.matches[i] == old(
                    self,
                )@.matches[i],
    {
        let ghost m0 = self@;
        let parent = match self.trav.pending_node() {
            Some(n) => n,
            None => {
                proof {
                    assert(false);
                }
                objects_folder_id()
            },
        };
        let ghost pv = m0.trav.pending->Some_0.node;
        proof {
            assert(parent@ == pv);
        }
        match &outcome {
            BrowseOutcome::Children(cs) => {
                let ghost cs_all = ref_views(cs@);
                let mut i: usize = 0;
                proof {
                    assert(ref_views(cs@).skip(0) =~= ref_views(cs@));
                }
                while i < cs.len()
                    invariant
                        i <= cs@.len(),
                        parent@ == pv,
                        self@.trav == m0.trav,
                        self@.term_lower == m0.term_lower,
                        self@.filter == m0.filter,
                        search_scan(self@, pv, ref_views(cs@).skip(i as int)) == search_scan(
                            m0,
                            pv,
                            ref_views(cs@),
                        ),
                        ref_views(cs@) == cs_all,
                    decreases cs@.len() - i,
                {
                    let ghost pre = self@;
                    let c = &cs[i];
                    proof {
                        assert(ref_views(cs@).skip(i as int)[0] == c@);
                        assert(ref_views(cs@).skip(i as int).drop_first() =~= ref_views(
                            cs@,
                        ).skip(i + 1 as int));
                    }
                    if !self.exact_found {
                        let (partial, exact) = match_names(c, &self.term_lower);
                        let passes = class_filter_passes(self.filter, c.node_class);
                        if passes && partial {
                            let hit = SearchResult {
                                node_id: c.id.clone(),
                                display_name: c.display_name.clone(),
                                node_class: c.node_class,
                                parent_node_id: Some(parent.clone()),
                            };
                            self.matches.push(hit);
                            self.exact_found = exact;
                            proof {
                                assert(result_views(self.matches@) =~= pre.matches.push(
                                    SearchResultView {
                                        node_id: c@.id,
                                        display_name: c@.display_name,
                                        node_class: c@.node_class,
                                        parent_node_id: Some(pv),
                                    },
                                ));
                                assert(self@ == search_step_one(pre, pv, c@));
                            }
                        } else {
                            proof {
                                assert(self@ == search_step_one(pre, pv, c@));
                            }
                        }
                    } else {
                        proof {
                            assert(self@ == search_step_one(pre, pv, c@));
                        }
                    }
                    i += 1;
                }
                proof {
                    assert(ref_views(cs@).skip(cs@.len() as int)
                        =~= Seq::<ChildReferenceView>::empty());
                    assert(search_scan(m0, pv, cs_all) == self@);
                }
            },
            _ => {},
        }
        let ghost scanned = self@;
        self.trav.deliver(outcome);
        proof {
            lemma_search_scan_props(m0, pv, match outcome@ {
                BrowseOutcomeView::Children(cs) => cs,
                _ => Seq::empty(),
            });
            assert(self@ == search_deliver_spec(m0, outcome@));
            assert forall|i: int| 0 <= i < self@.matches.len() implies (
            #[trigger] self@.matches[i]).parent_node_id is Some && class_passes(
                self@.filter,
                self@.matches[i].node_class,
            ) by {
                if i < m0.matches.len() {
                    assert(m0.matches[i].parent_node_id is Some);
                }
            }
        }
    }

    /// The matches found so far, in discovery order; when an exact match
    /// ended the pass it is the last entry.
    pub fn into_matches(self) -> (r: Vec<SearchResult>)
        ensures
            result_views(r@) == self@.matches,
    {
        self.matches
    }

    /// How many matches the pass has recorded.
    pub fn match_count(&self) -> (r: usize)
        ensures
            r == self@.matches.len(),
    {
        self.matches.len()
    }

    /// Whether an exact match ended the pass.
    pub fn found_exact(&self) -> (r: bool)
        ensures
            r == self@.exact_found,
    {
        self.exact_found
    }

    /// How many nodes this pass has browsed.
    pub fn nodes_processed(&self) -> (r: usize)
        ensures
            r == self@.trav.visited.len(),
    {
        self.trav.nodes_processed()
    }

    /// Whether a transport failure aborted the pass.
    pub fn was_aborted(&self) -> (r: bool)
        ensures
            r == self@.trav.aborted,
    {
        self.trav.was_aborted()
    }

    /// How many browsed nodes failed with a bad status and were skipped.
    pub fn skipped_count(&self) -> (r: usize)
        ensures
            r == self@.trav.skipped,
    {
        self.trav.skipped_count()
    }
}

// ---------------------------------------------------------------------
// The three escalating passes
// ---------------------------------------------------------------------

/// The escalation ladder: quick, then broad, then deep.
#[derive(Clone, Copy, Debug, PartialEq, Eq, Structural)]
pub enum SearchPass {
    Quick,
    Broad,
    Deep,
}

pub open spec fn pass_budget_spec(pass: SearchPass) -> Budget {
    match pass {
        SearchPass::Quick => Budget {
            max_depth: 3,
            max_nodes: usize::MAX,
            max_queue: usize::MAX,
        },
        SearchPass::Broad => Budget {
            max_depth: 5,
            max_nodes: usize::MAX,
            max_queue: usize::MAX,
        },
        SearchPass::Deep => Budget { max_depth: u32::MAX, max_nodes: 500, max_queue: 200 },
    }
}

/// The budget of each pass: quick browses to depth 3, broad to depth 5,
/// deep without a depth ceiling but capped at 500 nodes and a frontier
/// of 200.
pub fn pass_budget(pass: SearchPass) -> (r: Budget)
    ensures
        r == pass_budget_spec(pass),
{
    match pass {
        SearchPass::Quick => Budget {
            max_depth: 3,
            max_nodes: usize::MAX,
            max_queue: usize::MAX,
        },
        SearchPass::Broad => Budget {
            max_depth: 5,
            max_nodes: usize::MAX,
            max_queue: usize::MAX,
        },
        SearchPass::Deep => Budget { max_depth: u32::MAX, max_nodes: 500, max_queue: 200 },
    }
}

/// The pass to escalate to when a pass found nothing.
pub fn next_pass(pass: SearchPass) -> (r: Option<SearchPass>)
    ensures
        pass == SearchPass::Quick ==> r == Some(SearchPass::Broad),
        pass == SearchPass::Broad ==> r == Some(SearchPass::Deep),
        pass == SearchPass::Deep ==> r is None,
{
    match pass {
        SearchPass::Quick => Some(SearchPass::Broad),
        SearchPass::Broad => Some(SearchPass::Deep),
        SearchPass::Deep => None,
    }
}

/// The fixed root anchors every pass starts from: the Objects folder,
/// the Server object and the Types folder.
pub fn search_anchors() -> (r: Vec<NodeId>)
    ensures
        node_views(r@) == seq![objects_folder_view(), server_object_view(), types_folder_view()],
{
    let mut v: Vec<NodeId> = Vec::new();
    v.push(objects_folder_id());
    v.push(server_object_id());
    v.push(types_folder_id());
    proof {
        assert(node_views(v@) =~= seq![
            objects_folder_view(),
            server_object_view(),
            types_folder_view(),
        ]);
    }
    v
}

// ---------------------------------------------------------------------
// Laws of the search
// ---------------------------------------------------------------------

/// A whole pass at spec level: one browse outcome is consumed per issued
/// request, until the pass stops asking or the outcomes run out.
pub open spec fn search_run_spec(
    m: NameSearchModel,
    outcomes: Seq<BrowseOutcomeView>,
) -> NameSearchModel
    decreases outcomes.len(),
{
    let (m1, r) = search_next_spec(m);
    if r is None {
        m1
    } else if outcomes.len() == 0 {
        m1
    } else {
        search_run_spec(search_deliver_spec(m1, outcomes[0]), outcomes.drop_first())
    }
}

/// Search is a function of its inputs: two passes with the same roots,
/// term, budget and filter, against a namespace that answers each browse
/// identically, record the same match sequence.  Running the same search
/// twice against a static namespace is idempotent.
pub proof fn lemma_search_idempotent(
    m1: NameSearchModel,
    m2: NameSearchModel,
    outcomes1: Seq<BrowseOutcomeView>,
    outcomes2: Seq<BrowseOutcomeView>,
)
    requires
        m1 == m2,
        outcomes1 == outcomes2,
    ensures
        search_run_spec(m1, outcomes1).matches == search_run_spec(m2, outcomes2).matches,
        search_run_spec(m1, outcomes1) == search_run_spec(m2, outcomes2),
{
}

/// Early termination: once an exact match is found, the pass issues no
/// further browse request and its state no longer changes.
pub proof fn lemma_early_termination(m: NameSearchModel)
    requires
        m.exact_found,
    ensures
        search_next_spec(m).1 is None,
        search_next_spec(m).0 == m,
{
}

} // verus!
