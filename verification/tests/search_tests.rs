use opcua_walker::ids::{ChildReference, Identifier, NodeClass, NodeId};
use opcua_walker::matching::ClassFilter;
use opcua_walker::resolve::{resolve_from_matches, ResolveError};
use opcua_walker::search::{
    next_pass, pass_budget, search_anchors, NameSearch, SearchPass, SearchResult,
};
use opcua_walker::walk::BrowseOutcome;

fn nid(v: u32) -> NodeId {
    NodeId { namespace: 2, identifier: Identifier::Numeric(v) }
}

fn objects_root() -> NodeId {
    NodeId { namespace: 0, identifier: Identifier::Numeric(85) }
}

fn named(id: NodeId, name: &str, class: NodeClass) -> ChildReference {
    ChildReference {
        id,
        display_name: name.to_string(),
        browse_name: name.to_string(),
        node_class: class,
        type_definition: None,
    }
}

struct FakeSpace {
    entries: Vec<(NodeId, Vec<ChildReference>)>,
}

impl FakeSpace {
    fn browse(&self, node: &NodeId) -> BrowseOutcome {
        for (id, children) in &self.entries {
            if id == node {
                let copy: Vec<ChildReference> = children.iter().map(|c| c.clone()).collect();
                return BrowseOutcome::Children(copy);
            }
        }
        BrowseOutcome::Children(Vec::new())
    }
}

fn run_pass(
    space: &FakeSpace,
    term: &str,
    pass: SearchPass,
    filter: ClassFilter,
) -> (Vec<SearchResult>, bool, usize) {
    let mut search = NameSearch::new(search_anchors(), term, pass_budget(pass), filter);
    while let Some(node) = search.next_request() {
        search.deliver(space.browse(&node));
    }
    let exact = search.found_exact();
    let processed = search.nodes_processed();
    (search.into_matches(), exact, processed)
}

/// The whole progressive search: escalate until a pass yields matches.
fn run_search(space: &FakeSpace, term: &str, filter: ClassFilter) -> (Vec<SearchResult>, bool) {
    let mut pass = SearchPass::Quick;
    loop {
        let (matches, exact, _) = run_pass(space, term, pass, filter);
        if !matches.is_empty() {
            return (matches, exact);
        }
        match next_pass(pass) {
            Some(p) => pass = p,
            None => return (Vec::new(), false),
        }
    }
}

fn root_children_space() -> FakeSpace {
    FakeSpace {
        entries: vec![(
            objects_root(),
            vec![
                named(nid(10), "Temperature", NodeClass::Variable),
                named(nid(11), "Reboot", NodeClass::Method),
                named(nid(12), "Sensors", NodeClass::Object),
            ],
        )],
    }
}

#[test]
fn search_finds_method_under_the_root_in_the_quick_pass() {
    let space = root_children_space();
    let (matches, exact, _) = run_pass(&space, "reboot", SearchPass::Quick, ClassFilter::Any);
    assert_eq!(matches.len(), 1);
    assert_eq!(matches[0].display_name, "Reboot");
    assert_eq!(matches[0].node_class, NodeClass::Method);
    assert_eq!(matches[0].node_id, nid(11));
    assert_eq!(matches[0].parent_node_id, Some(objects_root()));
    assert!(exact);
}

#[test]
fn exact_match_ends_the_pass_without_further_browses() {
    // an exact match sits directly under the first anchor; partial
    // matches exist deeper, but once the exact match is seen no further
    // browse is issued.
    let space = FakeSpace {
        entries: vec![
            (
                objects_root(),
                vec![
                    named(nid(20), "Start", NodeClass::Method),
                    named(nid(21), "Deeper", NodeClass::Object),
                ],
            ),
            (nid(21), vec![named(nid(22), "StartSequence", NodeClass::Method)]),
        ],
    };
    let (matches, exact, processed) =
        run_pass(&space, "start", SearchPass::Quick, ClassFilter::Any);
    assert!(exact);
    assert_eq!(processed, 1);
    assert_eq!(matches.len(), 1);
    assert_eq!(matches[0].display_name, "Start");
}

#[test]
fn partial_matches_before_the_exact_one_are_retained() {
    let space = FakeSpace {
        entries: vec![(
            objects_root(),
            vec![
                named(nid(30), "StartSequence", NodeClass::Method),
                named(nid(31), "Start", NodeClass::Method),
                named(nid(32), "StartUp", NodeClass::Method),
            ],
        )],
    };
    let (matches, exact, _) = run_pass(&space, "start", SearchPass::Quick, ClassFilter::Any);
    assert!(exact);
    // the partial match seen before the exact one stays; the one after
    // the exact match is not scanned
    assert_eq!(matches.len(), 2);
    assert_eq!(matches[0].display_name, "StartSequence");
    assert_eq!(matches[1].display_name, "Start");
}

#[test]
fn matching_is_case_insensitive_and_by_substring() {
    let space = root_children_space();
    let (matches, exact, _) = run_pass(&space, "TEMPERA", SearchPass::Quick, ClassFilter::Any);
    assert_eq!(matches.len(), 1);
    assert_eq!(matches[0].display_name, "Temperature");
    assert!(!exact);
}

#[test]
fn class_filter_restricts_matches() {
    let space = FakeSpace {
        entries: vec![(
            objects_root(),
            vec![
                named(nid(40), "Pump", NodeClass::Variable),
                named(nid(41), "Pump", NodeClass::Method),
            ],
        )],
    };
    let (matches, _, _) = run_pass(&space, "pump", SearchPass::Quick, ClassFilter::MethodsOnly);
    assert_eq!(matches.len(), 1);
    assert_eq!(matches[0].node_class, NodeClass::Method);
    let (matches, _, _) = run_pass(&space, "pump", SearchPass::Quick, ClassFilter::VariablesOnly);
    assert_eq!(matches.len(), 1);
    assert_eq!(matches[0].node_class, NodeClass::Variable);
}

#[test]
fn search_against_a_static_namespace_is_idempotent() {
    let space = root_children_space();
    let (first, _, _) = run_pass(&space, "se", SearchPass::Quick, ClassFilter::Any);
    let (second, _, _) = run_pass(&space, "se", SearchPass::Quick, ClassFilter::Any);
    assert_eq!(first.len(), second.len());
    for (a, b) in first.iter().zip(second.iter()) {
        assert_eq!(a.node_id, b.node_id);
        assert_eq!(a.display_name, b.display_name);
        assert_eq!(a.node_class, b.node_class);
        assert_eq!(a.parent_node_id, b.parent_node_id);
    }
}

#[test]
fn empty_search_result_is_not_an_error() {
    let space = root_children_space();
    let (matches, exact) = run_search(&space, "nosuchthing", ClassFilter::Any);
    assert!(matches.is_empty());
    assert!(!exact);
}

/// A chain hanging off the Objects folder, deep enough that only the
/// deep pass reaches its end.
fn deep_method_space() -> FakeSpace {
    let mut entries = vec![(objects_root(), vec![named(nid(100), "Area", NodeClass::Object)])];
    for step in 0..5u32 {
        entries.push((
            nid(100 + step),
            vec![named(nid(101 + step), "Area", NodeClass::Object)],
        ));
    }
    // the method lies at depth 7: beyond what the broad pass browses
    entries.push((
        nid(105),
        vec![named(nid(200), "StartSequence", NodeClass::Method)],
    ));
    entries
        .push((nid(200), Vec::new()));
    FakeSpace { entries }
}

#[test]
fn deep_pass_finds_what_quick_and_broad_cannot() {
    let space = deep_method_space();
    let (q, _, _) = run_pass(&space, "Start", SearchPass::Quick, ClassFilter::MethodsOnly);
    assert!(q.is_empty());
    let (b, _, _) = run_pass(&space, "Start", SearchPass::Broad, ClassFilter::MethodsOnly);
    assert!(b.is_empty());
    let (d, _, _) = run_pass(&space, "Start", SearchPass::Deep, ClassFilter::MethodsOnly);
    assert_eq!(d.len(), 1);
    assert_eq!(d[0].display_name, "StartSequence");
}

#[test]
fn resolve_method_succeeds_only_through_the_deep_pass() {
    let space = deep_method_space();
    let (matches, exact) = run_search(&space, "Start", ClassFilter::MethodsOnly);
    assert_eq!(matches.len(), 1);
    let (method, object) = resolve_from_matches(&matches, exact).unwrap();
    assert_eq!(method, nid(200));
    assert_eq!(object, nid(105));
}

#[test]
fn resolve_prefers_the_exact_match() {
    let space = FakeSpace {
        entries: vec![(
            objects_root(),
            vec![
                named(nid(50), "StartSequence", NodeClass::Method),
                named(nid(51), "Start", NodeClass::Method),
            ],
        )],
    };
    let (matches, exact) = run_search(&space, "start", ClassFilter::MethodsOnly);
    let (method, object) = resolve_from_matches(&matches, exact).unwrap();
    assert_eq!(method, nid(51));
    assert_eq!(object, objects_root());
}

#[test]
fn resolve_without_matches_reports_method_not_found() {
    let matches: Vec<SearchResult> = Vec::new();
    assert_eq!(resolve_from_matches(&matches, false), Err(ResolveError::MethodNotFound));
}

#[test]
fn escalation_ladder_is_quick_broad_deep() {
    assert_eq!(next_pass(SearchPass::Quick), Some(SearchPass::Broad));
    assert_eq!(next_pass(SearchPass::Broad), Some(SearchPass::Deep));
    assert_eq!(next_pass(SearchPass::Deep), None);
    assert_eq!(pass_budget(SearchPass::Quick).max_depth, 3);
    assert_eq!(pass_budget(SearchPass::Broad).max_depth, 5);
    assert_eq!(pass_budget(SearchPass::Deep).max_nodes, 500);
    assert_eq!(pass_budget(SearchPass::Deep).max_queue, 200);
}

#[test]
fn anchors_are_objects_server_and_types() {
    let anchors = search_anchors();
    assert_eq!(anchors.len(), 3);
    assert_eq!(anchors[0], NodeId { namespace: 0, identifier: Identifier::Numeric(85) });
    assert_eq!(anchors[1], NodeId { namespace: 0, identifier: Identifier::Numeric(2253) });
    assert_eq!(anchors[2], NodeId { namespace: 0, identifier: Identifier::Numeric(86) });
}

#[test]
fn transport_loss_aborts_a_search_pass() {
    let mut search = NameSearch::new(
        search_anchors(),
        "anything",
        pass_budget(SearchPass::Quick),
        ClassFilter::Any,
    );
    let first = search.next_request();
    assert!(first.is_some());
    search.deliver(BrowseOutcome::TransportLost);
    assert!(search.was_aborted());
    assert_eq!(search.next_request(), None);
}

#[test]
fn a_failed_browse_is_skipped_and_the_search_goes_on() {
    // the first anchor cannot be browsed; the match hangs off the second
    let space = FakeSpace {
        entries: vec![(
            NodeId { namespace: 0, identifier: Identifier::Numeric(2253) },
            vec![named(nid(60), "Valve", NodeClass::Variable)],
        )],
    };
    let mut search = NameSearch::new(
        search_anchors(),
        "valve",
        pass_budget(SearchPass::Quick),
        ClassFilter::Any,
    );
    while let Some(node) = search.next_request() {
        if node == objects_root() {
            search.deliver(BrowseOutcome::Failed(0x8005_0000));
        } else {
            search.deliver(space.browse(&node));
        }
    }
    assert!(!search.was_aborted());
    assert_eq!(search.skipped_count(), 1);
    assert_eq!(search.match_count(), 1);
    let matches = search.into_matches();
    assert_eq!(matches[0].display_name, "Valve");
}
