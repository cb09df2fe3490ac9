use opcua_walker::ids::{ChildReference, Identifier, NodeClass, NodeId};
use opcua_walker::tree::ResultTree;
use opcua_walker::walk::{BrowseOutcome, Budget, Traversal};

fn nid(v: u32) -> NodeId {
    NodeId { namespace: 1, identifier: Identifier::Numeric(v) }
}

fn named(v: u32, name: &str, class: NodeClass) -> ChildReference {
    ChildReference {
        id: nid(v),
        display_name: name.to_string(),
        browse_name: name.to_string(),
        node_class: class,
        type_definition: None,
    }
}

/// A static namespace: each entry maps a node to the references its
/// browse returns.  Unlisted nodes browse with a bad status.
struct FakeSpace {
    entries: Vec<(NodeId, Vec<ChildReference>)>,
}

impl FakeSpace {
    fn browse(&self, node: &NodeId) -> BrowseOutcome {
        for (id, children) in &self.entries {
            if id == node {
                let copy: Vec<ChildReference> = children.iter().map(|c| c.clone()).collect();
                return BrowseOutcome::Children(copy);
            }
        }
        BrowseOutcome::Failed(0x8000_0000)
    }
}

fn run_walk(space: &FakeSpace, roots: Vec<NodeId>, budget: Budget) -> Traversal {
    let mut walk = Traversal::begin(roots, budget);
    while let Some(node) = walk.next_request() {
        walk.deliver(space.browse(&node));
    }
    walk
}

#[test]
fn two_node_cycle_reports_each_edge_once() {
    let a = nid(1);
    let b = nid(2);
    let space = FakeSpace {
        entries: vec![
            (a.clone(), vec![named(2, "B", NodeClass::Object)]),
            (b.clone(), vec![named(1, "A", NodeClass::Object)]),
        ],
    };
    let walk = run_walk(&space, vec![a.clone()], Budget::depth_limited(5));
    let refs = walk.flat_references();
    assert_eq!(refs.len(), 2);
    assert_eq!(refs[0].id, b);
    assert_eq!(refs[0].display_name, "B");
    assert_eq!(refs[1].id, a);
    assert_eq!(refs[1].display_name, "A");
    assert_eq!(walk.nodes_processed(), 2);
}

#[test]
fn self_loop_terminates() {
    let a = nid(1);
    let space = FakeSpace {
        entries: vec![(a.clone(), vec![named(1, "A", NodeClass::Object)])],
    };
    let walk = run_walk(&space, vec![a.clone()], Budget::depth_limited(10));
    assert_eq!(walk.nodes_processed(), 1);
    assert_eq!(walk.flat_references().len(), 1);
}

#[test]
fn depth_budget_stops_browsing_at_the_bound() {
    // a chain 1 -> 2 -> 3 -> 4; depth budget 2 browses depths 0 and 1,
    // so node 3 is reported as a leaf and never browsed, node 4 unseen.
    let space = FakeSpace {
        entries: vec![
            (nid(1), vec![named(2, "n2", NodeClass::Object)]),
            (nid(2), vec![named(3, "n3", NodeClass::Object)]),
            (nid(3), vec![named(4, "n4", NodeClass::Object)]),
        ],
    };
    let walk = run_walk(&space, vec![nid(1)], Budget::depth_limited(2));
    assert_eq!(walk.nodes_processed(), 2);
    let refs = walk.flat_references();
    assert_eq!(refs.len(), 2);
    assert_eq!(refs[0].id, nid(2));
    assert_eq!(refs[1].id, nid(3));
}

#[test]
fn zero_depth_budget_browses_nothing() {
    let space = FakeSpace {
        entries: vec![(nid(1), vec![named(2, "n2", NodeClass::Object)])],
    };
    let walk = run_walk(&space, vec![nid(1)], Budget::depth_limited(0));
    assert_eq!(walk.nodes_processed(), 0);
    assert_eq!(walk.flat_references().len(), 0);
}

#[test]
fn node_budget_caps_browse_requests() {
    // a star: the root has 10 children, each childless.
    let children: Vec<ChildReference> =
        (10..20).map(|v| named(v, "leaf", NodeClass::Variable)).collect();
    let space = FakeSpace { entries: vec![(nid(1), children)] };
    let walk = run_walk(
        &space,
        vec![nid(1)],
        Budget { max_depth: u32::MAX, max_nodes: 3, max_queue: usize::MAX },
    );
    assert_eq!(walk.nodes_processed(), 3);
}

#[test]
fn queue_budget_caps_the_frontier() {
    // the root has 5 children; with a frontier budget of 2 only the two
    // first children are ever expanded.
    let children: Vec<ChildReference> =
        (10..15).map(|v| named(v, "leaf", NodeClass::Object)).collect();
    let mut entries = vec![(nid(1), children)];
    for v in 10..15 {
        entries.push((nid(v), vec![named(v + 100, "grandchild", NodeClass::Variable)]));
        entries.push((nid(v + 100), Vec::new()));
    }
    let space = FakeSpace { entries };
    let walk = run_walk(
        &space,
        vec![nid(1)],
        Budget { max_depth: u32::MAX, max_nodes: usize::MAX, max_queue: 2 },
    );
    // the root, the two children that fitted the frontier, and their
    // grandchildren; children three to five are never expanded
    assert_eq!(walk.nodes_processed(), 5);
    assert_eq!(walk.skipped_count(), 0);
}

#[test]
fn per_node_failure_is_counted_and_the_walk_goes_on() {
    // node 2 is not in the table, so browsing it fails; node 3 still gets
    // browsed afterwards.
    let space = FakeSpace {
        entries: vec![
            (
                nid(1),
                vec![named(2, "broken", NodeClass::Object), named(3, "ok", NodeClass::Object)],
            ),
            (nid(3), vec![named(4, "leaf", NodeClass::Variable)]),
            (nid(4), Vec::new()),
        ],
    };
    let walk = run_walk(&space, vec![nid(1)], Budget::depth_limited(5));
    assert_eq!(walk.skipped_count(), 1);
    assert!(!walk.was_aborted());
    assert_eq!(walk.flat_references().len(), 3);
}

#[test]
fn transport_loss_aborts_the_walk() {
    let mut walk = Traversal::begin(vec![nid(1)], Budget::depth_limited(5));
    let first = walk.next_request();
    assert_eq!(first, Some(nid(1)));
    walk.deliver(BrowseOutcome::TransportLost);
    assert!(walk.was_aborted());
    assert_eq!(walk.next_request(), None);
}

#[test]
fn empty_children_are_a_valid_result() {
    let space = FakeSpace { entries: vec![(nid(1), Vec::new())] };
    let walk = run_walk(&space, vec![nid(1)], Budget::depth_limited(5));
    assert_eq!(walk.skipped_count(), 0);
    assert_eq!(walk.flat_references().len(), 0);
}

fn tree_names(forest: &[ResultTree]) -> Vec<(String, Vec<String>)> {
    forest
        .iter()
        .map(|t| {
            (t.reference.display_name.clone(), t.children.iter().map(|c| c.reference.display_name.clone()).collect())
        })
        .collect()
}

#[test]
fn tree_variant_preserves_parent_child_structure() {
    // root -> { X -> { Y }, Z }
    let space = FakeSpace {
        entries: vec![
            (
                nid(1),
                vec![named(2, "X", NodeClass::Object), named(3, "Z", NodeClass::Variable)],
            ),
            (nid(2), vec![named(4, "Y", NodeClass::Variable)]),
        ],
    };
    let walk = run_walk(&space, vec![nid(1)], Budget::depth_limited(5));
    let forest = walk.into_tree();
    let shape = tree_names(&forest);
    assert_eq!(
        shape,
        vec![
            ("X".to_string(), vec!["Y".to_string()]),
            ("Z".to_string(), Vec::new()),
        ]
    );
}

#[test]
fn tree_of_a_cycle_is_finite() {
    let space = FakeSpace {
        entries: vec![
            (nid(1), vec![named(2, "B", NodeClass::Object)]),
            (nid(2), vec![named(1, "A", NodeClass::Object)]),
        ],
    };
    let walk = run_walk(&space, vec![nid(1)], Budget::depth_limited(9));
    let forest = walk.into_tree();
    assert_eq!(forest.len(), 1);
    assert_eq!(forest[0].reference.display_name, "B");
    assert_eq!(forest[0].children.len(), 1);
    assert_eq!(forest[0].children[0].reference.display_name, "A");
    assert_eq!(forest[0].children[0].children.len(), 0);
}
