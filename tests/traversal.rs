use next_client_reference::module_graph::{EdgeResolutionError, ModuleGraph, ModuleInfo, ModuleKind};
use next_client_reference::node::{
    classify, edges, visit, ClientReference, ClientReferenceType, VisitClientReferenceNode,
    VisitClientReferenceNodeState, VisitClientReferenceNodeType, VisitControlFlow,
};
use next_client_reference::result::{
    client_reference_graph, find_server_entries, ClientReferenceGraphResult,
    VisitedClientReferenceGraphNodes,
};

fn module(kind: ModuleKind, path: u64, references: Vec<usize>) -> ModuleInfo {
    ModuleInfo { kind, path, references }
}

fn other(path: u64, references: Vec<usize>) -> ModuleInfo {
    module(ModuleKind::Other, path, references)
}

fn graph(modules: Vec<ModuleInfo>) -> ModuleGraph {
    ModuleGraph { modules }
}

fn run(g: &ModuleGraph, entries: Vec<usize>, visited: &VisitedClientReferenceGraphNodes) -> ClientReferenceGraphResult {
    client_reference_graph(g, &entries, visited).unwrap()
}

// E(0) -> U(1), S(2); S -> C(3)
fn scenario() -> ModuleGraph {
    graph(vec![
        other(100, vec![1, 2]),
        other(101, vec![]),
        module(ModuleKind::ServerComponent, 102, vec![3]),
        module(ModuleKind::EcmascriptClientReference, 103, vec![]),
    ])
}

#[test]
fn scenario_server_entries() {
    let g = scenario();
    let se = find_server_entries(&g, 0).unwrap();
    assert_eq!(se.server_component_entries, vec![2]);
    assert_eq!(se.server_utils, vec![1]);
}

#[test]
fn scenario_graph_result() {
    let g = scenario();
    let mut all = run(&g, vec![0], &VisitedClientReferenceGraphNodes::empty());
    assert!(all.client_references.is_empty());
    let below = run(&g, vec![2], &all.visited_nodes);
    all.extend(&below);
    assert_eq!(
        all.client_references,
        vec![ClientReference {
            server_component: Some(2),
            ty: ClientReferenceType::EcmascriptClientReference { module: 3, parent_module: 2 },
        }]
    );
    assert_eq!(all.client_references_by_server_component, vec![(Some(2), vec![3])]);
    assert_eq!(all.server_component_entries, vec![2]);
    assert_eq!(all.server_utils, vec![1]);
}

#[test]
fn diamond_is_visited_once() {
    // E -> A, B; A -> D; B -> D; D -> C (css). All share the entry's path.
    let g = graph(vec![
        other(7, vec![1, 2]),
        other(7, vec![3]),
        other(7, vec![3]),
        other(7, vec![4]),
        module(ModuleKind::CssModule, 9, vec![]),
    ]);
    let r = run(&g, vec![0], &VisitedClientReferenceGraphNodes::empty());
    assert_eq!(r.client_references.len(), 1);
    assert_eq!(r.client_references[0].ty(), ClientReferenceType::CssClientReference(4));
    assert_eq!(r.client_references[0].server_component(), None);
    // E, A, B, D and the css reference
    assert_eq!(r.visited_nodes.0.len(), 5);
    // css references are not grouped by owner
    assert!(r.client_references_by_server_component.is_empty());
}

#[test]
fn cycle_terminates() {
    let g = graph(vec![other(1, vec![1]), other(1, vec![0, 2]), module(ModuleKind::ServerComponent, 5, vec![])]);
    let se = find_server_entries(&g, 0).unwrap();
    assert_eq!(se.server_component_entries, vec![2]);
    assert!(se.server_utils.is_empty());
}

#[test]
fn boundary_reference_is_not_expanded() {
    // E -> C (ecmascript client reference) -> X (css)
    let g = graph(vec![
        other(1, vec![1]),
        module(ModuleKind::EcmascriptClientReference, 2, vec![2]),
        module(ModuleKind::CssModule, 3, vec![]),
    ]);
    let r = run(&g, vec![0], &VisitedClientReferenceGraphNodes::empty());
    assert_eq!(r.client_references.len(), 1);
    assert_eq!(
        r.client_references[0].ty,
        ClientReferenceType::EcmascriptClientReference { module: 1, parent_module: 0 }
    );
    assert_eq!(r.client_references_by_server_component, vec![(None, vec![1])]);
}

#[test]
fn utility_detection() {
    // E(path 1) -> A(path 1, an alias of the entry) -> U(path 2) -> V(path 3)
    let g = graph(vec![other(1, vec![1]), other(1, vec![2]), other(2, vec![3]), other(3, vec![])]);
    let se = find_server_entries(&g, 0).unwrap();
    assert_eq!(se.server_utils, vec![2]);
    // traversing below the utility does not classify V as a utility
    let below = classify(&g, VisitClientReferenceNodeState::InServerUtil, 2, 3);
    assert_eq!(below.ty, VisitClientReferenceNodeType::Internal(3));
    assert_eq!(below.state, VisitClientReferenceNodeState::InServerUtil);
}

#[test]
fn classify_rules() {
    let g = scenario();
    let entry = VisitClientReferenceNodeState::Entry { entry_path: 100 };
    let u = classify(&g, entry, 0, 1);
    assert_eq!(u.state, VisitClientReferenceNodeState::InServerUtil);
    assert_eq!(u.ty, VisitClientReferenceNodeType::ServerUtilEntry(1));
    let s = classify(&g, entry, 0, 2);
    assert_eq!(s.state, VisitClientReferenceNodeState::InServerComponent { server_component: 2 });
    assert_eq!(s.ty, VisitClientReferenceNodeType::ServerComponentEntry(2));
    let c = classify(&g, VisitClientReferenceNodeState::InServerComponent { server_component: 2 }, 2, 3);
    assert_eq!(
        c.ty,
        VisitClientReferenceNodeType::ClientReference(ClientReference {
            server_component: Some(2),
            ty: ClientReferenceType::EcmascriptClientReference { module: 3, parent_module: 2 },
        })
    );
    assert_eq!(visit(&c), VisitControlFlow::Skip);
    assert_eq!(visit(&s), VisitControlFlow::Skip);
    let e = classify(&g, entry, 0, 0);
    assert_eq!(e.ty, VisitClientReferenceNodeType::Internal(0));
    assert_eq!(visit(&e), VisitControlFlow::Continue);
}

#[test]
fn edges_of_node() {
    let g = scenario();
    let root = VisitClientReferenceNode {
        state: VisitClientReferenceNodeState::Entry { entry_path: 100 },
        ty: VisitClientReferenceNodeType::Internal(0),
    };
    let es = edges(&g, &root).unwrap();
    assert_eq!(es.len(), 2);
    assert_eq!(es[0].ty, VisitClientReferenceNodeType::ServerUtilEntry(1));
    assert_eq!(es[1].ty, VisitClientReferenceNodeType::ServerComponentEntry(2));
}

#[test]
fn scope_attribution() {
    let g = scenario();
    let from_entry = run(&g, vec![0], &VisitedClientReferenceGraphNodes::empty());
    assert!(from_entry.client_references.is_empty());
    let from_scope = run(&g, vec![2], &VisitedClientReferenceGraphNodes::empty());
    assert_eq!(from_scope.client_references.len(), 1);
    assert_eq!(from_scope.client_references[0].server_component, Some(2));
    assert_eq!(from_scope.client_references_by_server_component, vec![(Some(2), vec![3])]);
}

#[test]
fn entries_in_depth_first_order() {
    // E -> A, S1; A -> S2: S2 comes out first.
    let g = graph(vec![
        other(1, vec![1, 2]),
        other(1, vec![3]),
        module(ModuleKind::ServerComponent, 2, vec![]),
        module(ModuleKind::ServerComponent, 3, vec![]),
    ]);
    let se = find_server_entries(&g, 0).unwrap();
    assert_eq!(se.server_component_entries, vec![3, 2]);
}

#[test]
fn merge_with_empty_keeps_counts() {
    let g = scenario();
    let mut r = run(&g, vec![2], &VisitedClientReferenceGraphNodes::empty());
    let n = r.client_references.len();
    r.extend(&ClientReferenceGraphResult::default());
    assert_eq!(r.client_references.len(), n);
    assert_eq!(r.client_references_by_server_component, vec![(Some(2), vec![3])]);
}

#[test]
fn merge_keeps_duplicates() {
    let g = scenario();
    let mut a = run(&g, vec![2], &VisitedClientReferenceGraphNodes::empty());
    let b = run(&g, vec![2], &VisitedClientReferenceGraphNodes::empty());
    a.extend(&b);
    assert_eq!(a.client_references.len(), 2);
    assert_eq!(a.client_references_by_server_component, vec![(Some(2), vec![3, 3])]);
}

#[test]
fn merge_replaces_visited_nodes() {
    let g = scenario();
    let mut a = run(&g, vec![0], &VisitedClientReferenceGraphNodes::empty());
    let b = run(&g, vec![2], &VisitedClientReferenceGraphNodes::empty());
    assert_ne!(a.visited_nodes.0, b.visited_nodes.0);
    a.extend(&b);
    assert_eq!(a.visited_nodes.0, b.visited_nodes.0);
}

#[test]
fn prior_visited_nodes_are_not_expanded() {
    let g = scenario();
    let first = run(&g, vec![2], &VisitedClientReferenceGraphNodes::empty());
    let again = run(&g, vec![2], &first.visited_nodes);
    assert!(again.client_references.is_empty());
    assert_eq!(again.visited_nodes.0, first.visited_nodes.0);
}

#[test]
fn types_are_distinct() {
    let g = scenario();
    let mut a = run(&g, vec![2], &VisitedClientReferenceGraphNodes::empty());
    let b = run(&g, vec![2], &VisitedClientReferenceGraphNodes::empty());
    a.extend(&b);
    let t = a.types();
    assert_eq!(t.0, vec![ClientReferenceType::EcmascriptClientReference { module: 3, parent_module: 2 }]);
}

#[test]
fn dangling_reference_is_an_error() {
    let g = graph(vec![other(1, vec![1]), other(1, vec![9])]);
    assert_eq!(find_server_entries(&g, 0).unwrap_err(), EdgeResolutionError { module: 9 });
    let r = client_reference_graph(&g, &vec![0], &VisitedClientReferenceGraphNodes::empty());
    assert_eq!(r.unwrap_err(), EdgeResolutionError { module: 9 });
}

#[test]
fn unknown_entry_is_an_error() {
    let g = scenario();
    assert_eq!(find_server_entries(&g, 4).unwrap_err(), EdgeResolutionError { module: 4 });
}

#[test]
fn dangling_reference_below_a_leaf_is_not_followed() {
    // the utility references an unknown module, but utilities are not expanded
    let g = graph(vec![other(1, vec![1]), other(2, vec![9])]);
    let se = find_server_entries(&g, 0).unwrap();
    assert_eq!(se.server_utils, vec![1]);
}
