use pipeline_preview::model::{Edge, Node, NodeType, PreviewRequest};
use pipeline_preview::planner::topological_sort;

fn node(id: &str) -> Node {
    Node { id: id.to_string(), kind: NodeType::Transformation, config: None }
}

fn edge(source: &str, target: &str) -> Edge {
    Edge { id: format!("{source}->{target}"), source: source.to_string(), target: target.to_string() }
}

fn graph(nodes: &[&str], edges: &[(&str, &str)]) -> PreviewRequest {
    PreviewRequest {
        nodes: nodes.iter().map(|id| node(id)).collect(),
        edges: edges.iter().map(|(s, t)| edge(s, t)).collect(),
    }
}

fn order(nodes: &[&str], edges: &[(&str, &str)]) -> Vec<String> {
    topological_sort(&graph(nodes, edges))
}

#[test]
fn empty_request_has_empty_order() {
    assert_eq!(order(&[], &[]), Vec::<String>::new());
}

#[test]
fn edges_without_nodes_give_empty_order() {
    assert_eq!(order(&[], &[("a", "b")]), Vec::<String>::new());
}

#[test]
fn single_node_is_emitted() {
    assert_eq!(order(&["only"], &[]), vec!["only"]);
}

#[test]
fn chain_is_emitted_in_dependency_order() {
    assert_eq!(order(&["c", "b", "a"], &[("a", "b"), ("b", "c")]), vec!["a", "b", "c"]);
}

#[test]
fn independent_nodes_keep_request_order() {
    assert_eq!(order(&["z", "m", "a"], &[]), vec!["z", "m", "a"]);
}

#[test]
fn diamond_releases_targets_in_edge_order() {
    let got = order(&["a", "b", "c", "d"], &[("a", "c"), ("a", "b"), ("b", "d"), ("c", "d")]);
    assert_eq!(got, vec!["a", "c", "b", "d"]);
}

#[test]
fn ready_nodes_come_first_in_first_out() {
    // `x` is ready from the start, so it is emitted before `b`, which only
    // becomes ready once `a` is emitted.
    let got = order(&["a", "b", "x"], &[("a", "b")]);
    assert_eq!(got, vec!["a", "x", "b"]);
}

#[test]
fn cascade_follows_discovery_order() {
    let got = order(
        &["s1", "s2", "t1", "t2", "u"],
        &[("s2", "t2"), ("s1", "t1"), ("t1", "u"), ("t2", "u")],
    );
    assert_eq!(got, vec!["s1", "s2", "t1", "t2", "u"]);
}

#[test]
fn acyclic_order_holds_every_node_once_and_respects_edges() {
    let nodes = ["n5", "n4", "n3", "n2", "n1", "n0"];
    let edges = [("n0", "n1"), ("n0", "n2"), ("n1", "n3"), ("n2", "n3"), ("n3", "n4"), ("n1", "n5")];
    let got = order(&nodes, &edges);
    assert_eq!(got.len(), nodes.len());
    for id in nodes {
        assert_eq!(got.iter().filter(|g| g.as_str() == id).count(), 1);
    }
    for (source, target) in edges {
        let s = got.iter().position(|g| g == source).unwrap();
        let t = got.iter().position(|g| g == target).unwrap();
        assert!(s < t);
    }
}

#[test]
fn nodes_on_a_cycle_are_left_out() {
    let got = order(&["a", "b", "c"], &[("a", "b"), ("b", "c"), ("c", "b")]);
    assert_eq!(got, vec!["a"]);
}

#[test]
fn whole_cycle_gives_empty_order() {
    assert_eq!(order(&["a", "b"], &[("a", "b"), ("b", "a")]), Vec::<String>::new());
}

#[test]
fn self_loop_is_left_out() {
    assert_eq!(order(&["a", "b"], &[("a", "a")]), vec!["b"]);
}

#[test]
fn nodes_behind_a_cycle_are_left_out() {
    let got = order(&["a", "b", "c", "d"], &[("a", "b"), ("b", "a"), ("b", "c"), ("d", "c")]);
    assert_eq!(got, vec!["d"]);
}

#[test]
fn repeated_edge_counts_twice() {
    assert_eq!(order(&["a", "b"], &[("a", "b"), ("a", "b")]), vec!["a", "b"]);
}

#[test]
fn edge_from_unknown_source_is_ignored() {
    assert_eq!(order(&["a", "b"], &[("ghost", "b"), ("a", "b")]), vec!["a", "b"]);
}

#[test]
fn unknown_target_is_emitted_once_released() {
    assert_eq!(order(&["a"], &[("a", "ghost")]), vec!["a", "ghost"]);
}

#[test]
fn repeated_node_id_is_seeded_twice() {
    assert_eq!(order(&["a", "a", "b"], &[("a", "b")]), vec!["a", "a", "b"]);
}

#[test]
fn released_unknown_id_lowers_counts_below_zero() {
    // `x` is no node, so its edge to `v` was never counted. Releasing it
    // takes `v` from one pending input to none.
    let got = order(&["a", "v"], &[("a", "x"), ("x", "v"), ("v", "v")]);
    assert_eq!(got, vec!["a", "x", "v"]);
}

#[test]
fn adjacency_list_keeps_edge_order() {
    let request = graph(&["a", "b", "c"], &[("a", "c"), ("b", "c"), ("a", "b"), ("a", "c")]);
    let adjacency = request.to_adjacency_list();
    assert_eq!(adjacency.get("a"), Some(&vec!["c".to_string(), "b".to_string(), "c".to_string()]));
    assert_eq!(adjacency.get("b"), Some(&vec!["c".to_string()]));
    assert_eq!(adjacency.get("c"), None);
}

#[test]
fn adjacency_list_does_not_check_ids() {
    let request = graph(&[], &[("ghost", "nowhere")]);
    let adjacency = request.to_adjacency_list();
    assert_eq!(adjacency.get("ghost"), Some(&vec!["nowhere".to_string()]));
    assert_eq!(adjacency.get("nowhere"), None);
}
