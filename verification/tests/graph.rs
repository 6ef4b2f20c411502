use std::collections::HashSet;

use cyberweaver::graph::component::connected_component;
use cyberweaver::graph::engine::AdjacencyGraph;
use cyberweaver::graph::traversal::{bfs_paths, shortest_path};
use cyberweaver::graph::types::EdgeInfo;

fn edge(rid: &str, src: &str, tgt: &str, rtype: &str) -> EdgeInfo {
    EdgeInfo {
        relation_id: rid.to_string(),
        source_id: src.to_string(),
        target_id: tgt.to_string(),
        relation_type: rtype.to_string(),
        label: String::new(),
    }
}

fn diamond_graph() -> AdjacencyGraph {
    //   A -> B -> D
    //   A -> C -> D
    AdjacencyGraph::from_data(
        vec!["A".into(), "B".into(), "C".into(), "D".into()],
        vec![
            edge("e1", "A", "B", "connects"),
            edge("e2", "A", "C", "connects"),
            edge("e3", "B", "D", "connects"),
            edge("e4", "C", "D", "connects"),
        ],
    )
}

#[test]
fn bfs_paths_one_hop() {
    let g = diamond_graph();
    let result = bfs_paths(&g, "A", 1, None);
    assert_eq!(result.paths.len(), 2);
    for p in &result.paths {
        assert_eq!(p.relation_ids.len(), 1);
    }
}

#[test]
fn bfs_paths_two_hops() {
    let g = diamond_graph();
    let result = bfs_paths(&g, "A", 2, None);
    assert_eq!(result.paths.len(), 4);
}

#[test]
fn bfs_paths_with_type_filter() {
    let mut g = diamond_graph();
    g.add_edge(edge("e5", "A", "D", "uses"));
    let result = bfs_paths(&g, "A", 2, Some("connects"));
    assert_eq!(result.paths.len(), 4);
}

#[test]
fn shortest_path_direct() {
    let mut g = diamond_graph();
    g.add_edge(edge("e5", "A", "D", "direct"));
    let path = shortest_path(&g, "A", "D", 3).unwrap();
    assert_eq!(path.node_ids, vec!["A", "D"]);
    assert_eq!(path.relation_ids.len(), 1);
}

#[test]
fn shortest_path_two_hops() {
    let g = diamond_graph();
    let path = shortest_path(&g, "A", "D", 3).unwrap();
    assert_eq!(path.node_ids.len(), 3);
    assert_eq!(path.relation_ids.len(), 2);
}

#[test]
fn shortest_path_none() {
    let g = diamond_graph();
    let path = shortest_path(&g, "A", "D", 0);
    assert!(path.is_none());
}

#[test]
fn shortest_path_reverse_edge() {
    let g = AdjacencyGraph::from_data(
        vec!["A".into(), "B".into(), "C".into()],
        vec![edge("e1", "A", "B", "connects"), edge("e2", "B", "C", "connects")],
    );
    let path = shortest_path(&g, "C", "A", 3).unwrap();
    assert_eq!(path.node_ids.len(), 3);
    assert!(path.relation_ids.iter().any(|r| r.starts_with("rev:")));
}

#[test]
fn connected_component_diamond() {
    let g = diamond_graph();
    let comp: HashSet<String> = connected_component(&g, "A").into_iter().collect();
    let expected: HashSet<String> = ["A", "B", "C", "D"].iter().map(|s| s.to_string()).collect();
    assert_eq!(comp, expected);
}

#[test]
fn connected_component_isolated() {
    let g = AdjacencyGraph::from_data(
        vec!["X".into(), "Y".into()],
        vec![edge("e1", "X", "Y", "connects")],
    );
    let comp = connected_component(&g, "Z");
    assert_eq!(comp.len(), 1);
    assert!(comp.contains(&"Z".to_string()));
}

// ----------------------------------------------------------------------
// Further cases
// ----------------------------------------------------------------------

#[test]
fn bfs_paths_report_hops_and_shortest_first() {
    let g = diamond_graph();
    let result = bfs_paths(&g, "A", 5, None);
    assert_eq!(result.total_hops, vec![1, 1, 2, 2]);
    assert_eq!(result.paths[0].node_ids, vec!["A", "B"]);
    assert_eq!(result.paths[1].node_ids, vec!["A", "C"]);
    assert_eq!(result.paths[2].node_ids, vec!["A", "B", "D"]);
    assert_eq!(result.paths[3].node_ids, vec!["A", "C", "D"]);
    assert_eq!(result.paths[2].relation_ids, vec!["e1", "e3"]);
    assert_eq!(result.paths[2].relation_types, vec!["connects", "connects"]);
}

#[test]
fn bfs_paths_zero_hops_finds_nothing() {
    let g = diamond_graph();
    let result = bfs_paths(&g, "A", 0, None);
    assert!(result.paths.is_empty());
    assert!(result.total_hops.is_empty());
}

#[test]
fn bfs_paths_walks_are_simple() {
    // A cycle A -> B -> A: a walk never comes back to a node it visited.
    let g = AdjacencyGraph::from_data(
        vec!["A".into(), "B".into()],
        vec![edge("e1", "A", "B", "x"), edge("e2", "B", "A", "x")],
    );
    let result = bfs_paths(&g, "A", 4, None);
    assert_eq!(result.paths.len(), 1);
    assert_eq!(result.paths[0].node_ids, vec!["A", "B"]);
}

#[test]
fn shortest_path_to_itself_is_the_start() {
    let g = diamond_graph();
    let path = shortest_path(&g, "A", "A", 0).unwrap();
    assert_eq!(path.node_ids, vec!["A"]);
    assert!(path.relation_ids.is_empty());
}

#[test]
fn shortest_path_reverse_labels() {
    let g = AdjacencyGraph::from_data(
        vec!["A".into(), "B".into()],
        vec![edge("e1", "A", "B", "connects")],
    );
    let path = shortest_path(&g, "B", "A", 1).unwrap();
    assert_eq!(path.node_ids, vec!["B", "A"]);
    assert_eq!(path.relation_ids, vec!["rev:e1"]);
    assert_eq!(path.relation_types, vec!["rev:connects"]);
}

#[test]
fn shortest_path_respects_hop_limit() {
    let g = diamond_graph();
    assert!(shortest_path(&g, "A", "D", 1).is_none());
    assert!(shortest_path(&g, "A", "D", 2).is_some());
}

#[test]
fn connected_component_follows_edges_backwards() {
    let g = diamond_graph();
    let comp: HashSet<String> = connected_component(&g, "D").into_iter().collect();
    assert_eq!(comp.len(), 4);
    let listed = connected_component(&g, "D");
    let unique: HashSet<&String> = listed.iter().collect();
    assert_eq!(unique.len(), listed.len());
}

#[test]
fn graph_counts_nodes_and_edges() {
    let mut g = diamond_graph();
    assert_eq!(g.node_count(), 4);
    assert_eq!(g.edge_count(), 4);
    g.add_edge(edge("e5", "A", "D", "uses"));
    assert_eq!(g.edge_count(), 5);
    g.add_edge(edge("e6", "Q", "R", "uses"));
    assert_eq!(g.edge_count(), 6);
    assert_eq!(g.node_count(), 4);
}

#[test]
fn add_node_is_idempotent() {
    let mut g = AdjacencyGraph::new();
    g.add_node("A".to_string());
    g.add_node("A".to_string());
    assert_eq!(g.node_count(), 1);
    assert_eq!(g.edge_count(), 0);
}

#[test]
fn remove_node_detaches_every_edge() {
    let mut g = diamond_graph();
    g.remove_node("B");
    assert_eq!(g.node_count(), 3);
    assert_eq!(g.edge_count(), 2);
    assert!(g.successors("A", None).iter().all(|e| e.target_id != "B"));
    assert!(g.predecessors("D", None).iter().all(|e| e.source_id != "B"));
    assert!(g.successors("B", None).is_empty());
    assert!(g.predecessors("B", None).is_empty());
}

#[test]
fn remove_node_keeps_every_other_edge_in_order() {
    let mut g = diamond_graph();
    g.add_edge(edge("e5", "A", "D", "uses"));
    g.add_edge(edge("e6", "C", "B", "uses"));
    g.remove_node("B");
    let from_a: Vec<String> = g.successors("A", None).iter().map(|e| e.relation_id.clone()).collect();
    assert_eq!(from_a, vec!["e2", "e5"]);
    let into_d: Vec<String> = g.predecessors("D", None).iter().map(|e| e.relation_id.clone()).collect();
    assert_eq!(into_d, vec!["e4", "e5"]);
    assert!(g.successors("C", None).iter().all(|e| e.target_id != "B"));
    assert!(g.neighbors("B").is_empty());
    assert_eq!(g.edge_count(), 3);
}

#[test]
fn bfs_paths_come_shortest_first() {
    let mut g = diamond_graph();
    g.add_edge(edge("e5", "A", "D", "uses"));
    g.add_edge(edge("e6", "D", "E", "uses"));
    let res = bfs_paths(&g, "A", 4, None);
    assert!(!res.total_hops.is_empty());
    for w in res.total_hops.windows(2) {
        assert!(w[0] <= w[1]);
    }
    for (p, hops) in res.paths.iter().zip(res.total_hops.iter()) {
        assert_eq!(p.relation_ids.len(), *hops);
    }
    assert_eq!(res.total_hops[0], 1);
}

#[test]
fn bfs_paths_keeps_every_simple_path() {
    let g = AdjacencyGraph::from_data(
        vec!["A".into(), "B".into(), "C".into()],
        vec![edge("e1", "A", "B", "t"), edge("e2", "B", "C", "t"), edge("e3", "A", "C", "t")],
    );
    let res = bfs_paths(&g, "A", 2, None);
    assert_eq!(res.paths.len(), 3);
    assert_eq!(res.total_hops, vec![1, 1, 2]);
    assert_eq!(res.paths[2].node_ids, vec!["A", "B", "C"]);
    // A path into a node already reached at a smaller depth is kept but not extended.
    let g2 = AdjacencyGraph::from_data(
        vec!["A".into(), "B".into(), "C".into(), "D".into()],
        vec![
            edge("e1", "A", "B", "t"),
            edge("e2", "B", "C", "t"),
            edge("e3", "A", "C", "t"),
            edge("e4", "C", "D", "t"),
        ],
    );
    let res2 = bfs_paths(&g2, "A", 3, None);
    let shapes: Vec<Vec<String>> = res2.paths.iter().map(|p| p.node_ids.clone()).collect();
    assert_eq!(
        shapes,
        vec![
            vec!["A".to_string(), "B".to_string()],
            vec!["A".to_string(), "C".to_string()],
            vec!["A".to_string(), "B".to_string(), "C".to_string()],
            vec!["A".to_string(), "C".to_string(), "D".to_string()],
        ]
    );
}

#[test]
fn repeated_node_ids_name_one_node() {
    let g = AdjacencyGraph::from_data(vec!["A".into(), "A".into(), "B".into(), "A".into()], vec![]);
    assert_eq!(g.node_count(), 2);
    assert_eq!(*g.node_ids(), vec!["A".to_string(), "B".to_string()]);
}

#[test]
fn add_then_remove_edge_restores_the_graph() {
    let mut g = diamond_graph();
    let ids = |v: Vec<&EdgeInfo>| -> Vec<String> { v.iter().map(|e| e.relation_id.clone()).collect() };
    let before_out = ids(g.successors("A", None));
    let before_in = ids(g.predecessors("C", None));
    let before_count = g.edge_count();
    g.add_edge(edge("e9", "A", "C", "uses"));
    assert_eq!(g.edge_count(), before_count + 1);
    g.remove_edge("e9", "A", "C");
    assert_eq!(g.edge_count(), before_count);
    assert_eq!(ids(g.successors("A", None)), before_out);
    assert_eq!(ids(g.predecessors("C", None)), before_in);
    assert_eq!(g.node_count(), 4);
}

#[test]
fn remove_edge_drops_the_relation_at_both_ends() {
    let mut g = diamond_graph();
    g.remove_edge("e1", "A", "B");
    assert_eq!(g.edge_count(), 3);
    let targets: Vec<String> = g.successors("A", None).iter().map(|e| e.target_id.clone()).collect();
    assert_eq!(targets, vec!["C"]);
    assert!(g.predecessors("B", None).is_empty());
}

#[test]
fn successors_and_predecessors_filter_by_type() {
    let mut g = diamond_graph();
    g.add_edge(edge("e5", "A", "D", "uses"));
    assert_eq!(g.successors("A", None).len(), 3);
    assert_eq!(g.successors("A", Some("uses")).len(), 1);
    assert_eq!(g.predecessors("D", Some("connects")).len(), 2);
    assert!(g.successors("missing", None).is_empty());
}

#[test]
fn neighbors_lists_each_adjacent_node_once() {
    let mut g = diamond_graph();
    g.add_edge(edge("e5", "B", "A", "back"));
    let n = g.neighbors("A");
    let set: HashSet<String> = n.iter().cloned().collect();
    assert_eq!(n.len(), set.len());
    let expected: HashSet<String> = ["B", "C"].iter().map(|s| s.to_string()).collect();
    assert_eq!(set, expected);
}

#[test]
fn added_edges_read_back_and_removed_edges_are_gone() {
    let mut g = AdjacencyGraph::from_data(vec!["A".into(), "B".into()], vec![edge("e1", "A", "B", "connects")]);
    g.add_edge(edge("e2", "A", "B", "uses"));
    let out: Vec<String> = g.successors("A", None).iter().map(|e| e.relation_id.clone()).collect();
    assert_eq!(out, vec!["e1", "e2"]);
    let inc: Vec<String> = g.predecessors("B", None).iter().map(|e| e.relation_id.clone()).collect();
    assert_eq!(inc, vec!["e1", "e2"]);

    g.remove_edge("e1", "A", "B");
    let out: Vec<String> = g.successors("A", None).iter().map(|e| e.relation_id.clone()).collect();
    assert_eq!(out, vec!["e2"]);
    let inc: Vec<String> = g.predecessors("B", None).iter().map(|e| e.relation_id.clone()).collect();
    assert_eq!(inc, vec!["e2"]);
}
