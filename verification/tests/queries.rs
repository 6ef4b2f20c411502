use cyberweaver::graph::traversal::bfs_paths;
use cyberweaver::graph::types::TraversalPath;
use cyberweaver::queries::{
    component_count, filter_by_keyword, filter_nodes, filter_relations, find_node, graph_of,
    graph_summary, neighborhood, node_summary, relation_summary, type_distribution, McpError,
    StoredNode, StoredRelation,
};

fn stored_node(id: &str, node_type: &str, label: &str, description: &str, created_at: &str) -> StoredNode {
    StoredNode {
        id: id.to_string(),
        investigation_id: "inv-1".to_string(),
        node_type: node_type.to_string(),
        label: label.to_string(),
        description: description.to_string(),
        properties: "{}".to_string(),
        created_at: created_at.to_string(),
        updated_at: created_at.to_string(),
    }
}

fn stored_relation(id: &str, relation_type: &str, source: &str, target: &str, created_at: &str) -> StoredRelation {
    StoredRelation {
        id: id.to_string(),
        investigation_id: "inv-1".to_string(),
        relation_type: relation_type.to_string(),
        source_node_id: source.to_string(),
        target_node_id: target.to_string(),
        label: String::new(),
        first_seen: None,
        last_seen: None,
        properties: "{}".to_string(),
        created_at: created_at.to_string(),
    }
}

fn ids_of_nodes(nodes: &[StoredNode]) -> Vec<String> {
    nodes.iter().map(|n| n.id.clone()).collect()
}

fn ids_of_relations(relations: &[StoredRelation]) -> Vec<String> {
    relations.iter().map(|r| r.id.clone()).collect()
}

#[test]
fn formats_node_summary() {
    let node = stored_node("n1", "domain", "example.com", "C2 domain", "2026-01-01 00:00:00");
    assert_eq!(node_summary(&node), "domain: example.com — C2 domain");
}

#[test]
fn formats_relation_summary_from_node_labels() {
    let source = stored_node("src", "ip_address", "10.0.0.1", "", "2026-01-01 00:00:00");
    let target = stored_node("dst", "domain", "example.com", "", "2026-01-01 00:00:00");
    let relation = stored_relation("r1", "resolves_to", "src", "dst", "2026-01-01 00:00:00");
    let nodes = vec![source, target];

    assert_eq!(
        relation_summary(&relation, &nodes).as_deref(),
        Some("10.0.0.1 -[resolves_to]-> example.com")
    );
}

#[test]
fn filters_relations_to_selected_nodes() {
    let selected = vec!["src".to_string(), "dst".to_string()];
    let kept = stored_relation("r1", "uses", "src", "dst", "2026-01-01 00:00:00");
    let dropped = stored_relation("r2", "uses", "src", "other", "2026-01-01 00:00:00");

    let filtered = filter_relations(vec![kept.clone(), dropped], Some(&selected));

    assert_eq!(filtered.len(), 1);
    assert_eq!(filtered[0].id, kept.id);
}

#[test]
fn relation_summary_needs_both_ends() {
    let nodes = vec![stored_node("src", "ip_address", "10.0.0.1", "", "t")];
    let relation = stored_relation("r1", "resolves_to", "src", "gone", "t");
    assert_eq!(relation_summary(&relation, &nodes), None);
}

#[test]
fn later_node_with_the_same_id_wins() {
    let nodes = vec![
        stored_node("a", "domain", "first", "", "t"),
        stored_node("a", "domain", "second", "", "t"),
    ];
    assert_eq!(find_node(&nodes, "a").unwrap().label, "second");
    assert!(find_node(&nodes, "b").is_none());
}

#[test]
fn relations_are_all_kept_without_a_selection() {
    let relations = vec![stored_relation("r1", "uses", "a", "b", "t")];
    assert_eq!(filter_relations(relations, None).len(), 1);
}

#[test]
fn selects_nodes_and_reports_missing_ids() {
    let nodes = vec![
        stored_node("a", "domain", "A", "", "t"),
        stored_node("b", "domain", "B", "", "t"),
        stored_node("c", "domain", "C", "", "t"),
    ];
    let selected = vec!["c".to_string(), "a".to_string()];
    let kept = filter_nodes(nodes.clone(), Some(&selected)).unwrap();
    assert_eq!(ids_of_nodes(&kept), vec!["a", "c"]);

    let with_missing = vec!["x".to_string(), "a".to_string(), "y".to_string(), "x".to_string()];
    match filter_nodes(nodes.clone(), Some(&with_missing)) {
        Err(McpError::NotFound(message)) => {
            assert_eq!(message, "node_ids not found in investigation x, y: 2")
        }
        other => panic!("unexpected result: {other:?}"),
    }

    assert_eq!(filter_nodes(nodes, None).unwrap().len(), 3);
}

#[test]
fn keyword_search_reads_labels_and_descriptions() {
    let nodes = vec![
        stored_node("a", "domain", "evil.example", "", "t"),
        stored_node("b", "ip_address", "10.0.0.1", "talks to evil hosts", "t"),
        stored_node("c", "ip_address", "10.0.0.2", "benign", "t"),
    ];
    assert_eq!(ids_of_nodes(&filter_by_keyword(nodes.clone(), Some("evil"))), vec!["a", "b"]);
    assert_eq!(filter_by_keyword(nodes.clone(), Some("none")).len(), 0);
    assert_eq!(filter_by_keyword(nodes, None).len(), 3);
}

#[test]
fn neighborhood_orders_by_creation_time() {
    let nodes = vec![
        stored_node("a", "ip_address", "A", "", "2026-01-01 00:00:03"),
        stored_node("b", "domain", "B", "", "2026-01-01 00:00:02"),
        stored_node("c", "domain", "C", "", "2026-01-01 00:00:01"),
        stored_node("d", "domain", "D", "", "2026-01-01 00:00:02"),
        stored_node("z", "domain", "Z", "", "2026-01-01 00:00:00"),
    ];
    let relations = vec![
        stored_relation("r1", "connects_to", "a", "b", "2026-01-01 00:00:09"),
        stored_relation("r2", "connects_to", "b", "c", "2026-01-01 00:00:08"),
        stored_relation("r3", "connects_to", "a", "d", "2026-01-01 00:00:08"),
        stored_relation("r4", "connects_to", "z", "z", "2026-01-01 00:00:00"),
    ];
    let graph = graph_of(&nodes, &relations);
    let paths = bfs_paths(&graph, "a", 2, None).paths;
    let around = neighborhood("a", &paths, nodes, relations);
    assert_eq!(ids_of_nodes(&around.neighbors), vec!["c", "b", "d"]);
    assert_eq!(ids_of_relations(&around.relations), vec!["r2", "r3", "r1"]);
}

#[test]
fn neighborhood_unmarks_backward_relations() {
    let nodes = vec![
        stored_node("a", "ip_address", "A", "", "1"),
        stored_node("b", "domain", "B", "", "2"),
    ];
    let relations = vec![stored_relation("r1", "connects_to", "b", "a", "1")];
    let paths = vec![TraversalPath {
        node_ids: vec!["a".to_string(), "b".to_string()],
        relation_ids: vec!["rev:r1".to_string()],
        relation_types: vec!["rev:connects_to".to_string()],
    }];
    let around = neighborhood("a", &paths, nodes, relations);
    assert_eq!(ids_of_nodes(&around.neighbors), vec!["b"]);
    assert_eq!(ids_of_relations(&around.relations), vec!["r1"]);
}

#[test]
fn counts_nodes_by_type_in_type_order() {
    let nodes = vec![
        stored_node("a", "ip_address", "A", "", "t"),
        stored_node("b", "domain", "B", "", "t"),
        stored_node("c", "ip_address", "C", "", "t"),
        stored_node("d", "malware", "D", "", "t"),
    ];
    let rows = type_distribution(&nodes);
    assert_eq!(
        rows,
        vec![
            ("domain".to_string(), 1),
            ("ip_address".to_string(), 2),
            ("malware".to_string(), 1)
        ]
    );
    assert_eq!(rows.iter().map(|(_, count)| count).sum::<usize>(), nodes.len());
    assert!(type_distribution(&Vec::new()).is_empty());
}

#[test]
fn counts_weakly_connected_components() {
    let nodes = vec![
        stored_node("a", "ip_address", "A", "", "t"),
        stored_node("b", "domain", "B", "", "t"),
        stored_node("c", "domain", "C", "", "t"),
        stored_node("d", "domain", "D", "", "t"),
        stored_node("e", "domain", "E", "", "t"),
    ];
    let relations = vec![
        stored_relation("r1", "connects_to", "b", "a", "t"),
        stored_relation("r2", "connects_to", "c", "d", "t"),
    ];
    let graph = graph_of(&nodes, &relations);
    assert_eq!(component_count(&graph), 3);

    let summary = graph_summary(&nodes, &relations);
    assert_eq!(summary.node_count, 5);
    assert_eq!(summary.relation_count, 2);
    assert_eq!(summary.component_count, 3);
    assert_eq!(summary.type_distribution.len(), 2);
}
