use cyberweaver::commands::{
    apply_update, checked_node_type, checked_relation_type, db_file_path, execution_result,
    graph_overview, node_data_from_row, node_record_from_row, node_relations, relation_data_from_row,
    relation_record_from_row, stored_node_type, stored_relation_type, ExpandNodeResult, NodeUpdate,
};
use cyberweaver::cli::{parse_args, sqlite_url};
use cyberweaver::llm::{require_configured, LlmConfig};
use cyberweaver::domain::{default_props_for, AssetProps, NodeType, RelationType, TypeSpecificProps};
use cyberweaver::error::AppError;
use cyberweaver::graph::engine::AdjacencyGraph;
use cyberweaver::graph::traversal::bfs_paths;
use cyberweaver::graph::types::EdgeInfo;
use cyberweaver::plugins::{plan_tool_merge, FoundNode, FoundRelation};
use cyberweaver::queries::{StoredNode, StoredRelation};

fn edge(rid: &str, src: &str, tgt: &str) -> EdgeInfo {
    EdgeInfo {
        relation_id: rid.to_string(),
        source_id: src.to_string(),
        target_id: tgt.to_string(),
        relation_type: "connects_to".to_string(),
        label: String::new(),
    }
}

#[test]
fn database_file_name() {
    assert_eq!(db_file_path(), "cyberweaver.db");
}

#[test]
fn overview_counts_nodes_and_edges() {
    let graph = AdjacencyGraph::from_data(
        vec!["a".to_string(), "b".to_string(), "c".to_string()],
        vec![edge("r1", "a", "b"), edge("r2", "b", "c")],
    );
    let overview = graph_overview(&graph);
    assert_eq!(overview.node_count, 3);
    assert_eq!(overview.edge_count, 2);
    assert_eq!(overview.node_ids, vec!["a", "b", "c"]);
}

#[test]
fn expansion_keeps_paths_and_hops() {
    let graph = AdjacencyGraph::from_data(
        vec!["a".to_string(), "b".to_string(), "c".to_string()],
        vec![edge("r1", "a", "b"), edge("r2", "b", "c")],
    );
    let expanded = ExpandNodeResult::from_result(bfs_paths(&graph, "a", 2, None));
    assert_eq!(expanded.paths.len(), 2);
    assert_eq!(expanded.total_hops, vec![1, 2]);
    assert_eq!(expanded.paths[1].node_ids, vec!["a", "b", "c"]);
    assert_eq!(expanded.paths[1].relation_ids, vec!["r1", "r2"]);
}

#[test]
fn merge_tally_lists_new_node_ids() {
    let nodes = vec![FoundNode { node_type: "domain".to_string(), label: "evil.example".to_string() }];
    let relations = vec![FoundRelation {
        relation_type: "resolves_to".to_string(),
        source_label: "evil.example".to_string(),
        target_label: "evil.example".to_string(),
    }];
    let plan = plan_tool_merge(Vec::new(), &nodes, &relations, &vec!["id-1".to_string()]);
    let tally = execution_result(&plan, "summary".to_string());
    assert_eq!(tally.nodes_created, 1);
    assert_eq!(tally.relations_created, 1);
    assert_eq!(tally.new_node_ids, vec!["id-1"]);
    assert_eq!(tally.text_summary, "summary");
}

#[test]
fn stored_types_are_read_by_either_name() {
    assert_eq!(stored_node_type("file_hash").unwrap(), NodeType::FileHash);
    assert_eq!(stored_node_type("FileHash").unwrap(), NodeType::FileHash);
    assert_eq!(
        stored_node_type("planet").unwrap_err(),
        AppError::Import("unsupported node_type: planet".to_string())
    );
    assert_eq!(stored_relation_type("Targets").unwrap(), RelationType::Targets);
    assert_eq!(
        stored_relation_type("likes").unwrap_err(),
        AppError::Import("unsupported relation_type: likes".to_string())
    );
}

fn row(node_type: &str) -> StoredNode {
    StoredNode {
        id: "n1".to_string(),
        investigation_id: "inv-1".to_string(),
        node_type: node_type.to_string(),
        label: "Host A".to_string(),
        description: "desc".to_string(),
        properties: "{}".to_string(),
        created_at: "2026-01-01 00:00:00".to_string(),
        updated_at: "2026-01-01 00:00:01".to_string(),
    }
}

#[test]
fn stored_rows_become_records() {
    let props = default_props_for(&NodeType::Asset);
    let record = node_record_from_row(row("asset"), Ok(props)).unwrap();
    assert_eq!(record.id, "n1");
    assert_eq!(record.node_type, NodeType::Asset);
    assert_eq!(record.created_at.as_deref(), Some("2026-01-01 00:00:00"));
    assert_eq!(record.updated_at.as_deref(), Some("2026-01-01 00:00:01"));

    let bad_props = Err(AppError::Internal("bad properties".to_string()));
    assert_eq!(
        node_record_from_row(row("asset"), bad_props).unwrap_err(),
        AppError::Internal("bad properties".to_string())
    );
    let both_bad = Err(AppError::Internal("bad properties".to_string()));
    assert_eq!(
        node_record_from_row(row("planet"), both_bad).unwrap_err(),
        AppError::Import("unsupported node_type: planet".to_string())
    );

    let relation = relation_record_from_row(StoredRelation {
        id: "rel-1".to_string(),
        investigation_id: "inv-1".to_string(),
        relation_type: "connects_to".to_string(),
        source_node_id: "node-1".to_string(),
        target_node_id: "node-2".to_string(),
        label: "edge".to_string(),
        first_seen: None,
        last_seen: Some("later".to_string()),
        properties: "{}".to_string(),
        created_at: "2026-01-01 00:00:00".to_string(),
    })
    .unwrap();
    assert_eq!(relation.relation_type, RelationType::ConnectsTo);
    assert_eq!(relation.last_seen.as_deref(), Some("later"));
}

fn relation(id: &str, source: &str, target: &str) -> StoredRelation {
    StoredRelation {
        id: id.to_string(),
        investigation_id: "inv-1".to_string(),
        relation_type: "mystery".to_string(),
        source_node_id: source.to_string(),
        target_node_id: target.to_string(),
        label: String::new(),
        first_seen: None,
        last_seen: None,
        properties: "{}".to_string(),
        created_at: "t".to_string(),
    }
}

#[test]
fn node_relations_list_a_self_loop_once() {
    let outgoing = vec![relation("loop", "a", "a"), relation("r1", "a", "b")];
    let incoming = vec![relation("r2", "c", "a"), relation("loop", "a", "a")];
    let ids: Vec<String> = node_relations(outgoing, incoming).into_iter().map(|r| r.id).collect();
    assert_eq!(ids, vec!["loop", "r1", "r2"]);
}

#[test]
fn lenient_reading_falls_back_to_defaults() {
    let record = node_data_from_row(row("planet"), None);
    assert_eq!(record.node_type, NodeType::Asset);
    match record.properties {
        TypeSpecificProps::Asset(p) => assert!(p.hostname.is_empty() && p.owner.is_none()),
        other => panic!("unexpected properties: {other:?}"),
    }
    let read = relation_data_from_row(relation("r", "a", "b"));
    assert_eq!(read.relation_type, RelationType::ConnectsTo);
}

#[test]
fn new_items_name_snake_case_types() {
    assert_eq!(checked_node_type("malware").unwrap(), NodeType::Malware);
    assert_eq!(checked_node_type("Malware").unwrap_err(), "invalid node_type: Malware");
    assert_eq!(checked_relation_type("uses").unwrap(), RelationType::Uses);
    assert_eq!(checked_relation_type("Uses").unwrap_err(), "invalid relation_type: Uses");
}

#[test]
fn updates_replace_only_given_fields() {
    let updated = apply_update(
        row("asset"),
        NodeUpdate { label: Some("Host B".to_string()), description: None, properties: None },
        "2026-02-02 00:00:00".to_string(),
    );
    assert_eq!(updated.label, "Host B");
    assert_eq!(updated.description, "desc");
    assert_eq!(updated.created_at, "2026-01-01 00:00:00");
    assert_eq!(updated.updated_at, "2026-02-02 00:00:00");
}

#[test]
fn service_must_be_configured() {
    let mut config = LlmConfig::default();
    assert_eq!(require_configured(&config).unwrap_err(), "LLM is not configured");
    config.configured = true;
    assert!(require_configured(&config).is_ok());
}

fn args(list: &[&str]) -> Vec<String> {
    list.iter().map(|a| a.to_string()).collect()
}

#[test]
fn reads_the_database_path_argument() {
    assert_eq!(parse_args(&args(&["--db-path", "/tmp/a.db"])).unwrap(), "/tmp/a.db");
    assert_eq!(parse_args(&args(&["--db-path", "a", "--db-path", "b"])).unwrap(), "b");
    assert_eq!(parse_args(&args(&[])).unwrap_err(), "usage: cw-mcp --db-path <path>");
    assert_eq!(parse_args(&args(&["-h", "--db-path", "a"])).unwrap_err(), "usage: cw-mcp --db-path <path>");
    assert_eq!(parse_args(&args(&["--db-path"])).unwrap_err(), "missing value for --db-path");
    assert_eq!(parse_args(&args(&["--verbose"])).unwrap_err(), "unknown argument: --verbose");
    assert_eq!(sqlite_url("/tmp/a.db"), "sqlite:/tmp/a.db?mode=rwc");
}

#[test]
fn model_to_node_data_round_trips_serialized_model() {
    let model = StoredNode {
        id: "node-1".to_string(),
        investigation_id: "inv-1".to_string(),
        node_type: "asset".to_string(),
        label: "Host A".to_string(),
        description: "desc".to_string(),
        properties: "{\"Asset\":{\"hostname\":\"Host A\"}}".to_string(),
        created_at: "2026-01-01 00:00:00".to_string(),
        updated_at: "2026-01-01 00:00:01".to_string(),
    };
    let properties = TypeSpecificProps::Asset(AssetProps {
        hostname: "Host A".to_string(),
        os: None,
        ip_addresses: Vec::new(),
        owner: None,
        criticality: None,
    });

    let result = node_record_from_row(model, Ok(properties));

    assert!(result.is_ok());
    let node = result.expect("model conversion should succeed");
    assert_eq!(node.id, "node-1");
    assert_eq!(node.node_type, NodeType::Asset);
    match node.properties {
        TypeSpecificProps::Asset(props) => assert_eq!(props.hostname, "Host A"),
        other => panic!("unexpected properties: {other:?}"),
    }
}

#[test]
fn model_to_relation_data_round_trips_serialized_model() {
    let model = StoredRelation {
        id: "rel-1".to_string(),
        investigation_id: "inv-1".to_string(),
        relation_type: "connects_to".to_string(),
        source_node_id: "node-1".to_string(),
        target_node_id: "node-2".to_string(),
        label: "edge".to_string(),
        first_seen: None,
        last_seen: None,
        properties: "{}".to_string(),
        created_at: "2026-01-01 00:00:00".to_string(),
    };

    let result = relation_record_from_row(model);

    assert!(result.is_ok());
    let relation = result.expect("model conversion should succeed");
    assert_eq!(relation.id, "rel-1");
    assert_eq!(relation.relation_type, RelationType::ConnectsTo);
}

#[test]
fn executes_tool_and_merges_new_graph_objects() {
    let nodes = vec![
        FoundNode { node_type: "ip_address".to_string(), label: "8.8.8.8".to_string() },
        FoundNode { node_type: "domain".to_string(), label: "evil.example".to_string() },
    ];
    let relations = vec![FoundRelation {
        relation_type: "resolves_to".to_string(),
        source_label: "8.8.8.8".to_string(),
        target_label: "evil.example".to_string(),
    }];
    let fresh_ids = vec!["id-ip".to_string(), "id-domain".to_string()];

    let plan = plan_tool_merge(Vec::new(), &nodes, &relations, &fresh_ids);
    assert!(plan.error.is_none());
    let result = execution_result(&plan, "VirusTotal found one domain.".to_string());

    assert_eq!(result.nodes_created, 2);
    assert_eq!(result.relations_created, 1);
    assert_eq!(result.text_summary, "VirusTotal found one domain.");
    assert_eq!(result.new_node_ids.len(), 2);
    assert_eq!(plan.relations[0].source_node_id, "id-ip");
    assert_eq!(plan.relations[0].target_node_id, "id-domain");
}
