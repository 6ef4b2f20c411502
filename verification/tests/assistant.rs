use cyberweaver::agent::{
    agent_message, agent_prompt, approval_steps, modification_error, read_relations, read_suggestions,
    relation_request, suggestion_action, suggestion_request, ActionApproval, ApprovalStep, RawRelation,
    RawSuggestion, SuggestionAction, AGENT_PROMPT_HEAD, AGENT_PROMPT_TAIL, SUGGESTION_SYSTEM,
};
use cyberweaver::domain::{NodeType, RelationType};
use cyberweaver::edits::{
    check_deletion, deleted_answer, ensure_node_exists, node_row, parse_node_type, parse_relation_type,
    relation_row, AddNodeRequest, AddRelationRequest, DeleteNodeParams,
};
use cyberweaver::error::AppError;
use cyberweaver::queries::{McpError, StoredNode};

fn approval(index: usize, approved: bool, modifications: Option<&str>) -> ActionApproval {
    ActionApproval {
        action_index: index,
        approved,
        modifications: modifications.map(|m| m.to_string()),
    }
}

#[test]
fn approvals_keep_or_replace_approved_actions_in_order() {
    let approvals = vec![
        approval(2, true, Some("{\"action\":\"QueryExternal\"}")),
        approval(0, true, None),
        approval(1, false, Some("ignored")),
        approval(2, true, Some("second decision")),
        approval(3, true, Some("   ")),
        approval(9, true, None),
    ];
    let steps = approval_steps(4, &approvals);
    assert_eq!(steps.len(), 3);
    assert!(matches!(steps[0], ApprovalStep::Keep(0)));
    assert!(matches!(&steps[1], ApprovalStep::Replace(2, raw) if raw == "{\"action\":\"QueryExternal\"}"));
    assert!(matches!(steps[2], ApprovalStep::Keep(3)));
}

#[test]
fn approval_modification_errors_name_the_action() {
    assert_eq!(
        modification_error(4, "expected value"),
        AppError::InvalidInput("invalid approval modification for action 4: expected value".to_string())
    );
}

#[test]
fn agent_prompt_lists_the_tools() {
    let prompt = agent_prompt("Available investigation tools:\n- None currently loaded.");
    assert!(prompt.starts_with("You are an autonomous DFIR investigation agent."));
    assert!(prompt.contains("\n\nAvailable investigation tools:\n- None currently loaded.\n\nReturn ONLY valid JSON."));
    assert_eq!(
        prompt.len(),
        AGENT_PROMPT_HEAD.len() + "Available investigation tools:\n- None currently loaded.".len() + AGENT_PROMPT_TAIL.len()
    );
}

#[test]
fn agent_message_prints_the_graph_state_as_indented_json() {
    let nodes = vec!["domain: a — \"quoted\"".to_string(), "ip_address: 10.0.0.1 — ".to_string()];
    let message = agent_message(&nodes, &Vec::new());
    assert_eq!(
        message,
        "Current investigation graph:\n{\n  \"nodes\": [\n    \"domain: a — \\\"quoted\\\"\",\n    \"ip_address: 10.0.0.1 — \"\n  ],\n  \"relations\": []\n}\n\nPropose next actions."
    );
}

fn raw_suggestion(action: &str, entity: Option<&str>, relation: Option<&str>) -> RawSuggestion {
    RawSuggestion {
        action: action.to_string(),
        description: "why".to_string(),
        entity_type: entity.map(|e| e.to_string()),
        relation_type: relation.map(|r| r.to_string()),
    }
}

#[test]
fn reads_suggested_steps() {
    assert_eq!(suggestion_action("query_external").unwrap(), SuggestionAction::QueryExternal);
    let steps = read_suggestions(&vec![
        raw_suggestion("add_node", Some("Domain"), None),
        raw_suggestion("add_relation", None, Some("resolves_to")),
        raw_suggestion("investigate", None, None),
    ])
    .unwrap();
    assert_eq!(steps.len(), 3);
    assert_eq!(steps[0].action, SuggestionAction::AddNode);
    assert_eq!(steps[0].entity_type, Some(NodeType::Domain));
    assert_eq!(steps[1].relation_type, Some(RelationType::ResolvesTo));
    assert_eq!(steps[2].description, "why");
}

#[test]
fn the_first_unreadable_step_fails_the_answer() {
    let err = read_suggestions(&vec![
        raw_suggestion("add_node", Some("Domain"), None),
        raw_suggestion("pivot", None, None),
        raw_suggestion("add_node", Some("Planet"), None),
    ])
    .unwrap_err();
    assert_eq!(err, AppError::LlmService("Unknown suggestion action: pivot".to_string()));
    let err = read_suggestions(&vec![raw_suggestion("add_node", Some("Planet"), None)]).unwrap_err();
    assert_eq!(err, AppError::LlmService("unknown node_type: Planet".to_string()));
    assert_eq!(
        suggestion_request("n1"),
        "Investigation graph nodes:\nn1\n\nSuggest next investigation steps."
    );
    assert!(SUGGESTION_SYSTEM.contains("Valid actions: add_node, add_relation, query_external, investigate"));
}

#[test]
fn reads_extracted_relations() {
    let raws = vec![
        RawRelation { source_index: 0, target_index: 1, relation_type: "ConnectsTo".to_string(), label: None },
        RawRelation {
            source_index: 1,
            target_index: 0,
            relation_type: "uses".to_string(),
            label: Some("x".to_string()),
        },
    ];
    let read = read_relations(&raws, 2).unwrap();
    assert_eq!(read[0].relation_type, RelationType::ConnectsTo);
    assert_eq!(read[0].label, "");
    assert_eq!(read[1].label, "x");

    let out_of_range = vec![RawRelation {
        source_index: 0,
        target_index: 5,
        relation_type: "Nope".to_string(),
        label: None,
    }];
    assert_eq!(
        read_relations(&out_of_range, 2).unwrap_err(),
        AppError::LlmService(
            "relation index out of range: source_index=0, target_index=5, entity_count=2".to_string()
        )
    );
}

#[test]
fn relation_request_lists_entities_with_indexes() {
    let entities = vec![
        (NodeType::IpAddress, "10.0.0.1".to_string()),
        (NodeType::ThreatActor, "APT-X".to_string()),
    ];
    assert_eq!(
        relation_request("the text", &entities),
        "Original text:\nthe text\n\nEntities:\n[0] IpAddress: 10.0.0.1\n[1] ThreatActor: APT-X\n\nExtract supported relations using the indexes above."
    );
}

#[test]
fn write_requests_name_snake_case_types() {
    assert_eq!(parse_node_type("threat_actor").unwrap(), NodeType::ThreatActor);
    match parse_node_type("ThreatActor") {
        Err(McpError::App(AppError::InvalidInput(m))) => assert_eq!(m, "unsupported node_type: ThreatActor"),
        other => panic!("unexpected: {other:?}"),
    }
    assert_eq!(parse_relation_type("belongs_to").unwrap(), RelationType::BelongsTo);
    assert!(parse_relation_type("owns").is_err());
}

#[test]
fn added_rows_fill_in_defaults() {
    let row = node_row(
        AddNodeRequest {
            investigation_id: "inv-1".to_string(),
            node_type: "domain".to_string(),
            label: "evil.example".to_string(),
            description: None,
            properties: None,
        },
        "id-1".to_string(),
    )
    .unwrap();
    assert_eq!(row.fixed_id, "id-1");
    assert_eq!(row.node_type, "domain");
    assert_eq!(row.description, "");
    assert_eq!(row.properties, "{}");

    let relation = relation_row(AddRelationRequest {
        investigation_id: "inv-1".to_string(),
        relation_type: "resolves_to".to_string(),
        source_node_id: "a".to_string(),
        target_node_id: "b".to_string(),
        label: None,
    })
    .unwrap();
    assert_eq!(relation.relation_type, "resolves_to");
    assert_eq!(relation.label, "");
    assert_eq!(relation.properties, "{}");
}

#[test]
fn deletions_and_lookups_report_missing_nodes() {
    let params = DeleteNodeParams { node_id: "n\"1".to_string() };
    assert!(check_deletion(&params, true).is_ok());
    match check_deletion(&params, false) {
        Err(McpError::NotFound(m)) => assert_eq!(m, "node not found: n\"1"),
        other => panic!("unexpected: {other:?}"),
    }
    assert_eq!(deleted_answer(&params), "{\"deleted\":true,\"node_id\":\"n\\\"1\"}");

    match ensure_node_exists(None::<StoredNode>, "x", "source_node_id") {
        Err(McpError::NotFound(m)) => assert_eq!(m, "source_node_id not found: x"),
        other => panic!("unexpected: {other:?}"),
    }
}

#[test]
fn approvals_can_override_with_use_tool_action() {
    let raw = r#"{"action":"UseTool","params":{"tool_name":"virustotal_ip_lookup","params":{"ip_address":"8.8.8.8"},"auto_merge":true}}"#;
    let approvals = vec![ActionApproval {
        action_index: 0,
        approved: true,
        modifications: Some(raw.to_string()),
    }];

    let approved = approval_steps(1, &approvals);

    assert_eq!(approved.len(), 1);
    assert!(matches!(&approved[0], ApprovalStep::Replace(0, text) if text == raw));
}
