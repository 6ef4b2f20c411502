use cyberweaver::clock::{chrono_now, format_iso, format_unix_seconds, is_leap, timestamp_text};
use cyberweaver::domain::{default_props_for, default_props_for_node_type, NodeType, RelationType, TypeSpecificProps};
use cyberweaver::error::AppError;
use cyberweaver::llm::{
    authorization_header, chat_url, check_relation_indices, clean_json_response, config_status,
    llm_config_from_parts, parse_node_type, parse_relation_type, validate_config, ConfigureLlmRequest,
    LlmConfig,
};
use cyberweaver::plugins::{
    build_tool_section, builtin_manifests, is_plugin_file, parameter_type_name, plan_tool_merge,
    resolve_node_id, FoundNode, FoundRelation, GeoIpLookup, ParameterType, ToolManifest, ToolParameter,
    VirusTotalTool, WhoisTool,
};
use cyberweaver::text::{contains, ends_with, find, join_strings, starts_with, strip_prefix, strip_suffix, trim, trim_end_matches_char};

#[test]
fn strips_json_code_fence() {
    let raw = "```json\n{\"entities\":[]}\n```";
    assert_eq!(clean_json_response(raw), "{\"entities\":[]}");
}

#[test]
fn strips_plain_code_fence() {
    let raw = "```\n{\"relations\":[]}\n```";
    assert_eq!(clean_json_response(raw), "{\"relations\":[]}");
}

#[test]
fn clean_json_response_leaves_unfenced_text_trimmed() {
    assert_eq!(clean_json_response("  {\"a\":1}\n"), "{\"a\":1}");
    assert_eq!(clean_json_response("```json {\"a\":1}"), "```json {\"a\":1}");
    assert_eq!(clean_json_response("```"), "```");
}

#[test]
fn builds_llm_config_from_params() {
    let config = llm_config_from_parts(" https://example.com/ ", " secret ", " model-x ");

    assert_eq!(config.api_base, "https://example.com");
    assert_eq!(config.api_key, "secret");
    assert_eq!(config.model, "model-x");
    assert!(config.configured);
}

#[test]
fn marks_llm_config_unconfigured_when_required_fields_missing() {
    let config = llm_config_from_parts("", "secret", "   ");

    assert!(!config.configured);
}

#[test]
fn llm_config_defaults_and_requests() {
    let config = LlmConfig::default();
    assert_eq!(config.model, "gpt-4o");
    assert!(!config.configured);
    let request = ConfigureLlmRequest {
        api_base: " https://api.example.com// ".to_string(),
        api_key: " k ".to_string(),
        model: " m ".to_string(),
    };
    let stored = LlmConfig::from_request(&request);
    assert_eq!(stored.api_base, "https://api.example.com");
    assert_eq!(stored.api_key, "k");
    assert!(stored.configured);
    let status = config_status(&stored);
    assert!(status.configured);
    assert_eq!(status.model, "m");
    assert_eq!(status.api_base, "https://api.example.com");
}

#[test]
fn llm_config_validation_errors() {
    let mut config = LlmConfig::default();
    match validate_config(&config) {
        Err(AppError::LlmService(m)) => assert_eq!(m, "LLM not configured"),
        other => panic!("unexpected result: {other:?}"),
    }
    config.configured = true;
    match validate_config(&config) {
        Err(AppError::LlmService(m)) => assert_eq!(m, "LLM api_base is empty"),
        other => panic!("unexpected result: {other:?}"),
    }
    config.api_base = "http://x".to_string();
    config.model = " ".to_string();
    match validate_config(&config) {
        Err(AppError::LlmService(m)) => assert_eq!(m, "LLM model is empty"),
        other => panic!("unexpected result: {other:?}"),
    }
    config.model = "m".to_string();
    assert!(validate_config(&config).is_ok());
}

#[test]
fn chat_request_pieces() {
    assert_eq!(chat_url("https://api.example.com//"), "https://api.example.com/v1/chat/completions");
    assert_eq!(authorization_header("  "), None);
    assert_eq!(authorization_header(" sk-1 ").as_deref(), Some("Bearer sk-1"));
}

#[test]
fn model_type_names_are_read() {
    assert_eq!(parse_node_type("ip_address").unwrap(), NodeType::IpAddress);
    assert_eq!(parse_node_type("ThreatActor").unwrap(), NodeType::ThreatActor);
    match parse_node_type("router") {
        Err(AppError::LlmService(m)) => assert_eq!(m, "unknown node_type: router"),
        other => panic!("unexpected result: {other:?}"),
    }
    assert_eq!(parse_relation_type("resolves_to").unwrap(), RelationType::ResolvesTo);
    assert_eq!(parse_relation_type("Contains").unwrap(), RelationType::Contains);
    match parse_relation_type("likes") {
        Err(AppError::LlmService(m)) => assert_eq!(m, "unknown relation_type: likes"),
        other => panic!("unexpected result: {other:?}"),
    }
}

#[test]
fn relation_indices_are_checked() {
    assert!(check_relation_indices(0, 1, 2).is_ok());
    match check_relation_indices(0, 2, 2) {
        Err(AppError::LlmService(m)) => assert_eq!(
            m,
            "relation index out of range: source_index=0, target_index=2, entity_count=2"
        ),
        other => panic!("unexpected result: {other:?}"),
    }
}

#[test]
fn lib_manifest_matches_expected_contract() {
    let manifest = GeoIpLookup.manifest();
    assert_eq!(manifest.name, "geoip_lookup");
    assert_eq!(manifest.input_types, vec!["ip_address"]);
    assert_eq!(manifest.output_types, vec!["ip_address", "asset"]);
    assert_eq!(manifest.parameters.len(), 1);
    assert_eq!(manifest.parameters[0].name, "ip_address");
    assert!(manifest.parameters[0].required);
}

#[test]
fn virustotal_manifest_matches_expected_contract() {
    let manifest = VirusTotalTool.manifest();
    assert_eq!(manifest.name, "virustotal_ip_lookup");
    assert_eq!(manifest.input_types, vec!["ip_address"]);
    assert_eq!(manifest.output_types, vec!["domain", "malware"]);
    assert_eq!(manifest.parameters.len(), 1);
    assert_eq!(manifest.parameters[0].name, "ip_address");
    assert!(manifest.parameters[0].required);
}

#[test]
fn whois_manifest_matches_expected_contract() {
    let manifest = WhoisTool.manifest();
    assert_eq!(manifest.name, "whois_domain_lookup");
    assert_eq!(manifest.input_types, vec!["domain"]);
    assert_eq!(manifest.output_types, vec!["ip_address", "domain"]);
    assert_eq!(manifest.parameters.len(), 1);
    assert_eq!(manifest.parameters[0].name, "domain");
    assert!(manifest.parameters[0].required);
}

#[test]
fn builtin_registry_exposes_expected_tools() {
    let manifests: Vec<String> = builtin_manifests().into_iter().map(|m| m.name).collect();
    assert_eq!(manifests, vec!["virustotal_ip_lookup", "whois_domain_lookup"]);
}

#[test]
fn builds_tool_section_from_manifests() {
    let section = build_tool_section(&vec![ToolManifest {
        name: "virustotal_ip_lookup".to_string(),
        display_name: "VirusTotal IP".to_string(),
        description: "Query VirusTotal for an IP address.".to_string(),
        version: "1.0.0".to_string(),
        author: "tests".to_string(),
        parameters: vec![ToolParameter {
            name: "ip_address".to_string(),
            parameter_type: ParameterType::String,
            description: "IP address to query".to_string(),
            required: true,
            default_value: None,
        }],
        input_types: vec!["ip_address".to_string()],
        output_types: vec!["domain".to_string(), "malware".to_string()],
    }]);

    assert!(section.contains("Available investigation tools:"));
    assert!(section.contains("- virustotal_ip_lookup: Query VirusTotal for an IP address."));
    assert!(section.contains("Parameters: ip_address (String, required)."));
    assert!(section.contains("Input types: [ip_address]. Output types: [domain, malware]."));
}

#[test]
fn tool_section_exact_text() {
    assert_eq!(
        build_tool_section(&Vec::new()),
        "Available investigation tools:\n- None currently loaded."
    );
    let manifest = ToolManifest {
        name: "t".to_string(),
        display_name: String::new(),
        description: "Does things...".to_string(),
        version: String::new(),
        author: String::new(),
        parameters: vec![
            ToolParameter {
                name: "a".to_string(),
                parameter_type: ParameterType::Integer,
                description: String::new(),
                required: false,
                default_value: None,
            },
            ToolParameter {
                name: "b".to_string(),
                parameter_type: ParameterType::Boolean,
                description: String::new(),
                required: true,
                default_value: None,
            },
        ],
        input_types: vec![],
        output_types: vec!["x".to_string()],
    };
    let mut bare = manifest.clone();
    bare.parameters.clear();
    assert_eq!(
        build_tool_section(&vec![manifest, bare]),
        "Available investigation tools:\n- t: Does things.\n  Parameters: a (Integer, optional). b (Boolean, required). \n  Input types: []. Output types: [x].\n- t: Does things.\n  Parameters: none \n  Input types: []. Output types: [x]."
    );
    assert_eq!(parameter_type_name(&ParameterType::Float), "Float");
}

#[test]
fn plugin_files_are_recognised_by_extension() {
    assert!(is_plugin_file(Some("so")));
    assert!(is_plugin_file(Some("dylib")));
    assert!(is_plugin_file(Some("dll")));
    assert!(!is_plugin_file(Some("txt")));
    assert!(!is_plugin_file(None));
}

fn found_node(t: &str, label: &str) -> FoundNode {
    FoundNode { node_type: t.to_string(), label: label.to_string() }
}

fn found_relation(t: &str, s: &str, d: &str) -> FoundRelation {
    FoundRelation { relation_type: t.to_string(), source_label: s.to_string(), target_label: d.to_string() }
}

#[test]
fn resolves_relation_labels_against_existing_nodes() {
    let existing = vec![("10.0.0.5".to_string(), "node-existing".to_string())];
    let nodes = vec![found_node("domain", "evil.example")];
    let relations = vec![found_relation("connects_to", "10.0.0.5", "evil.example")];
    let plan = plan_tool_merge(existing, &nodes, &relations, &vec!["node-new".to_string()]);
    assert!(plan.error.is_none());
    assert_eq!(plan.nodes.len(), 1);
    assert_eq!(plan.nodes[0].node_type, NodeType::Domain);
    assert_eq!(plan.relations.len(), 1);
    assert_eq!(plan.relations[0].source_node_id, "node-existing");
    assert_eq!(plan.relations[0].target_node_id, "node-new");
    assert_eq!(plan.relations[0].relation_type, RelationType::ConnectsTo);
}

#[test]
fn tool_merge_stops_at_first_failure() {
    let nodes = vec![found_node("domain", "a"), found_node("Domain", "b"), found_node("asset", "c")];
    let plan = plan_tool_merge(Vec::new(), &nodes, &Vec::new(), &vec!["1".into(), "2".into(), "3".into()]);
    assert_eq!(plan.nodes.len(), 1);
    match plan.error {
        Some(AppError::InvalidInput(m)) => assert_eq!(m, "invalid node_type from tool output: Domain"),
        other => panic!("unexpected error: {other:?}"),
    }

    let relations = vec![found_relation("uses", "a", "a"), found_relation("uses", "a", "zzz")];
    let plan = plan_tool_merge(Vec::new(), &vec![found_node("malware", "a")], &relations, &vec!["1".into()]);
    assert_eq!(plan.relations.len(), 1);
    match plan.error {
        Some(AppError::NotFound(m)) => assert_eq!(m, "node label not found for relation mapping: zzz"),
        other => panic!("unexpected error: {other:?}"),
    }
}

#[test]
fn later_labels_win() {
    let pairs = vec![("x".to_string(), "1".to_string()), ("x".to_string(), "2".to_string())];
    assert_eq!(resolve_node_id(&pairs, "x").unwrap(), "2");
    assert!(resolve_node_id(&pairs, "y").is_err());
}

#[test]
fn formats_dates_from_epoch_days() {
    assert_eq!(format_iso(0, 0, 0, 0), "1970-01-01 00:00:00");
    assert_eq!(format_iso(59, 1, 2, 3), "1970-03-01 01:02:03");
    assert_eq!(format_iso(365 + 365 + 31 + 28, 23, 59, 59), "1972-02-29 23:59:59");
    assert_eq!(format_iso(10957, 12, 0, 0), "2000-01-01 12:00:00");
    assert_eq!(format_unix_seconds(1_700_000_000), "2023-11-14 22:13:20");
    assert_eq!(format_unix_seconds(951_782_400), "2000-02-29 00:00:00");
}

#[test]
fn clock_reading_before_epoch_falls_back_to_epoch() {
    assert_eq!(timestamp_text(None), "1970-01-01 00:00:00");
    assert_eq!(timestamp_text(Some(0)), "1970-01-01 00:00:00");
    assert_eq!(timestamp_text(Some(86_399)), "1970-01-01 23:59:59");
    assert_eq!(timestamp_text(Some(86_400)), "1970-01-02 00:00:00");
}

#[test]
fn timestamps_are_nineteen_chars_and_sort_by_day() {
    let days: Vec<u64> = vec![0, 1, 58, 59, 364, 365, 789, 10957, 19000, 2_932_896];
    let mut previous: Option<String> = None;
    for d in days {
        let t = format_iso(d, 23, 59, 59);
        assert_eq!(t.len(), 19);
        let early = format_iso(d, 0, 0, 0);
        assert_eq!(early.len(), 19);
        if let Some(p) = &previous {
            assert!(p.as_str() < early.as_str());
        }
        previous = Some(t);
    }
    assert_eq!(format_iso(2_932_896, 23, 59, 59), "9999-12-31 23:59:59");
}

#[test]
fn leap_years() {
    assert!(is_leap(2000));
    assert!(is_leap(2024));
    assert!(!is_leap(1900));
    assert!(!is_leap(2023));
}

#[test]
fn now_is_a_sqlite_timestamp() {
    let now = chrono_now();
    assert_eq!(now.len(), 19);
    assert_eq!(&now[4..5], "-");
    assert_eq!(&now[10..11], " ");
    assert!(now.as_str() >= "2024-01-01 00:00:00");
}

#[test]
fn default_properties_match_types() {
    match default_props_for(&NodeType::Ttp) {
        TypeSpecificProps::Ttp(p) => assert!(p.mitre_id.is_empty() && p.tactic.is_none()),
        other => panic!("unexpected properties: {other:?}"),
    }
    match default_props_for_node_type(NodeType::Domain, "evil.example") {
        TypeSpecificProps::Domain(p) => assert_eq!(p.domain, "evil.example"),
        other => panic!("unexpected properties: {other:?}"),
    }
}

#[test]
fn type_names_and_icons() {
    assert_eq!(NodeType::IpAddress.display_name(), "IP 地址");
    assert_eq!(NodeType::FileHash.icon(), "file-hash");
    assert_eq!(RelationType::ResolvesTo.display_name(), "DNS 解析");
    assert!(RelationType::Uses.is_directed());
    assert_eq!(NodeType::from_name("threat_actor"), Some(NodeType::ThreatActor));
    assert_eq!(RelationType::from_name("BelongsTo"), Some(RelationType::BelongsTo));
    assert_eq!(NodeType::from_name("nope"), None);
}

#[test]
fn text_primitives() {
    assert_eq!(trim("\u{3000} a b \t"), "a b");
    assert!(starts_with("abc", "ab"));
    assert!(!starts_with("a", "ab"));
    assert!(ends_with("abc", "bc"));
    assert_eq!(strip_prefix("abc", "a"), Some("bc"));
    assert_eq!(strip_suffix("abc", "x"), None);
    assert_eq!(find("héllo wörld", "wö"), Some(6));
    assert!(contains("abc", ""));
    assert_eq!(trim_end_matches_char("x///", '/'), "x");
    assert_eq!(join_strings(&vec!["a".to_string(), "b".to_string()], ", "), "a, b");
    assert_eq!(join_strings(&Vec::new(), ", "), "");
}
