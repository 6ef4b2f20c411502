use std::collections::HashSet;

use cyberweaver::attack_flow::{
    parse_attack_flow, to_attack_flow, AfbAction, AfbAsset, AfbBundle, AfbRelationship,
};
use cyberweaver::canvas::{parse_json_canvas, to_json_canvas, CanvasEdge, CanvasNode, CanvasPayload, JsonCanvas};
use cyberweaver::domain::{
    AssetProps, DomainProps, FileHashProps, HashAlgorithm, IpAddressProps, MalwareProps,
    NodeRecord, NodeType, ProcessProps, RelationRecord, RelationType, ThreatActorProps, TtpProps,
    TypeSpecificProps,
};
use cyberweaver::error::AppError;
use cyberweaver::json::{get, get_str, JsonValue};
use cyberweaver::report::{escape_html, generate_html_report, render_html_report, ReportConfig};
use cyberweaver::stix::{deterministic_stix_id, format_stix_timestamp, to_stix_bundle, StixBundle};
use cyberweaver::stix_import::{
    extract_file_hash, extract_hash_algorithm, extract_indicator_literal, map_relationship_type,
    parse_stix_bundle,
};

fn sample_node(id: &str, node_type: NodeType, label: &str, properties: TypeSpecificProps) -> NodeRecord {
    NodeRecord {
        id: id.to_string(),
        node_type,
        label: label.to_string(),
        description: String::new(),
        properties,
        investigation_id: "inv-1".to_string(),
        created_at: Some("2026-05-25 12:34:56".to_string()),
        updated_at: Some("2026-05-25 13:45:00".to_string()),
    }
}

fn text(s: &str) -> JsonValue {
    JsonValue::Str(s.to_string())
}

fn object(fields: Vec<(&str, JsonValue)>) -> JsonValue {
    JsonValue::Object(fields.into_iter().map(|(k, v)| (k.to_string(), v)).collect())
}

fn field<'a>(v: &'a JsonValue, key: &str) -> &'a str {
    get_str(v, key).expect("string field")
}

fn export_nodes() -> Vec<NodeRecord> {
    vec![
        sample_node(
            "ip-1",
            NodeType::IpAddress,
            "198.51.100.10",
            TypeSpecificProps::IpAddress(IpAddressProps {
                address: "198.51.100.10".to_string(),
                version: Some("ipv4".to_string()),
                geo_location: None,
                asn: None,
                isp: None,
                reputation: None,
            }),
        ),
        sample_node(
            "domain-1",
            NodeType::Domain,
            "evil.example",
            TypeSpecificProps::Domain(DomainProps {
                domain: "evil.example".to_string(),
                registrar: None,
                creation_date: None,
            }),
        ),
        sample_node(
            "hash-1",
            NodeType::FileHash,
            "loader.bin",
            TypeSpecificProps::FileHash(FileHashProps {
                hash_value: "abcd1234".to_string(),
                algorithm: HashAlgorithm::SHA256,
                file_name: Some("loader.bin".to_string()),
                file_size: None,
                file_type: None,
                malware_classification: None,
            }),
        ),
        sample_node(
            "malware-1",
            NodeType::Malware,
            "DarkLoader",
            TypeSpecificProps::Malware(MalwareProps {
                family_name: "DarkLoader".to_string(),
                aliases: vec!["DL".to_string()],
                malware_type: Some("loader".to_string()),
                first_seen: None,
            }),
        ),
        sample_node(
            "actor-1",
            NodeType::ThreatActor,
            "APT-X",
            TypeSpecificProps::ThreatActor(ThreatActorProps {
                name: "APT-X".to_string(),
                aliases: vec![],
                motivation: None,
                sophistication: None,
                targets: vec![],
            }),
        ),
        sample_node(
            "ttp-1",
            NodeType::Ttp,
            "Spearphishing Attachment",
            TypeSpecificProps::Ttp(TtpProps {
                mitre_id: "T1566.001".to_string(),
                tactic: Some("initial-access".to_string()),
                platform: vec![],
                data_source: vec![],
            }),
        ),
        sample_node(
            "asset-1",
            NodeType::Asset,
            "ws-01",
            TypeSpecificProps::Asset(AssetProps {
                hostname: "ws-01".to_string(),
                os: Some("Windows".to_string()),
                ip_addresses: vec![],
                owner: None,
                criticality: None,
            }),
        ),
        sample_node(
            "proc-1",
            NodeType::Process,
            "powershell.exe",
            TypeSpecificProps::Process(ProcessProps::default()),
        ),
    ]
}

#[test]
fn exports_supported_domain_nodes_to_stix_bundle() {
    let nodes = export_nodes();
    let relations = vec![RelationRecord {
        id: "rel-1".to_string(),
        relation_type: RelationType::Uses,
        source_node_id: "actor-1".to_string(),
        target_node_id: "ttp-1".to_string(),
        label: "uses".to_string(),
        first_seen: Some("2026-05-25 13:00:00".to_string()),
        last_seen: Some("2026-05-25 14:00:00".to_string()),
        investigation_id: "inv-1".to_string(),
    }];

    let bundle = to_stix_bundle(&nodes, &relations);

    assert_eq!(bundle.bundle_type, "bundle");
    assert!(bundle.id.starts_with("bundle--"));
    assert_eq!(bundle.objects.len(), 8);

    let indicator = bundle
        .objects
        .iter()
        .find(|o| get_str(o, "type") == Some("indicator") && get_str(o, "name") == Some("198.51.100.10"))
        .expect("expected IP indicator");
    assert_eq!(field(indicator, "pattern"), "[ipv4-addr:value = '198.51.100.10']");
    assert_eq!(field(indicator, "spec_version"), "2.1");
    assert_eq!(field(indicator, "created"), "2026-05-25T12:34:56Z");

    let attack_pattern = bundle
        .objects
        .iter()
        .find(|o| get_str(o, "type") == Some("attack-pattern"))
        .expect("expected attack-pattern");
    let refs = match get(attack_pattern, "external_references") {
        Some(JsonValue::Array(items)) => items,
        _ => panic!("expected external references"),
    };
    assert_eq!(field(&refs[0], "source_name"), "mitre");
    assert_eq!(field(&refs[0], "external_id"), "T1566.001");

    let relationship = bundle
        .objects
        .iter()
        .find(|o| get_str(o, "type") == Some("relationship"))
        .expect("expected relationship");
    assert_eq!(field(relationship, "relationship_type"), "uses");
    assert!(field(relationship, "source_ref").starts_with("threat-actor--"));
    assert!(field(relationship, "target_ref").starts_with("attack-pattern--"));
}

#[test]
fn stix_export_is_deterministic_for_same_graph() {
    let nodes = vec![sample_node(
        "domain-1",
        NodeType::Domain,
        "evil.example",
        TypeSpecificProps::Domain(DomainProps {
            domain: "evil.example".to_string(),
            registrar: None,
            creation_date: None,
        }),
    )];
    let relations = Vec::new();

    let first: StixBundle = to_stix_bundle(&nodes, &relations);
    let second: StixBundle = to_stix_bundle(&nodes, &relations);

    assert_eq!(first.id, second.id);
    assert_eq!(format!("{:?}", first.objects), format!("{:?}", second.objects));
}

#[test]
fn stix_ids_are_typed_name_based_uuids() {
    let id = deterministic_stix_id("indicator", "node-1");
    assert!(id.starts_with("indicator--"));
    assert_eq!(id.len(), "indicator--".len() + 36);
    assert_eq!(id, deterministic_stix_id("indicator", "node-1"));
    assert_ne!(id, deterministic_stix_id("indicator", "node-2"));
    let expected = uuid::Uuid::new_v5(&uuid::Uuid::NAMESPACE_URL, b"cyberweaver:indicator:node-1");
    assert_eq!(id, format!("indicator--{expected}"));
}

#[test]
fn stix_timestamps_are_normalised() {
    assert_eq!(format_stix_timestamp(None), "1970-01-01T00:00:00.000Z");
    assert_eq!(format_stix_timestamp(Some("   ")), "1970-01-01T00:00:00.000Z");
    assert_eq!(format_stix_timestamp(Some("2026-05-25T10:00:00Z")), "2026-05-25T10:00:00Z");
    assert_eq!(format_stix_timestamp(Some("2026-05-25")), "2026-05-25T00:00:00.000Z");
    assert_eq!(format_stix_timestamp(Some(" 2026-05-25 12:34:56 ")), "2026-05-25T12:34:56Z");
    assert_eq!(format_stix_timestamp(Some("2026-05-25T12:34:56")), "2026-05-25T12:34:56Z");
    assert_eq!(format_stix_timestamp(Some("yesterday")), "yesterdayT00:00:00.000Z");
}

#[test]
fn stix_patterns_are_read() {
    let p = "[ipv4-addr:value = '10.0.0.1']";
    assert_eq!(extract_indicator_literal(p, "ipv4-addr:value"), Some("10.0.0.1"));
    assert_eq!(extract_indicator_literal(p, "domain-name:value"), None);
    assert_eq!(extract_indicator_literal("[ipv4-addr:value = '10.0.0.1", "ipv4-addr:value"), None);
    let h = "[file:hashes.SHA-256 = 'abcd']";
    assert_eq!(extract_file_hash(h), Some("abcd"));
    assert_eq!(extract_hash_algorithm(h), HashAlgorithm::SHA256);
    assert_eq!(extract_hash_algorithm("[file:hashes.SHA-1 = 'ab']"), HashAlgorithm::SHA1);
    assert_eq!(extract_hash_algorithm("[file:hashes.MD5 = 'ab']"), HashAlgorithm::MD5);
    assert_eq!(extract_file_hash("[file:name = 'x']"), None);
}

#[test]
fn stix_relationship_types_are_mapped() {
    assert_eq!(map_relationship_type("communicates-with"), RelationType::ConnectsTo);
    assert_eq!(map_relationship_type("drops"), RelationType::Creates);
    assert_eq!(map_relationship_type("attributed-to"), RelationType::BelongsTo);
    assert_eq!(map_relationship_type("consists-of"), RelationType::Contains);
    assert_eq!(map_relationship_type("unknown"), RelationType::ConnectsTo);
    for t in [
        RelationType::ConnectsTo,
        RelationType::ResolvesTo,
        RelationType::Creates,
        RelationType::BelongsTo,
        RelationType::Uses,
        RelationType::Targets,
        RelationType::Contains,
    ] {
        assert_eq!(map_relationship_type(cyberweaver::stix::relation_type_name(&t)), t);
    }
}

fn sample_bundle() -> StixBundle {
    StixBundle {
        bundle_type: "bundle".to_string(),
        id: "bundle--1".to_string(),
        objects: vec![
            object(vec![
                ("type", text("indicator")),
                ("id", text("indicator--a")),
                ("name", text("bad ip")),
                ("pattern", text("[ipv4-addr:value = '10.0.0.1']")),
                ("confidence", JsonValue::Number("85".to_string())),
            ]),
            object(vec![
                ("type", text("malware")),
                ("id", text("malware--b")),
                ("name", text("Loader")),
                ("aliases", JsonValue::Array(vec![text("LD"), JsonValue::Null, text("L2")])),
            ]),
            object(vec![
                ("type", text("relationship")),
                ("id", text("relationship--c")),
                ("relationship_type", text("communicates-with")),
                ("source_ref", text("malware--b")),
                ("target_ref", text("indicator--a")),
            ]),
            object(vec![
                ("type", text("observed-data")),
                ("id", text("observed-data--d")),
                ("object_refs", JsonValue::Array(vec![text("indicator--a"), text("missing--x")])),
                ("first_observed", text("2026-01-01T00:00:00Z")),
            ]),
            object(vec![("type", text("note")), ("id", text("note--e"))]),
        ],
    }
}

#[test]
fn imports_stix_nodes_and_relations() {
    let (nodes, relations) = parse_stix_bundle(&sample_bundle()).expect("bundle should import");
    assert_eq!(nodes.len(), 3);
    assert_eq!(nodes[0].node.node_type, NodeType::IpAddress);
    assert_eq!(nodes[0].node.label, "bad ip");
    assert_eq!(nodes[0].confidence.as_deref(), Some("85"));
    match &nodes[0].node.properties {
        TypeSpecificProps::IpAddress(p) => {
            assert_eq!(p.address, "10.0.0.1");
            assert_eq!(p.version.as_deref(), Some("ipv4"));
        }
        other => panic!("unexpected properties: {other:?}"),
    }
    match &nodes[1].node.properties {
        TypeSpecificProps::Malware(p) => assert_eq!(p.aliases, vec!["LD", "L2"]),
        other => panic!("unexpected properties: {other:?}"),
    }
    assert_eq!(nodes[2].node.node_type, NodeType::Asset);
    match &nodes[2].node.properties {
        TypeSpecificProps::Asset(p) => assert_eq!(p.hostname, "Unnamed Asset"),
        other => panic!("unexpected properties: {other:?}"),
    }
    assert_eq!((nodes[2].column, nodes[2].row), (2, 0));
    assert_eq!(nodes[0].node.id.len(), 36);

    assert_eq!(relations.len(), 2);
    assert_eq!(relations[0].relation.relation_type, RelationType::ConnectsTo);
    assert_eq!(relations[0].relation.source_node_id, nodes[1].node.id);
    assert_eq!(relations[0].relation.target_node_id, nodes[0].node.id);
    assert_eq!(relations[0].relation.label, "communicates-with");
    assert_eq!(relations[1].relation.relation_type, RelationType::Contains);
    assert_eq!(relations[1].relation.source_node_id, nodes[2].node.id);
    assert_eq!(relations[1].relation.target_node_id, nodes[0].node.id);
    assert_eq!(relations[1].relation.first_seen.as_deref(), Some("2026-01-01T00:00:00Z"));
}

#[test]
fn stix_import_refuses_bad_bundles() {
    let mut wrong_type = sample_bundle();
    wrong_type.bundle_type = "report".to_string();
    match parse_stix_bundle(&wrong_type) {
        Err(AppError::Import(m)) => assert_eq!(m, "expected STIX bundle type 'bundle', got 'report'"),
        other => panic!("unexpected result: {other:?}"),
    }

    let mut no_type = sample_bundle();
    no_type.objects.push(object(vec![("id", text("x--1"))]));
    match parse_stix_bundle(&no_type) {
        Err(AppError::Import(m)) => assert_eq!(m, "STIX object missing type"),
        other => panic!("unexpected result: {other:?}"),
    }

    let mut no_id = sample_bundle();
    no_id.objects.push(object(vec![("type", text("malware"))]));
    match parse_stix_bundle(&no_id) {
        Err(AppError::Import(m)) => assert_eq!(m, "STIX object missing string field 'id'"),
        other => panic!("unexpected result: {other:?}"),
    }

    let mut dangling = sample_bundle();
    dangling.objects.push(object(vec![
        ("type", text("relationship")),
        ("relationship_type", text("uses")),
        ("source_ref", text("nowhere--1")),
        ("target_ref", text("indicator--a")),
    ]));
    match parse_stix_bundle(&dangling) {
        Err(AppError::Import(m)) => assert_eq!(m, "relationship source_ref not found: nowhere--1"),
        other => panic!("unexpected result: {other:?}"),
    }
}

#[test]
fn stix_export_then_import_keeps_relation_types() {
    let nodes = export_nodes();
    let relations = vec![RelationRecord {
        id: "rel-1".to_string(),
        relation_type: RelationType::Targets,
        source_node_id: "malware-1".to_string(),
        target_node_id: "asset-1".to_string(),
        label: "hits".to_string(),
        first_seen: None,
        last_seen: None,
        investigation_id: String::new(),
    }];
    let bundle = to_stix_bundle(&nodes, &relations);
    let (imported, imported_relations) = parse_stix_bundle(&bundle).expect("export should import");
    assert_eq!(imported.len(), 7);
    assert_eq!(imported_relations.len(), 1);
    assert_eq!(imported_relations[0].relation.relation_type, RelationType::Targets);
}

#[test]
fn stix_export_then_import_keeps_node_and_relation_types() {
    let nodes: Vec<NodeRecord> = export_nodes().into_iter().filter(|n| n.node_type != NodeType::Process).collect();
    let kinds = [
        RelationType::ResolvesTo,
        RelationType::ConnectsTo,
        RelationType::Creates,
        RelationType::BelongsTo,
        RelationType::Uses,
        RelationType::Targets,
        RelationType::Contains,
    ];
    let mut relations = Vec::new();
    for (j, kind) in kinds.iter().enumerate() {
        relations.push(RelationRecord {
            id: format!("rel-{j}"),
            relation_type: kind.clone(),
            source_node_id: nodes[j % nodes.len()].id.clone(),
            target_node_id: nodes[(j + 1) % nodes.len()].id.clone(),
            label: format!("r{j}"),
            first_seen: None,
            last_seen: None,
            investigation_id: String::new(),
        });
    }
    let bundle = to_stix_bundle(&nodes, &relations);
    let (imported, imported_relations) = parse_stix_bundle(&bundle).expect("export should import");
    assert_eq!(imported.len(), nodes.len());
    for (k, n) in nodes.iter().enumerate() {
        assert_eq!(imported[k].node.node_type, n.node_type);
    }
    assert_eq!(imported_relations.len(), relations.len());
    for (j, r) in relations.iter().enumerate() {
        assert_eq!(imported_relations[j].relation.relation_type, r.relation_type);
    }
}

#[test]
fn stix_values_with_equals_signs_round_trip() {
    let nodes = vec![
        sample_node(
            "d1",
            NodeType::Domain,
            "a=b.example",
            TypeSpecificProps::Domain(DomainProps {
                domain: "a=b.example".to_string(),
                registrar: None,
                creation_date: None,
            }),
        ),
        sample_node(
            "h1",
            NodeType::FileHash,
            "x",
            TypeSpecificProps::FileHash(FileHashProps {
                hash_value: "ab==cd".to_string(),
                algorithm: HashAlgorithm::MD5,
                file_name: None,
                file_size: None,
                file_type: None,
                malware_classification: None,
            }),
        ),
    ];
    let bundle = to_stix_bundle(&nodes, &Vec::new());
    let (imported, _) = parse_stix_bundle(&bundle).expect("export should import");
    assert_eq!(imported[0].node.node_type, NodeType::Domain);
    assert_eq!(imported[1].node.node_type, NodeType::FileHash);
    // Even a value that ends like another field's comparison reads back.
    let ends_like = vec![sample_node(
        "d2",
        NodeType::Domain,
        "x",
        TypeSpecificProps::Domain(DomainProps {
            domain: "x ipv4-addr:value = ".to_string(),
            registrar: None,
            creation_date: None,
        }),
    )];
    let (back, _) = parse_stix_bundle(&to_stix_bundle(&ends_like, &Vec::new())).expect("imports");
    assert_eq!(back[0].node.node_type, NodeType::Domain);
    // A single quote in the value can make the pattern compare another field.
    let quoted = vec![sample_node(
        "d3",
        NodeType::Domain,
        "x",
        TypeSpecificProps::Domain(DomainProps {
            domain: "a' ipv4-addr:value = 'b".to_string(),
            registrar: None,
            creation_date: None,
        }),
    )];
    let (back2, _) = parse_stix_bundle(&to_stix_bundle(&quoted, &Vec::new())).expect("imports");
    assert_eq!(back2[0].node.node_type, NodeType::IpAddress);
}

fn afb_bundle() -> AfbBundle {
    AfbBundle {
        schema_version: "1.0".to_string(),
        id: "bundle-1".to_string(),
        name: "Test Flow".to_string(),
        description: Some("Roundtrip".to_string()),
        actions: vec![
            AfbAction {
                id: "action-1".to_string(),
                name: "Initial Access".to_string(),
                description: Some("Phishing".to_string()),
                action_type: "technique".to_string(),
                positioned: true,
            },
            AfbAction {
                id: "action-2".to_string(),
                name: "Payload".to_string(),
                description: Some("Drop malware".to_string()),
                action_type: "malware".to_string(),
                positioned: true,
            },
        ],
        assets: vec![AfbAsset {
            id: "asset-1".to_string(),
            name: "Workstation".to_string(),
            description: Some("Victim host".to_string()),
            asset_type: Some("critical".to_string()),
            positioned: true,
        }],
        relationships: vec![
            AfbRelationship {
                id: "rel-1".to_string(),
                source_ref: "action-1".to_string(),
                target_ref: "action-2".to_string(),
                relationship_type: "uses".to_string(),
                description: Some("operator uses malware".to_string()),
            },
            AfbRelationship {
                id: "rel-2".to_string(),
                source_ref: "action-2".to_string(),
                target_ref: "asset-1".to_string(),
                relationship_type: "targets".to_string(),
                description: Some("malware targets host".to_string()),
            },
        ],
    }
}

#[test]
fn attack_flow_roundtrip_parse_export_parse_preserves_shape() {
    let (nodes, relations) = parse_attack_flow(&afb_bundle()).expect("initial parse should succeed");
    let records: Vec<NodeRecord> = nodes.iter().map(|n| n.node.clone()).collect();
    let exported = to_attack_flow(&records, &relations);
    let (roundtrip_nodes, roundtrip_relations) =
        parse_attack_flow(&exported.bundle).expect("roundtrip parse should succeed");

    assert_eq!(roundtrip_nodes.len(), nodes.len());
    assert_eq!(roundtrip_relations.len(), relations.len());

    let original_ids: HashSet<_> = nodes.iter().map(|n| n.node.id.as_str()).collect();
    let roundtrip_ids: HashSet<_> = roundtrip_nodes.iter().map(|n| n.node.id.as_str()).collect();
    assert_eq!(roundtrip_ids, original_ids);

    let original_edges: HashSet<_> = relations
        .iter()
        .map(|r| (r.id.as_str(), r.source_node_id.as_str(), r.target_node_id.as_str(), r.relation_type))
        .collect();
    let roundtrip_edges: HashSet<_> = roundtrip_relations
        .iter()
        .map(|r| (r.id.as_str(), r.source_node_id.as_str(), r.target_node_id.as_str(), r.relation_type))
        .collect();
    assert_eq!(roundtrip_edges, original_edges);
}

#[test]
fn attack_flow_import_maps_types_and_fills_gaps() {
    let mut bundle = afb_bundle();
    bundle.actions[0].id = String::new();
    bundle.actions[0].action_type = "operator".to_string();
    bundle.relationships[0].relationship_type = "odd".to_string();
    let (nodes, relations) = parse_attack_flow(&bundle).expect("parse should succeed");
    assert_eq!(nodes[0].node.node_type, NodeType::ThreatActor);
    assert_eq!(nodes[0].node.id.len(), 36);
    assert_eq!(nodes[1].node.node_type, NodeType::Malware);
    assert_eq!(nodes[2].node.node_type, NodeType::Asset);
    assert_eq!((nodes[2].column, nodes[2].row), (2, 0));
    match &nodes[2].node.properties {
        TypeSpecificProps::Asset(p) => assert_eq!(p.criticality.as_deref(), Some("critical")),
        other => panic!("unexpected properties: {other:?}"),
    }
    assert_eq!(relations[0].relation_type, RelationType::ConnectsTo);
    assert_eq!(relations[0].label, "odd");

    bundle.schema_version = "  ".to_string();
    match parse_attack_flow(&bundle) {
        Err(AppError::Import(m)) => assert_eq!(m, "AFB schema_version is required"),
        other => panic!("unexpected result: {other:?}"),
    }
}

#[test]
fn attack_flow_export_splits_actions_and_assets() {
    let nodes = export_nodes();
    let exported = to_attack_flow(&nodes, &Vec::new());
    assert_eq!(exported.bundle.schema_version, "1.0");
    assert_eq!(exported.bundle.name, "CyberWeaver Attack Flow");
    assert_eq!(exported.asset_nodes, vec![0, 1, 2, 6]);
    assert_eq!(exported.action_nodes, vec![3, 4, 5, 7]);
    assert_eq!(exported.bundle.actions[2].action_type, "technique");
    assert_eq!(exported.bundle.assets[0].asset_type.as_deref(), Some("IP 地址"));
    assert_eq!(exported.bundle.assets[3].asset_type, None);
}

#[test]
fn canvas_round_trip_keeps_types_and_labels() {
    let nodes = export_nodes();
    let relations = vec![RelationRecord {
        id: "rel-1".to_string(),
        relation_type: RelationType::Uses,
        source_node_id: "actor-1".to_string(),
        target_node_id: "ttp-1".to_string(),
        label: "uses".to_string(),
        first_seen: None,
        last_seen: None,
        investigation_id: String::new(),
    }];
    let canvas = to_json_canvas(&nodes, &relations);
    assert_eq!(canvas.nodes.len(), 8);
    assert_eq!(
        canvas.nodes[0].text.as_deref(),
        Some("{\"node_type\":\"ip_address\",\"label\":\"198.51.100.10\"}")
    );
    let imported = parse_json_canvas(&canvas);
    assert_eq!(imported.nodes.len(), 8);
    assert_eq!(imported.sources, vec![0, 1, 2, 3, 4, 5, 6, 7]);
    assert_eq!(imported.nodes[5].node_type, NodeType::Ttp);
    assert_eq!(imported.nodes[5].label, "Spearphishing Attachment");
    assert_eq!(imported.relations[0].relation_type, RelationType::ConnectsTo);
    assert_eq!(imported.relations[0].label, "uses");
}

#[test]
fn canvas_round_trip_keeps_ids_and_relation_ends() {
    let nodes = export_nodes();
    let relations = vec![
        RelationRecord {
            id: "rel-1".to_string(),
            relation_type: RelationType::Uses,
            source_node_id: "actor-1".to_string(),
            target_node_id: "ttp-1".to_string(),
            label: "uses".to_string(),
            first_seen: None,
            last_seen: None,
            investigation_id: String::new(),
        },
        RelationRecord {
            id: "rel-2".to_string(),
            relation_type: RelationType::Targets,
            source_node_id: nodes[0].id.clone(),
            target_node_id: nodes[1].id.clone(),
            label: String::new(),
            first_seen: None,
            last_seen: None,
            investigation_id: String::new(),
        },
    ];
    let imported = parse_json_canvas(&to_json_canvas(&nodes, &relations));
    assert_eq!(imported.nodes.len(), nodes.len());
    for (i, n) in nodes.iter().enumerate() {
        assert_eq!(imported.nodes[i].id, n.id);
        assert_eq!(imported.nodes[i].node_type, n.node_type);
        assert_eq!(imported.nodes[i].label, n.label);
    }
    assert_eq!(imported.relations.len(), 2);
    for (j, r) in relations.iter().enumerate() {
        assert_eq!(imported.relations[j].id, r.id);
        assert_eq!(imported.relations[j].source_node_id, r.source_node_id);
        assert_eq!(imported.relations[j].target_node_id, r.target_node_id);
        assert_eq!(imported.relations[j].label, r.label);
        assert_eq!(imported.relations[j].relation_type, RelationType::ConnectsTo);
    }
}

#[test]
fn canvas_labels_are_json_escaped() {
    let nodes = vec![sample_node(
        "n1",
        NodeType::Domain,
        "a\"b\\c\nd\u{1}",
        TypeSpecificProps::Domain(DomainProps::default()),
    )];
    let canvas = to_json_canvas(&nodes, &Vec::new());
    let text = canvas.nodes[0].text.clone().unwrap();
    let label = serde_json::to_string("a\"b\\c\nd\u{1}").unwrap();
    assert_eq!(text, format!("{{\"node_type\":\"domain\",\"label\":{label}}}"));
}

#[test]
fn canvas_import_skips_non_text_nodes() {
    let canvas = JsonCanvas {
        nodes: vec![
            CanvasNode {
                id: "f".to_string(),
                node_type: "file".to_string(),
                color: None,
                text: None,
                file: Some("a.png".to_string()),
                payload: None,
            },
            CanvasNode {
                id: String::new(),
                node_type: "text".to_string(),
                color: None,
                text: Some("just a note".to_string()),
                file: None,
                payload: None,
            },
            CanvasNode {
                id: "t".to_string(),
                node_type: "text".to_string(),
                color: None,
                text: Some("{}".to_string()),
                file: None,
                payload: Some(CanvasPayload { node_type: NodeType::Malware, label: "Evil".to_string() }),
            },
        ],
        edges: vec![CanvasEdge {
            id: String::new(),
            from_node: "t".to_string(),
            to_node: "f".to_string(),
            label: None,
        }],
    };
    let imported = parse_json_canvas(&canvas);
    assert_eq!(imported.sources, vec![1, 2]);
    assert_eq!(imported.nodes[0].node_type, NodeType::Asset);
    assert_eq!(imported.nodes[0].label, "just a note");
    assert_eq!(imported.nodes[0].id.len(), 36);
    assert_eq!(imported.nodes[1].node_type, NodeType::Malware);
    assert_eq!(imported.relations[0].label, "");
    assert_eq!(imported.relations[0].id.len(), 36);
}

fn report_inputs() -> (Vec<NodeRecord>, Vec<String>, Vec<RelationRecord>, ReportConfig) {
    let mut ip = sample_node(
        "node-ip",
        NodeType::IpAddress,
        "8.8.8.8",
        TypeSpecificProps::IpAddress(IpAddressProps {
            address: "8.8.8.8".to_string(),
            version: Some("ipv4".to_string()),
            geo_location: None,
            asn: None,
            isp: None,
            reputation: None,
        }),
    );
    ip.description = "resolver".to_string();
    let domain = sample_node(
        "node-domain",
        NodeType::Domain,
        "evil.example",
        TypeSpecificProps::Domain(DomainProps {
            domain: "evil.example".to_string(),
            registrar: None,
            creation_date: None,
        }),
    );
    let hash = sample_node(
        "node-hash",
        NodeType::FileHash,
        "loader.dll",
        TypeSpecificProps::FileHash(FileHashProps {
            hash_value: "deadbeef".to_string(),
            algorithm: HashAlgorithm::SHA256,
            file_name: Some("loader.dll".to_string()),
            file_size: None,
            file_type: None,
            malware_classification: None,
        }),
    );
    let relations = vec![RelationRecord {
        id: "rel-1".to_string(),
        relation_type: RelationType::ResolvesTo,
        source_node_id: "node-domain".to_string(),
        target_node_id: "node-ip".to_string(),
        label: "dns".to_string(),
        first_seen: None,
        last_seen: None,
        investigation_id: "inv-1".to_string(),
    }];
    let config = ReportConfig {
        title: "Incident Report".to_string(),
        author: "Analyst".to_string(),
        organization: "CyberWeaver".to_string(),
        include_ioc_list: true,
        include_graph_summary: true,
    };
    let confidences = vec!["1.00".to_string(), "0.80".to_string(), "0.70".to_string()];
    (vec![ip, domain, hash], confidences, relations, config)
}

#[test]
fn generates_report_with_expected_sections() {
    let (nodes, confidences, relations, config) = report_inputs();
    let html = generate_html_report(&nodes, &confidences, &relations, &config);

    assert!(html.contains("Incident Report"));
    assert!(html.contains("图谱摘要"));
    assert!(html.contains("IOC 清单"));
    assert!(html.contains("evil.example"));
    assert!(html.contains("8.8.8.8"));
    assert!(html.contains("deadbeef"));
    assert!(html.contains("node_type"));
    assert!(html.contains("relation_type"));
}

#[test]
fn report_rows_counts_and_escaping() {
    let (nodes, confidences, relations, mut config) = report_inputs();
    config.title = "<b>&\"x\"".to_string();
    let html = render_html_report(&nodes, &confidences, &relations, &config, "2026-01-01 00:00:00");
    assert!(html.contains("<title>&lt;b&gt;&amp;&quot;x&quot;</title>"));
    assert!(html.contains("<tr><td>domain</td><td>1</td></tr><tr><td>filehash</td><td>1</td></tr><tr><td>ipaddress</td><td>1</td></tr>"));
    assert!(html.contains("<tr><td>resolvesto</td><td>1</td></tr>"));
    assert!(html.contains("<tr><td>ip_address</td><td>8.8.8.8</td><td>8.8.8.8</td><td>1.00</td></tr>"));
    assert!(html.contains("<span>ioc</span><strong>3</strong>"));
    assert!(html.contains("<span>generated_at</span>2026-01-01 00:00:00"));
    assert!(html.contains(".page {\n      max-width: 1200px;"));
    config.include_ioc_list = false;
    config.include_graph_summary = false;
    let bare = render_html_report(&nodes, &confidences, &relations, &config, "t");
    assert!(!bare.contains("IOC 清单"));
    assert!(!bare.contains("图谱摘要"));
    assert!(bare.contains("<span>nodes</span><strong>3</strong>"));
}

#[test]
fn escapes_html_special_characters() {
    assert_eq!(escape_html("a<b>&\"c'"), "a&lt;b&gt;&amp;&quot;c'");
    assert_eq!(escape_html(""), "");
}
