use cyberweaver::enrichment::{DiscoveredNode, ToolInput, ToolOutput};
use cyberweaver::json::{get, get_number, get_str, str_items, JsonValue};
use cyberweaver::plugins::{GeoIpLookup, VirusTotalTool, WhoisTool};

fn params(key: &str, value: &str) -> JsonValue {
    JsonValue::Object(vec![(key.to_string(), JsonValue::Str(value.to_string()))])
}

fn input(key: &str, value: &str) -> ToolInput {
    ToolInput { node_id: None, params: params(key, value) }
}

fn confidence(node: &DiscoveredNode) -> f32 {
    node.confidence_percent as f32 / 100.0
}

fn keys(v: &JsonValue) -> Vec<String> {
    match v {
        JsonValue::Object(entries) => entries.iter().map(|(k, _)| k.clone()).collect(),
        _ => Vec::new(),
    }
}

#[test]
fn execute_returns_simulated_nodes_and_relations() {
    let output: ToolOutput = VirusTotalTool
        .execute(input("ip_address", "8.8.8.8"))
        .expect("tool execution should succeed");

    assert_eq!(output.new_nodes.len(), 2);
    assert_eq!(output.new_relations.len(), 1);
    assert!(output.text_summary.contains("8.8.8.8"));
    assert_eq!(output.new_nodes[0].node_type, "malware");
    assert_eq!(confidence(&output.new_nodes[0]), 0.7);
    assert_eq!(output.new_nodes[1].node_type, "domain");
    assert_eq!(confidence(&output.new_nodes[1]), 0.6);
    assert_eq!(output.new_relations[0].relation_type, "connects_to");
}

#[test]
fn execute_returns_simulated_whois_data() {
    let output = WhoisTool
        .execute(input("domain", "example.org"))
        .expect("tool execution should succeed");

    assert_eq!(output.new_nodes.len(), 2);
    assert_eq!(output.new_relations.len(), 1);
    assert!(output.text_summary.contains("example.org"));
    assert_eq!(output.new_nodes[0].node_type, "ip_address");
    assert_eq!(output.new_nodes[1].node_type, "domain");
    assert_eq!(output.new_relations[0].relation_type, "resolves_to");
}

#[test]
fn execute_returns_simulated_geo_data() {
    let output = GeoIpLookup
        .execute(input("ip_address", "1.1.1.1"))
        .expect("tool execution should succeed");

    assert_eq!(output.new_nodes.len(), 1);
    assert!(output.new_relations.is_empty());
    assert_eq!(output.new_nodes[0].node_type, "asset");
    assert_eq!(confidence(&output.new_nodes[0]), 0.82);
    assert!(output.text_summary.contains("1.1.1.1"));
}

#[test]
fn virustotal_links_the_address_to_its_edge_domain() {
    let output = VirusTotalTool.execute(input("ip_address", "8.8.8.8")).unwrap();
    assert_eq!(output.new_nodes[0].label, "RedLine Stealer");
    assert_eq!(
        output.new_nodes[0].description,
        "Simulated VirusTotal detection family associated with 8.8.8.8"
    );
    assert_eq!(output.new_nodes[1].label, "edge-8-8-8-8.example");
    let relation = &output.new_relations[0];
    assert_eq!(relation.source_label, "8.8.8.8");
    assert_eq!(relation.target_label, "edge-8-8-8-8.example");
    assert_eq!(relation.label, "8.8.8.8 connects_to edge-8-8-8-8.example");
    assert_eq!(relation.confidence_percent, 60);
    assert_eq!(
        output.text_summary,
        "VirusTotal simulation indicates 8.8.8.8 has malicious reputation signals, is linked to malware family RedLine Stealer, and is associated with domain edge-8-8-8-8.example."
    );
    let stats = get(&output.new_nodes[0].properties, "last_analysis_stats").unwrap();
    assert_eq!(get_number(stats, "malicious"), Some("12"));
    assert_eq!(keys(stats), vec!["harmless", "malicious", "suspicious"]);
    assert_eq!(get_str(&output.new_nodes[1].properties, "resolution"), Some("8.8.8.8"));
    assert_eq!(get_str(&output.enriched_properties, "reputation"), Some("malicious"));
    assert_eq!(
        keys(&output.enriched_properties),
        vec!["analysis_source", "as_owner", "country", "ip_address", "reputation"]
    );
}

#[test]
fn virustotal_keeps_an_address_without_dots() {
    let output = VirusTotalTool.execute(input("ip_address", "::1")).unwrap();
    assert_eq!(output.new_nodes[1].label, "edge-::1.example");
}

#[test]
fn whois_reports_registration_and_resolution() {
    let output = WhoisTool.execute(input("domain", "example.org")).unwrap();
    assert_eq!(output.new_nodes[0].label, "203.0.113.42");
    assert_eq!(output.new_nodes[0].confidence_percent, 65);
    assert_eq!(output.new_nodes[1].label, "example.org");
    assert_eq!(output.new_nodes[1].confidence_percent, 85);
    assert_eq!(
        str_items(&output.new_nodes[1].properties, "nameservers"),
        vec!["ns1.example.org", "ns2.example.org"]
    );
    assert_eq!(output.new_relations[0].label, "example.org resolves_to 203.0.113.42");
    assert_eq!(
        output.text_summary,
        "WHOIS simulation shows example.org registered via Example Registrar, Inc., created on 2021-04-12, using nameservers ns1.example.org and ns2.example.org, and resolving to 203.0.113.42."
    );
    assert_eq!(get_str(&output.enriched_properties, "status"), Some("active"));
}

#[test]
fn geoip_reports_a_location_profile() {
    let output = GeoIpLookup.execute(input("ip_address", "1.1.1.1")).unwrap();
    assert_eq!(output.new_nodes[0].label, "Geo Profile: 1.1.1.1");
    assert_eq!(get_number(&output.new_nodes[0].properties, "latitude"), Some("1.3521"));
    let coordinates = get(&output.enriched_properties, "coordinates").unwrap();
    assert_eq!(get_number(coordinates, "lon"), Some("103.8198"));
    assert_eq!(
        output.text_summary,
        "GeoIP simulation places 1.1.1.1 in Singapore, operated by Cloudflare, Inc. under AS13335 at coordinates 1.3521, 103.8198."
    );
}

#[test]
fn tools_refuse_a_missing_parameter() {
    assert_eq!(
        VirusTotalTool.execute(input("domain", "x")).unwrap_err(),
        "missing required parameter: ip_address"
    );
    assert_eq!(
        WhoisTool.execute(input("ip_address", "x")).unwrap_err(),
        "missing required parameter: domain"
    );
    let not_text = ToolInput {
        node_id: None,
        params: JsonValue::Object(vec![("ip_address".to_string(), JsonValue::Number("1".to_string()))]),
    };
    assert_eq!(
        GeoIpLookup.execute(not_text).unwrap_err(),
        "missing required parameter: ip_address"
    );
}
