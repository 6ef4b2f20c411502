//! Running the bundled investigation tools: what each reports for its
//! input, as nodes and relations to add, properties to record on the
//! inspected node and a one-line summary.
//!
//! The tools answer from fixed reference data.  Objects are built with
//! their entries in key order, the order in which a JSON map keeps them.
//! A confidence is given in hundredths.
use vstd::prelude::*;
use vstd::string::StringExecFns;

use crate::json::{
    get_str, is_number, is_object_of, is_text, is_text_array, key_at, number_at, number_entry,
    text_at, text_entry, text_field, text_pair, value_at, JsonValue,
};
use crate::plugins::{GeoIpLookup, VirusTotalTool, WhoisTool};
use crate::text::{owned, replace_char, replaced};

verus! {

/// What a tool is run on: the node it was started from, if any, and its
/// parameters as a JSON object.
#[derive(Debug)]
pub struct ToolInput {
    pub node_id: Option<String>,
    pub params: JsonValue,
}

/// A node a tool reports.
#[derive(Debug)]
pub struct DiscoveredNode {
    pub node_type: String,
    pub label: String,
    pub description: String,
    pub properties: JsonValue,
    pub confidence_percent: u32,
}

/// A relation a tool reports between two node labels.
#[derive(Debug)]
pub struct DiscoveredRelation {
    pub source_label: String,
    pub target_label: String,
    pub relation_type: String,
    pub label: String,
    pub confidence_percent: u32,
}

/// Everything a tool run reports.
#[derive(Debug)]
pub struct ToolOutput {
    pub new_nodes: Vec<DiscoveredNode>,
    pub new_relations: Vec<DiscoveredRelation>,
    pub enriched_properties: JsonValue,
    pub text_summary: String,
}

/// `n` has the given type, label, description and confidence.
pub open spec fn is_discovered_node(
    n: DiscoveredNode,
    node_type: Seq<char>,
    label: Seq<char>,
    description: Seq<char>,
    confidence_percent: u32,
) -> bool {
    &&& n.node_type@ == node_type
    &&& n.label@ == label
    &&& n.description@ == description
    &&& n.confidence_percent == confidence_percent
}

/// `r` links `source` to `target` with the given type, label and
/// confidence.
pub open spec fn is_discovered_relation(
    r: DiscoveredRelation,
    source: Seq<char>,
    target: Seq<char>,
    relation_type: Seq<char>,
    label: Seq<char>,
    confidence_percent: u32,
) -> bool {
    &&& r.source_label@ == source
    &&& r.target_label@ == target
    &&& r.relation_type@ == relation_type
    &&& r.label@ == label
    &&& r.confidence_percent == confidence_percent
}

/// The message of a run whose parameters lack `name`.
pub open spec fn missing_parameter(name: Seq<char>) -> Seq<char> {
    "missing required parameter: "@ + name
}

/// Reads the string parameter `name`, or says that it is missing.
fn required_str<'a>(params: &'a JsonValue, name: &str) -> (r: Result<&'a str, String>)
    ensures
        match r {
            Ok(v) => text_field(*params, name@) == Some(v@),
            Err(e) => text_field(*params, name@) is None && e@ == missing_parameter(name@),
        },
{
    match get_str(params, name) {
        Some(v) => Ok(v),
        None => {
            let mut m = String::from_str("missing required parameter: ");
            m.append(name);
            Err(m)
        },
    }
}

/// `a`, then `b`, as one string.
fn concat2(a: &str, b: &str) -> (r: String)
    ensures
        r@ == a@ + b@,
{
    let mut r = owned(a);
    r.append(b);
    r
}

/// `a`, `b` and `c`, as one string.
fn concat3(a: &str, b: &str, c: &str) -> (r: String)
    ensures
        r@ == a@ + b@ + c@,
{
    let mut r = owned(a);
    r.append(b);
    r.append(c);
    r
}

// ----------------------------------------------------------------------
// VirusTotal
// ----------------------------------------------------------------------

/// The domain the VirusTotal lookup links to `ip`: its dots become hyphens
/// under `edge-…example`.
pub open spec fn related_domain(ip: Seq<char>) -> Seq<char> {
    "edge-"@ + replaced(ip, '.', '-') + ".example"@
}

/// The malware family the VirusTotal lookup reports.
pub open spec fn malware_family() -> Seq<char> {
    "RedLine Stealer"@
}

/// The properties of the reported malware node.
pub open spec fn vt_malware_properties(p: JsonValue) -> bool {
    &&& is_object_of(p, 4)
    &&& text_at(p, 0, "detection_type"@, "family"@)
    &&& key_at(p, 1) == "last_analysis_stats"@
    &&& is_object_of(value_at(p, 1), 3)
    &&& number_at(value_at(p, 1), 0, "harmless"@, "45"@)
    &&& number_at(value_at(p, 1), 1, "malicious"@, "12"@)
    &&& number_at(value_at(p, 1), 2, "suspicious"@, "3"@)
    &&& text_at(p, 2, "sample_sha256"@, "N/A"@)
    &&& text_at(p, 3, "source"@, "VirusTotal (simulated)"@)
}

/// The properties of the reported domain node of `ip`.
pub open spec fn vt_domain_properties(p: JsonValue, ip: Seq<char>) -> bool {
    &&& is_object_of(p, 5)
    &&& text_at(p, 0, "first_seen"@, "2026-05-01T00:00:00Z"@)
    &&& text_at(p, 1, "last_seen"@, "2026-05-25T00:00:00Z"@)
    &&& text_at(p, 2, "registrar"@, "N/A"@)
    &&& text_at(p, 3, "resolution"@, ip)
    &&& text_at(p, 4, "source"@, "VirusTotal (simulated)"@)
}

/// The properties the VirusTotal lookup records on `ip`.
pub open spec fn vt_enriched_properties(p: JsonValue, ip: Seq<char>) -> bool {
    &&& is_object_of(p, 5)
    &&& text_at(p, 0, "analysis_source"@, "VirusTotal (simulated)"@)
    &&& text_at(p, 1, "as_owner"@, "N/A"@)
    &&& text_at(p, 2, "country"@, "N/A"@)
    &&& text_at(p, 3, "ip_address"@, ip)
    &&& text_at(p, 4, "reputation"@, "malicious"@)
}

/// The summary of the VirusTotal lookup of `ip`.
pub open spec fn vt_summary(ip: Seq<char>) -> Seq<char> {
    "VirusTotal simulation indicates "@ + ip
        + " has malicious reputation signals, is linked to malware family "@ + malware_family()
        + ", and is associated with domain "@ + related_domain(ip) + "."@
}

/// What the VirusTotal lookup reports for `ip`: the malware family seen
/// with it and a domain it talks to, linked from `ip`.
pub open spec fn vt_output(out: ToolOutput, ip: Seq<char>) -> bool {
    &&& out.new_nodes@.len() == 2
    &&& is_discovered_node(
        out.new_nodes@[0],
        "malware"@,
        malware_family(),
        "Simulated VirusTotal detection family associated with "@ + ip,
        70,
    )
    &&& vt_malware_properties(out.new_nodes@[0].properties)
    &&& is_discovered_node(
        out.new_nodes@[1],
        "domain"@,
        related_domain(ip),
        "Simulated domain observed resolving to or communicating with "@ + ip,
        60,
    )
    &&& vt_domain_properties(out.new_nodes@[1].properties, ip)
    &&& out.new_relations@.len() == 1
    &&& is_discovered_relation(
        out.new_relations@[0],
        ip,
        related_domain(ip),
        "connects_to"@,
        ip + " connects_to "@ + related_domain(ip),
        60,
    )
    &&& vt_enriched_properties(out.enriched_properties, ip)
    &&& out.text_summary@ == vt_summary(ip)
}

fn vt_malware_node(ip: &str) -> (n: DiscoveredNode)
    ensures
        is_discovered_node(
            n,
            "malware"@,
            malware_family(),
            "Simulated VirusTotal detection family associated with "@ + ip@,
            70,
        ),
        vt_malware_properties(n.properties),
{
    let mut stats: Vec<(String, JsonValue)> = Vec::new();
    stats.push(number_entry("harmless", "45"));
    stats.push(number_entry("malicious", "12"));
    stats.push(number_entry("suspicious", "3"));
    let mut props: Vec<(String, JsonValue)> = Vec::new();
    props.push(text_entry("detection_type", "family"));
    props.push((owned("last_analysis_stats"), JsonValue::Object(stats)));
    props.push(text_entry("sample_sha256", "N/A"));
    props.push(text_entry("source", "VirusTotal (simulated)"));
    DiscoveredNode {
        node_type: owned("malware"),
        label: owned("RedLine Stealer"),
        description: concat2("Simulated VirusTotal detection family associated with ", ip),
        properties: JsonValue::Object(props),
        confidence_percent: 70,
    }
}

fn vt_domain_node(ip: &str, domain: &str) -> (n: DiscoveredNode)
    ensures
        is_discovered_node(
            n,
            "domain"@,
            domain@,
            "Simulated domain observed resolving to or communicating with "@ + ip@,
            60,
        ),
        vt_domain_properties(n.properties, ip@),
{
    let mut props: Vec<(String, JsonValue)> = Vec::new();
    props.push(text_entry("first_seen", "2026-05-01T00:00:00Z"));
    props.push(text_entry("last_seen", "2026-05-25T00:00:00Z"));
    props.push(text_entry("registrar", "N/A"));
    props.push(text_entry("resolution", ip));
    props.push(text_entry("source", "VirusTotal (simulated)"));
    DiscoveredNode {
        node_type: owned("domain"),
        label: owned(domain),
        description: concat2("Simulated domain observed resolving to or communicating with ", ip),
        properties: JsonValue::Object(props),
        confidence_percent: 60,
    }
}

fn vt_enriched(ip: &str) -> (p: JsonValue)
    ensures
        vt_enriched_properties(p, ip@),
{
    let mut props: Vec<(String, JsonValue)> = Vec::new();
    props.push(text_entry("analysis_source", "VirusTotal (simulated)"));
    props.push(text_entry("as_owner", "N/A"));
    props.push(text_entry("country", "N/A"));
    props.push(text_entry("ip_address", ip));
    props.push(text_entry("reputation", "malicious"));
    JsonValue::Object(props)
}

impl VirusTotalTool {
    /// Looks up the `ip_address` parameter: fails when it is not a string,
    /// else reports what [`vt_output`] describes.
    pub fn execute(&self, input: ToolInput) -> (r: Result<ToolOutput, String>)
        ensures
            match r {
                Ok(out) => text_field(input.params, "ip_address"@) matches Some(ip) && vt_output(
                    out,
                    ip,
                ),
                Err(e) => text_field(input.params, "ip_address"@) is None && e@ == missing_parameter(
                    "ip_address"@,
                ),
            },
    {
        let ip = match required_str(&input.params, "ip_address") {
            Ok(ip) => ip,
            Err(e) => {
                return Err(e);
            },
        };
        let dashed = replace_char(ip, '.', '-');
        let domain = concat3("edge-", dashed.as_str(), ".example");
        let mut new_nodes: Vec<DiscoveredNode> = Vec::new();
        new_nodes.push(vt_malware_node(ip));
        new_nodes.push(vt_domain_node(ip, domain.as_str()));
        let mut label = concat2(ip, " connects_to ");
        label.append(domain.as_str());
        let mut new_relations: Vec<DiscoveredRelation> = Vec::new();
        new_relations.push(
            DiscoveredRelation {
                source_label: owned(ip),
                target_label: domain.clone(),
                relation_type: owned("connects_to"),
                label,
                confidence_percent: 60,
            },
        );
        let mut summary = concat3(
            "VirusTotal simulation indicates ",
            ip,
            " has malicious reputation signals, is linked to malware family ",
        );
        summary.append("RedLine Stealer");
        summary.append(", and is associated with domain ");
        summary.append(domain.as_str());
        summary.append(".");
        Ok(
            ToolOutput {
                new_nodes,
                new_relations,
                enriched_properties: vt_enriched(ip),
                text_summary: summary,
            },
        )
    }
}

// ----------------------------------------------------------------------
// WHOIS
// ----------------------------------------------------------------------

/// The address the WHOIS lookup resolves a domain to.
pub open spec fn whois_address() -> Seq<char> {
    "203.0.113.42"@
}

/// The registrar the WHOIS lookup reports.
pub open spec fn whois_registrar() -> Seq<char> {
    "Example Registrar, Inc."@
}

/// The two name servers of `domain`.
pub open spec fn name_servers(domain: Seq<char>) -> Seq<Seq<char>> {
    seq!["ns1."@ + domain, "ns2."@ + domain]
}

/// The properties of the reported address node.
pub open spec fn whois_address_properties(p: JsonValue) -> bool {
    &&& is_object_of(p, 3)
    &&& text_at(p, 0, "hosting_provider"@, "N/A"@)
    &&& text_at(p, 1, "rdns"@, "N/A"@)
    &&& text_at(p, 2, "source"@, "WHOIS (simulated)"@)
}

/// The properties of the reported registration of `domain`.
pub open spec fn whois_domain_properties(p: JsonValue, domain: Seq<char>) -> bool {
    &&& is_object_of(p, 6)
    &&& text_at(p, 0, "creation_date"@, "2021-04-12T00:00:00Z"@)
    &&& text_at(p, 1, "expiration_date"@, "2027-04-12T00:00:00Z"@)
    &&& key_at(p, 2) == "nameservers"@
    &&& is_text_array(value_at(p, 2), name_servers(domain))
    &&& text_at(p, 3, "registrant_org"@, "N/A"@)
    &&& text_at(p, 4, "registrar"@, whois_registrar())
    &&& text_at(p, 5, "source"@, "WHOIS (simulated)"@)
}

/// The properties the WHOIS lookup records on `domain`.
pub open spec fn whois_enriched_properties(p: JsonValue, domain: Seq<char>) -> bool {
    &&& is_object_of(p, 5)
    &&& text_at(p, 0, "creation_date"@, "2021-04-12T00:00:00Z"@)
    &&& text_at(p, 1, "domain"@, domain)
    &&& key_at(p, 2) == "nameservers"@
    &&& is_text_array(value_at(p, 2), name_servers(domain))
    &&& text_at(p, 3, "registrar"@, whois_registrar())
    &&& text_at(p, 4, "status"@, "active"@)
}

/// The summary of the WHOIS lookup of `domain`.
pub open spec fn whois_summary(domain: Seq<char>) -> Seq<char> {
    "WHOIS simulation shows "@ + domain + " registered via "@ + whois_registrar()
        + ", created on 2021-04-12, using nameservers "@ + name_servers(domain)[0] + " and "@
        + name_servers(domain)[1] + ", and resolving to "@ + whois_address() + "."@
}

/// What the WHOIS lookup reports for `domain`: the address it resolves to,
/// its registration record, and the resolution from `domain` to the
/// address.
pub open spec fn whois_output(out: ToolOutput, domain: Seq<char>) -> bool {
    &&& out.new_nodes@.len() == 2
    &&& is_discovered_node(
        out.new_nodes@[0],
        "ip_address"@,
        whois_address(),
        "Simulated A record resolution for domain "@ + domain,
        65,
    )
    &&& whois_address_properties(out.new_nodes@[0].properties)
    &&& is_discovered_node(
        out.new_nodes@[1],
        "domain"@,
        domain,
        "Simulated WHOIS registration record"@,
        85,
    )
    &&& whois_domain_properties(out.new_nodes@[1].properties, domain)
    &&& out.new_relations@.len() == 1
    &&& is_discovered_relation(
        out.new_relations@[0],
        domain,
        whois_address(),
        "resolves_to"@,
        domain + " resolves_to "@ + whois_address(),
        65,
    )
    &&& whois_enriched_properties(out.enriched_properties, domain)
    &&& out.text_summary@ == whois_summary(domain)
}

fn name_server_list(domain: &str) -> (v: JsonValue)
    ensures
        is_text_array(v, name_servers(domain@)),
{
    text_pair(concat2("ns1.", domain), concat2("ns2.", domain))
}

fn whois_address_node(domain: &str) -> (n: DiscoveredNode)
    ensures
        is_discovered_node(
            n,
            "ip_address"@,
            whois_address(),
            "Simulated A record resolution for domain "@ + domain@,
            65,
        ),
        whois_address_properties(n.properties),
{
    let mut props: Vec<(String, JsonValue)> = Vec::new();
    props.push(text_entry("hosting_provider", "N/A"));
    props.push(text_entry("rdns", "N/A"));
    props.push(text_entry("source", "WHOIS (simulated)"));
    DiscoveredNode {
        node_type: owned("ip_address"),
        label: owned("203.0.113.42"),
        description: concat2("Simulated A record resolution for domain ", domain),
        properties: JsonValue::Object(props),
        confidence_percent: 65,
    }
}

fn whois_domain_node(domain: &str) -> (n: DiscoveredNode)
    ensures
        is_discovered_node(n, "domain"@, domain@, "Simulated WHOIS registration record"@, 85),
        whois_domain_properties(n.properties, domain@),
{
    let mut props: Vec<(String, JsonValue)> = Vec::new();
    props.push(text_entry("creation_date", "2021-04-12T00:00:00Z"));
    props.push(text_entry("expiration_date", "2027-04-12T00:00:00Z"));
    props.push((owned("nameservers"), name_server_list(domain)));
    props.push(text_entry("registrant_org", "N/A"));
    props.push(text_entry("registrar", "Example Registrar, Inc."));
    props.push(text_entry("source", "WHOIS (simulated)"));
    DiscoveredNode {
        node_type: owned("domain"),
        label: owned(domain),
        description: owned("Simulated WHOIS registration record"),
        properties: JsonValue::Object(props),
        confidence_percent: 85,
    }
}

fn whois_enriched(domain: &str) -> (p: JsonValue)
    ensures
        whois_enriched_properties(p, domain@),
{
    let mut props: Vec<(String, JsonValue)> = Vec::new();
    props.push(text_entry("creation_date", "2021-04-12T00:00:00Z"));
    props.push(text_entry("domain", domain));
    props.push((owned("nameservers"), name_server_list(domain)));
    props.push(text_entry("registrar", "Example Registrar, Inc."));
    props.push(text_entry("status", "active"));
    JsonValue::Object(props)
}

impl WhoisTool {
    /// Looks up the `domain` parameter: fails when it is not a string, else
    /// reports what [`whois_output`] describes.
    pub fn execute(&self, input: ToolInput) -> (r: Result<ToolOutput, String>)
        ensures
            match r {
                Ok(out) => text_field(input.params, "domain"@) matches Some(d) && whois_output(out, d),
                Err(e) => text_field(input.params, "domain"@) is None && e@ == missing_parameter(
                    "domain"@,
                ),
            },
    {
        let domain = match required_str(&input.params, "domain") {
            Ok(d) => d,
            Err(e) => {
                return Err(e);
            },
        };
        let mut new_nodes: Vec<DiscoveredNode> = Vec::new();
        new_nodes.push(whois_address_node(domain));
        new_nodes.push(whois_domain_node(domain));
        let mut new_relations: Vec<DiscoveredRelation> = Vec::new();
        new_relations.push(
            DiscoveredRelation {
                source_label: owned(domain),
                target_label: owned("203.0.113.42"),
                relation_type: owned("resolves_to"),
                label: concat3(domain, " resolves_to ", "203.0.113.42"),
                confidence_percent: 65,
            },
        );
        let mut summary = concat3("WHOIS simulation shows ", domain, " registered via ");
        summary.append("Example Registrar, Inc.");
        summary.append(", created on 2021-04-12, using nameservers ");
        summary.append("ns1.");
        summary.append(domain);
        summary.append(" and ");
        summary.append("ns2.");
        summary.append(domain);
        summary.append(", and resolving to ");
        summary.append("203.0.113.42");
        summary.append(".");
        assert(summary@ =~= whois_summary(domain@));
        Ok(
            ToolOutput {
                new_nodes,
                new_relations,
                enriched_properties: whois_enriched(domain),
                text_summary: summary,
            },
        )
    }
}

// ----------------------------------------------------------------------
// GeoIP
// ----------------------------------------------------------------------

/// The properties of the reported location profile of `ip`.
pub open spec fn geo_profile_properties(p: JsonValue, ip: Seq<char>) -> bool {
    &&& is_object_of(p, 9)
    &&& text_at(p, 0, "asn"@, "AS13335"@)
    &&& text_at(p, 1, "city"@, "Singapore"@)
    &&& text_at(p, 2, "country"@, "Singapore"@)
    &&& text_at(p, 3, "ip_address"@, ip)
    &&& text_at(p, 4, "isp"@, "Cloudflare, Inc."@)
    &&& number_at(p, 5, "latitude"@, "1.3521"@)
    &&& number_at(p, 6, "longitude"@, "103.8198"@)
    &&& text_at(p, 7, "source"@, "GeoIP (simulated)"@)
    &&& text_at(p, 8, "timezone"@, "Asia/Singapore"@)
}

/// The properties the GeoIP lookup records on `ip`.
pub open spec fn geo_enriched_properties(p: JsonValue, ip: Seq<char>) -> bool {
    &&& is_object_of(p, 6)
    &&& text_at(p, 0, "asn"@, "AS13335"@)
    &&& text_at(p, 1, "city"@, "Singapore"@)
    &&& key_at(p, 2) == "coordinates"@
    &&& is_object_of(value_at(p, 2), 2)
    &&& number_at(value_at(p, 2), 0, "lat"@, "1.3521"@)
    &&& number_at(value_at(p, 2), 1, "lon"@, "103.8198"@)
    &&& text_at(p, 3, "country"@, "Singapore"@)
    &&& text_at(p, 4, "ip_address"@, ip)
    &&& text_at(p, 5, "isp"@, "Cloudflare, Inc."@)
}

/// The summary of the GeoIP lookup of `ip`.
pub open spec fn geo_summary(ip: Seq<char>) -> Seq<char> {
    "GeoIP simulation places "@ + ip
        + " in Singapore, operated by Cloudflare, Inc. under AS13335 at coordinates 1.3521, 103.8198."@
}

/// What the GeoIP lookup reports for `ip`: one location profile, no
/// relation.
pub open spec fn geo_output(out: ToolOutput, ip: Seq<char>) -> bool {
    &&& out.new_nodes@.len() == 1
    &&& is_discovered_node(
        out.new_nodes@[0],
        "asset"@,
        "Geo Profile: "@ + ip,
        "Simulated GeoIP enrichment for "@ + ip + " covering geography and network ownership"@,
        82,
    )
    &&& geo_profile_properties(out.new_nodes@[0].properties, ip)
    &&& out.new_relations@.len() == 0
    &&& geo_enriched_properties(out.enriched_properties, ip)
    &&& out.text_summary@ == geo_summary(ip)
}

fn geo_profile_node(ip: &str) -> (n: DiscoveredNode)
    ensures
        is_discovered_node(
            n,
            "asset"@,
            "Geo Profile: "@ + ip@,
            "Simulated GeoIP enrichment for "@ + ip@ + " covering geography and network ownership"@,
            82,
        ),
        geo_profile_properties(n.properties, ip@),
{
    let mut props: Vec<(String, JsonValue)> = Vec::new();
    props.push(text_entry("asn", "AS13335"));
    props.push(text_entry("city", "Singapore"));
    props.push(text_entry("country", "Singapore"));
    props.push(text_entry("ip_address", ip));
    props.push(text_entry("isp", "Cloudflare, Inc."));
    props.push(number_entry("latitude", "1.3521"));
    props.push(number_entry("longitude", "103.8198"));
    props.push(text_entry("source", "GeoIP (simulated)"));
    props.push(text_entry("timezone", "Asia/Singapore"));
    DiscoveredNode {
        node_type: owned("asset"),
        label: concat2("Geo Profile: ", ip),
        description: concat3(
            "Simulated GeoIP enrichment for ",
            ip,
            " covering geography and network ownership",
        ),
        properties: JsonValue::Object(props),
        confidence_percent: 82,
    }
}

fn geo_enriched(ip: &str) -> (p: JsonValue)
    ensures
        geo_enriched_properties(p, ip@),
{
    let mut coordinates: Vec<(String, JsonValue)> = Vec::new();
    coordinates.push(number_entry("lat", "1.3521"));
    coordinates.push(number_entry("lon", "103.8198"));
    let mut props: Vec<(String, JsonValue)> = Vec::new();
    props.push(text_entry("asn", "AS13335"));
    props.push(text_entry("city", "Singapore"));
    props.push((owned("coordinates"), JsonValue::Object(coordinates)));
    props.push(text_entry("country", "Singapore"));
    props.push(text_entry("ip_address", ip));
    props.push(text_entry("isp", "Cloudflare, Inc."));
    JsonValue::Object(props)
}

impl GeoIpLookup {
    /// Locates the `ip_address` parameter: fails when it is not a string,
    /// else reports what [`geo_output`] describes.
    pub fn execute(&self, input: ToolInput) -> (r: Result<ToolOutput, String>)
        ensures
            match r {
                Ok(out) => text_field(input.params, "ip_address"@) matches Some(ip) && geo_output(
                    out,
                    ip,
                ),
                Err(e) => text_field(input.params, "ip_address"@) is None && e@ == missing_parameter(
                    "ip_address"@,
                ),
            },
    {
        let ip = match required_str(&input.params, "ip_address") {
            Ok(ip) => ip,
            Err(e) => {
                return Err(e);
            },
        };
        let mut new_nodes: Vec<DiscoveredNode> = Vec::new();
        new_nodes.push(geo_profile_node(ip));
        let summary = concat3(
            "GeoIP simulation places ",
            ip,
            " in Singapore, operated by Cloudflare, Inc. under AS13335 at coordinates 1.3521, 103.8198.",
        );
        Ok(
            ToolOutput {
                new_nodes,
                new_relations: Vec::new(),
                enriched_properties: geo_enriched(ip),
                text_summary: summary,
            },
        )
    }
}

} // verus!
