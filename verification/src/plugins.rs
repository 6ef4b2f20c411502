//! Investigation tools: their manifests, the bundled tools, the prompt
//! section that lists them to the agent, and the plan by which a tool's
//! findings are merged into an investigation.
use vstd::prelude::*;
use vstd::string::StringExecFns;

use crate::domain::{node_type_by_snake, relation_type_by_snake, NodeType, RelationType};
use crate::error::{AppError, ErrorView};
use crate::graph::types::string_views;
use crate::text::{
    find_last_value, join, join_strings, last_value_of, owned, pair_views, trim_end_char,
    trim_end_matches_char,
};

verus! {

// ----------------------------------------------------------------------
// Manifests
// ----------------------------------------------------------------------

/// The type of a tool parameter.
#[derive(Clone, Copy, Debug, PartialEq, Eq, Structural)]
pub enum ParameterType {
    String,
    Integer,
    Float,
    Boolean,
}

/// One parameter a tool accepts.
#[derive(Clone, Debug)]
pub struct ToolParameter {
    pub name: String,
    pub parameter_type: ParameterType,
    pub description: String,
    pub required: bool,
    pub default_value: Option<String>,
}

/// What a tool is, what it takes and which node types it reads and yields.
#[derive(Clone, Debug)]
pub struct ToolManifest {
    pub name: String,
    pub display_name: String,
    pub description: String,
    pub version: String,
    pub author: String,
    pub parameters: Vec<ToolParameter>,
    pub input_types: Vec<String>,
    pub output_types: Vec<String>,
}

/// The name a parameter type is shown with.
pub open spec fn parameter_type_text(t: ParameterType) -> Seq<char> {
    match t {
        ParameterType::String => "String"@,
        ParameterType::Integer => "Integer"@,
        ParameterType::Float => "Float"@,
        ParameterType::Boolean => "Boolean"@,
    }
}

/// The name a parameter type is shown with.
pub fn parameter_type_name(parameter_type: &ParameterType) -> (r: &'static str)
    ensures
        r@ == parameter_type_text(*parameter_type),
{
    match parameter_type {
        ParameterType::String => "String",
        ParameterType::Integer => "Integer",
        ParameterType::Float => "Float",
        ParameterType::Boolean => "Boolean",
    }
}

/// A manifest with one required string parameter.
fn single_parameter_manifest(
    name: &str,
    display_name: &str,
    description: &str,
    parameter: &str,
    parameter_description: &str,
    input_types: Vec<String>,
    output_types: Vec<String>,
) -> (m: ToolManifest)
    ensures
        m.name@ == name@,
        m.display_name@ == display_name@,
        m.description@ == description@,
        m.version@ == "0.1.0"@,
        m.author@ == "CyberWeaver"@,
        m.parameters@.len() == 1,
        m.parameters@[0].name@ == parameter@,
        m.parameters@[0].parameter_type == ParameterType::String,
        m.parameters@[0].description@ == parameter_description@,
        m.parameters@[0].required,
        m.parameters@[0].default_value is None,
        m.input_types@ == input_types@,
        m.output_types@ == output_types@,
{
    let mut parameters: Vec<ToolParameter> = Vec::new();
    parameters.push(
        ToolParameter {
            name: owned(parameter),
            parameter_type: ParameterType::String,
            description: owned(parameter_description),
            required: true,
            default_value: None,
        },
    );
    ToolManifest {
        name: owned(name),
        display_name: owned(display_name),
        description: owned(description),
        version: String::from_str("0.1.0"),
        author: String::from_str("CyberWeaver"),
        parameters,
        input_types,
        output_types,
    }
}

/// A list of two strings.
fn pair_of(a: &str, b: &str) -> (v: Vec<String>)
    ensures
        string_views(v@) == seq![a@, b@],
{
    let mut v: Vec<String> = Vec::new();
    v.push(owned(a));
    v.push(owned(b));
    assert(string_views(v@) =~= seq![a@, b@]);
    v
}

/// A list of one string.
fn one_of(a: &str) -> (v: Vec<String>)
    ensures
        string_views(v@) == seq![a@],
{
    let mut v: Vec<String> = Vec::new();
    v.push(owned(a));
    assert(string_views(v@) =~= seq![a@]);
    v
}

/// The example dynamic plugin: geographic lookup of an IP address.
pub struct GeoIpLookup;

impl Default for GeoIpLookup {
    fn default() -> (r: Self) {
        GeoIpLookup
    }
}

impl GeoIpLookup {
    /// `geoip_lookup`: takes an `ip_address`, yields IP addresses and
    /// assets.
    pub fn manifest(&self) -> (m: ToolManifest)
        ensures
            m.name@ == "geoip_lookup"@,
            m.parameters@.len() == 1,
            m.parameters@[0].name@ == "ip_address"@,
            m.parameters@[0].parameter_type == ParameterType::String,
            m.parameters@[0].required,
            string_views(m.input_types@) == seq!["ip_address"@],
            string_views(m.output_types@) == seq!["ip_address"@, "asset"@],
    {
        single_parameter_manifest(
            "geoip_lookup",
            "GeoIP 地理位置查询",
            "Look up geographical location, ASN, and ISP for an IP address",
            "ip_address",
            "IPv4 or IPv6 address to geolocate",
            one_of("ip_address"),
            pair_of("ip_address", "asset"),
        )
    }
}

/// The bundled VirusTotal reputation lookup of an IP address.
pub struct VirusTotalTool;

impl VirusTotalTool {
    /// `virustotal_ip_lookup`: takes an `ip_address`, yields domains and
    /// malware.
    pub fn manifest(&self) -> (m: ToolManifest)
        ensures
            m.name@ == "virustotal_ip_lookup"@,
            m.parameters@.len() == 1,
            m.parameters@[0].name@ == "ip_address"@,
            m.parameters@[0].parameter_type == ParameterType::String,
            m.parameters@[0].required,
            string_views(m.input_types@) == seq!["ip_address"@],
            string_views(m.output_types@) == seq!["domain"@, "malware"@],
    {
        single_parameter_manifest(
            "virustotal_ip_lookup",
            "VirusTotal IP 查询",
            "Query VirusTotal for IP address reputation, related domains, and malware detections",
            "ip_address",
            "IPv4 or IPv6 address to inspect",
            one_of("ip_address"),
            pair_of("domain", "malware"),
        )
    }
}

/// The bundled WHOIS registration lookup of a domain.
pub struct WhoisTool;

impl WhoisTool {
    /// `whois_domain_lookup`: takes a `domain`, yields IP addresses and
    /// domains.
    pub fn manifest(&self) -> (m: ToolManifest)
        ensures
            m.name@ == "whois_domain_lookup"@,
            m.parameters@.len() == 1,
            m.parameters@[0].name@ == "domain"@,
            m.parameters@[0].parameter_type == ParameterType::String,
            m.parameters@[0].required,
            string_views(m.input_types@) == seq!["domain"@],
            string_views(m.output_types@) == seq!["ip_address"@, "domain"@],
    {
        single_parameter_manifest(
            "whois_domain_lookup",
            "WHOIS 域名查询",
            "Query WHOIS for domain registration info — registrar, creation date, nameservers",
            "domain",
            "Domain name to inspect",
            one_of("domain"),
            pair_of("ip_address", "domain"),
        )
    }
}

/// The manifests of the bundled tools, in registration order.
pub fn builtin_manifests() -> (v: Vec<ToolManifest>)
    ensures
        v@.len() == 2,
        v@[0].name@ == "virustotal_ip_lookup"@,
        v@[1].name@ == "whois_domain_lookup"@,
{
    let mut v: Vec<ToolManifest> = Vec::new();
    v.push(VirusTotalTool.manifest());
    v.push(WhoisTool.manifest());
    v
}

// ----------------------------------------------------------------------
// The tool section of the agent's prompt
// ----------------------------------------------------------------------

/// How one parameter is listed: `name (Type, required).`
pub open spec fn parameter_text(p: ToolParameter) -> Seq<char> {
    p.name@ + " ("@ + parameter_type_text(p.parameter_type) + ", "@ + (if p.required {
        "required"@
    } else {
        "optional"@
    }) + ")."@
}

/// How a list of parameters is listed: `none`, or each parameter,
/// separated by spaces.
pub open spec fn parameters_text(ps: Seq<ToolParameter>) -> Seq<char> {
    if ps.len() == 0 {
        "none"@
    } else {
        join(ps.map_values(|p: ToolParameter| parameter_text(p)), " "@)
    }
}

/// How one tool is listed.
pub open spec fn tool_entry_text(m: ToolManifest) -> Seq<char> {
    "- "@ + m.name@ + ": "@ + trim_end_char(m.description@, '.') + ".\n  Parameters: "@
        + parameters_text(m.parameters@) + " \n  Input types: ["@ + join(
        string_views(m.input_types@),
        ", "@,
    ) + "]. Output types: ["@ + join(string_views(m.output_types@), ", "@) + "]."@
}

/// The section of the agent's prompt that lists the available tools.
pub open spec fn tool_section_text(ms: Seq<ToolManifest>) -> Seq<char> {
    if ms.len() == 0 {
        "Available investigation tools:\n- None currently loaded."@
    } else {
        "Available investigation tools:\n"@ + join(
            ms.map_values(|m: ToolManifest| tool_entry_text(m)),
            "\n"@,
        )
    }
}

fn parameter_line(p: &ToolParameter) -> (r: String)
    ensures
        r@ == parameter_text(*p),
{
    let mut s = owned(p.name.as_str());
    s.append(" (");
    s.append(parameter_type_name(&p.parameter_type));
    s.append(", ");
    if p.required {
        s.append("required");
    } else {
        s.append("optional");
    }
    s.append(").");
    s
}

fn parameters_line(ps: &Vec<ToolParameter>) -> (r: String)
    ensures
        r@ == parameters_text(ps@),
{
    if ps.len() == 0 {
        return String::from_str("none");
    }
    let mut parts: Vec<String> = Vec::new();
    let mut i: usize = 0;
    while i < ps.len()
        invariant
            i <= ps@.len(),
            parts@.len() == i,
            string_views(parts@) == ps@.take(i as int).map_values(
                |p: ToolParameter| parameter_text(p),
            ),
        decreases ps.len() - i,
    {
        let line = parameter_line(&ps[i]);
        let ghost prev = parts@;
        parts.push(line);
        proof {
            let want = ps@.take(i + 1).map_values(|p: ToolParameter| parameter_text(p));
            assert forall|j: int| 0 <= j < want.len() implies string_views(parts@)[j] == want[j] by {
                if j < i {
                    assert(string_views(prev)[j] == ps@.take(i as int).map_values(
                        |p: ToolParameter| parameter_text(p),
                    )[j]);
                }
            }
            assert(string_views(parts@) =~= want);
        }
        i = i + 1;
    }
    assert(ps@.take(i as int) =~= ps@);
    join_strings(&parts, " ")
}

fn tool_entry(m: &ToolManifest) -> (r: String)
    ensures
        r@ == tool_entry_text(*m),
{
    let mut s = String::from_str("- ");
    s.append(m.name.as_str());
    s.append(": ");
    s.append(trim_end_matches_char(m.description.as_str(), '.'));
    s.append(".\n  Parameters: ");
    let params = parameters_line(&m.parameters);
    s.append(params.as_str());
    s.append(" \n  Input types: [");
    let inputs = join_strings(&m.input_types, ", ");
    s.append(inputs.as_str());
    s.append("]. Output types: [");
    let outputs = join_strings(&m.output_types, ", ");
    s.append(outputs.as_str());
    s.append("].");
    s
}

/// Lists the available tools for the agent: one entry per manifest, in
/// order, with its name, description, parameters and node types.
pub fn build_tool_section(tool_manifests: &Vec<ToolManifest>) -> (r: String)
    ensures
        r@ == tool_section_text(tool_manifests@),
{
    if tool_manifests.len() == 0 {
        return String::from_str("Available investigation tools:\n- None currently loaded.");
    }
    let mut entries: Vec<String> = Vec::new();
    let mut i: usize = 0;
    while i < tool_manifests.len()
        invariant
            i <= tool_manifests@.len(),
            entries@.len() == i,
            string_views(entries@) == tool_manifests@.take(i as int).map_values(
                |m: ToolManifest| tool_entry_text(m),
            ),
        decreases tool_manifests.len() - i,
    {
        let e = tool_entry(&tool_manifests[i]);
        let ghost prev = entries@;
        entries.push(e);
        proof {
            let want = tool_manifests@.take(i + 1).map_values(|m: ToolManifest| tool_entry_text(m));
            assert forall|j: int| 0 <= j < want.len() implies string_views(entries@)[j] == want[j] by {
                if j < i {
                    assert(string_views(prev)[j] == tool_manifests@.take(i as int).map_values(
                        |m: ToolManifest| tool_entry_text(m),
                    )[j]);
                }
            }
            assert(string_views(entries@) =~= want);
        }
        i = i + 1;
    }
    assert(tool_manifests@.take(i as int) =~= tool_manifests@);
    let body = join_strings(&entries, "\n");
    let mut s = String::from_str("Available investigation tools:\n");
    s.append(body.as_str());
    s
}

// ----------------------------------------------------------------------
// Plugin files
// ----------------------------------------------------------------------

/// The file extensions of loadable plugin libraries.
pub open spec fn is_plugin_extension(ext: Seq<char>) -> bool {
    ext == "so"@ || ext == "dylib"@ || ext == "dll"@
}

/// Whether a file with this extension (the part of its name after the
/// last dot, if any) is a plugin library.
pub fn is_plugin_file(extension: Option<&str>) -> (r: bool)
    ensures
        r == (extension matches Some(e) && is_plugin_extension(e@)),
{
    match extension {
        Some(e) => crate::text::str_eq(e, "so") || crate::text::str_eq(e, "dylib")
            || crate::text::str_eq(e, "dll"),
        None => false,
    }
}

// ----------------------------------------------------------------------
// Merging a tool's findings into an investigation
// ----------------------------------------------------------------------

/// A node a tool reported, as far as merging reads it.
#[derive(Clone, Debug)]
pub struct FoundNode {
    pub node_type: String,
    pub label: String,
}

/// A relation a tool reported between two labels, as far as merging reads
/// it.
#[derive(Clone, Debug)]
pub struct FoundRelation {
    pub relation_type: String,
    pub source_label: String,
    pub target_label: String,
}

/// A node to be created.
#[derive(Clone, Debug)]
pub struct PlannedNode {
    pub id: String,
    pub node_type: NodeType,
    pub label: String,
}

/// A relation to be created.
#[derive(Clone, Debug)]
pub struct PlannedRelation {
    pub relation_type: RelationType,
    pub source_node_id: String,
    pub target_node_id: String,
}

/// What merging a tool's findings does: the nodes to create (the first
/// ones reported, in order), then the relations to create (likewise), and
/// the error that stopped the merge, if one did.
#[derive(Clone, Debug)]
pub struct MergePlan {
    pub nodes: Vec<PlannedNode>,
    pub relations: Vec<PlannedRelation>,
    pub error: Option<AppError>,
}

/// The pairs added by creating the found nodes with the given IDs.
pub open spec fn created_pairs(nodes: Seq<FoundNode>, ids: Seq<String>) -> Seq<(Seq<char>, Seq<char>)> {
    Seq::new(nodes.len(), |i: int| (nodes[i].label@, ids[i]@))
}

/// Why a found relation cannot be created with the label map `pairs`.
pub open spec fn relation_failure(r: FoundRelation, pairs: Seq<(Seq<char>, Seq<char>)>) -> Option<
    ErrorView,
> {
    if relation_type_by_snake(r.relation_type@) is None {
        Some(ErrorView::InvalidInput("invalid relation_type from tool output: "@ + r.relation_type@))
    } else if last_value_of(pairs, r.source_label@) is None {
        Some(ErrorView::NotFound("node label not found for relation mapping: "@ + r.source_label@))
    } else if last_value_of(pairs, r.target_label@) is None {
        Some(ErrorView::NotFound("node label not found for relation mapping: "@ + r.target_label@))
    } else {
        None
    }
}

/// `p` creates the found node `n` under the ID `id`.
pub open spec fn node_planned(n: FoundNode, id: String, p: PlannedNode) -> bool {
    &&& node_type_by_snake(n.node_type@) == Some(p.node_type)
    &&& p.id@ == id@
    &&& p.label@ == n.label@
}

/// `p` creates the found relation `r`, whose labels map to nodes in
/// `pairs`.
pub open spec fn relation_planned(
    r: FoundRelation,
    pairs: Seq<(Seq<char>, Seq<char>)>,
    p: PlannedRelation,
) -> bool {
    &&& relation_failure(r, pairs) is None
    &&& relation_type_by_snake(r.relation_type@) == Some(p.relation_type)
    &&& last_value_of(pairs, r.source_label@) == Some(p.source_node_id@)
    &&& last_value_of(pairs, r.target_label@) == Some(p.target_node_id@)
}

/// The node ID for `label`: the one paired with it last.
pub fn resolve_node_id(pairs: &Vec<(String, String)>, label: &str) -> (r: Result<String, AppError>)
    ensures
        match r {
            Ok(id) => last_value_of(pair_views(pairs@), label@) == Some(id@),
            Err(e) => last_value_of(pair_views(pairs@), label@) is None && e@ == ErrorView::NotFound(
                "node label not found for relation mapping: "@ + label@,
            ),
        },
{
    match find_last_value(pairs, label) {
        Some(id) => Ok(id.clone()),
        None => {
            let mut m = String::from_str("node label not found for relation mapping: ");
            m.append(label);
            Err(AppError::NotFound(m))
        },
    }
}

/// Plans the merge of a tool's findings into an investigation whose nodes
/// have the (label, ID) pairs `existing`: each found node, in order, is
/// created with the next of `fresh_ids` once its type (in snake_case) is
/// known, and each found relation, in order, once its type is known and
/// both its labels map to a node; the label map holds the existing pairs
/// and then those of the created nodes, a later pair winning over an
/// earlier one.  The first failure stops the merge.
pub fn plan_tool_merge(
    existing: Vec<(String, String)>,
    nodes: &Vec<FoundNode>,
    relations: &Vec<FoundRelation>,
    fresh_ids: &Vec<String>,
) -> (plan: MergePlan)
    requires
        fresh_ids@.len() == nodes@.len(),
    ensures
        plan.nodes@.len() <= nodes@.len(),
        forall|i: int|
            0 <= i < plan.nodes@.len() ==> node_planned(
                nodes@[i],
                fresh_ids@[i],
                #[trigger] plan.nodes@[i],
            ),
        plan.nodes@.len() < nodes@.len() ==> {
            let k = plan.nodes@.len() as int;
            &&& node_type_by_snake(nodes@[k].node_type@) is None
            &&& plan.relations@.len() == 0
            &&& plan.error matches Some(e) && e@ == ErrorView::InvalidInput(
                "invalid node_type from tool output: "@ + nodes@[k].node_type@,
            )
        },
        plan.nodes@.len() == nodes@.len() ==> {
            let pairs = pair_views(existing@) + created_pairs(nodes@, fresh_ids@);
            let m = plan.relations@.len() as int;
            &&& m <= relations@.len()
            &&& forall|j: int|
                0 <= j < m ==> relation_planned(relations@[j], pairs, #[trigger] plan.relations@[j])
            &&& m < relations@.len() ==> (plan.error matches Some(e) && relation_failure(
                relations@[m],
                pairs,
            ) == Some(e@))
            &&& m == relations@.len() ==> plan.error is None
        },
{
    let mut pairs = existing;
    let ghost base = pair_views(pairs@);
    let mut planned_nodes: Vec<PlannedNode> = Vec::new();
    let mut i: usize = 0;
    while i < nodes.len()
        invariant
            i <= nodes@.len(),
            fresh_ids@.len() == nodes@.len(),
            planned_nodes@.len() == i,
            pair_views(pairs@) == base + created_pairs(nodes@.take(i as int), fresh_ids@),
            forall|j: int|
                0 <= j < i ==> node_planned(nodes@[j], fresh_ids@[j], #[trigger] planned_nodes@[j]),
        decreases nodes.len() - i,
    {
        match NodeType::from_snake_name(nodes[i].node_type.as_str()) {
            Some(t) => {
                let ghost prev = pairs@;
                pairs.push((nodes[i].label.clone(), fresh_ids[i].clone()));
                planned_nodes.push(
                    PlannedNode { id: fresh_ids[i].clone(), node_type: t, label: nodes[i].label.clone() },
                );
                assert(pair_views(pairs@) =~= base + created_pairs(nodes@.take(i + 1), fresh_ids@)) by {
                    assert(pair_views(pairs@) =~= pair_views(prev).push((nodes@[i as int].label@, fresh_ids@[i as int]@)));
                }
            },
            None => {
                let mut m = String::from_str("invalid node_type from tool output: ");
                m.append(nodes[i].node_type.as_str());
                return MergePlan {
                    nodes: planned_nodes,
                    relations: Vec::new(),
                    error: Some(AppError::InvalidInput(m)),
                };
            },
        }
        i = i + 1;
    }
    assert(nodes@.take(i as int) =~= nodes@);
    let ghost all_pairs = pair_views(pairs@);
    assert(all_pairs == pair_views(existing@) + created_pairs(nodes@, fresh_ids@));
    let mut planned_relations: Vec<PlannedRelation> = Vec::new();
    let mut j: usize = 0;
    while j < relations.len()
        invariant
            j <= relations@.len(),
            planned_relations@.len() == j,
            fresh_ids@.len() == nodes@.len(),
            planned_nodes@.len() == nodes@.len(),
            forall|q: int|
                0 <= q < nodes@.len() ==> node_planned(nodes@[q], fresh_ids@[q], #[trigger] planned_nodes@[q]),
            all_pairs == pair_views(existing@) + created_pairs(nodes@, fresh_ids@),
            pair_views(pairs@) == all_pairs,
            forall|q: int|
                0 <= q < j ==> relation_planned(relations@[q], all_pairs, #[trigger] planned_relations@[q]),
        decreases relations.len() - j,
    {
        let r = &relations[j];
        let t = match RelationType::from_snake_name(r.relation_type.as_str()) {
            Some(t) => t,
            None => {
                let mut m = String::from_str("invalid relation_type from tool output: ");
                m.append(r.relation_type.as_str());
                return MergePlan {
                    nodes: planned_nodes,
                    relations: planned_relations,
                    error: Some(AppError::InvalidInput(m)),
                };
            },
        };
        let source = match resolve_node_id(&pairs, r.source_label.as_str()) {
            Ok(id) => id,
            Err(e) => {
                return MergePlan { nodes: planned_nodes, relations: planned_relations, error: Some(e) };
            },
        };
        let target = match resolve_node_id(&pairs, r.target_label.as_str()) {
            Ok(id) => id,
            Err(e) => {
                return MergePlan { nodes: planned_nodes, relations: planned_relations, error: Some(e) };
            },
        };
        planned_relations.push(
            PlannedRelation { relation_type: t, source_node_id: source, target_node_id: target },
        );
        j = j + 1;
    }
    MergePlan { nodes: planned_nodes, relations: planned_relations, error: None }
}

} // verus!
