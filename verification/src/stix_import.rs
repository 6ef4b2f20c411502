//! STIX 2.1 import: the node and relation objects of a bundle become
//! investigation nodes and relations.
use vstd::prelude::*;
use vstd::string::StringExecFns;

use crate::domain::{
    AssetProps, DomainProps, FileHashProps, HashAlgorithm, IpAddressProps, MalwareProps, NodeRecord,
    NodeType, RelationRecord, RelationType, ThreatActorProps, TtpProps, TypeSpecificProps,
};
use crate::error::{AppError, ErrorView};
use crate::graph::types::{opt_str_view, string_views};
use crate::ids::{is_hyphenated_uuid, random_uuid};
use crate::stix::{
    export_id_pairs, exported_nodes, exported_relations, field_value, hash_algorithm_text,
    is_stix_export, is_stix_node_object, lemma_node_object_text, lemma_text_object_lookup,
    node_stix_id, pattern_text, relation_exported, relation_stix_text, relationship_fields,
    stix_node_fields, stix_type_of, StixBundle,
};
use crate::json::{
    first_item_str, first_item_text, first_nested_str, first_nested_text, first_str_item,
    first_text_item, get_number, get_str, is_text_object, number_field, str_items, text_field,
    text_items,
    JsonValue,
};
use crate::stix::opt_string_view;
use crate::text::{
    contains, find, find_last_value, first_match, last_value_of, lemma_first_match_unique,
    matches_at, occurs_in, owned, pair_views, str_eq,
};

verus! {

// ----------------------------------------------------------------------
// Indicator patterns
// ----------------------------------------------------------------------

/// What follows the first occurrence of `marker` in `s`, up to the next
/// single quote, if both are there.
pub open spec fn quoted_after(s: Seq<char>, marker: Seq<char>) -> Option<Seq<char>> {
    match first_match(s, marker) {
        Some(i) => {
            let rest = s.skip(i + marker.len());
            match first_match(rest, seq!['\'']) {
                Some(e) => Some(rest.take(e)),
                None => None,
            }
        },
        None => None,
    }
}

/// The literal compared with `field` in an indicator pattern:
/// `<field> = '<literal>'`.
pub open spec fn indicator_literal(pattern: Seq<char>, field: Seq<char>) -> Option<Seq<char>> {
    quoted_after(pattern, field + " = '"@)
}

/// The hash value in a `file:hashes.<algorithm> = '<value>'` pattern.
pub open spec fn file_hash_literal(pattern: Seq<char>) -> Option<Seq<char>> {
    match first_match(pattern, "file:hashes."@) {
        Some(i) => quoted_after(pattern.skip(i + "file:hashes."@.len()), " = '"@),
        None => None,
    }
}

/// The hash algorithm a pattern names: SHA-256 if it mentions `SHA-256`,
/// else SHA-1 if it mentions `SHA-1`, else MD5.
pub open spec fn pattern_hash_algorithm(pattern: Seq<char>) -> HashAlgorithm {
    if occurs_in(pattern, "SHA-256"@) {
        HashAlgorithm::SHA256
    } else if occurs_in(pattern, "SHA-1"@) {
        HashAlgorithm::SHA1
    } else {
        HashAlgorithm::MD5
    }
}

fn quoted_after_marker<'a>(s: &'a str, marker: &str) -> (r: Option<&'a str>)
    ensures
        opt_str_view(r) == quoted_after(s@, marker@),
{
    match find(s, marker) {
        Some(i) => {
            let n = s.unicode_len();
            let start = i + marker.unicode_len();
            let rest = s.substring_char(start, n);
            match find(rest, "'") {
                Some(e) => {
                    proof {
                        reveal_strlit("'");
                        assert("'"@ =~= seq!['\'']);
                    }
                    Some(rest.substring_char(0, e))
                },
                None => {
                    proof {
                        reveal_strlit("'");
                        assert("'"@ =~= seq!['\'']);
                    }
                    None
                },
            }
        },
        None => None,
    }
}

/// The literal compared with `field_name` in an indicator pattern.
pub fn extract_indicator_literal<'a>(pattern: &'a str, field_name: &str) -> (r: Option<&'a str>)
    ensures
        opt_str_view(r) == indicator_literal(pattern@, field_name@),
{
    let mut marker = owned(field_name);
    marker.append(" = '");
    quoted_after_marker(pattern, marker.as_str())
}

/// The hash value in a file-hash pattern.
pub fn extract_file_hash(pattern: &str) -> (r: Option<&str>)
    ensures
        opt_str_view(r) == file_hash_literal(pattern@),
{
    let marker = "file:hashes.";
    match find(pattern, marker) {
        Some(i) => {
            let n = pattern.unicode_len();
            let rest = pattern.substring_char(i + marker.unicode_len(), n);
            quoted_after_marker(rest, " = '")
        },
        None => None,
    }
}

/// The hash algorithm a pattern names.
pub fn extract_hash_algorithm(pattern: &str) -> (r: HashAlgorithm)
    ensures
        r == pattern_hash_algorithm(pattern@),
{
    if contains(pattern, "SHA-256") {
        HashAlgorithm::SHA256
    } else if contains(pattern, "SHA-1") {
        HashAlgorithm::SHA1
    } else {
        HashAlgorithm::MD5
    }
}

// ----------------------------------------------------------------------
// Object types
// ----------------------------------------------------------------------

/// The STIX object types that become nodes.
pub open spec fn is_node_object_type(t: Seq<char>) -> bool {
    t == "indicator"@ || t == "malware"@ || t == "threat-actor"@ || t == "attack-pattern"@ || t
        == "infrastructure"@ || t == "identity"@ || t == "observed-data"@
}

/// Whether objects of this STIX type become nodes.
pub fn is_supported_node_type(object_type: &str) -> (r: bool)
    ensures
        r == is_node_object_type(object_type@),
{
    str_eq(object_type, "indicator") || str_eq(object_type, "malware") || str_eq(
        object_type,
        "threat-actor",
    ) || str_eq(object_type, "attack-pattern") || str_eq(object_type, "infrastructure")
        || str_eq(object_type, "identity") || str_eq(object_type, "observed-data")
}

/// The relation type a STIX relationship type is imported as.
pub open spec fn relation_type_of_stix(name: Seq<char>) -> RelationType {
    if name == "resolves-to"@ {
        RelationType::ResolvesTo
    } else if name == "connects-to"@ || name == "communicates-with"@ {
        RelationType::ConnectsTo
    } else if name == "creates"@ || name == "drops"@ {
        RelationType::Creates
    } else if name == "belongs-to"@ || name == "attributed-to"@ {
        RelationType::BelongsTo
    } else if name == "uses"@ {
        RelationType::Uses
    } else if name == "targets"@ {
        RelationType::Targets
    } else if name == "contains"@ || name == "consists-of"@ {
        RelationType::Contains
    } else {
        RelationType::ConnectsTo
    }
}

/// The relation type a STIX relationship type is imported as (unknown
/// types connect).
pub fn map_relationship_type(name: &str) -> (r: RelationType)
    ensures
        r == relation_type_of_stix(name@),
{
    if str_eq(name, "resolves-to") {
        RelationType::ResolvesTo
    } else if str_eq(name, "connects-to") || str_eq(name, "communicates-with") {
        RelationType::ConnectsTo
    } else if str_eq(name, "creates") || str_eq(name, "drops") {
        RelationType::Creates
    } else if str_eq(name, "belongs-to") || str_eq(name, "attributed-to") {
        RelationType::BelongsTo
    } else if str_eq(name, "uses") {
        RelationType::Uses
    } else if str_eq(name, "targets") {
        RelationType::Targets
    } else if str_eq(name, "contains") || str_eq(name, "consists-of") {
        RelationType::Contains
    } else {
        RelationType::ConnectsTo
    }
}

/// The grid cell (column, row) of the `index`-th imported node: four
/// cells to a row.  The canvas places cell (c, r) at (240 c, 160 r).
pub fn grid_cell(index: usize) -> (r: (usize, usize))
    ensures
        r.0 == index % 4,
        r.1 == index / 4,
{
    (index % 4, index / 4)
}

// ----------------------------------------------------------------------
// Node objects
// ----------------------------------------------------------------------

/// The first of two optional texts that is present.
pub open spec fn or_text(a: Option<Seq<char>>, b: Option<Seq<char>>) -> Option<Seq<char>> {
    match a {
        Some(x) => Some(x),
        None => b,
    }
}

/// An optional text, or the empty text.
pub open spec fn text_or_empty(a: Option<Seq<char>>) -> Seq<char> {
    match a {
        Some(x) => x,
        None => Seq::empty(),
    }
}

/// The label of a STIX object: its `name`, else its `value`, else empty.
pub open spec fn object_label(o: JsonValue) -> Seq<char> {
    text_or_empty(or_text(text_field(o, "name"@), text_field(o, "value"@)))
}

/// `p` is the property set of an indicator whose pattern compares an
/// address field with `v`.
pub open spec fn is_ip_props(p: TypeSpecificProps, v: Seq<char>, version: Seq<char>) -> bool {
    &&& p matches TypeSpecificProps::IpAddress(q)
    &&& q.address@ == v
    &&& opt_string_view(q.version) == Some(version)
    &&& q.geo_location is None
    &&& q.asn is None
    &&& q.isp is None
    &&& q.reputation is None
}

/// `p` is the asset made of a host name alone.
pub open spec fn is_bare_asset(p: TypeSpecificProps, hostname: Seq<char>) -> bool {
    &&& p matches TypeSpecificProps::Asset(q)
    &&& q.hostname@ == hostname
    &&& q.os is None
    &&& q.ip_addresses@.len() == 0
    &&& q.owner is None
    &&& q.criticality is None
}

/// The node an indicator becomes, read from its pattern: an IPv4 or IPv6
/// address, a domain, a file hash, or else an asset named by the label.
pub open spec fn is_indicator_node(o: JsonValue, label: Seq<char>, t: NodeType, p: TypeSpecificProps) -> bool {
    let pattern = text_or_empty(text_field(o, "pattern"@));
    if let Some(v) = indicator_literal(pattern, "ipv4-addr:value"@) {
        t == NodeType::IpAddress && is_ip_props(p, v, "ipv4"@)
    } else if let Some(v) = indicator_literal(pattern, "ipv6-addr:value"@) {
        t == NodeType::IpAddress && is_ip_props(p, v, "ipv6"@)
    } else if let Some(v) = indicator_literal(pattern, "domain-name:value"@) {
        &&& t == NodeType::Domain
        &&& p matches TypeSpecificProps::Domain(q)
        &&& q.domain@ == v
        &&& q.registrar is None
        &&& opt_string_view(q.creation_date) == text_field(o, "valid_from"@)
    } else if let Some(v) = file_hash_literal(pattern) {
        &&& t == NodeType::FileHash
        &&& p matches TypeSpecificProps::FileHash(q)
        &&& q.hash_value@ == v
        &&& q.algorithm == pattern_hash_algorithm(pattern)
        &&& opt_string_view(q.file_name) == (if label.len() > 0 {
            Some(label)
        } else {
            None
        })
        &&& q.file_size is None
        &&& q.file_type is None
        &&& opt_string_view(q.malware_classification) == first_text_item(o, "indicator_types"@)
    } else {
        t == NodeType::Asset && is_bare_asset(p, label)
    }
}

proof fn lemma_object_type_names_distinct()
    ensures
        "indicator"@.len() == 9,
        "malware"@.len() == 7,
        "threat-actor"@.len() == 12,
        "identity"@.len() == 8,
        "attack-pattern"@.len() == 14,
        "infrastructure"@.len() == 14,
        "observed-data"@.len() == 13,
        "relationship"@.len() == 12,
        "attack-pattern"@ != "infrastructure"@,
        "threat-actor"@ != "relationship"@,
{
    reveal_strlit("indicator");
    reveal_strlit("malware");
    reveal_strlit("threat-actor");
    reveal_strlit("identity");
    reveal_strlit("attack-pattern");
    reveal_strlit("infrastructure");
    reveal_strlit("observed-data");
    reveal_strlit("relationship");
    assert("attack-pattern"@[0] != "infrastructure"@[0]);
    assert("threat-actor"@[0] != "relationship"@[0]);
}

/// The node a STIX object of a node type becomes (its type and
/// properties).
pub open spec fn is_object_node(o: JsonValue, otype: Seq<char>, label: Seq<char>, t: NodeType, p: TypeSpecificProps) -> bool {
    if otype == "indicator"@ {
        is_indicator_node(o, label, t, p)
    } else if otype == "malware"@ {
        &&& t == NodeType::Malware
        &&& p matches TypeSpecificProps::Malware(q)
        &&& q.family_name@ == label
        &&& string_views(q.aliases@) == text_items(o, "aliases"@)
        &&& opt_string_view(q.malware_type) == first_text_item(o, "malware_types"@)
        &&& opt_string_view(q.first_seen) == text_field(o, "first_seen"@)
    } else if otype == "threat-actor"@ || otype == "identity"@ {
        &&& t == NodeType::ThreatActor
        &&& p matches TypeSpecificProps::ThreatActor(q)
        &&& q.name@ == label
        &&& string_views(q.aliases@) == text_items(o, "aliases"@)
        &&& opt_string_view(q.motivation) == or_text(
            text_field(o, "primary_motivation"@),
            text_field(o, "identity_class"@),
        )
        &&& opt_string_view(q.sophistication) == text_field(o, "sophistication"@)
        &&& string_views(q.targets@) == text_items(o, "goals"@)
    } else if otype == "attack-pattern"@ {
        &&& t == NodeType::Ttp
        &&& p matches TypeSpecificProps::Ttp(q)
        &&& q.mitre_id@ == text_or_empty(
            or_text(first_nested_text(o, "external_references"@, "external_id"@), Some(label)),
        )
        &&& opt_string_view(q.tactic) == first_item_text(o, "kill_chain_phases"@, "phase_name"@)
        &&& string_views(q.platform@) == text_items(o, "x_mitre_platforms"@)
        &&& string_views(q.data_source@) == text_items(o, "x_mitre_data_sources"@)
    } else {
        &&& t == NodeType::Asset
        &&& p matches TypeSpecificProps::Asset(q)
        &&& q.hostname@ == (if label.len() == 0 {
            "Unnamed Asset"@
        } else {
            label
        })
        &&& q.os is None
        &&& q.ip_addresses@.len() == 0
        &&& opt_string_view(q.owner) == text_field(o, "created_by_ref"@)
        &&& opt_string_view(q.criticality) == or_text(
            first_text_item(o, "infrastructure_types"@),
            first_text_item(o, "labels"@),
        )
    }
}

fn owned_opt(o: Option<&str>) -> (r: Option<String>)
    ensures
        opt_string_view(r) == opt_str_view(o),
{
    match o {
        Some(s) => Some(owned(s)),
        None => None,
    }
}

fn ip_props(address: &str, version: &str) -> (p: TypeSpecificProps)
    ensures
        is_ip_props(p, address@, version@),
{
    TypeSpecificProps::IpAddress(
        IpAddressProps {
            address: owned(address),
            version: Some(owned(version)),
            geo_location: None,
            asn: None,
            isp: None,
            reputation: None,
        },
    )
}

fn bare_asset(hostname: &str) -> (p: TypeSpecificProps)
    ensures
        is_bare_asset(p, hostname@),
{
    TypeSpecificProps::Asset(
        AssetProps {
            hostname: owned(hostname),
            os: None,
            ip_addresses: Vec::new(),
            owner: None,
            criticality: None,
        },
    )
}

/// The node an indicator becomes, read from its pattern.
pub fn parse_indicator_props(object: &JsonValue, label: &str) -> (r: (NodeType, TypeSpecificProps))
    ensures
        is_indicator_node(*object, label@, r.0, r.1),
{
    let pattern = match get_str(object, "pattern") {
        Some(p) => p,
        None => "",
    };
    proof {
        reveal_strlit("");
    }
    assert(pattern@ == text_or_empty(text_field(*object, "pattern"@)));
    if let Some(value) = extract_indicator_literal(pattern, "ipv4-addr:value") {
        let p = ip_props(value, "ipv4");
        assert(indicator_literal(pattern@, "ipv4-addr:value"@) == Some(value@));
        assert(is_ip_props(p, value@, "ipv4"@));
        return (NodeType::IpAddress, p);
    }
    if let Some(value) = extract_indicator_literal(pattern, "ipv6-addr:value") {
        return (NodeType::IpAddress, ip_props(value, "ipv6"));
    }
    if let Some(value) = extract_indicator_literal(pattern, "domain-name:value") {
        return (
            NodeType::Domain,
            TypeSpecificProps::Domain(
                DomainProps {
                    domain: owned(value),
                    registrar: None,
                    creation_date: owned_opt(get_str(object, "valid_from")),
                },
            ),
        );
    }
    if let Some(value) = extract_file_hash(pattern) {
        let file_name = if label.unicode_len() > 0 {
            Some(owned(label))
        } else {
            None
        };
        return (
            NodeType::FileHash,
            TypeSpecificProps::FileHash(
                FileHashProps {
                    hash_value: owned(value),
                    algorithm: extract_hash_algorithm(pattern),
                    file_name,
                    file_size: None,
                    file_type: None,
                    malware_classification: owned_opt(first_str_item(object, "indicator_types")),
                },
            ),
        );
    }
    (NodeType::Asset, bare_asset(label))
}

/// The node a malware object becomes.
pub fn parse_malware_props(object: &JsonValue, label: &str) -> (r: (NodeType, TypeSpecificProps))
    ensures
        is_object_node(*object, "malware"@, label@, r.0, r.1),
{
    proof {
        lemma_object_type_names_distinct();
    }
    (
        NodeType::Malware,
        TypeSpecificProps::Malware(
            MalwareProps {
                family_name: owned(label),
                aliases: str_items(object, "aliases"),
                malware_type: owned_opt(first_str_item(object, "malware_types")),
                first_seen: owned_opt(get_str(object, "first_seen")),
            },
        ),
    )
}

/// The node a threat-actor or identity object becomes.
pub fn parse_threat_actor_props(object: &JsonValue, label: &str) -> (r: (NodeType, TypeSpecificProps))
    ensures
        is_object_node(*object, "threat-actor"@, label@, r.0, r.1),
{
    proof {
        lemma_object_type_names_distinct();
    }
    let motivation = match get_str(object, "primary_motivation") {
        Some(m) => Some(owned(m)),
        None => owned_opt(get_str(object, "identity_class")),
    };
    (
        NodeType::ThreatActor,
        TypeSpecificProps::ThreatActor(
            ThreatActorProps {
                name: owned(label),
                aliases: str_items(object, "aliases"),
                motivation,
                sophistication: owned_opt(get_str(object, "sophistication")),
                targets: str_items(object, "goals"),
            },
        ),
    )
}

/// The node an attack-pattern object becomes: its MITRE ID is the first
/// external ID it cites, else its label.
pub fn parse_ttp_props(object: &JsonValue, label: &str) -> (r: (NodeType, TypeSpecificProps))
    ensures
        is_object_node(*object, "attack-pattern"@, label@, r.0, r.1),
{
    proof {
        lemma_object_type_names_distinct();
    }
    let mitre_id = match first_nested_str(object, "external_references", "external_id") {
        Some(id) => owned(id),
        None => owned(label),
    };
    (
        NodeType::Ttp,
        TypeSpecificProps::Ttp(
            TtpProps {
                mitre_id,
                tactic: owned_opt(first_item_str(object, "kill_chain_phases", "phase_name")),
                platform: str_items(object, "x_mitre_platforms"),
                data_source: str_items(object, "x_mitre_data_sources"),
            },
        ),
    )
}

/// The node an infrastructure or observed-data object becomes.
pub fn parse_asset_props(object: &JsonValue, label: &str) -> (r: (NodeType, TypeSpecificProps))
    ensures
        is_object_node(*object, "infrastructure"@, label@, r.0, r.1),
{
    proof {
        lemma_object_type_names_distinct();
    }
    let hostname = if label.unicode_len() == 0 {
        String::from_str("Unnamed Asset")
    } else {
        owned(label)
    };
    let criticality = match first_str_item(object, "infrastructure_types") {
        Some(c) => Some(owned(c)),
        None => owned_opt(first_str_item(object, "labels")),
    };
    (
        NodeType::Asset,
        TypeSpecificProps::Asset(
            AssetProps {
                hostname,
                os: None,
                ip_addresses: Vec::new(),
                owner: owned_opt(get_str(object, "created_by_ref")),
                criticality,
            },
        ),
    )
}

// ----------------------------------------------------------------------
// Imported items
// ----------------------------------------------------------------------

/// A node read from a bundle, with the decimal text of its STIX
/// `confidence` (0 to 100), if it has one, and its grid cell.
#[derive(Clone, Debug)]
pub struct ImportedNode {
    pub node: NodeRecord,
    pub confidence: Option<String>,
    pub column: usize,
    pub row: usize,
}

/// A relation read from a bundle, with the decimal text of its STIX
/// `confidence` (0 to 100), if it has one.
#[derive(Clone, Debug)]
pub struct ImportedRelation {
    pub relation: RelationRecord,
    pub confidence: Option<String>,
}

/// `n` is the node made of the `index`-th node object `o`.
pub open spec fn is_imported_node(o: JsonValue, index: int, n: ImportedNode) -> bool {
    let label = object_label(o);
    &&& text_field(o, "type"@) matches Some(t) && is_object_node(
        o,
        t,
        label,
        n.node.node_type,
        n.node.properties,
    )
    &&& is_hyphenated_uuid(n.node.id@)
    &&& n.node.label@ == label
    &&& n.node.description@ == text_or_empty(text_field(o, "description"@))
    &&& n.node.investigation_id@ == Seq::<char>::empty()
    &&& opt_string_view(n.node.created_at) == or_text(
        text_field(o, "created"@),
        text_field(o, "first_observed"@),
    )
    &&& opt_string_view(n.node.updated_at) == or_text(
        text_field(o, "modified"@),
        text_field(o, "last_observed"@),
    )
    &&& opt_string_view(n.confidence) == number_field(o, "confidence"@)
    &&& n.column == index % 4
    &&& n.row == index / 4
}

fn missing_field(key: &str) -> (e: AppError)
    ensures
        e@ == ErrorView::Import("STIX object missing string field '"@ + key@ + "'"@),
{
    let mut m = String::from_str("STIX object missing string field '");
    m.append(key);
    m.append("'");
    AppError::Import(m)
}

/// The node made of a STIX object of a node type, placed at the
/// `index`-th grid cell, under a new random ID.
pub fn parse_node_object(object: &JsonValue, index: usize) -> (r: Result<ImportedNode, AppError>)
    ensures
        match r {
            Ok(n) => text_field(*object, "type"@) matches Some(t) && is_node_object_type(t)
                && is_imported_node(*object, index as int, n),
            Err(e) => match text_field(*object, "type"@) {
                None => e@ == ErrorView::Import("STIX object missing string field '"@ + "type"@ + "'"@),
                Some(t) => !is_node_object_type(t) && e@ == ErrorView::Import(
                    "unsupported STIX object type for node conversion: "@ + t,
                ),
            },
        },
{
    proof {
        lemma_object_type_names_distinct();
    }
    let object_type = match get_str(object, "type") {
        Some(t) => t,
        None => {
            return Err(missing_field("type"));
        },
    };
    let label = match get_str(object, "name") {
        Some(l) => owned(l),
        None => match get_str(object, "value") {
            Some(l) => owned(l),
            None => String::new(),
        },
    };
    let description = match get_str(object, "description") {
        Some(d) => owned(d),
        None => String::new(),
    };
    let (node_type, properties) = if str_eq(object_type, "indicator") {
        parse_indicator_props(object, label.as_str())
    } else if str_eq(object_type, "malware") {
        parse_malware_props(object, label.as_str())
    } else if str_eq(object_type, "threat-actor") || str_eq(object_type, "identity") {
        parse_threat_actor_props(object, label.as_str())
    } else if str_eq(object_type, "attack-pattern") {
        parse_ttp_props(object, label.as_str())
    } else if str_eq(object_type, "infrastructure") || str_eq(object_type, "observed-data") {
        parse_asset_props(object, label.as_str())
    } else {
        let mut m = String::from_str("unsupported STIX object type for node conversion: ");
        m.append(object_type);
        return Err(AppError::Import(m));
    };
    let created_at = match get_str(object, "created") {
        Some(c) => Some(owned(c)),
        None => owned_opt(get_str(object, "first_observed")),
    };
    let updated_at = match get_str(object, "modified") {
        Some(u) => Some(owned(u)),
        None => owned_opt(get_str(object, "last_observed")),
    };
    let cell = grid_cell(index);
    Ok(
        ImportedNode {
            node: NodeRecord {
                id: random_uuid(),
                node_type,
                label,
                description,
                properties,
                investigation_id: String::new(),
                created_at,
                updated_at,
            },
            confidence: owned_opt(get_number(object, "confidence")),
            column: cell.0,
            row: cell.1,
        },
    )
}

/// The abstract content of an imported relation: everything but its
/// random ID.
pub struct RelationShape {
    pub relation_type: RelationType,
    pub source: Seq<char>,
    pub target: Seq<char>,
    pub label: Seq<char>,
    pub confidence: Option<Seq<char>>,
    pub first_seen: Option<Seq<char>>,
    pub last_seen: Option<Seq<char>>,
}

/// The abstract content of an imported relation.
pub open spec fn shape_of(r: ImportedRelation) -> RelationShape {
    RelationShape {
        relation_type: r.relation.relation_type,
        source: r.relation.source_node_id@,
        target: r.relation.target_node_id@,
        label: r.relation.label@,
        confidence: opt_string_view(r.confidence),
        first_seen: opt_string_view(r.relation.first_seen),
        last_seen: opt_string_view(r.relation.last_seen),
    }
}

/// An imported relation has a fresh random ID and no investigation yet.
pub open spec fn is_fresh_relation(r: ImportedRelation) -> bool {
    is_hyphenated_uuid(r.relation.id@) && r.relation.investigation_id@ == Seq::<char>::empty()
}

/// Why a relationship object cannot be imported when the original IDs of
/// the imported nodes are `ids`.
pub open spec fn relationship_failure(o: JsonValue, ids: Seq<Seq<char>>) -> Option<ErrorView> {
    match text_field(o, "source_ref"@) {
        None => Some(ErrorView::Import("STIX object missing string field '"@ + "source_ref"@ + "'"@)),
        Some(s) => match text_field(o, "target_ref"@) {
            None => Some(
                ErrorView::Import("STIX object missing string field '"@ + "target_ref"@ + "'"@),
            ),
            Some(t) => if !ids.contains(s) {
                Some(ErrorView::Import("relationship source_ref not found: "@ + s))
            } else if !ids.contains(t) {
                Some(ErrorView::Import("relationship target_ref not found: "@ + t))
            } else if text_field(o, "relationship_type"@) is None {
                Some(
                    ErrorView::Import(
                        "STIX object missing string field '"@ + "relationship_type"@ + "'"@,
                    ),
                )
            } else {
                None
            },
        },
    }
}

/// The relation a resolvable relationship object becomes, under the map
/// `pairs` from original IDs to node IDs.
pub open spec fn relationship_shape(o: JsonValue, pairs: Seq<(Seq<char>, Seq<char>)>) -> RelationShape {
    let rt = text_field(o, "relationship_type"@).unwrap();
    RelationShape {
        relation_type: relation_type_of_stix(rt),
        source: last_value_of(pairs, text_field(o, "source_ref"@).unwrap()).unwrap(),
        target: last_value_of(pairs, text_field(o, "target_ref"@).unwrap()).unwrap(),
        label: rt,
        confidence: number_field(o, "confidence"@),
        first_seen: text_field(o, "start_time"@),
        last_seen: text_field(o, "stop_time"@),
    }
}

/// The keys of an association list.
pub open spec fn keys_of(pairs: Seq<(Seq<char>, Seq<char>)>) -> Seq<Seq<char>> {
    pairs.map_values(|p: (Seq<char>, Seq<char>)| p.0)
}

proof fn lemma_last_value_present(pairs: Seq<(Seq<char>, Seq<char>)>, k: Seq<char>)
    ensures
        (last_value_of(pairs, k) is Some) == keys_of(pairs).contains(k),
    decreases pairs.len(),
{
    if pairs.len() > 0 {
        lemma_last_value_present(pairs.drop_last(), k);
        assert(keys_of(pairs.drop_last()) =~= keys_of(pairs).drop_last());
        if pairs.last().0 == k {
            assert(keys_of(pairs)[pairs.len() - 1] == k);
        } else if keys_of(pairs).contains(k) {
            let i = choose|i: int| 0 <= i < keys_of(pairs).len() && keys_of(pairs)[i] == k;
            assert(i < pairs.len() - 1);
            assert(keys_of(pairs.drop_last())[i] == k);
        }
    } else {
        assert(!keys_of(pairs).contains(k));
    }
}

/// The relation a relationship object becomes, with a new random ID,
/// under the map `pairs` from original STIX IDs to node IDs (a later pair
/// winning).
pub fn parse_relationship_object(object: &JsonValue, pairs: &Vec<(String, String)>) -> (r: Result<
    ImportedRelation,
    AppError,
>)
    ensures
        match r {
            Ok(rel) => relationship_failure(*object, keys_of(pair_views(pairs@))) is None
                && shape_of(rel) == relationship_shape(*object, pair_views(pairs@))
                && is_fresh_relation(rel),
            Err(e) => relationship_failure(*object, keys_of(pair_views(pairs@))) == Some(e@),
        },
{
    let source_ref = match get_str(object, "source_ref") {
        Some(s) => s,
        None => {
            return Err(missing_field("source_ref"));
        },
    };
    let target_ref = match get_str(object, "target_ref") {
        Some(t) => t,
        None => {
            return Err(missing_field("target_ref"));
        },
    };
    proof {
        lemma_last_value_present(pair_views(pairs@), source_ref@);
        lemma_last_value_present(pair_views(pairs@), target_ref@);
    }
    let source_node_id = match find_last_value(pairs, source_ref) {
        Some(id) => id.clone(),
        None => {
            let mut m = String::from_str("relationship source_ref not found: ");
            m.append(source_ref);
            return Err(AppError::Import(m));
        },
    };
    let target_node_id = match find_last_value(pairs, target_ref) {
        Some(id) => id.clone(),
        None => {
            let mut m = String::from_str("relationship target_ref not found: ");
            m.append(target_ref);
            return Err(AppError::Import(m));
        },
    };
    let relationship_type = match get_str(object, "relationship_type") {
        Some(t) => t,
        None => {
            return Err(missing_field("relationship_type"));
        },
    };
    Ok(
        ImportedRelation {
            relation: RelationRecord {
                id: random_uuid(),
                relation_type: map_relationship_type(relationship_type),
                source_node_id,
                target_node_id,
                label: owned(relationship_type),
                first_seen: owned_opt(get_str(object, "start_time")),
                last_seen: owned_opt(get_str(object, "stop_time")),
                investigation_id: String::new(),
            },
            confidence: owned_opt(get_number(object, "confidence")),
        },
    )
}

/// The `contains` relations an observed-data object with node ID
/// `source` yields for the string items of its `object_refs` (those that
/// map to a node), in order.
pub open spec fn contains_shapes(
    items: Seq<JsonValue>,
    source: Seq<char>,
    pairs: Seq<(Seq<char>, Seq<char>)>,
    first_seen: Option<Seq<char>>,
    last_seen: Option<Seq<char>>,
) -> Seq<RelationShape>
    decreases items.len(),
{
    if items.len() == 0 {
        Seq::empty()
    } else {
        let rest = contains_shapes(items.drop_last(), source, pairs, first_seen, last_seen);
        match items.last() {
            JsonValue::Str(t) => match last_value_of(pairs, t@) {
                Some(target) => rest.push(
                    RelationShape {
                        relation_type: RelationType::Contains,
                        source,
                        target,
                        label: "contains"@,
                        confidence: None,
                        first_seen,
                        last_seen,
                    },
                ),
                None => rest,
            },
            _ => rest,
        }
    }
}

/// The relations an observed-data object yields: one `contains` relation
/// from its own node to each node it refers to.
pub open spec fn observed_shapes(o: JsonValue, pairs: Seq<(Seq<char>, Seq<char>)>) -> Seq<RelationShape> {
    match text_field(o, "id"@) {
        None => Seq::empty(),
        Some(id) => match last_value_of(pairs, id) {
            None => Seq::empty(),
            Some(source) => match crate::json::as_items(crate::json::json_get(o, "object_refs"@)) {
                Some(items) => contains_shapes(
                    items,
                    source,
                    pairs,
                    text_field(o, "first_observed"@),
                    text_field(o, "last_observed"@),
                ),
                None => Seq::empty(),
            },
        },
    }
}

/// The `contains` relations of an observed-data object, each under a new
/// random ID.
pub fn parse_observed_data_relationships(object: &JsonValue, pairs: &Vec<(String, String)>) -> (r: Vec<
    ImportedRelation,
>)
    ensures
        r@.map_values(|x: ImportedRelation| shape_of(x)) == observed_shapes(*object, pair_views(pairs@)),
        forall|i: int| 0 <= i < r@.len() ==> is_fresh_relation(#[trigger] r@[i]),
{
    let mut out: Vec<ImportedRelation> = Vec::new();
    let source_ref = match get_str(object, "id") {
        Some(s) => s,
        None => {
            return out;
        },
    };
    let source_node_id = match find_last_value(pairs, source_ref) {
        Some(id) => id,
        None => {
            return out;
        },
    };
    match crate::json::get(object, "object_refs") {
        Some(JsonValue::Array(items)) => {
            let first_seen = get_str(object, "first_observed");
            let last_seen = get_str(object, "last_observed");
            let ghost pv = pair_views(pairs@);
            let mut i: usize = 0;
            while i < items.len()
                invariant
                    i <= items@.len(),
                    pv == pair_views(pairs@),
                    out@.map_values(|x: ImportedRelation| shape_of(x)) == contains_shapes(
                        items@.take(i as int),
                        source_node_id@,
                        pv,
                        opt_str_view(first_seen),
                        opt_str_view(last_seen),
                    ),
                    forall|k: int| 0 <= k < out@.len() ==> is_fresh_relation(#[trigger] out@[k]),
                decreases items.len() - i,
            {
                assert(items@.take(i + 1).drop_last() =~= items@.take(i as int));
                let ghost prev = out@;
                match &items[i] {
                    JsonValue::Str(t) => {
                        match find_last_value(pairs, t.as_str()) {
                            Some(target) => {
                                let rel = ImportedRelation {
                                    relation: RelationRecord {
                                        id: random_uuid(),
                                        relation_type: RelationType::Contains,
                                        source_node_id: source_node_id.clone(),
                                        target_node_id: target.clone(),
                                        label: String::from_str("contains"),
                                        first_seen: owned_opt(first_seen),
                                        last_seen: owned_opt(last_seen),
                                        investigation_id: String::new(),
                                    },
                                    confidence: None,
                                };
                                out.push(rel);
                                assert(out@.map_values(|x: ImportedRelation| shape_of(x)) =~= prev.map_values(
                                    |x: ImportedRelation| shape_of(x),
                                ).push(shape_of(out@[prev.len() as int])));
                            },
                            None => {},
                        }
                    },
                    _ => {},
                }
                assert(out@.map_values(|x: ImportedRelation| shape_of(x)) == contains_shapes(
                    items@.take(i + 1),
                    source_node_id@,
                    pv,
                    opt_str_view(first_seen),
                    opt_str_view(last_seen),
                ));
                i = i + 1;
            }
            assert(items@.take(i as int) =~= items@);
        },
        _ => {},
    }
    out
}

/// A bundle object that becomes a node.
pub open spec fn is_node_object(o: JsonValue) -> bool {
    text_field(o, "type"@) matches Some(t) && is_node_object_type(t)
}

/// The objects of a bundle that become nodes, in order.
pub open spec fn node_objects(objects: Seq<JsonValue>) -> Seq<JsonValue> {
    objects.filter(|o: JsonValue| is_node_object(o))
}

/// The original STIX IDs of the objects that become nodes, in order.
pub open spec fn node_original_ids(objects: Seq<JsonValue>) -> Seq<Seq<char>> {
    node_objects(objects).map_values(|o: JsonValue| text_field(o, "id"@).unwrap())
}

/// Why an object stops the first reading of a bundle: it has no type, or
/// it becomes a node but has no ID.
pub open spec fn scan_failure(o: JsonValue) -> Option<ErrorView> {
    match text_field(o, "type"@) {
        None => Some(ErrorView::Import("STIX object missing type"@)),
        Some(t) => if is_node_object_type(t) && text_field(o, "id"@) is None {
            Some(ErrorView::Import("STIX object missing string field '"@ + "id"@ + "'"@))
        } else {
            None
        },
    }
}

/// Why an object stops the second reading of a bundle, given the original
/// IDs of the imported nodes.
pub open spec fn link_failure(o: JsonValue, ids: Seq<Seq<char>>) -> Option<ErrorView> {
    if text_field(o, "type"@) == Some("relationship"@) {
        relationship_failure(o, ids)
    } else {
        None
    }
}

/// The failure of the first object that fails, if any.
pub open spec fn first_failure(objects: Seq<JsonValue>, fails: spec_fn(JsonValue) -> Option<ErrorView>) -> Option<ErrorView>
    decreases objects.len(),
{
    if objects.len() == 0 {
        None
    } else {
        match first_failure(objects.drop_last(), fails) {
            Some(e) => Some(e),
            None => fails(objects.last()),
        }
    }
}

/// The relations an object yields.
pub open spec fn object_shapes(o: JsonValue, pairs: Seq<(Seq<char>, Seq<char>)>) -> Seq<RelationShape> {
    if text_field(o, "type"@) == Some("relationship"@) {
        seq![relationship_shape(o, pairs)]
    } else if text_field(o, "type"@) == Some("observed-data"@) {
        observed_shapes(o, pairs)
    } else {
        Seq::empty()
    }
}

/// The relations the objects yield, in order.
pub open spec fn bundle_shapes(objects: Seq<JsonValue>, pairs: Seq<(Seq<char>, Seq<char>)>) -> Seq<
    RelationShape,
>
    decreases objects.len(),
{
    if objects.len() == 0 {
        Seq::empty()
    } else {
        bundle_shapes(objects.drop_last(), pairs) + object_shapes(objects.last(), pairs)
    }
}

/// Original STIX ID -> node ID, for the imported nodes, in order.
pub open spec fn import_pairs(objects: Seq<JsonValue>, nodes: Seq<ImportedNode>) -> Seq<(Seq<char>, Seq<char>)> {
    Seq::new(nodes.len(), |k: int| (node_original_ids(objects)[k], nodes[k].node.id@))
}

proof fn lemma_first_failure_settled(
    objects: Seq<JsonValue>,
    i: int,
    fails: spec_fn(JsonValue) -> Option<ErrorView>,
)
    requires
        0 <= i <= objects.len(),
        first_failure(objects.take(i), fails) is Some,
    ensures
        first_failure(objects, fails) == first_failure(objects.take(i), fails),
    decreases objects.len() - i,
{
    if i < objects.len() {
        assert(objects.take(i + 1).drop_last() =~= objects.take(i));
        lemma_first_failure_settled(objects, i + 1, fails);
    } else {
        assert(objects.take(i) =~= objects);
    }
}

/// `r` is what reading `bundle` gives (see `parse_stix_bundle`).
pub open spec fn is_stix_import(
    bundle: StixBundle,
    r: Result<(Vec<ImportedNode>, Vec<ImportedRelation>), AppError>,
) -> bool {
    match r {
        Err(e) => if bundle.bundle_type@ != "bundle"@ {
            e@ == ErrorView::Import(
                "expected STIX bundle type 'bundle', got '"@ + bundle.bundle_type@ + "'"@,
            )
        } else if first_failure(bundle.objects@, |o: JsonValue| scan_failure(o)) is Some {
            first_failure(bundle.objects@, |o: JsonValue| scan_failure(o)) == Some(e@)
        } else {
            first_failure(
                bundle.objects@,
                |o: JsonValue| link_failure(o, node_original_ids(bundle.objects@)),
            ) == Some(e@)
        },
        Ok((nodes, relations)) => {
            &&& bundle.bundle_type@ == "bundle"@
            &&& first_failure(bundle.objects@, |o: JsonValue| scan_failure(o)) is None
            &&& first_failure(
                bundle.objects@,
                |o: JsonValue| link_failure(o, node_original_ids(bundle.objects@)),
            ) is None
            &&& nodes@.len() == node_objects(bundle.objects@).len()
            &&& forall|k: int|
                0 <= k < nodes@.len() ==> is_imported_node(
                    node_objects(bundle.objects@)[k],
                    k,
                    #[trigger] nodes@[k],
                )
            &&& relations@.map_values(|x: ImportedRelation| shape_of(x)) == bundle_shapes(
                bundle.objects@,
                import_pairs(bundle.objects@, nodes@),
            )
            &&& forall|k: int| 0 <= k < relations@.len() ==> is_fresh_relation(#[trigger] relations@[k])
        },
    }
}

/// Reads the nodes and relations of a STIX bundle.  Each object of a node
/// type (indicator, malware, threat actor, attack pattern,
/// infrastructure, identity, observed data) becomes a node with a new
/// random ID, in order; then each relationship object becomes a relation
/// and each observed-data object a `contains` relation to each node it
/// refers to, in order, their endpoints mapped from original STIX IDs to
/// the new node IDs (a later object winning).  A bundle of another type,
/// an object without a type, a node object without an ID, or a
/// relationship that cannot be resolved stops the import with the first
/// such error.
pub fn parse_stix_bundle(bundle: &StixBundle) -> (r: Result<(Vec<ImportedNode>, Vec<ImportedRelation>), AppError>)
    ensures
        is_stix_import(*bundle, r),
{
    if !str_eq(bundle.bundle_type.as_str(), "bundle") {
        let mut m = String::from_str("expected STIX bundle type 'bundle', got '");
        m.append(bundle.bundle_type.as_str());
        m.append("'");
        return Err(AppError::Import(m));
    }
    let objects = &bundle.objects;
    let ghost objs = objects@;
    let ghost scan = |o: JsonValue| scan_failure(o);
    let mut nodes: Vec<ImportedNode> = Vec::new();
    let mut pairs: Vec<(String, String)> = Vec::new();
    let mut i: usize = 0;
    while i < objects.len()
        invariant
            i <= objects@.len(),
            objs == objects@,
            bundle.bundle_type@ == "bundle"@,
            objects == &bundle.objects,
            scan == (|o: JsonValue| scan_failure(o)),
            first_failure(objs.take(i as int), scan) is None,
            nodes@.len() == node_objects(objs.take(i as int)).len(),
            forall|k: int|
                0 <= k < nodes@.len() ==> is_imported_node(
                    node_objects(objs.take(i as int))[k],
                    k,
                    #[trigger] nodes@[k],
                ),
            pair_views(pairs@) == import_pairs(objs.take(i as int), nodes@),
        decreases objects.len() - i,
    {
        let o = &objects[i];
        assert(objs.take(i + 1).drop_last() =~= objs.take(i as int));
        assert(objs.take(i + 1) =~= objs.take(i as int).push(objs[i as int]));
        proof {
            objs.take(i as int).lemma_filter_push(objs[i as int], |o: JsonValue| is_node_object(o));
        }
        let object_type = match get_str(o, "type") {
            Some(t) => t,
            None => {
                proof {
                    lemma_first_failure_settled(objs, i + 1, scan);
                }
                return Err(AppError::Import(String::from_str("STIX object missing type")));
            },
        };
        if is_supported_node_type(object_type) {
            let original_id = match get_str(o, "id") {
                Some(id) => id,
                None => {
                    proof {
                        lemma_first_failure_settled(objs, i + 1, scan);
                    }
                    return Err(missing_field("id"));
                },
            };
            let node = match parse_node_object(o, nodes.len()) {
                Ok(n) => n,
                Err(e) => {
                    return Err(e);
                },
            };
            let ghost prev_nodes = nodes@;
            let ghost prev_pairs = pairs@;
            pairs.push((owned(original_id), node.node.id.clone()));
            nodes.push(node);
            proof {
                let after = node_objects(objs.take(i + 1));
                let before = node_objects(objs.take(i as int));
                assert(after =~= before.push(objs[i as int]));
                assert forall|k: int| 0 <= k < nodes@.len() implies is_imported_node(
                    after[k],
                    k,
                    #[trigger] nodes@[k],
                ) by {
                    if k < prev_nodes.len() {
                        assert(nodes@[k] == prev_nodes[k]);
                        assert(after[k] == before[k]);
                    }
                }
                let ids_after = node_original_ids(objs.take(i + 1));
                let ids_before = node_original_ids(objs.take(i as int));
                assert(ids_after =~= ids_before.push(original_id@));
                assert(pair_views(pairs@) =~= import_pairs(objs.take(i + 1), nodes@)) by {
                    assert(pair_views(pairs@) =~= pair_views(prev_pairs).push(
                        (original_id@, nodes@[prev_nodes.len() as int].node.id@),
                    ));
                    assert forall|k: int| 0 <= k < prev_nodes.len() implies ids_after[k] == ids_before[k] by {}
                }
            }
        } else {
            proof {
                let after = node_objects(objs.take(i + 1));
                let before = node_objects(objs.take(i as int));
                assert(after =~= before);
                assert(node_original_ids(objs.take(i + 1)) =~= node_original_ids(objs.take(i as int)));
                assert(import_pairs(objs.take(i + 1), nodes@) =~= import_pairs(objs.take(i as int), nodes@));
            }
        }
        i = i + 1;
    }
    assert(objs.take(i as int) =~= objs);
    let ghost pv = pair_views(pairs@);
    let ghost ids = node_original_ids(objs);
    let ghost link = |o: JsonValue| link_failure(o, node_original_ids(objs));
    assert(keys_of(pv) =~= ids);
    let mut relations: Vec<ImportedRelation> = Vec::new();
    let mut j: usize = 0;
    while j < objects.len()
        invariant
            j <= objects@.len(),
            objs == objects@,
            bundle.bundle_type@ == "bundle"@,
            objects == &bundle.objects,
            first_failure(objs, |o: JsonValue| scan_failure(o)) is None,
            pv == pair_views(pairs@),
            pv == import_pairs(objs, nodes@),
            keys_of(pv) == ids,
            ids == node_original_ids(objs),
            link == (|o: JsonValue| link_failure(o, node_original_ids(objs))),
            first_failure(objs.take(j as int), link) is None,
            relations@.map_values(|x: ImportedRelation| shape_of(x)) == bundle_shapes(
                objs.take(j as int),
                pv,
            ),
            forall|k: int| 0 <= k < relations@.len() ==> is_fresh_relation(#[trigger] relations@[k]),
        decreases objects.len() - j,
    {
        let o = &objects[j];
        assert(objs.take(j + 1).drop_last() =~= objs.take(j as int));
        let ghost prev = relations@;
        match get_str(o, "type") {
            Some(t) => {
                if str_eq(t, "relationship") {
                    match parse_relationship_object(o, &pairs) {
                        Ok(rel) => {
                            relations.push(rel);
                            assert(relations@.map_values(|x: ImportedRelation| shape_of(x)) =~= prev.map_values(
                                |x: ImportedRelation| shape_of(x),
                            ) + seq![relationship_shape(objs[j as int], pv)]);
                        },
                        Err(e) => {
                            proof {
                                lemma_first_failure_settled(objs, j + 1, link);
                            }
                            return Err(e);
                        },
                    }
                } else if str_eq(t, "observed-data") {
                    let mut more = parse_observed_data_relationships(o, &pairs);
                    let ghost added = more@;
                    relations.append(&mut more);
                    assert(relations@.map_values(|x: ImportedRelation| shape_of(x)) =~= prev.map_values(
                        |x: ImportedRelation| shape_of(x),
                    ) + added.map_values(|x: ImportedRelation| shape_of(x)));
                    assert forall|k: int| 0 <= k < relations@.len() implies is_fresh_relation(
                        #[trigger] relations@[k],
                    ) by {
                        if k >= prev.len() {
                            assert(relations@[k] == added[k - prev.len()]);
                        }
                    }
                    proof {
                        reveal_strlit("relationship");
                        reveal_strlit("observed-data");
                    }
                } else {
                    assert(object_shapes(objs[j as int], pv) =~= Seq::<RelationShape>::empty());
                    assert(relations@.map_values(|x: ImportedRelation| shape_of(x)) =~= prev.map_values(
                        |x: ImportedRelation| shape_of(x),
                    ) + object_shapes(objs[j as int], pv));
                }
            },
            None => {
                assert(relations@.map_values(|x: ImportedRelation| shape_of(x)) =~= prev.map_values(
                    |x: ImportedRelation| shape_of(x),
                ) + object_shapes(objs[j as int], pv));
            },
        }
        j = j + 1;
    }
    assert(objs.take(j as int) =~= objs);
    Ok((nodes, relations))
}

/// A relation exported to STIX is imported back with the same type.
pub proof fn lemma_stix_relation_types_round_trip(t: RelationType)
    ensures
        relation_type_of_stix(relation_stix_text(t)) == t,
{
    reveal_strlit("resolves-to");
    reveal_strlit("connects-to");
    reveal_strlit("communicates-with");
    reveal_strlit("creates");
    reveal_strlit("drops");
    reveal_strlit("belongs-to");
    reveal_strlit("attributed-to");
    reveal_strlit("uses");
    reveal_strlit("targets");
    reveal_strlit("contains");
    reveal_strlit("consists-of");
    assert("resolves-to"@.len() == 11 && "connects-to"@.len() == 11);
    assert("communicates-with"@.len() == 17 && "creates"@.len() == 7 && "drops"@.len() == 5);
    assert("belongs-to"@.len() == 10 && "attributed-to"@.len() == 13 && "uses"@.len() == 4);
    assert("targets"@.len() == 7 && "contains"@.len() == 8 && "consists-of"@.len() == 11);
    assert("connects-to"@[0] != "resolves-to"@[0]);
    assert("creates"@[0] != "targets"@[0]);
    assert("consists-of"@[2] != "resolves-to"@[2] && "consists-of"@[3] != "connects-to"@[3]);
}

// ----------------------------------------------------------------------
// Exported node objects read back
// ----------------------------------------------------------------------

/// No single quote in `s`.
pub open spec fn quote_free(s: Seq<char>) -> bool {
    forall|i: int| 0 <= i < s.len() ==> s[i] != '\''
}

proof fn lemma_pattern_shape(f: Seq<char>, v: Seq<char>)
    ensures
        pattern_text(f, v) == seq!['['] + (f + seq![' ', '=', ' ', '\'']) + (v + seq!['\'', ']']),
        f + " = '"@ == f + seq![' ', '=', ' ', '\''],
{
    reveal_strlit("[");
    reveal_strlit(" = '");
    reveal_strlit("']");
    assert("["@ =~= seq!['[']);
    assert(" = '"@ =~= seq![' ', '=', ' ', '\'']);
    assert("']"@ =~= seq!['\'', ']']);
    assert(pattern_text(f, v) =~= seq!['['] + (f + seq![' ', '=', ' ', '\'']) + (v + seq![
        '\'',
        ']',
    ]));
}

proof fn lemma_pattern_chars(f: Seq<char>, v: Seq<char>)
    ensures
        pattern_text(f, v).len() == f.len() + v.len() + 7,
        pattern_text(f, v)[0] == '[',
        forall|i: int| 0 <= i < f.len() ==> pattern_text(f, v)[1 + i] == #[trigger] f[i],
        pattern_text(f, v)[f.len() as int + 1] == ' ',
        pattern_text(f, v)[f.len() as int + 2] == '=',
        pattern_text(f, v)[f.len() as int + 3] == ' ',
        pattern_text(f, v)[f.len() as int + 4] == '\'',
        forall|i: int| 0 <= i < v.len() ==> pattern_text(f, v)[f.len() + 5 + i] == #[trigger] v[i],
        pattern_text(f, v)[f.len() + 5 + v.len() as int] == '\'',
        pattern_text(f, v)[f.len() + 6 + v.len() as int] == ']',
{
    lemma_pattern_shape(f, v);
    let s = pattern_text(f, v);
    let fq = f + seq![' ', '=', ' ', '\''];
    let a = seq!['['] + fq;
    let b = v + seq!['\'', ']'];
    assert(fq.len() == f.len() + 4);
    assert(a.len() == f.len() + 5);
    assert(b.len() == v.len() + 2);
    assert(s == a + b);
    assert forall|i: int| 0 <= i < f.len() implies s[1 + i] == #[trigger] f[i] by {
        assert(s[1 + i] == a[1 + i]);
        assert(a[1 + i] == fq[i]);
    }
    assert(s[0] == a[0]);
    assert(s[f.len() as int + 1] == fq[f.len() as int]);
    assert(s[f.len() as int + 2] == fq[f.len() as int + 1]);
    assert(s[f.len() as int + 3] == fq[f.len() as int + 2]);
    assert(s[f.len() as int + 4] == fq[f.len() as int + 3]);
    assert forall|i: int| 0 <= i < v.len() implies s[f.len() + 5 + i] == #[trigger] v[i] by {
        assert(s[f.len() + 5 + i] == b[i]);
    }
    assert(s[f.len() + 5 + v.len() as int] == b[v.len() as int]);
    assert(s[f.len() + 6 + v.len() as int] == b[v.len() as int + 1]);
}

/// The literal compared with the pattern's own field is the value.
proof fn lemma_literal_found(f: Seq<char>, v: Seq<char>)
    requires
        f.len() > 0,
        f[0] != '[',
        quote_free(v),
    ensures
        indicator_literal(pattern_text(f, v), f) == Some(v),
{
    lemma_pattern_shape(f, v);
    let s = pattern_text(f, v);
    let m = f + " = '"@;
    let tail = v + seq!['\'', ']'];
    assert(s.subrange(1, 1 + m.len() as int) =~= m);
    assert(s[0] == '[');
    assert(m[0] == f[0]);
    assert(!matches_at(s, m, 0)) by {
        if matches_at(s, m, 0) {
            assert(s.subrange(0, m.len() as int)[0] == s[0]);
        }
    }
    lemma_first_match_unique(s, m, 1);
    let rest = s.skip(1 + m.len() as int);
    assert(rest =~= tail);
    let q = seq!['\''];
    assert(rest.subrange(v.len() as int, v.len() as int + 1) =~= q);
    assert forall|j: int| 0 <= j < v.len() implies !matches_at(rest, q, j) by {
        if matches_at(rest, q, j) {
            assert(rest.subrange(j, j + 1)[0] == rest[j]);
            assert(rest[j] == v[j]);
        }
    }
    lemma_first_match_unique(rest, q, v.len() as int);
    assert(rest.take(v.len() as int) =~= v);
}

proof fn lemma_quotes_of_pattern(f: Seq<char>, v: Seq<char>, e: int)
    requires
        quote_free(f),
        quote_free(v),
        0 <= e < pattern_text(f, v).len(),
        pattern_text(f, v)[e] == '\'',
    ensures
        e == f.len() + 4 || e == f.len() + 5 + v.len(),
{
    lemma_pattern_chars(f, v);
    let s = pattern_text(f, v);
    if 1 <= e <= f.len() {
        assert(s[1 + (e - 1)] == f[e - 1]);
    } else if f.len() + 5 <= e < f.len() + 5 + v.len() {
        assert(s[f.len() + 5 + (e - f.len() - 5)] == v[e - f.len() - 5]);
    }
}

/// A comparison with another field can only be found in a pattern where
/// it ends at the pattern's closing quote.
proof fn lemma_no_early_match(f: Seq<char>, g: Seq<char>, v: Seq<char>, c: int, j: int)
    requires
        quote_free(f),
        quote_free(v),
        g.len() > 0,
        g.len() > f.len() + 1 || (g.len() == f.len() + 1 && g[0] != '[') || (g.len() <= f.len()
            && 0 <= c < g.len() && f[f.len() - g.len() + c] != g[c]),
    ensures
        matches_at(pattern_text(f, v), g + seq![' ', '=', ' ', '\''], j) ==> j + g.len() + 3
            == f.len() + 5 + v.len(),
{
    let s = pattern_text(f, v);
    let m = g + seq![' ', '=', ' ', '\''];
    if matches_at(s, m, j) {
        let e = j + g.len() + 3;
        let sub = s.subrange(j, j + m.len());
        assert(sub == m);
        assert(s[e] == sub[g.len() as int + 3]);
        lemma_quotes_of_pattern(f, v, e);
        if e != f.len() + 5 + v.len() {
            lemma_pattern_chars(f, v);
            if g.len() == f.len() + 1 {
                assert(s[j] == sub[0]);
            } else {
                assert(s[j + c] == sub[c]);
                assert(s[1 + (f.len() - g.len() + c)] == f[f.len() - g.len() + c]);
            }
        }
    }
}

/// A field other than the pattern's own is not read from it, when no
/// suffix of the pattern's field, or its opening bracket, can be mistaken
/// for it: a comparison with it could only end at the closing quote, and
/// no quoted literal follows there.
proof fn lemma_literal_absent(f: Seq<char>, g: Seq<char>, v: Seq<char>, c: int)
    requires
        quote_free(f),
        quote_free(v),
        g.len() > 0,
        g.len() > f.len() + 1 || (g.len() == f.len() + 1 && g[0] != '[') || (g.len() <= f.len()
            && 0 <= c < g.len() && f[f.len() - g.len() + c] != g[c]),
    ensures
        indicator_literal(pattern_text(f, v), g) is None,
{
    reveal_strlit(" = '");
    assert(" = '"@ =~= seq![' ', '=', ' ', '\'']);
    let s = pattern_text(f, v);
    let m = g + seq![' ', '=', ' ', '\''];
    assert(g + " = '"@ == m);
    let j0 = f.len() + 5 + v.len() - g.len() - 3;
    if matches_at(s, m, j0) {
        assert forall|j: int| 0 <= j < j0 implies !matches_at(s, m, j) by {
            lemma_no_early_match(f, g, v, c, j);
        }
        lemma_first_match_unique(s, m, j0);
        lemma_pattern_chars(f, v);
        let rest = s.skip(j0 + m.len());
        assert(rest.len() == 1);
        assert(rest[0] == s[f.len() + 6 + v.len() as int]);
        let q = seq!['\''];
        assert forall|j: int| !matches_at(rest, q, j) by {
            if matches_at(rest, q, j) {
                assert(rest.subrange(j, j + 1)[0] == rest[j]);
            }
        }
    } else {
        assert forall|j: int| !matches_at(s, m, j) by {
            lemma_no_early_match(f, g, v, c, j);
        }
    }
}

/// The hash value of a file-hash pattern is found after its algorithm.
#[verifier::spinoff_prover]
#[verifier::rlimit(60)]
proof fn lemma_hash_literal_found(a: Seq<char>, v: Seq<char>)
    requires
        quote_free(a),
        quote_free(v),
    ensures
        file_hash_literal(pattern_text("file:hashes."@ + a, v)) == Some(v),
{
    reveal_strlit("file:hashes.");
    let h = "file:hashes."@;
    assert(h.len() == 12);
    let f = h + a;
    lemma_pattern_shape(f, v);
    let s = pattern_text(f, v);
    let eq = seq![' ', '=', ' ', '\''];
    let tail = v + seq!['\'', ']'];
    assert(s =~= seq!['['] + h + (a + eq + tail));
    assert(s.subrange(1, 13) =~= h);
    assert(!matches_at(s, h, 0)) by {
        if matches_at(s, h, 0) {
            assert(s.subrange(0, 12)[0] == s[0]);
            assert(h[0] == 'f');
        }
    }
    lemma_first_match_unique(s, h, 1);
    let t = s.skip(13);
    assert(t =~= a + eq + tail);
    reveal_strlit(" = '");
    let m = " = '"@;
    assert(m =~= eq);
    assert(t.subrange(a.len() as int, a.len() as int + 4) =~= m);
    assert forall|j: int| 0 <= j < a.len() implies !matches_at(t, m, j) by {
        if matches_at(t, m, j) {
            assert(t.subrange(j, j + 4)[3] == t[j + 3]);
            if j + 3 < a.len() {
                assert(t[j + 3] == a[j + 3]);
            } else {
                assert(t[j + 3] == eq[j + 3 - a.len()]);
            }
        }
    }
    lemma_first_match_unique(t, m, a.len() as int);
    let rest = t.skip(a.len() as int + 4);
    assert(rest =~= tail);
    let q = seq!['\''];
    assert(rest.subrange(v.len() as int, v.len() as int + 1) =~= q);
    assert forall|j: int| 0 <= j < v.len() implies !matches_at(rest, q, j) by {
        if matches_at(rest, q, j) {
            assert(rest.subrange(j, j + 1)[0] == rest[j]);
            assert(rest[j] == v[j]);
        }
    }
    lemma_first_match_unique(rest, q, v.len() as int);
    assert(rest.take(v.len() as int) =~= v);
}

proof fn lemma_type_lookup(fields: Seq<(Seq<char>, Seq<char>)>, kind: Seq<char>)
    requires
        fields.len() > 0,
        fields[0] == ("type"@, kind),
    ensures
        field_value(fields, "type"@) == Some(kind),
{
}

proof fn lemma_pattern_lookup(
    kind: Seq<char>,
    id: Seq<char>,
    created: Seq<char>,
    modified: Seq<char>,
    name: Seq<char>,
    pat: Seq<char>,
)
    ensures
        field_value(
            seq![
                ("type"@, kind),
                ("spec_version"@, "2.1"@),
                ("id"@, id),
                ("created"@, created),
                ("modified"@, modified),
            ] + seq![("name"@, name), ("pattern"@, pat)],
            "pattern"@,
        ) == Some(pat),
{
    reveal_strlit("type");
    reveal_strlit("spec_version");
    reveal_strlit("id");
    reveal_strlit("created");
    reveal_strlit("modified");
    reveal_strlit("name");
    reveal_strlit("pattern");
    assert("created"@[0] != "pattern"@[0]);
    let fs = seq![
        ("type"@, kind),
        ("spec_version"@, "2.1"@),
        ("id"@, id),
        ("created"@, created),
        ("modified"@, modified),
    ] + seq![("name"@, name), ("pattern"@, pat)];
    let f1 = fs.drop_first();
    let f2 = f1.drop_first();
    let f3 = f2.drop_first();
    let f4 = f3.drop_first();
    let f5 = f4.drop_first();
    let f6 = f5.drop_first();
    assert(f6 =~= seq![("pattern"@, pat)]);
    assert(field_value(f6, "pattern"@) == Some(pat));
    assert(f5[0].0 == "name"@);
    assert(field_value(f5, "pattern"@) == Some(pat));
    assert(f4[0].0 == "modified"@);
    assert(field_value(f4, "pattern"@) == Some(pat));
    assert(f3[0].0 == "created"@);
    assert(field_value(f3, "pattern"@) == Some(pat));
    assert(f2[0].0 == "id"@);
    assert(field_value(f2, "pattern"@) == Some(pat));
    assert(f1[0].0 == "spec_version"@);
    assert(field_value(f1, "pattern"@) == Some(pat));
    assert(fs[0].0 == "type"@);
}

/// The value an indicator node's pattern carries (its address, domain or
/// hash value) holds no single quote.
pub open spec fn has_plain_pattern_value(n: NodeRecord) -> bool {
    match n.properties {
        TypeSpecificProps::IpAddress(p) => n.node_type == NodeType::IpAddress ==> quote_free(
            p.address@,
        ),
        TypeSpecificProps::Domain(p) => n.node_type == NodeType::Domain ==> quote_free(p.domain@),
        TypeSpecificProps::FileHash(p) => n.node_type == NodeType::FileHash ==> quote_free(
            p.hash_value@,
        ),
        _ => true,
    }
}

proof fn lemma_field_names()
    ensures
        quote_free("ipv4-addr:value"@),
        quote_free("ipv6-addr:value"@),
        quote_free("domain-name:value"@),
        quote_free("file:hashes."@),
        quote_free("MD5"@),
        quote_free("SHA-1"@),
        quote_free("SHA-256"@),
        "ipv4-addr:value"@.len() == 15,
        "ipv6-addr:value"@.len() == 15,
        "domain-name:value"@.len() == 17,
        "file:hashes."@.len() == 12,
        "MD5"@.len() == 3,
        "SHA-1"@.len() == 5,
        "SHA-256"@.len() == 7,
        "ipv4-addr:value"@[0] == 'i',
        "ipv6-addr:value"@[0] == 'i',
        "ipv4-addr:value"@[3] == '4',
        "ipv6-addr:value"@[3] == '6',
        "domain-name:value"@[0] == 'd',
        "domain-name:value"@[2] == 'm',
        "file:hashes."@[0] == 'f',
        "file:hashes."@[2] == 'l',
        "file:hashes."@[4] == ':',
{
    reveal_strlit("ipv4-addr:value");
    reveal_strlit("ipv6-addr:value");
    reveal_strlit("domain-name:value");
    reveal_strlit("file:hashes.");
    reveal_strlit("MD5");
    reveal_strlit("SHA-1");
    reveal_strlit("SHA-256");
}

proof fn lemma_pattern_of_indicator(n: NodeRecord, o: JsonValue, f: Seq<char>, v: Seq<char>)
    requires
        stix_type_of(n) is Some,
        is_stix_node_object(n, stix_type_of(n).unwrap(), node_stix_id(n), o),
        stix_node_fields(n, stix_type_of(n).unwrap(), node_stix_id(n))[6] == ("pattern"@, pattern_text(f, v)),
        stix_node_fields(n, stix_type_of(n).unwrap(), node_stix_id(n)).len() == 7,
    ensures
        text_field(o, "pattern"@) == Some(pattern_text(f, v)),
{
    let kind = stix_type_of(n).unwrap();
    let id = node_stix_id(n);
    let fields = stix_node_fields(n, kind, id);
    lemma_node_object_text(n, kind, id, o, "pattern"@);
    lemma_pattern_lookup(kind, id, fields[3].1, fields[4].1, fields[5].1, pattern_text(f, v));
    assert(fields =~= seq![
        ("type"@, kind),
        ("spec_version"@, "2.1"@),
        ("id"@, id),
        ("created"@, fields[3].1),
        ("modified"@, fields[4].1),
    ] + seq![("name"@, fields[5].1), ("pattern"@, pattern_text(f, v))]);
}

/// A node exported to STIX and read back from its object keeps its node
/// type, when the value its indicator pattern carries (address, domain or
/// hash value) is plain (see `has_plain_pattern_value`).
pub proof fn lemma_stix_node_type_round_trip(n: NodeRecord, o: JsonValue, k: int, m: ImportedNode)
    requires
        stix_type_of(n) is Some,
        is_stix_node_object(n, stix_type_of(n).unwrap(), node_stix_id(n), o),
        has_plain_pattern_value(n),
        is_imported_node(o, k, m),
    ensures
        m.node.node_type == n.node_type,
{
    let kind = stix_type_of(n).unwrap();
    let id = node_stix_id(n);
    let fields = stix_node_fields(n, kind, id);
    lemma_node_object_text(n, kind, id, o, "type"@);
    lemma_type_lookup(fields, kind);
    assert(text_field(o, "type"@) == Some(kind));
    lemma_object_type_names_distinct();
    lemma_field_names();
    let ip4 = "ipv4-addr:value"@;
    let ip6 = "ipv6-addr:value"@;
    let dom = "domain-name:value"@;
    match n.properties {
        TypeSpecificProps::IpAddress(p) => if n.node_type == NodeType::IpAddress {
            let v = p.address@;
            if opt_string_view(p.version) == Some("ipv6"@) {
                lemma_pattern_of_indicator(n, o, ip6, v);
                lemma_literal_absent(ip6, ip4, v, 3);
                lemma_literal_found(ip6, v);
            } else {
                lemma_pattern_of_indicator(n, o, ip4, v);
                lemma_literal_found(ip4, v);
            }
        },
        TypeSpecificProps::Domain(p) => if n.node_type == NodeType::Domain {
            let v = p.domain@;
            lemma_pattern_of_indicator(n, o, dom, v);
            lemma_literal_absent(dom, ip4, v, 0);
            lemma_literal_absent(dom, ip6, v, 0);
            lemma_literal_found(dom, v);
        },
        TypeSpecificProps::FileHash(p) => if n.node_type == NodeType::FileHash {
            let v = p.hash_value@;
            let a = hash_algorithm_text(p.algorithm);
            let f = "file:hashes."@ + a;
            assert(quote_free(f)) by {
                assert forall|i: int| 0 <= i < f.len() implies f[i] != '\'' by {
                    if i < 12 {
                        assert(f[i] == "file:hashes."@[i]);
                    } else {
                        assert(f[i] == a[i - 12]);
                    }
                }
            }
            assert(f[0] == 'f' && f[2] == 'l' && f[4] == ':');
            lemma_pattern_of_indicator(n, o, f, v);
            if a.len() == 3 {
                lemma_literal_absent(f, ip4, v, 0);
                lemma_literal_absent(f, ip6, v, 0);
                lemma_literal_absent(f, dom, v, 0);
            } else if a.len() == 5 {
                lemma_literal_absent(f, ip4, v, 0);
                lemma_literal_absent(f, ip6, v, 0);
                lemma_literal_absent(f, dom, v, 0);
            } else {
                lemma_literal_absent(f, ip4, v, 0);
                lemma_literal_absent(f, ip6, v, 0);
                lemma_literal_absent(f, dom, v, 0);
            }
            lemma_hash_literal_found(a, v);
        },
        _ => {},
    }
}

// ----------------------------------------------------------------------
// A whole bundle read back
// ----------------------------------------------------------------------

proof fn lemma_filter_keeps_every<A>(s: Seq<A>, p: spec_fn(A) -> bool)
    requires
        forall|i: int| 0 <= i < s.len() ==> p(#[trigger] s[i]),
    ensures
        s.filter(p) == s,
    decreases s.len(),
{
    reveal(Seq::filter);
    if s.len() > 0 {
        lemma_filter_keeps_every(s.drop_last(), p);
        assert(s.drop_last().push(s.last()) =~= s);
    }
}

proof fn lemma_filter_keeps_nothing<A>(s: Seq<A>, p: spec_fn(A) -> bool)
    requires
        forall|i: int| 0 <= i < s.len() ==> !p(#[trigger] s[i]),
    ensures
        s.filter(p) == Seq::<A>::empty(),
    decreases s.len(),
{
    reveal(Seq::filter);
    if s.len() > 0 {
        lemma_filter_keeps_nothing(s.drop_last(), p);
    }
}

proof fn lemma_no_failure(objects: Seq<JsonValue>, fails: spec_fn(JsonValue) -> Option<ErrorView>)
    requires
        forall|i: int| 0 <= i < objects.len() ==> fails(#[trigger] objects[i]) is None,
    ensures
        first_failure(objects, fails) is None,
    decreases objects.len(),
{
    if objects.len() > 0 {
        lemma_no_failure(objects.drop_last(), fails);
    }
}

/// The relations of a bundle whose first `n` objects yield none and whose
/// other objects are relationships.
proof fn lemma_relationship_shapes(
    objects: Seq<JsonValue>,
    pairs: Seq<(Seq<char>, Seq<char>)>,
    n: int,
)
    requires
        0 <= n <= objects.len(),
        forall|i: int| 0 <= i < n ==> object_shapes(#[trigger] objects[i], pairs) == Seq::<RelationShape>::empty(),
        forall|i: int|
            n <= i < objects.len() ==> text_field(#[trigger] objects[i], "type"@) == Some("relationship"@),
    ensures
        bundle_shapes(objects, pairs) == Seq::new(
            (objects.len() - n) as nat,
            |j: int| relationship_shape(objects[n + j], pairs),
        ),
    decreases objects.len(),
{
    if objects.len() > 0 {
        let rest = objects.drop_last();
        if objects.len() - 1 >= n {
            lemma_relationship_shapes(rest, pairs, n);
            assert(object_shapes(objects.last(), pairs) == seq![relationship_shape(objects.last(), pairs)]);
        } else {
            lemma_relationship_shapes(rest, pairs, n - 1);
            assert(object_shapes(objects[objects.len() - 1], pairs) == Seq::<RelationShape>::empty());
        }
        assert(bundle_shapes(objects, pairs) =~= Seq::new(
            (objects.len() - n) as nat,
            |j: int| relationship_shape(objects[n + j], pairs),
        ));
    } else {
        assert(bundle_shapes(objects, pairs) =~= Seq::new(
            (objects.len() - n) as nat,
            |j: int| relationship_shape(objects[n + j], pairs),
        ));
    }
}

/// The last value paired with a key that occurs is one of its pairs.
proof fn lemma_last_value_found(pairs: Seq<(Seq<char>, Seq<char>)>, key: Seq<char>, k: int)
    requires
        0 <= k < pairs.len(),
        pairs[k].0 == key,
    ensures
        last_value_of(pairs, key) is Some,
        exists|k2: int|
            0 <= k2 < pairs.len() && #[trigger] pairs[k2] == (key, last_value_of(pairs, key).unwrap()),
    decreases pairs.len(),
{
    if pairs.last().0 == key {
        assert(pairs[pairs.len() - 1] == (key, last_value_of(pairs, key).unwrap()));
    } else {
        let rest = pairs.drop_last();
        assert(rest[k] == pairs[k]);
        lemma_last_value_found(rest, key, k);
        let k2 = choose|k2: int|
            0 <= k2 < rest.len() && #[trigger] rest[k2] == (key, last_value_of(rest, key).unwrap());
        assert(pairs[k2] == rest[k2]);
    }
}

/// What the reading of a bundle sees of an exported node's object.
proof fn lemma_node_object_facts(n: NodeRecord, o: JsonValue)
    requires
        stix_type_of(n) is Some,
        is_stix_node_object(n, stix_type_of(n).unwrap(), node_stix_id(n), o),
    ensures
        text_field(o, "type"@) == Some(stix_type_of(n).unwrap()),
        text_field(o, "id"@) == Some(node_stix_id(n)),
        is_node_object(o),
        scan_failure(o) is None,
        forall|pairs: Seq<(Seq<char>, Seq<char>)>| #[trigger] object_shapes(o, pairs) == Seq::<RelationShape>::empty(),
        forall|ids: Seq<Seq<char>>| #[trigger] link_failure(o, ids) is None,
{
    let kind = stix_type_of(n).unwrap();
    let id = node_stix_id(n);
    let fields = stix_node_fields(n, kind, id);
    lemma_node_object_text(n, kind, id, o, "type"@);
    lemma_node_object_text(n, kind, id, o, "id"@);
    lemma_type_lookup(fields, kind);
    reveal_strlit("type");
    reveal_strlit("spec_version");
    reveal_strlit("id");
    assert(fields[0].0 == "type"@ && fields[1].0 == "spec_version"@ && fields[2] == ("id"@, id));
    assert("type"@.len() == 4 && "spec_version"@.len() == 12 && "id"@.len() == 2);
    assert("type"@ != "id"@ && "spec_version"@ != "id"@);
    assert(field_value(fields.drop_first().drop_first(), "id"@) == Some(id));
    assert(field_value(fields.drop_first(), "id"@) == Some(id));
    assert(field_value(fields, "id"@) == Some(id));
    lemma_object_type_names_distinct();
}

/// What the reading of a bundle sees of an exported relationship object.
proof fn lemma_relationship_object_facts(
    rel: RelationRecord,
    pairs: Seq<(Seq<char>, Seq<char>)>,
    o: JsonValue,
)
    requires
        is_text_object(o, relationship_fields(rel, pairs)),
    ensures
        text_field(o, "type"@) == Some("relationship"@),
        !is_node_object(o),
        scan_failure(o) is None,
        text_field(o, "relationship_type"@) == Some(relation_stix_text(rel.relation_type)),
        text_field(o, "source_ref"@) == Some(last_value_of(pairs, rel.source_node_id@).unwrap()),
        text_field(o, "target_ref"@) == Some(last_value_of(pairs, rel.target_node_id@).unwrap()),
{
    let fields = relationship_fields(rel, pairs);
    lemma_text_object_lookup(o, fields, "type"@);
    lemma_text_object_lookup(o, fields, "relationship_type"@);
    lemma_text_object_lookup(o, fields, "source_ref"@);
    lemma_text_object_lookup(o, fields, "target_ref"@);
    lemma_object_type_names_distinct();
    reveal_strlit("type");
    reveal_strlit("spec_version");
    reveal_strlit("id");
    reveal_strlit("created");
    reveal_strlit("modified");
    reveal_strlit("relationship_type");
    reveal_strlit("source_ref");
    reveal_strlit("target_ref");
    assert("source_ref"@[0] != "target_ref"@[0]);
    assert("type"@.len() == 4 && "spec_version"@.len() == 12 && "id"@.len() == 2);
    assert("created"@.len() == 7 && "modified"@.len() == 8 && "relationship_type"@.len() == 17);
    assert("source_ref"@.len() == 10 && "target_ref"@.len() == 10);
    assert("modified"@ != "relationship_type"@ && "created"@ != "relationship_type"@);
    assert("id"@ != "relationship_type"@ && "spec_version"@ != "relationship_type"@);
    assert("relationship_type"@ != "source_ref"@ && "relationship_type"@ != "target_ref"@);
    assert("modified"@ != "source_ref"@ && "created"@ != "source_ref"@);
    assert("modified"@ != "target_ref"@ && "created"@ != "target_ref"@);
    assert("source_ref"@ != "target_ref"@);
    let f1 = fields.drop_first();
    let f2 = f1.drop_first();
    let f3 = f2.drop_first();
    let f4 = f3.drop_first();
    let f5 = f4.drop_first();
    let f6 = f5.drop_first();
    let f7 = f6.drop_first();
    assert(f7[0] == fields[7]);
    assert(f6[0] == fields[6]);
    assert(f5[0] == fields[5]);
    assert(f4[0] == fields[4]);
    assert(f3[0] == fields[3]);
    assert(f2[0] == fields[2]);
    assert(f1[0] == fields[1]);
    assert(field_value(f7, "target_ref"@) == Some(fields[7].1));
    assert(field_value(f6, "target_ref"@) == Some(fields[7].1));
    assert(field_value(f6, "source_ref"@) == Some(fields[6].1));
    assert(field_value(f5, "relationship_type"@) == Some(fields[5].1));
    assert(field_value(f5, "source_ref"@) == Some(fields[6].1));
    assert(field_value(f5, "target_ref"@) == Some(fields[7].1));
    assert(field_value(f4, "relationship_type"@) == Some(fields[5].1));
    assert(field_value(f4, "source_ref"@) == Some(fields[6].1));
    assert(field_value(f4, "target_ref"@) == Some(fields[7].1));
    assert(field_value(f3, "relationship_type"@) == Some(fields[5].1));
    assert(field_value(f3, "source_ref"@) == Some(fields[6].1));
    assert(field_value(f3, "target_ref"@) == Some(fields[7].1));
    assert(field_value(f2, "relationship_type"@) == Some(fields[5].1));
    assert(field_value(f2, "source_ref"@) == Some(fields[6].1));
    assert(field_value(f2, "target_ref"@) == Some(fields[7].1));
    assert(field_value(f1, "relationship_type"@) == Some(fields[5].1));
    assert(field_value(f1, "source_ref"@) == Some(fields[6].1));
    assert(field_value(f1, "target_ref"@) == Some(fields[7].1));
}

/// The IDs of the nodes, in order.
pub open spec fn node_id_list(nodes: Seq<NodeRecord>) -> Seq<Seq<char>> {
    nodes.map_values(|n: NodeRecord| n.id@)
}

/// Every relation joins two of the nodes.
pub open spec fn relations_join_nodes(nodes: Seq<NodeRecord>, relations: Seq<RelationRecord>) -> bool {
    forall|j: int|
        0 <= j < relations.len() ==> node_id_list(nodes).contains((#[trigger] relations[j]).source_node_id@)
            && node_id_list(nodes).contains(relations[j].target_node_id@)
}

/// Every node is exported (no process, properties of its own type) and
/// the value its pattern would carry is plain.
pub open spec fn nodes_export_plainly(nodes: Seq<NodeRecord>) -> bool {
    forall|i: int|
        0 <= i < nodes.len() ==> stix_type_of(#[trigger] nodes[i]) is Some && has_plain_pattern_value(
            nodes[i],
        )
}

proof fn lemma_every_relation_exported(nodes: Seq<NodeRecord>, relations: Seq<RelationRecord>)
    requires
        nodes_export_plainly(nodes),
        relations_join_nodes(nodes, relations),
    ensures
        exported_nodes(nodes) == nodes,
        exported_relations(relations, export_id_pairs(nodes)) == relations,
        export_id_pairs(nodes).len() == nodes.len(),
        forall|k: int|
            0 <= k < nodes.len() ==> #[trigger] export_id_pairs(nodes)[k] == (
                nodes[k].id@,
                node_stix_id(nodes[k]),
            ),
{
    lemma_filter_keeps_every(nodes, |n: NodeRecord| stix_type_of(n) is Some);
    let pairs = export_id_pairs(nodes);
    assert forall|j: int| 0 <= j < relations.len() implies relation_exported(
        #[trigger] relations[j],
        pairs,
    ) by {
        let ids = node_id_list(nodes);
        let src = relations[j].source_node_id@;
        let tgt = relations[j].target_node_id@;
        assert(ids.contains(src));
        let k = choose|k: int| 0 <= k < ids.len() && ids[k] == src;
        assert(pairs[k].0 == src);
        lemma_last_value_found(pairs, src, k);
        assert(ids.contains(tgt));
        let k2 = choose|k2: int| 0 <= k2 < ids.len() && ids[k2] == tgt;
        assert(pairs[k2].0 == tgt);
        lemma_last_value_found(pairs, tgt, k2);
    }
    lemma_filter_keeps_every(relations, |r: RelationRecord| relation_exported(r, pairs));
}

#[verifier::spinoff_prover]
#[verifier::rlimit(40)]
proof fn lemma_export_reads_cleanly(nodes: Seq<NodeRecord>, relations: Seq<RelationRecord>, b: StixBundle)
    requires
        nodes_export_plainly(nodes),
        relations_join_nodes(nodes, relations),
        is_stix_export(nodes, relations, b),
    ensures
        b.objects@.len() == nodes.len() + relations.len(),
        node_objects(b.objects@) == b.objects@.take(nodes.len() as int),
        first_failure(b.objects@, |o: JsonValue| scan_failure(o)) is None,
        first_failure(
            b.objects@,
            |o: JsonValue| link_failure(o, node_original_ids(b.objects@)),
        ) is None,
        forall|i: int|
            0 <= i < nodes.len() ==> is_stix_node_object(
                nodes[i],
                stix_type_of(nodes[i]).unwrap(),
                node_stix_id(nodes[i]),
                #[trigger] b.objects@[i],
            ),
        forall|j: int|
            0 <= j < relations.len() ==> text_field(
                #[trigger] b.objects@[nodes.len() + j],
                "relationship_type"@,
            ) == Some(relation_stix_text(relations[j].relation_type)),
        forall|i: int|
            nodes.len() <= i < b.objects@.len() ==> text_field(#[trigger] b.objects@[i], "type"@)
                == Some("relationship"@),
        forall|i: int, ps: Seq<(Seq<char>, Seq<char>)>|
            0 <= i < nodes.len() ==> #[trigger] object_shapes(b.objects@[i], ps) == Seq::<
                RelationShape,
            >::empty(),
{
    let objs = b.objects@;
    let n = nodes.len() as int;
    lemma_every_relation_exported(nodes, relations);
    let pairs = export_id_pairs(nodes);
    assert forall|i: int| 0 <= i < n implies is_node_object(#[trigger] objs[i]) && scan_failure(
        objs[i],
    ) is None && text_field(objs[i], "id"@) == Some(node_stix_id(nodes[i])) && (forall|
        ids: Seq<Seq<char>>,
    | #[trigger] link_failure(objs[i], ids) is None) && (forall|
        ps: Seq<(Seq<char>, Seq<char>)>,
    | #[trigger] object_shapes(objs[i], ps) == Seq::<RelationShape>::empty()) by {
        assert(exported_nodes(nodes)[i] == nodes[i]);
        lemma_node_object_facts(nodes[i], objs[i]);
    }
    assert forall|j: int| 0 <= j < relations.len() implies !is_node_object(
        #[trigger] objs[n + j],
    ) && scan_failure(objs[n + j]) is None && text_field(objs[n + j], "type"@) == Some(
        "relationship"@,
    ) && text_field(objs[n + j], "relationship_type"@) == Some(
        relation_stix_text(relations[j].relation_type),
    ) && text_field(objs[n + j], "source_ref"@) == Some(
        last_value_of(pairs, relations[j].source_node_id@).unwrap(),
    ) && text_field(objs[n + j], "target_ref"@) == Some(
        last_value_of(pairs, relations[j].target_node_id@).unwrap(),
    ) by {
        assert(exported_relations(relations, pairs)[j] == relations[j]);
        lemma_relationship_object_facts(relations[j], pairs, objs[n + j]);
    }
    assert forall|i: int| n <= i < objs.len() implies text_field(#[trigger] objs[i], "type"@) == Some(
        "relationship"@,
    ) by {
        let j = i - n;
        assert(objs[n + j] == objs[i]);
    }
    let x = objs.take(n);
    let y = objs.skip(n);
    assert(objs =~= x + y);
    Seq::filter_distributes_over_add(x, y, |o: JsonValue| is_node_object(o));
    assert forall|i: int| 0 <= i < x.len() implies is_node_object(#[trigger] x[i]) by {
        assert(x[i] == objs[i]);
    }
    lemma_filter_keeps_every(x, |o: JsonValue| is_node_object(o));
    assert forall|i: int| 0 <= i < y.len() implies !is_node_object(#[trigger] y[i]) by {
        assert(y[i] == objs[n + i]);
    }
    lemma_filter_keeps_nothing(y, |o: JsonValue| is_node_object(o));
    assert(node_objects(objs) =~= x);
    assert forall|i: int| 0 <= i < objs.len() implies scan_failure(#[trigger] objs[i]) is None by {
        if i >= n {
            assert(objs[n + (i - n)] == objs[i]);
        }
    }
    lemma_no_failure(objs, |o: JsonValue| scan_failure(o));
    let ids = node_original_ids(objs);
    assert(ids.len() == n);
    assert forall|k: int| 0 <= k < n implies #[trigger] ids[k] == node_stix_id(nodes[k]) by {
        assert(node_objects(objs)[k] == objs[k]);
    }
    assert forall|i: int| 0 <= i < objs.len() implies link_failure(#[trigger] objs[i], ids) is None by {
        if i >= n {
            let j = i - n;
            assert(objs[n + j] == objs[i]);
            let rel = relations[j];
            assert(relation_exported(rel, pairs));
            let src = rel.source_node_id@;
            let tgt = rel.target_node_id@;
            assert(node_id_list(nodes).contains(src));
            let k1 = choose|k: int| 0 <= k < node_id_list(nodes).len() && node_id_list(nodes)[k] == src;
            lemma_last_value_found(pairs, src, k1);
            let w1 = choose|k2: int|
                0 <= k2 < pairs.len() && #[trigger] pairs[k2] == (src, last_value_of(pairs, src).unwrap());
            assert(ids[w1] == last_value_of(pairs, src).unwrap());
            assert(node_id_list(nodes).contains(tgt));
            let k3 = choose|k: int| 0 <= k < node_id_list(nodes).len() && node_id_list(nodes)[k] == tgt;
            lemma_last_value_found(pairs, tgt, k3);
            let w2 = choose|k2: int|
                0 <= k2 < pairs.len() && #[trigger] pairs[k2] == (tgt, last_value_of(pairs, tgt).unwrap());
            assert(ids[w2] == last_value_of(pairs, tgt).unwrap());
        }
    }
    lemma_no_failure(objs, |o: JsonValue| link_failure(o, node_original_ids(objs)));
}

/// Nodes and relations exported to STIX and read back come back in the
/// same number and order, with the same node types and the same relation
/// types, when every node is exported (no process, properties of its own
/// type) with a plain pattern value (see `has_plain_pattern_value`), and
/// every relation joins two of the nodes.
pub proof fn lemma_stix_round_trip(
    nodes: Seq<NodeRecord>,
    relations: Seq<RelationRecord>,
    b: StixBundle,
    r: Result<(Vec<ImportedNode>, Vec<ImportedRelation>), AppError>,
)
    requires
        nodes_export_plainly(nodes),
        relations_join_nodes(nodes, relations),
        is_stix_export(nodes, relations, b),
        is_stix_import(b, r),
    ensures
        r is Ok,
        r matches Ok((ns, rs)) ==> {
            &&& ns@.len() == nodes.len()
            &&& forall|k: int|
                0 <= k < nodes.len() ==> (#[trigger] ns@[k]).node.node_type == nodes[k].node_type
            &&& rs@.len() == relations.len()
            &&& forall|j: int|
                0 <= j < relations.len() ==> (#[trigger] rs@[j]).relation.relation_type
                    == relations[j].relation_type
        },
{
    lemma_export_reads_cleanly(nodes, relations, b);
    let objs = b.objects@;
    let n = nodes.len() as int;
    if let Ok((ns, rs)) = r {
        assert forall|k: int| 0 <= k < nodes.len() implies (#[trigger] ns@[k]).node.node_type
            == nodes[k].node_type by {
            assert(node_objects(objs)[k] == objs[k]);
            lemma_stix_node_type_round_trip(nodes[k], objs[k], k, ns@[k]);
        }
        let ip = import_pairs(objs, ns@);
        lemma_relationship_shapes(objs, ip, n);
        let shapes = rs@.map_values(|x: ImportedRelation| shape_of(x));
        assert(shapes.len() == relations.len());
        assert forall|j: int| 0 <= j < relations.len() implies (#[trigger] rs@[j]).relation.relation_type
            == relations[j].relation_type by {
            assert(shapes[j] == shape_of(rs@[j]));
            assert(shapes[j] == relationship_shape(objs[n + j], ip));
            lemma_stix_relation_types_round_trip(relations[j].relation_type);
        }
    }
}

/// An IP address node is exported as an indicator whose pattern compares
/// `ipv6-addr:value` with the address when its version is `ipv6`, and
/// `ipv4-addr:value` otherwise.
pub proof fn lemma_stix_ip_pattern(n: NodeRecord, o: JsonValue)
    requires
        n.node_type == NodeType::IpAddress,
        n.properties is IpAddress,
        is_stix_node_object(n, stix_type_of(n).unwrap(), node_stix_id(n), o),
    ensures
        text_field(o, "type"@) == Some("indicator"@),
        n.properties matches TypeSpecificProps::IpAddress(p) && text_field(o, "pattern"@) == Some(
            if opt_string_view(p.version) == Some("ipv6"@) {
                "["@ + "ipv6-addr:value"@ + " = '"@ + p.address@ + "']"@
            } else {
                "["@ + "ipv4-addr:value"@ + " = '"@ + p.address@ + "']"@
            },
        ),
{
    let kind = stix_type_of(n).unwrap();
    let id = node_stix_id(n);
    let fields = stix_node_fields(n, kind, id);
    lemma_node_object_text(n, kind, id, o, "type"@);
    lemma_type_lookup(fields, kind);
    if let TypeSpecificProps::IpAddress(p) = n.properties {
        let v6 = opt_string_view(p.version) == Some("ipv6"@);
        let field = if v6 {
            "ipv6-addr:value"@
        } else {
            "ipv4-addr:value"@
        };
        lemma_pattern_of_indicator(n, o, field, p.address@);
    }
}

/// An IP address node exported to STIX and read back keeps its address,
/// and its version when that is `ipv6`; any other version reads back as
/// `ipv4` (when the address holds no single quote).
pub proof fn lemma_stix_ip_round_trip(n: NodeRecord, o: JsonValue, k: int, m: ImportedNode)
    requires
        n.node_type == NodeType::IpAddress,
        n.properties is IpAddress,
        is_stix_node_object(n, stix_type_of(n).unwrap(), node_stix_id(n), o),
        has_plain_pattern_value(n),
        is_imported_node(o, k, m),
    ensures
        n.properties matches TypeSpecificProps::IpAddress(p) && m.node.properties matches TypeSpecificProps::IpAddress(q)
            && q.address@ == p.address@ && opt_string_view(q.version) == Some(
            if opt_string_view(p.version) == Some("ipv6"@) {
                "ipv6"@
            } else {
                "ipv4"@
            },
        ),
{
    lemma_stix_ip_pattern(n, o);
    lemma_object_type_names_distinct();
    lemma_field_names();
    let ip4 = "ipv4-addr:value"@;
    let ip6 = "ipv6-addr:value"@;
    if let TypeSpecificProps::IpAddress(p) = n.properties {
        let v = p.address@;
        let v6 = opt_string_view(p.version) == Some("ipv6"@);
        if v6 {
            assert(pattern_text(ip6, v) == "["@ + ip6 + " = '"@ + v + "']"@);
            lemma_literal_absent(ip6, ip4, v, 3);
            lemma_literal_found(ip6, v);
        } else {
            assert(pattern_text(ip4, v) == "["@ + ip4 + " = '"@ + v + "']"@);
            lemma_literal_found(ip4, v);
        }
    }
}

} // verus!
