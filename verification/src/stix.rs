//! STIX 2.1: export of an investigation graph as a bundle, and import of
//! the node and relation objects of a bundle.
use vstd::prelude::*;
use vstd::string::StringExecFns;
use vstd::utf8::encode_utf8;

use crate::domain::{HashAlgorithm, NodeRecord, NodeType, RelationRecord, RelationType, TypeSpecificProps};
use crate::graph::types::{opt_str_view, string_views};
use crate::ids::{name_based_uuid, uuid_v5_url_text};
use crate::json::{
    as_text, entry_value, is_text_object, json_content, json_get, lemma_same_entries_content,
    lemma_text_entries_same, lemma_text_objects_same_content, text_entries, text_field, text_object,
    JsonContent, JsonValue,
};
use crate::text::{
    chars_of, find_last_value, join, join_strings, last_value_of, owned, pair_views, push_char,
    trim, trimmed,
};

verus! {

// ----------------------------------------------------------------------
// Names and identifiers
// ----------------------------------------------------------------------

/// The STIX name of a hash algorithm.
pub open spec fn hash_algorithm_text(a: HashAlgorithm) -> Seq<char> {
    match a {
        HashAlgorithm::MD5 => "MD5"@,
        HashAlgorithm::SHA1 => "SHA-1"@,
        HashAlgorithm::SHA256 => "SHA-256"@,
    }
}

/// The STIX name of a hash algorithm.
pub fn hash_algorithm_name(algorithm: &HashAlgorithm) -> (r: &'static str)
    ensures
        r@ == hash_algorithm_text(*algorithm),
{
    match algorithm {
        HashAlgorithm::MD5 => "MD5",
        HashAlgorithm::SHA1 => "SHA-1",
        HashAlgorithm::SHA256 => "SHA-256",
    }
}

/// The STIX relationship type a relation is exported as.
pub open spec fn relation_stix_text(t: RelationType) -> Seq<char> {
    match t {
        RelationType::ConnectsTo => "connects-to"@,
        RelationType::ResolvesTo => "resolves-to"@,
        RelationType::Creates => "creates"@,
        RelationType::BelongsTo => "belongs-to"@,
        RelationType::Uses => "uses"@,
        RelationType::Targets => "targets"@,
        RelationType::Contains => "contains"@,
    }
}

/// The STIX relationship type a relation is exported as.
pub fn relation_type_name(relation_type: &RelationType) -> (r: &'static str)
    ensures
        r@ == relation_stix_text(*relation_type),
{
    match relation_type {
        RelationType::ConnectsTo => "connects-to",
        RelationType::ResolvesTo => "resolves-to",
        RelationType::Creates => "creates",
        RelationType::BelongsTo => "belongs-to",
        RelationType::Uses => "uses",
        RelationType::Targets => "targets",
        RelationType::Contains => "contains",
    }
}

/// The STIX identifier of an object of type `object_type` derived from
/// `seed`: the type, `--`, and the name-based UUID of
/// `cyberweaver:<type>:<seed>`.
pub open spec fn stix_id_text(object_type: Seq<char>, seed: Seq<char>) -> Seq<char> {
    object_type + "--"@ + uuid_v5_url_text("cyberweaver:"@ + object_type + ":"@ + seed)
}

/// The STIX identifier of an object of type `object_type` derived from
/// `seed`; the same type and seed always give the same identifier.
pub fn deterministic_stix_id(object_type: &str, seed: &str) -> (r: String)
    ensures
        r@ == stix_id_text(object_type@, seed@),
{
    let mut name = String::from_str("cyberweaver:");
    name.append(object_type);
    name.append(":");
    name.append(seed);
    let uuid = name_based_uuid(name.as_str());
    let mut id = owned(object_type);
    id.append("--");
    id.append(uuid.as_str());
    id
}

// ----------------------------------------------------------------------
// Timestamps
// ----------------------------------------------------------------------

/// `s` with each space replaced by `T`.
pub open spec fn spaces_to_t(s: Seq<char>) -> Seq<char> {
    s.map_values(|c: char| if c == ' ' { 'T' } else { c })
}

/// A STIX timestamp for an optional stored timestamp: blank or missing
/// gives the epoch; one ending in `Z` is kept; a 10-byte date gets
/// midnight; a 19-byte `date time` or `dateTtime` gets `T` and `Z`;
/// anything else gets midnight appended.
pub open spec fn stix_timestamp(value: Option<Seq<char>>) -> Seq<char> {
    match value {
        Some(raw) => {
            let v = trimmed(raw);
            let b = encode_utf8(v);
            if v.len() == 0 {
                "1970-01-01T00:00:00.000Z"@
            } else if v.last() == 'Z' {
                v
            } else if b.len() == 10 {
                v + "T00:00:00.000Z"@
            } else if b.len() == 19 && b[10] == 32u8 {
                spaces_to_t(v) + seq!['Z']
            } else if b.len() == 19 && b[10] == 84u8 {
                v + seq!['Z']
            } else {
                v + "T00:00:00.000Z"@
            }
        },
        None => "1970-01-01T00:00:00.000Z"@,
    }
}

fn replace_spaces_with_t(s: &str) -> (r: String)
    ensures
        r@ == spaces_to_t(s@),
{
    let cs = chars_of(s);
    let mut out = String::new();
    let mut i: usize = 0;
    while i < cs.len()
        invariant
            cs@ == s@,
            i <= cs@.len(),
            out@ == spaces_to_t(s@.take(i as int)),
        decreases cs.len() - i,
    {
        let c = cs[i];
        if c == ' ' {
            push_char(&mut out, 'T');
        } else {
            push_char(&mut out, c);
        }
        assert(spaces_to_t(s@.take(i + 1)) =~= spaces_to_t(s@.take(i as int)).push(
            if c == ' ' {
                'T'
            } else {
                c
            },
        ));
        i = i + 1;
    }
    assert(s@.take(i as int) =~= s@);
    out
}

/// A STIX timestamp for an optional stored timestamp.
pub fn format_stix_timestamp(value: Option<&str>) -> (r: String)
    ensures
        r@ == stix_timestamp(opt_str_view(value)),
{
    match value {
        Some(raw) => {
            let v = trim(raw);
            let n = v.unicode_len();
            if n == 0 {
                return String::from_str("1970-01-01T00:00:00.000Z");
            }
            if v.get_char(n - 1) == 'Z' {
                return owned(v);
            }
            let byte_len = v.len();
            if byte_len == 10 {
                let mut s = owned(v);
                s.append("T00:00:00.000Z");
                return s;
            }
            if byte_len == 19 {
                let bytes = v.as_bytes();
                let b10 = bytes[10];
                if b10 == 32u8 {
                    let mut s = replace_spaces_with_t(v);
                    push_char(&mut s, 'Z');
                    return s;
                }
                if b10 == 84u8 {
                    let mut s = owned(v);
                    push_char(&mut s, 'Z');
                    return s;
                }
            }
            let mut s = owned(v);
            s.append("T00:00:00.000Z");
            s
        },
        None => String::from_str("1970-01-01T00:00:00.000Z"),
    }
}

// ----------------------------------------------------------------------
// Export
// ----------------------------------------------------------------------

/// The character sequence of an optional string.
pub open spec fn opt_string_view(o: Option<String>) -> Option<Seq<char>> {
    match o {
        Some(s) => Some(s@),
        None => None,
    }
}

/// The STIX type a node is exported as; `None` for a node that is not
/// exported (a process, or a node whose properties do not match its type
/// where the export reads them).
pub open spec fn stix_type_of(n: NodeRecord) -> Option<Seq<char>> {
    match n.node_type {
        NodeType::IpAddress => if n.properties is IpAddress {
            Some("indicator"@)
        } else {
            None
        },
        NodeType::Domain => if n.properties is Domain {
            Some("indicator"@)
        } else {
            None
        },
        NodeType::FileHash => if n.properties is FileHash {
            Some("indicator"@)
        } else {
            None
        },
        NodeType::Malware => Some("malware"@),
        NodeType::ThreatActor => Some("threat-actor"@),
        NodeType::Ttp => if n.properties is Ttp {
            Some("attack-pattern"@)
        } else {
            None
        },
        NodeType::Asset => if n.properties is Asset {
            Some("infrastructure"@)
        } else {
            None
        },
        NodeType::Process => None,
    }
}

/// The indicator pattern `[<field> = '<value>']`.
pub open spec fn pattern_text(field: Seq<char>, value: Seq<char>) -> Seq<char> {
    "["@ + field + " = '"@ + value + "']"@
}

/// The string fields of the STIX object a node is exported as, in order,
/// given its STIX type and identifier.
pub open spec fn stix_node_fields(n: NodeRecord, kind: Seq<char>, id: Seq<char>) -> Seq<
    (Seq<char>, Seq<char>),
> {
    let created = stix_timestamp(opt_string_view(n.created_at));
    let modified = stix_timestamp(
        match n.updated_at {
            Some(u) => Some(u@),
            None => opt_string_view(n.created_at),
        },
    );
    let head = seq![
        ("type"@, kind),
        ("spec_version"@, "2.1"@),
        ("id"@, id),
        ("created"@, created),
        ("modified"@, modified),
    ];
    match n.properties {
        TypeSpecificProps::IpAddress(p) => if n.node_type == NodeType::IpAddress {
            let field = if opt_string_view(p.version) == Some("ipv6"@) {
                "ipv6-addr:value"@
            } else {
                "ipv4-addr:value"@
            };
            head + seq![("name"@, n.label@), ("pattern"@, pattern_text(field, p.address@))]
        } else {
            head + seq![("name"@, n.label@)]
        },
        TypeSpecificProps::Domain(p) => if n.node_type == NodeType::Domain {
            head + seq![
                ("name"@, n.label@),
                ("pattern"@, pattern_text("domain-name:value"@, p.domain@)),
            ]
        } else {
            head + seq![("name"@, n.label@)]
        },
        TypeSpecificProps::FileHash(p) => if n.node_type == NodeType::FileHash {
            head + seq![
                ("name"@, n.label@),
                (
                    "pattern"@,
                    pattern_text("file:hashes."@ + hash_algorithm_text(p.algorithm), p.hash_value@),
                ),
            ]
        } else {
            head + seq![("name"@, n.label@)]
        },
        TypeSpecificProps::Asset(p) => if n.node_type == NodeType::Asset {
            head + seq![("name"@, p.hostname@)]
        } else {
            head + seq![("name"@, n.label@)]
        },
        _ => head + seq![("name"@, n.label@)],
    }
}

/// `obj` is the STIX object a node is exported as: its string fields, and
/// for an attack pattern a single MITRE external reference after them.
pub open spec fn is_stix_node_object(n: NodeRecord, kind: Seq<char>, id: Seq<char>, obj: JsonValue) -> bool {
    let fields = stix_node_fields(n, kind, id);
    if n.node_type == NodeType::Ttp {
        &&& obj matches JsonValue::Object(entries)
        &&& entries@.len() == fields.len() + 1
        &&& text_entries(entries@.take(fields.len() as int), fields)
        &&& entries@.last().0@ == "external_references"@
        &&& entries@.last().1 matches JsonValue::Array(refs)
        &&& refs@.len() == 1
        &&& n.properties matches TypeSpecificProps::Ttp(p)
        &&& is_text_object(
            refs@[0],
            seq![("source_name"@, "mitre"@), ("external_id"@, p.mitre_id@)],
        )
    } else {
        is_text_object(obj, fields)
    }
}

fn push_field(fields: &mut Vec<(String, String)>, key: &str, value: String)
    ensures
        pair_views(final(fields)@) == pair_views(old(fields)@).push((key@, value@)),
{
    fields.push((owned(key), value));
    assert(pair_views(fields@) =~= pair_views(old(fields)@).push((key@, value@)));
}

fn pattern(field: &str, value: &str) -> (r: String)
    ensures
        r@ == pattern_text(field@, value@),
{
    let mut s = String::from_str("[");
    s.append(field);
    s.append(" = '");
    s.append(value);
    s.append("']");
    s
}

/// The STIX identifier and object a node is exported as, if it is
/// exported.
pub fn node_to_stix_object(node: &NodeRecord) -> (r: Option<(String, JsonValue)>)
    ensures
        match r {
            None => stix_type_of(*node) is None,
            Some((id, obj)) => stix_type_of(*node) matches Some(kind) && id@ == stix_id_text(
                kind,
                node.id@,
            ) && is_stix_node_object(*node, kind, id@, obj),
        },
{
    let kind: &str = match (&node.node_type, &node.properties) {
        (NodeType::IpAddress, TypeSpecificProps::IpAddress(_)) => "indicator",
        (NodeType::Domain, TypeSpecificProps::Domain(_)) => "indicator",
        (NodeType::FileHash, TypeSpecificProps::FileHash(_)) => "indicator",
        (NodeType::Malware, _) => "malware",
        (NodeType::ThreatActor, _) => "threat-actor",
        (NodeType::Ttp, TypeSpecificProps::Ttp(_)) => "attack-pattern",
        (NodeType::Asset, TypeSpecificProps::Asset(_)) => "infrastructure",
        _ => {
            return None;
        },
    };
    let created = format_stix_timestamp(
        match &node.created_at {
            Some(c) => Some(c.as_str()),
            None => None,
        },
    );
    let modified = format_stix_timestamp(
        match &node.updated_at {
            Some(u) => Some(u.as_str()),
            None => match &node.created_at {
                Some(c) => Some(c.as_str()),
                None => None,
            },
        },
    );
    let id = deterministic_stix_id(kind, node.id.as_str());
    let mut fields: Vec<(String, String)> = Vec::new();
    push_field(&mut fields, "type", owned(kind));
    push_field(&mut fields, "spec_version", String::from_str("2.1"));
    push_field(&mut fields, "id", id.clone());
    push_field(&mut fields, "created", created);
    push_field(&mut fields, "modified", modified);
    match &node.properties {
        TypeSpecificProps::IpAddress(p) if node.node_type == NodeType::IpAddress => {
            let ipv6 = match &p.version {
                Some(v) => crate::text::str_eq(v.as_str(), "ipv6"),
                None => false,
            };
            let field = if ipv6 {
                "ipv6-addr:value"
            } else {
                "ipv4-addr:value"
            };
            push_field(&mut fields, "name", node.label.clone());
            push_field(&mut fields, "pattern", pattern(field, p.address.as_str()));
        },
        TypeSpecificProps::Domain(p) if node.node_type == NodeType::Domain => {
            push_field(&mut fields, "name", node.label.clone());
            push_field(&mut fields, "pattern", pattern("domain-name:value", p.domain.as_str()));
        },
        TypeSpecificProps::FileHash(p) if node.node_type == NodeType::FileHash => {
            let mut field = String::from_str("file:hashes.");
            field.append(hash_algorithm_name(&p.algorithm));
            push_field(&mut fields, "name", node.label.clone());
            push_field(&mut fields, "pattern", pattern(field.as_str(), p.hash_value.as_str()));
        },
        TypeSpecificProps::Asset(p) if node.node_type == NodeType::Asset => {
            push_field(&mut fields, "name", p.hostname.clone());
        },
        _ => {
            push_field(&mut fields, "name", node.label.clone());
        },
    }
    proof {
        reveal_strlit("ipv6");
    }
    assert(pair_views(fields@) =~= stix_node_fields(*node, kind@, id@));
    let obj = text_object(&fields);
    match &node.properties {
        TypeSpecificProps::Ttp(p) if node.node_type == NodeType::Ttp => {
            let mut reference: Vec<(String, String)> = Vec::new();
            push_field(&mut reference, "source_name", String::from_str("mitre"));
            push_field(&mut reference, "external_id", p.mitre_id.clone());
            let mut refs: Vec<JsonValue> = Vec::new();
            refs.push(text_object(&reference));
            match obj {
                JsonValue::Object(mut entries) => {
                    let ghost before = entries@;
                    entries.push((String::from_str("external_references"), JsonValue::Array(refs)));
                    assert(entries@.take(before.len() as int) =~= before);
                    Some((id, JsonValue::Object(entries)))
                },
                other => Some((id, other)),
            }
        },
        _ => Some((id, obj)),
    }
}

/// A STIX bundle: its type (`bundle`), identifier and objects.
#[derive(Debug)]
pub struct StixBundle {
    pub bundle_type: String,
    pub id: String,
    pub objects: Vec<JsonValue>,
}

/// The nodes that are exported, in order.
pub open spec fn exported_nodes(nodes: Seq<NodeRecord>) -> Seq<NodeRecord> {
    nodes.filter(|n: NodeRecord| stix_type_of(n) is Some)
}

/// The STIX identifier a node is exported under.
pub open spec fn node_stix_id(n: NodeRecord) -> Seq<char> {
    stix_id_text(stix_type_of(n).unwrap(), n.id@)
}

/// Node ID -> STIX identifier, for the exported nodes, in order.
pub open spec fn export_id_pairs(nodes: Seq<NodeRecord>) -> Seq<(Seq<char>, Seq<char>)> {
    exported_nodes(nodes).map_values(|n: NodeRecord| (n.id@, node_stix_id(n)))
}

/// Both endpoints of the relation were exported.
pub open spec fn relation_exported(r: RelationRecord, pairs: Seq<(Seq<char>, Seq<char>)>) -> bool {
    last_value_of(pairs, r.source_node_id@) is Some && last_value_of(pairs, r.target_node_id@) is Some
}

/// The relations that are exported, in order.
pub open spec fn exported_relations(relations: Seq<RelationRecord>, pairs: Seq<(Seq<char>, Seq<char>)>) -> Seq<RelationRecord> {
    relations.filter(|r: RelationRecord| relation_exported(r, pairs))
}

/// The STIX identifier of an exported relation.
pub open spec fn relationship_stix_id(r: RelationRecord) -> Seq<char> {
    stix_id_text(
        "relationship"@,
        r.source_node_id@ + ":"@ + r.target_node_id@ + ":"@ + relation_stix_text(r.relation_type)
            + ":"@ + r.label@,
    )
}

/// The string fields of the STIX relationship an exported relation
/// becomes, in order.
pub open spec fn relationship_fields(r: RelationRecord, pairs: Seq<(Seq<char>, Seq<char>)>) -> Seq<
    (Seq<char>, Seq<char>),
> {
    seq![
        ("type"@, "relationship"@),
        ("spec_version"@, "2.1"@),
        ("id"@, relationship_stix_id(r)),
        ("created"@, stix_timestamp(opt_string_view(r.first_seen))),
        (
            "modified"@,
            stix_timestamp(
                match r.last_seen {
                    Some(l) => Some(l@),
                    None => opt_string_view(r.first_seen),
                },
            ),
        ),
        ("relationship_type"@, relation_stix_text(r.relation_type)),
        ("source_ref"@, last_value_of(pairs, r.source_node_id@).unwrap()),
        ("target_ref"@, last_value_of(pairs, r.target_node_id@).unwrap()),
    ]
}

/// The identifiers of all exported objects, in bundle order.
pub open spec fn bundle_object_ids(nodes: Seq<NodeRecord>, relations: Seq<RelationRecord>) -> Seq<
    Seq<char>,
> {
    let pairs = export_id_pairs(nodes);
    exported_nodes(nodes).map_values(|n: NodeRecord| node_stix_id(n)) + exported_relations(
        relations,
        pairs,
    ).map_values(|r: RelationRecord| relationship_stix_id(r))
}

fn relationship_object(
    r: &RelationRecord,
    source_ref: &String,
    target_ref: &String,
    Ghost(pairs): Ghost<Seq<(Seq<char>, Seq<char>)>>,
) -> (res: (String, JsonValue))
    requires
        last_value_of(pairs, r.source_node_id@) == Some(source_ref@),
        last_value_of(pairs, r.target_node_id@) == Some(target_ref@),
    ensures
        res.0@ == relationship_stix_id(*r),
        is_text_object(res.1, relationship_fields(*r, pairs)),
{
    let relationship_type = relation_type_name(&r.relation_type);
    let mut seed = r.source_node_id.clone();
    seed.append(":");
    seed.append(r.target_node_id.as_str());
    seed.append(":");
    seed.append(relationship_type);
    seed.append(":");
    seed.append(r.label.as_str());
    let id = deterministic_stix_id("relationship", seed.as_str());
    let first = match &r.first_seen {
        Some(f) => Some(f.as_str()),
        None => None,
    };
    let last = match &r.last_seen {
        Some(l) => Some(l.as_str()),
        None => first,
    };
    let mut fields: Vec<(String, String)> = Vec::new();
    push_field(&mut fields, "type", String::from_str("relationship"));
    push_field(&mut fields, "spec_version", String::from_str("2.1"));
    push_field(&mut fields, "id", id.clone());
    push_field(&mut fields, "created", format_stix_timestamp(first));
    push_field(&mut fields, "modified", format_stix_timestamp(last));
    push_field(&mut fields, "relationship_type", owned(relationship_type));
    push_field(&mut fields, "source_ref", source_ref.clone());
    push_field(&mut fields, "target_ref", target_ref.clone());
    assert(pair_views(fields@) =~= relationship_fields(*r, pairs));
    (id, text_object(&fields))
}

/// `b` is the bundle exporting `nodes` and `relations` gives.
pub open spec fn is_stix_export(nodes: Seq<NodeRecord>, relations: Seq<RelationRecord>, b: StixBundle) -> bool {
    &&& b.bundle_type@ == "bundle"@
    &&& b.id@ == stix_id_text("bundle"@, join(bundle_object_ids(nodes, relations), "|"@))
    &&& b.objects@.len() == exported_nodes(nodes).len() + exported_relations(
        relations,
        export_id_pairs(nodes),
    ).len()
    &&& forall|i: int|
        0 <= i < exported_nodes(nodes).len() ==> is_stix_node_object(
            exported_nodes(nodes)[i],
            stix_type_of(exported_nodes(nodes)[i]).unwrap(),
            node_stix_id(exported_nodes(nodes)[i]),
            #[trigger] b.objects@[i],
        )
    &&& forall|j: int|
        0 <= j < exported_relations(relations, export_id_pairs(nodes)).len() ==> is_text_object(
            #[trigger] b.objects@[exported_nodes(nodes).len() + j],
            relationship_fields(
                exported_relations(relations, export_id_pairs(nodes))[j],
                export_id_pairs(nodes),
            ),
        )
}

/// Exports nodes and relations as a STIX bundle: first the object of each
/// exported node, in order, then a relationship for each relation whose
/// two endpoints were exported, in order (an endpoint maps to the STIX
/// identifier of the last exported node with that ID).  The bundle's
/// identifier is derived from the identifiers of its objects, so the same
/// graph always gives the same bundle.
pub fn to_stix_bundle(nodes: &Vec<NodeRecord>, relations: &Vec<RelationRecord>) -> (b: StixBundle)
    ensures
        is_stix_export(nodes@, relations@, b),
{
    broadcast use vstd::seq_lib::group_seq_properties;

    let mut id_pairs: Vec<(String, String)> = Vec::new();
    let mut ids: Vec<String> = Vec::new();
    let mut objects: Vec<JsonValue> = Vec::new();
    let mut i: usize = 0;
    while i < nodes.len()
        invariant
            i <= nodes@.len(),
            pair_views(id_pairs@) == export_id_pairs(nodes@.take(i as int)),
            string_views(ids@) == exported_nodes(nodes@.take(i as int)).map_values(
                |n: NodeRecord| node_stix_id(n),
            ),
            objects@.len() == exported_nodes(nodes@.take(i as int)).len(),
            forall|k: int|
                0 <= k < objects@.len() ==> is_stix_node_object(
                    exported_nodes(nodes@.take(i as int))[k],
                    stix_type_of(exported_nodes(nodes@.take(i as int))[k]).unwrap(),
                    node_stix_id(exported_nodes(nodes@.take(i as int))[k]),
                    #[trigger] objects@[k],
                ),
        decreases nodes.len() - i,
    {
        let ghost before = exported_nodes(nodes@.take(i as int));
        assert(nodes@.take(i + 1) =~= nodes@.take(i as int).push(nodes@[i as int]));
        proof {
            nodes@.take(i as int).lemma_filter_push(
                nodes@[i as int],
                |n: NodeRecord| stix_type_of(n) is Some,
            );
        }
        let ghost after = exported_nodes(nodes@.take(i + 1));
        match node_to_stix_object(&nodes[i]) {
            Some((stix_id, obj)) => {
                assert(after =~= before.push(nodes@[i as int]));
                let ghost prev_objects = objects@;
                let ghost prev_pairs = id_pairs@;
                let ghost prev_ids = ids@;
                id_pairs.push((nodes[i].id.clone(), stix_id.clone()));
                ids.push(stix_id);
                objects.push(obj);
                assert(pair_views(id_pairs@) =~= export_id_pairs(nodes@.take(i + 1))) by {
                    assert(pair_views(id_pairs@) =~= pair_views(prev_pairs).push(
                        (nodes@[i as int].id@, node_stix_id(nodes@[i as int])),
                    ));
                }
                assert(string_views(ids@) =~= after.map_values(|n: NodeRecord| node_stix_id(n))) by {
                    assert(string_views(ids@) =~= string_views(prev_ids).push(node_stix_id(nodes@[i as int])));
                }
                assert forall|k: int| 0 <= k < objects@.len() implies is_stix_node_object(
                    after[k],
                    stix_type_of(after[k]).unwrap(),
                    node_stix_id(after[k]),
                    #[trigger] objects@[k],
                ) by {
                    if k < prev_objects.len() {
                        assert(objects@[k] == prev_objects[k]);
                        assert(after[k] == before[k]);
                    }
                }
            },
            None => {
                assert(after =~= before);
            },
        }
        i = i + 1;
    }
    assert(nodes@.take(i as int) =~= nodes@);
    let ghost pairs = export_id_pairs(nodes@);
    let ghost node_count = objects@.len();
    let mut j: usize = 0;
    while j < relations.len()
        invariant
            j <= relations@.len(),
            pair_views(id_pairs@) == pairs,
            pairs == export_id_pairs(nodes@),
            node_count == exported_nodes(nodes@).len(),
            string_views(ids@) == exported_nodes(nodes@).map_values(|n: NodeRecord| node_stix_id(n))
                + exported_relations(relations@.take(j as int), pairs).map_values(
                |r: RelationRecord| relationship_stix_id(r),
            ),
            objects@.len() == node_count + exported_relations(relations@.take(j as int), pairs).len(),
            forall|k: int|
                0 <= k < node_count ==> is_stix_node_object(
                    exported_nodes(nodes@)[k],
                    stix_type_of(exported_nodes(nodes@)[k]).unwrap(),
                    node_stix_id(exported_nodes(nodes@)[k]),
                    #[trigger] objects@[k],
                ),
            forall|q: int|
                0 <= q < exported_relations(relations@.take(j as int), pairs).len() ==> is_text_object(
                    #[trigger] objects@[node_count + q],
                    relationship_fields(exported_relations(relations@.take(j as int), pairs)[q], pairs),
                ),
        decreases relations.len() - j,
    {
        let ghost before = exported_relations(relations@.take(j as int), pairs);
        assert(relations@.take(j + 1) =~= relations@.take(j as int).push(relations@[j as int]));
        proof {
            relations@.take(j as int).lemma_filter_push(
                relations@[j as int],
                |r: RelationRecord| relation_exported(r, pairs),
            );
        }
        let ghost after = exported_relations(relations@.take(j + 1), pairs);
        let r = &relations[j];
        let source = find_last_value(&id_pairs, r.source_node_id.as_str());
        let target = find_last_value(&id_pairs, r.target_node_id.as_str());
        match (source, target) {
            (Some(source_ref), Some(target_ref)) => {
                assert(after =~= before.push(relations@[j as int]));
                let (rel_id, obj) = relationship_object(r, source_ref, target_ref, Ghost(pairs));
                let ghost prev_objects = objects@;
                let ghost prev_ids = ids@;
                ids.push(rel_id);
                objects.push(obj);
                assert(string_views(ids@) =~= string_views(prev_ids).push(relationship_stix_id(*r)));
                assert(after.map_values(|r: RelationRecord| relationship_stix_id(r)) =~= before.map_values(
                    |r: RelationRecord| relationship_stix_id(r),
                ).push(relationship_stix_id(*r)));
                assert forall|k: int| 0 <= k < node_count implies is_stix_node_object(
                    exported_nodes(nodes@)[k],
                    stix_type_of(exported_nodes(nodes@)[k]).unwrap(),
                    node_stix_id(exported_nodes(nodes@)[k]),
                    #[trigger] objects@[k],
                ) by {
                    assert(objects@[k] == prev_objects[k]);
                }
                assert forall|q: int| 0 <= q < after.len() implies is_text_object(
                    #[trigger] objects@[node_count + q],
                    relationship_fields(after[q], pairs),
                ) by {
                    if q < before.len() {
                        assert(objects@[node_count + q] == prev_objects[node_count + q]);
                        assert(after[q] == before[q]);
                    }
                }
            },
            _ => {
                assert(after =~= before);
            },
        }
        j = j + 1;
    }
    assert(relations@.take(j as int) =~= relations@);
    assert(string_views(ids@) == bundle_object_ids(nodes@, relations@));
    let seed = join_strings(&ids, "|");
    StixBundle {
        bundle_type: String::from_str("bundle"),
        id: deterministic_stix_id("bundle", seed.as_str()),
        objects,
    }
}

// ----------------------------------------------------------------------
// Determinism
// ----------------------------------------------------------------------

/// The value of the first field with key `key`.
pub open spec fn field_value(fields: Seq<(Seq<char>, Seq<char>)>, key: Seq<char>) -> Option<Seq<char>>
    decreases fields.len(),
{
    if fields.len() == 0 {
        None
    } else if fields[0].0 == key {
        Some(fields[0].1)
    } else {
        field_value(fields.drop_first(), key)
    }
}

/// The string under `key` in entries that begin with exactly the given
/// string fields and go on with non-string values only.
proof fn lemma_text_lookup(
    entries: Seq<(String, JsonValue)>,
    fields: Seq<(Seq<char>, Seq<char>)>,
    key: Seq<char>,
)
    requires
        fields.len() <= entries.len(),
        text_entries(entries.take(fields.len() as int), fields),
        forall|i: int| fields.len() <= i < entries.len() ==> as_text(Some(#[trigger] entries[i].1)) is None,
    ensures
        as_text(entry_value(entries, key)) == field_value(fields, key),
    decreases entries.len(),
{
    if entries.len() > 0 {
        let n = fields.len() as int;
        if n > 0 {
            assert(entries.take(n)[0] == entries[0]);
            let rest_f = fields.drop_first();
            let rest_e = entries.drop_first();
            assert(rest_e.take(n - 1) =~= entries.take(n).drop_first());
            assert forall|i: int| 0 <= i < rest_e.take(n - 1).len() implies (#[trigger] rest_e.take(
                n - 1,
            )[i]).0@ == rest_f[i].0 && as_text(Some(rest_e.take(n - 1)[i].1)) == Some(rest_f[i].1) by {
                assert(rest_e.take(n - 1)[i] == entries.take(n)[i + 1]);
            }
            assert forall|i: int| n - 1 <= i < rest_e.len() implies as_text(
                Some(#[trigger] rest_e[i].1),
            ) is None by {
                assert(rest_e[i] == entries[i + 1]);
            }
            lemma_text_lookup(rest_e, rest_f, key);
        } else {
            let rest_e = entries.drop_first();
            assert(rest_e.take(0) =~= Seq::<(String, JsonValue)>::empty());
            assert forall|i: int| 0 <= i < rest_e.len() implies as_text(Some(#[trigger] rest_e[i].1)) is None by {
                assert(rest_e[i] == entries[i + 1]);
            }
            lemma_text_lookup(rest_e, fields, key);
            assert(as_text(Some(entries[0].1)) is None);
        }
    }
}

/// The strings of an exported node object are its fields'.
pub proof fn lemma_node_object_text(n: NodeRecord, kind: Seq<char>, id: Seq<char>, obj: JsonValue, key: Seq<char>)
    requires
        is_stix_node_object(n, kind, id, obj),
    ensures
        text_field(obj, key) == field_value(stix_node_fields(n, kind, id), key),
{
    let fields = stix_node_fields(n, kind, id);
    if let JsonValue::Object(entries) = obj {
        if n.node_type == NodeType::Ttp {
            lemma_text_lookup(entries@, fields, key);
        } else {
            assert(entries@.take(fields.len() as int) =~= entries@);
            lemma_text_lookup(entries@, fields, key);
        }
    }
}

/// The strings of a text object are its fields'.
pub proof fn lemma_text_object_lookup(obj: JsonValue, fields: Seq<(Seq<char>, Seq<char>)>, key: Seq<char>)
    requires
        is_text_object(obj, fields),
    ensures
        text_field(obj, key) == field_value(fields, key),
{
    if let JsonValue::Object(entries) = obj {
        assert(entries@.take(fields.len() as int) =~= entries@);
        lemma_text_lookup(entries@, fields, key);
    }
}

/// Two objects that both export the same node have the same content.
proof fn lemma_node_objects_same_content(
    n: NodeRecord,
    kind: Seq<char>,
    id: Seq<char>,
    o1: JsonValue,
    o2: JsonValue,
)
    requires
        is_stix_node_object(n, kind, id, o1),
        is_stix_node_object(n, kind, id, o2),
    ensures
        json_content(o1) == json_content(o2),
{
    let fields = stix_node_fields(n, kind, id);
    if n.node_type == NodeType::Ttp {
        if let JsonValue::Object(e1) = o1 {
            if let JsonValue::Object(e2) = o2 {
                let k = fields.len() as int;
                lemma_text_entries_same(e1@.take(k), e2@.take(k), fields);
                let last1 = e1@[k].1;
                let last2 = e2@[k].1;
                assert(e1@.last() == e1@[k]);
                assert(e2@.last() == e2@[k]);
                if let JsonValue::Array(r1) = last1 {
                    if let JsonValue::Array(r2) = last2 {
                        if let TypeSpecificProps::Ttp(p) = n.properties {
                            lemma_text_objects_same_content(
                                r1@[0],
                                r2@[0],
                                seq![("source_name"@, "mitre"@), ("external_id"@, p.mitre_id@)],
                            );
                        }
                        if let JsonContent::Array(c1) = json_content(last1) {
                            if let JsonContent::Array(c2) = json_content(last2) {
                                assert(c1 =~= c2);
                            }
                        }
                    }
                }
                assert forall|i: int| 0 <= i < e1@.len() implies (#[trigger] e1@[i]).0@ == e2@[i].0@
                    && json_content(e1@[i].1) == json_content(e2@[i].1) by {
                    if i < k {
                        assert(e1@.take(k)[i] == e1@[i]);
                        assert(e2@.take(k)[i] == e2@[i]);
                    }
                }
                lemma_same_entries_content(e1, e2);
            }
        }
    } else {
        lemma_text_objects_same_content(o1, o2, fields);
    }
}

/// Exporting the same nodes and relations twice gives bundles with the
/// same identifier and the same objects: each object has the same content
/// (keys, strings and the external references of an attack pattern), and
/// holds the same strings under the same keys.
pub proof fn lemma_stix_export_deterministic(
    nodes: Seq<NodeRecord>,
    relations: Seq<RelationRecord>,
    first: StixBundle,
    second: StixBundle,
)
    requires
        is_stix_export(nodes, relations, first),
        is_stix_export(nodes, relations, second),
    ensures
        first.id@ == second.id@,
        first.objects@.len() == second.objects@.len(),
        forall|i: int, key: Seq<char>|
            0 <= i < first.objects@.len() ==> #[trigger] text_field(first.objects@[i], key)
                == text_field(second.objects@[i], key),
        forall|i: int|
            0 <= i < first.objects@.len() ==> #[trigger] json_content(first.objects@[i])
                == json_content(second.objects@[i]),
{
    let ex = exported_nodes(nodes);
    let pairs = export_id_pairs(nodes);
    let rels = exported_relations(relations, pairs);
    assert forall|i: int, key: Seq<char>|
        0 <= i < first.objects@.len() implies #[trigger] text_field(first.objects@[i], key)
        == text_field(second.objects@[i], key) by {
        if i < ex.len() {
            let kind = stix_type_of(ex[i]).unwrap();
            let id = node_stix_id(ex[i]);
            lemma_node_object_text(ex[i], kind, id, first.objects@[i], key);
            lemma_node_object_text(ex[i], kind, id, second.objects@[i], key);
        } else {
            let j = i - ex.len();
            let fields = relationship_fields(rels[j], pairs);
            assert(first.objects@[ex.len() + j] == first.objects@[i]);
            assert(is_text_object(first.objects@[i], fields));
            assert(is_text_object(second.objects@[i], fields));
            if let JsonValue::Object(e1) = first.objects@[i] {
                assert(e1@.take(fields.len() as int) =~= e1@);
                lemma_text_lookup(e1@, fields, key);
            }
            if let JsonValue::Object(e2) = second.objects@[i] {
                assert(e2@.take(fields.len() as int) =~= e2@);
                lemma_text_lookup(e2@, fields, key);
            }
        }
    }
    assert forall|i: int| 0 <= i < first.objects@.len() implies #[trigger] json_content(
        first.objects@[i],
    ) == json_content(second.objects@[i]) by {
        if i < ex.len() {
            let kind = stix_type_of(ex[i]).unwrap();
            let id = node_stix_id(ex[i]);
            lemma_node_objects_same_content(ex[i], kind, id, first.objects@[i], second.objects@[i]);
        } else {
            let j = i - ex.len();
            let fields = relationship_fields(rels[j], pairs);
            assert(first.objects@[ex.len() + j] == first.objects@[i]);
            assert(second.objects@[ex.len() + j] == second.objects@[i]);
            lemma_text_objects_same_content(first.objects@[i], second.objects@[i], fields);
        }
    }
}

} // verus!
