//! Attack Flow (OASIS) bundles: import into, and export from, an
//! investigation graph.
//!
//! Canvas positions are floating-point values that the caller keeps: an
//! action or asset records only whether it came with a position, and an
//! exported bundle lists which node each action and asset was made from.
use vstd::prelude::*;
use vstd::string::StringExecFns;

use crate::domain::{
    node_type_display, AssetProps, MalwareProps, NodeRecord, NodeType, ProcessProps,
    RelationRecord, RelationType, ThreatActorProps, TtpProps, TypeSpecificProps,
};
use crate::error::{AppError, ErrorView};
use crate::ids::{is_hyphenated_uuid, random_uuid};
use crate::stix::opt_string_view;
use crate::stix_import::{grid_cell, text_or_empty, ImportedNode};
use crate::graph::types::string_views;
use crate::text::{owned, str_eq, trim, trimmed};

verus! {

/// An action of an attack flow.  `positioned` records that it came with
/// both canvas coordinates.
#[derive(Clone, Debug)]
pub struct AfbAction {
    pub id: String,
    pub name: String,
    pub description: Option<String>,
    pub action_type: String,
    pub positioned: bool,
}

/// An asset of an attack flow.  `positioned` records that it came with
/// both canvas coordinates.
#[derive(Clone, Debug)]
pub struct AfbAsset {
    pub id: String,
    pub name: String,
    pub description: Option<String>,
    pub asset_type: Option<String>,
    pub positioned: bool,
}

/// A relationship of an attack flow.
#[derive(Clone, Debug)]
pub struct AfbRelationship {
    pub id: String,
    pub source_ref: String,
    pub target_ref: String,
    pub relationship_type: String,
    pub description: Option<String>,
}

/// An attack-flow bundle.
#[derive(Clone, Debug)]
pub struct AfbBundle {
    pub schema_version: String,
    pub id: String,
    pub name: String,
    pub description: Option<String>,
    pub actions: Vec<AfbAction>,
    pub assets: Vec<AfbAsset>,
    pub relationships: Vec<AfbRelationship>,
}

// ----------------------------------------------------------------------
// Type mappings
// ----------------------------------------------------------------------

/// The node type an action type is imported as (techniques by default).
pub open spec fn node_type_of_action(action_type: Seq<char>) -> NodeType {
    if action_type == "malware"@ || action_type == "payload"@ {
        NodeType::Malware
    } else if action_type == "threat-actor"@ || action_type == "operator"@ || action_type
        == "identity"@ {
        NodeType::ThreatActor
    } else if action_type == "technique"@ || action_type == "ttp"@ || action_type
        == "attack-pattern"@ {
        NodeType::Ttp
    } else if action_type == "process"@ || action_type == "execution"@ {
        NodeType::Process
    } else {
        NodeType::Ttp
    }
}

/// The node type an action type is imported as.
pub fn map_action_type_to_node_type(action_type: &str) -> (r: NodeType)
    ensures
        r == node_type_of_action(action_type@),
{
    if str_eq(action_type, "malware") || str_eq(action_type, "payload") {
        NodeType::Malware
    } else if str_eq(action_type, "threat-actor") || str_eq(action_type, "operator") || str_eq(
        action_type,
        "identity",
    ) {
        NodeType::ThreatActor
    } else if str_eq(action_type, "technique") || str_eq(action_type, "ttp") || str_eq(
        action_type,
        "attack-pattern",
    ) {
        NodeType::Ttp
    } else if str_eq(action_type, "process") || str_eq(action_type, "execution") {
        NodeType::Process
    } else {
        NodeType::Ttp
    }
}

/// The action type a node is exported as.
pub open spec fn action_type_of_node(t: NodeType) -> Seq<char> {
    match t {
        NodeType::Malware => "malware"@,
        NodeType::ThreatActor => "threat-actor"@,
        NodeType::Ttp => "technique"@,
        NodeType::Process => "process"@,
        _ => "asset"@,
    }
}

/// The action type a node is exported as.
pub fn map_node_type_to_action_type(node_type: &NodeType) -> (r: &'static str)
    ensures
        r@ == action_type_of_node(*node_type),
{
    match node_type {
        NodeType::Malware => "malware",
        NodeType::ThreatActor => "threat-actor",
        NodeType::Ttp => "technique",
        NodeType::Process => "process",
        NodeType::Asset => "asset",
        NodeType::IpAddress => "asset",
        NodeType::Domain => "asset",
        NodeType::FileHash => "asset",
    }
}

/// The relation type an attack-flow relationship type is imported as
/// (unknown types connect).
pub open spec fn relation_type_of_afb(t: Seq<char>) -> RelationType {
    if t == "uses"@ {
        RelationType::Uses
    } else if t == "targets"@ {
        RelationType::Targets
    } else if t == "creates"@ {
        RelationType::Creates
    } else if t == "contains"@ {
        RelationType::Contains
    } else if t == "belongs-to"@ {
        RelationType::BelongsTo
    } else if t == "resolves-to"@ {
        RelationType::ResolvesTo
    } else {
        RelationType::ConnectsTo
    }
}

/// The relation type an attack-flow relationship type is imported as.
pub fn map_afb_relationship_type(relationship_type: &str) -> (r: RelationType)
    ensures
        r == relation_type_of_afb(relationship_type@),
{
    if str_eq(relationship_type, "uses") {
        RelationType::Uses
    } else if str_eq(relationship_type, "targets") {
        RelationType::Targets
    } else if str_eq(relationship_type, "creates") {
        RelationType::Creates
    } else if str_eq(relationship_type, "contains") {
        RelationType::Contains
    } else if str_eq(relationship_type, "belongs-to") {
        RelationType::BelongsTo
    } else if str_eq(relationship_type, "resolves-to") {
        RelationType::ResolvesTo
    } else {
        RelationType::ConnectsTo
    }
}

/// The attack-flow relationship type a relation type is exported as.
pub open spec fn afb_text_of_relation(t: RelationType) -> Seq<char> {
    match t {
        RelationType::Uses => "uses"@,
        RelationType::Targets => "targets"@,
        RelationType::Creates => "creates"@,
        RelationType::Contains => "contains"@,
        RelationType::BelongsTo => "belongs-to"@,
        RelationType::ResolvesTo => "resolves-to"@,
        RelationType::ConnectsTo => "connects-to"@,
    }
}

/// The attack-flow relationship type a relation type is exported as.
pub fn map_relation_type_to_afb(relation_type: &RelationType) -> (r: &'static str)
    ensures
        r@ == afb_text_of_relation(*relation_type),
{
    match relation_type {
        RelationType::Uses => "uses",
        RelationType::Targets => "targets",
        RelationType::Creates => "creates",
        RelationType::Contains => "contains",
        RelationType::BelongsTo => "belongs-to",
        RelationType::ResolvesTo => "resolves-to",
        RelationType::ConnectsTo => "connects-to",
    }
}

/// An optional text that is present only when not empty.
pub open spec fn non_empty(s: Seq<char>) -> Option<Seq<char>> {
    if s.len() > 0 {
        Some(s)
    } else {
        None
    }
}

/// `p` holds the properties an action of node type `t` gets: the label as
/// its name, and the action type (when not empty) as the malware type or
/// tactic.
pub open spec fn is_action_props(t: NodeType, label: Seq<char>, action_type: Seq<char>, p: TypeSpecificProps) -> bool {
    match t {
        NodeType::Malware => p matches TypeSpecificProps::Malware(q) && q.family_name@ == label
            && q.aliases@.len() == 0 && opt_string_view(q.malware_type) == non_empty(action_type)
            && q.first_seen is None,
        NodeType::ThreatActor => p matches TypeSpecificProps::ThreatActor(q) && q.name@ == label
            && q.aliases@.len() == 0 && q.motivation is None && q.sophistication is None
            && q.targets@.len() == 0,
        NodeType::Process => p matches TypeSpecificProps::Process(q) && q.process_name@ == label
            && q.pid is None && q.command_line is None && q.parent_process is None && q.user is None,
        _ => p matches TypeSpecificProps::Ttp(q) && q.mitre_id@ == label && opt_string_view(q.tactic)
            == non_empty(action_type) && q.platform@.len() == 0 && q.data_source@.len() == 0,
    }
}

fn non_empty_string(s: &str) -> (r: Option<String>)
    ensures
        opt_string_view(r) == non_empty(s@),
{
    if s.unicode_len() > 0 {
        Some(owned(s))
    } else {
        None
    }
}

/// The properties an action of node type `node_type` gets.
pub fn default_action_props(node_type: &NodeType, label: &str, action_type: &str) -> (r: TypeSpecificProps)
    ensures
        is_action_props(*node_type, label@, action_type@, r),
{
    match node_type {
        NodeType::Malware => TypeSpecificProps::Malware(
            MalwareProps {
                family_name: owned(label),
                aliases: Vec::new(),
                malware_type: non_empty_string(action_type),
                first_seen: None,
            },
        ),
        NodeType::ThreatActor => TypeSpecificProps::ThreatActor(
            ThreatActorProps {
                name: owned(label),
                aliases: Vec::new(),
                motivation: None,
                sophistication: None,
                targets: Vec::new(),
            },
        ),
        NodeType::Process => TypeSpecificProps::Process(
            ProcessProps {
                process_name: owned(label),
                pid: None,
                command_line: None,
                parent_process: None,
                user: None,
            },
        ),
        _ => TypeSpecificProps::Ttp(
            TtpProps {
                mitre_id: owned(label),
                tactic: non_empty_string(action_type),
                platform: Vec::new(),
                data_source: Vec::new(),
            },
        ),
    }
}

// ----------------------------------------------------------------------
// Import
// ----------------------------------------------------------------------

/// `id` is the given identifier, or a new random one when that is empty.
pub open spec fn keeps_or_draws_id(given: Seq<char>, id: Seq<char>) -> bool {
    if given.len() == 0 {
        is_hyphenated_uuid(id)
    } else {
        id == given
    }
}

/// The part of an imported node that does not depend on what it was made
/// from: no investigation, no timestamps, no confidence, the grid cell of
/// its index.
pub open spec fn is_plain_import(n: ImportedNode, index: int) -> bool {
    &&& n.node.investigation_id@ == Seq::<char>::empty()
    &&& n.node.created_at is None
    &&& n.node.updated_at is None
    &&& n.confidence is None
    &&& n.column == index % 4
    &&& n.row == index / 4
}

/// `n` is the node made of the action `a`, the `index`-th item imported.
pub open spec fn is_action_node(a: AfbAction, index: int, n: ImportedNode) -> bool {
    &&& keeps_or_draws_id(a.id@, n.node.id@)
    &&& n.node.node_type == node_type_of_action(a.action_type@)
    &&& n.node.label@ == a.name@
    &&& n.node.description@ == text_or_empty(opt_string_view(a.description))
    &&& is_action_props(n.node.node_type, a.name@, a.action_type@, n.node.properties)
    &&& is_plain_import(n, index)
}

/// `n` is the node made of the asset `a`, the `index`-th item imported.
pub open spec fn is_asset_node(a: AfbAsset, index: int, n: ImportedNode) -> bool {
    &&& keeps_or_draws_id(a.id@, n.node.id@)
    &&& n.node.node_type == NodeType::Asset
    &&& n.node.label@ == a.name@
    &&& n.node.description@ == text_or_empty(opt_string_view(a.description))
    &&& n.node.properties matches TypeSpecificProps::Asset(p)
    &&& p.hostname@ == a.name@
    &&& p.os is None
    &&& p.ip_addresses@.len() == 0
    &&& p.owner is None
    &&& opt_string_view(p.criticality) == opt_string_view(a.asset_type)
    &&& is_plain_import(n, index)
}

/// `r` is the relation made of the attack-flow relationship `a`.
pub open spec fn is_afb_relation(a: AfbRelationship, r: RelationRecord) -> bool {
    &&& keeps_or_draws_id(a.id@, r.id@)
    &&& r.relation_type == relation_type_of_afb(a.relationship_type@)
    &&& r.source_node_id@ == a.source_ref@
    &&& r.target_node_id@ == a.target_ref@
    &&& r.label@ == a.relationship_type@
    &&& r.first_seen is None
    &&& r.last_seen is None
    &&& r.investigation_id@ == Seq::<char>::empty()
}

/// `nodes` and `relations` are what importing the attack flow `b` gives:
/// a node per action, then per asset, and a relation per relationship, in
/// order.
pub open spec fn is_afb_import(b: AfbBundle, nodes: Seq<ImportedNode>, relations: Seq<RelationRecord>) -> bool {
    let n = b.actions@.len();
    &&& trimmed(b.schema_version@).len() > 0
    &&& nodes.len() == n + b.assets@.len()
    &&& forall|i: int| 0 <= i < n ==> is_action_node(b.actions@[i], i, #[trigger] nodes[i])
    &&& forall|k: int|
        0 <= k < b.assets@.len() ==> is_asset_node(b.assets@[k], n + k, #[trigger] nodes[n + k])
    &&& relations.len() == b.relationships@.len()
    &&& forall|j: int|
        0 <= j < relations.len() ==> is_afb_relation(b.relationships@[j], #[trigger] relations[j])
}

fn id_or_new(given: &String) -> (r: String)
    ensures
        keeps_or_draws_id(given@, r@),
{
    if given.unicode_len() == 0 {
        random_uuid()
    } else {
        given.clone()
    }
}

fn text_or_new(o: &Option<String>) -> (r: String)
    ensures
        r@ == text_or_empty(opt_string_view(*o)),
{
    match o {
        Some(s) => s.clone(),
        None => String::new(),
    }
}

fn plain_import(node: NodeRecord, index: usize) -> (n: ImportedNode)
    requires
        node.investigation_id@ == Seq::<char>::empty(),
        node.created_at is None,
        node.updated_at is None,
    ensures
        n.node == node,
        is_plain_import(n, index as int),
{
    let cell = grid_cell(index);
    ImportedNode { node, confidence: None, column: cell.0, row: cell.1 }
}

/// The node made of an action, the `index`-th item imported.
pub fn action_to_node(action: &AfbAction, index: usize) -> (n: ImportedNode)
    ensures
        is_action_node(*action, index as int, n),
{
    let node_type = map_action_type_to_node_type(action.action_type.as_str());
    let properties = default_action_props(&node_type, action.name.as_str(), action.action_type.as_str());
    plain_import(
        NodeRecord {
            id: id_or_new(&action.id),
            node_type,
            label: action.name.clone(),
            description: text_or_new(&action.description),
            properties,
            investigation_id: String::new(),
            created_at: None,
            updated_at: None,
        },
        index,
    )
}

/// The node made of an asset, the `index`-th item imported.
pub fn asset_to_node(asset: &AfbAsset, index: usize) -> (n: ImportedNode)
    ensures
        is_asset_node(*asset, index as int, n),
{
    plain_import(
        NodeRecord {
            id: id_or_new(&asset.id),
            node_type: NodeType::Asset,
            label: asset.name.clone(),
            description: text_or_new(&asset.description),
            properties: TypeSpecificProps::Asset(
                AssetProps {
                    hostname: asset.name.clone(),
                    os: None,
                    ip_addresses: Vec::new(),
                    owner: None,
                    criticality: match &asset.asset_type {
                        Some(t) => Some(t.clone()),
                        None => None,
                    },
                },
            ),
            investigation_id: String::new(),
            created_at: None,
            updated_at: None,
        },
        index,
    )
}

impl AfbRelationship {
    /// The relation this relationship becomes.
    pub fn into_relation(&self) -> (r: RelationRecord)
        ensures
            is_afb_relation(*self, r),
    {
        RelationRecord {
            id: id_or_new(&self.id),
            relation_type: map_afb_relationship_type(self.relationship_type.as_str()),
            source_node_id: self.source_ref.clone(),
            target_node_id: self.target_ref.clone(),
            label: self.relationship_type.clone(),
            first_seen: None,
            last_seen: None,
            investigation_id: String::new(),
        }
    }
}

/// Reads an attack-flow bundle: each action, then each asset, becomes a
/// node (counted together for their grid cells), and each relationship a
/// relation, in order.  A blank schema version is refused.
pub fn parse_attack_flow(bundle: &AfbBundle) -> (r: Result<(Vec<ImportedNode>, Vec<RelationRecord>), AppError>)
    ensures
        match r {
            Err(e) => trimmed(bundle.schema_version@).len() == 0 && e@ == ErrorView::Import(
                "AFB schema_version is required"@,
            ),
            Ok((nodes, relations)) => is_afb_import(*bundle, nodes@, relations@),
        },
{
    if trim(bundle.schema_version.as_str()).unicode_len() == 0 {
        return Err(AppError::Import(String::from_str("AFB schema_version is required")));
    }
    let mut nodes: Vec<ImportedNode> = Vec::new();
    let mut i: usize = 0;
    while i < bundle.actions.len()
        invariant
            i <= bundle.actions@.len(),
            nodes@.len() == i,
            forall|q: int| 0 <= q < i ==> is_action_node(bundle.actions@[q], q, #[trigger] nodes@[q]),
        decreases bundle.actions.len() - i,
    {
        nodes.push(action_to_node(&bundle.actions[i], i));
        i = i + 1;
    }
    let offset = nodes.len();
    let mut k: usize = 0;
    while k < bundle.assets.len()
        invariant
            k <= bundle.assets@.len(),
            offset == bundle.actions@.len(),
            nodes@.len() == offset + k,
            forall|q: int| 0 <= q < offset ==> is_action_node(bundle.actions@[q], q, #[trigger] nodes@[q]),
            forall|q: int|
                0 <= q < k ==> is_asset_node(bundle.assets@[q], offset + q, #[trigger] nodes@[offset + q]),
        decreases bundle.assets.len() - k,
    {
        let ghost prev = nodes@;
        let index = nodes.len();
        nodes.push(asset_to_node(&bundle.assets[k], index));
        assert forall|q: int| 0 <= q < offset implies is_action_node(bundle.actions@[q], q, #[trigger] nodes@[q]) by {
            assert(nodes@[q] == prev[q]);
        }
        assert forall|q: int| 0 <= q < k + 1 implies is_asset_node(bundle.assets@[q], offset + q, #[trigger] nodes@[offset + q]) by {
            if q < k {
                assert(nodes@[offset + q] == prev[offset + q]);
            }
        }
        k = k + 1;
    }
    let mut relations: Vec<RelationRecord> = Vec::new();
    let mut j: usize = 0;
    while j < bundle.relationships.len()
        invariant
            j <= bundle.relationships@.len(),
            relations@.len() == j,
            forall|q: int| 0 <= q < j ==> is_afb_relation(bundle.relationships@[q], #[trigger] relations@[q]),
        decreases bundle.relationships.len() - j,
    {
        relations.push(bundle.relationships[j].into_relation());
        j = j + 1;
    }
    Ok((nodes, relations))
}

// ----------------------------------------------------------------------
// Export
// ----------------------------------------------------------------------

/// An exported bundle, with the index of the node each action and each
/// asset was made from.
#[derive(Clone, Debug)]
pub struct AfbExport {
    pub bundle: AfbBundle,
    pub action_nodes: Vec<usize>,
    pub asset_nodes: Vec<usize>,
}

/// Node types exported as assets.
pub open spec fn is_asset_kind(t: NodeType) -> bool {
    t == NodeType::Asset || t == NodeType::IpAddress || t == NodeType::Domain || t
        == NodeType::FileHash
}

/// `a` is the action exported for the node `n`.
pub open spec fn is_exported_action(n: NodeRecord, a: AfbAction) -> bool {
    &&& a.id@ == n.id@
    &&& a.name@ == n.label@
    &&& opt_string_view(a.description) == non_empty(n.description@)
    &&& a.action_type@ == action_type_of_node(n.node_type)
    &&& a.positioned
}

/// The asset type an asset-kind node is exported with: an asset's
/// criticality, else the node type's display name.
pub open spec fn exported_asset_type(n: NodeRecord) -> Option<Seq<char>> {
    match n.properties {
        TypeSpecificProps::Asset(p) => opt_string_view(p.criticality),
        _ => Some(node_type_display(n.node_type)),
    }
}

/// `a` is the asset exported for the node `n`.
pub open spec fn is_exported_asset(n: NodeRecord, a: AfbAsset) -> bool {
    &&& a.id@ == n.id@
    &&& a.name@ == n.label@
    &&& opt_string_view(a.description) == non_empty(n.description@)
    &&& opt_string_view(a.asset_type) == exported_asset_type(n)
    &&& a.positioned
}

/// The relationship type a relation is exported with: its label, or the
/// name of its type when the label is blank.
pub open spec fn exported_relationship_type(r: RelationRecord) -> Seq<char> {
    if trimmed(r.label@).len() == 0 {
        afb_text_of_relation(r.relation_type)
    } else {
        r.label@
    }
}

/// `a` is the relationship exported for the relation `r`.
pub open spec fn is_exported_relationship(r: RelationRecord, a: AfbRelationship) -> bool {
    &&& a.id@ == r.id@
    &&& a.source_ref@ == r.source_node_id@
    &&& a.target_ref@ == r.target_node_id@
    &&& a.relationship_type@ == exported_relationship_type(r)
    &&& a.description is None
}

/// `idx` lists, in increasing order, exactly the indices of `nodes` whose
/// type satisfies `pick`.
pub open spec fn lists_indices_where(idx: Seq<usize>, nodes: Seq<NodeRecord>, pick: bool) -> bool {
    &&& forall|a: int, b: int| 0 <= a < b < idx.len() ==> idx[a] < idx[b]
    &&& forall|a: int|
        0 <= a < idx.len() ==> idx[a] < nodes.len() && is_asset_kind(nodes[idx[a] as int].node_type)
            == pick
    &&& forall|i: int|
        0 <= i < nodes.len() && is_asset_kind(nodes[i].node_type) == pick ==> exists|a: int|
            0 <= a < idx.len() && idx[a] == i
}

/// `e` is what exporting `nodes` and `relations` as an attack flow gives.
pub open spec fn is_afb_export(nodes: Seq<NodeRecord>, relations: Seq<RelationRecord>, e: AfbExport) -> bool {
    &&& e.bundle.schema_version@ == "1.0"@
    &&& is_hyphenated_uuid(e.bundle.id@)
    &&& e.bundle.name@ == "CyberWeaver Attack Flow"@
    &&& e.bundle.description is None
    &&& lists_indices_where(e.action_nodes@, nodes, false)
    &&& lists_indices_where(e.asset_nodes@, nodes, true)
    &&& e.bundle.actions@.len() == e.action_nodes@.len()
    &&& forall|a: int|
        0 <= a < e.action_nodes@.len() ==> is_exported_action(
            nodes[e.action_nodes@[a] as int],
            #[trigger] e.bundle.actions@[a],
        )
    &&& e.bundle.assets@.len() == e.asset_nodes@.len()
    &&& forall|a: int|
        0 <= a < e.asset_nodes@.len() ==> is_exported_asset(
            nodes[e.asset_nodes@[a] as int],
            #[trigger] e.bundle.assets@[a],
        )
    &&& e.bundle.relationships@.len() == relations.len()
    &&& forall|j: int|
        0 <= j < relations.len() ==> is_exported_relationship(
            relations[j],
            #[trigger] e.bundle.relationships@[j],
        )
}

fn node_to_action(node: &NodeRecord) -> (a: AfbAction)
    ensures
        is_exported_action(*node, a),
{
    AfbAction {
        id: node.id.clone(),
        name: node.label.clone(),
        description: non_empty_string(node.description.as_str()),
        action_type: owned(map_node_type_to_action_type(&node.node_type)),
        positioned: true,
    }
}

fn node_to_asset(node: &NodeRecord) -> (a: AfbAsset)
    ensures
        is_exported_asset(*node, a),
{
    let asset_type = match &node.properties {
        TypeSpecificProps::Asset(p) => match &p.criticality {
            Some(c) => Some(c.clone()),
            None => None,
        },
        _ => Some(owned(node.node_type.display_name())),
    };
    AfbAsset {
        id: node.id.clone(),
        name: node.label.clone(),
        description: non_empty_string(node.description.as_str()),
        asset_type,
        positioned: true,
    }
}

fn node_relation_to_afb(relation: &RelationRecord) -> (a: AfbRelationship)
    ensures
        is_exported_relationship(*relation, a),
{
    let relationship_type = if trim(relation.label.as_str()).unicode_len() == 0 {
        owned(map_relation_type_to_afb(&relation.relation_type))
    } else {
        relation.label.clone()
    };
    AfbRelationship {
        id: relation.id.clone(),
        source_ref: relation.source_node_id.clone(),
        target_ref: relation.target_node_id.clone(),
        relationship_type,
        description: None,
    }
}

/// Exports nodes and relations as an attack-flow bundle under a new
/// random ID: asset-kind nodes (assets, IP addresses, domains, file
/// hashes) become assets and the others actions, each in order, and every
/// relation becomes a relationship.
pub fn to_attack_flow(nodes: &Vec<NodeRecord>, relations: &Vec<RelationRecord>) -> (e: AfbExport)
    ensures
        is_afb_export(nodes@, relations@, e),
{
    let mut actions: Vec<AfbAction> = Vec::new();
    let mut assets: Vec<AfbAsset> = Vec::new();
    let mut action_nodes: Vec<usize> = Vec::new();
    let mut asset_nodes: Vec<usize> = Vec::new();
    let mut i: usize = 0;
    while i < nodes.len()
        invariant
            i <= nodes@.len(),
            actions@.len() == action_nodes@.len(),
            assets@.len() == asset_nodes@.len(),
            forall|a: int, b: int| 0 <= a < b < action_nodes@.len() ==> action_nodes@[a] < action_nodes@[b],
            forall|a: int, b: int| 0 <= a < b < asset_nodes@.len() ==> asset_nodes@[a] < asset_nodes@[b],
            forall|a: int|
                0 <= a < action_nodes@.len() ==> action_nodes@[a] < i && !is_asset_kind(
                    nodes@[action_nodes@[a] as int].node_type,
                ),
            forall|a: int|
                0 <= a < asset_nodes@.len() ==> asset_nodes@[a] < i && is_asset_kind(
                    nodes@[asset_nodes@[a] as int].node_type,
                ),
            forall|q: int|
                0 <= q < i && !is_asset_kind(nodes@[q].node_type) ==> exists|a: int|
                    0 <= a < action_nodes@.len() && action_nodes@[a] == q,
            forall|q: int|
                0 <= q < i && is_asset_kind(nodes@[q].node_type) ==> exists|a: int|
                    0 <= a < asset_nodes@.len() && asset_nodes@[a] == q,
            forall|a: int|
                0 <= a < action_nodes@.len() ==> is_exported_action(
                    nodes@[action_nodes@[a] as int],
                    #[trigger] actions@[a],
                ),
            forall|a: int|
                0 <= a < asset_nodes@.len() ==> is_exported_asset(
                    nodes@[asset_nodes@[a] as int],
                    #[trigger] assets@[a],
                ),
        decreases nodes.len() - i,
    {
        let node = &nodes[i];
        let asset_kind = match node.node_type {
            NodeType::Asset | NodeType::IpAddress | NodeType::Domain | NodeType::FileHash => true,
            _ => false,
        };
        if asset_kind {
            let ghost prev_idx = asset_nodes@;
            let ghost prev = assets@;
            assets.push(node_to_asset(node));
            asset_nodes.push(i);
            assert forall|q: int|
                0 <= q < i + 1 && is_asset_kind(nodes@[q].node_type) implies exists|a: int|
                    0 <= a < asset_nodes@.len() && asset_nodes@[a] == q by {
                if q == i {
                    assert(asset_nodes@[prev_idx.len() as int] == q);
                } else {
                    let a = choose|a: int| 0 <= a < prev_idx.len() && prev_idx[a] == q;
                    assert(asset_nodes@[a] == q);
                }
            }
            assert forall|a: int| 0 <= a < asset_nodes@.len() implies is_exported_asset(
                nodes@[asset_nodes@[a] as int],
                #[trigger] assets@[a],
            ) by {
                if a < prev.len() {
                    assert(assets@[a] == prev[a]);
                    assert(asset_nodes@[a] == prev_idx[a]);
                }
            }
        } else {
            let ghost prev_idx = action_nodes@;
            let ghost prev = actions@;
            actions.push(node_to_action(node));
            action_nodes.push(i);
            assert forall|q: int|
                0 <= q < i + 1 && !is_asset_kind(nodes@[q].node_type) implies exists|a: int|
                    0 <= a < action_nodes@.len() && action_nodes@[a] == q by {
                if q == i {
                    assert(action_nodes@[prev_idx.len() as int] == q);
                } else {
                    let a = choose|a: int| 0 <= a < prev_idx.len() && prev_idx[a] == q;
                    assert(action_nodes@[a] == q);
                }
            }
            assert forall|a: int| 0 <= a < action_nodes@.len() implies is_exported_action(
                nodes@[action_nodes@[a] as int],
                #[trigger] actions@[a],
            ) by {
                if a < prev.len() {
                    assert(actions@[a] == prev[a]);
                    assert(action_nodes@[a] == prev_idx[a]);
                }
            }
        }
        i = i + 1;
    }
    let mut relationships: Vec<AfbRelationship> = Vec::new();
    let mut j: usize = 0;
    while j < relations.len()
        invariant
            j <= relations@.len(),
            relationships@.len() == j,
            forall|q: int|
                0 <= q < j ==> is_exported_relationship(relations@[q], #[trigger] relationships@[q]),
        decreases relations.len() - j,
    {
        relationships.push(node_relation_to_afb(&relations[j]));
        j = j + 1;
    }
    AfbExport {
        bundle: AfbBundle {
            schema_version: String::from_str("1.0"),
            id: random_uuid(),
            name: String::from_str("CyberWeaver Attack Flow"),
            description: None,
            actions,
            assets,
            relationships,
        },
        action_nodes,
        asset_nodes,
    }
}

// ----------------------------------------------------------------------
// Round trip
// ----------------------------------------------------------------------

proof fn lemma_afb_names()
    ensures
        forall|t: NodeType| !is_asset_kind(t) ==> #[trigger] node_type_of_action(action_type_of_node(t)) == t,
        forall|s: Seq<char>| !is_asset_kind(#[trigger] node_type_of_action(s)),
        forall|t: RelationType| #[trigger] relation_type_of_afb(afb_text_of_relation(t)) == t,
{
    reveal_strlit("malware");
    reveal_strlit("payload");
    reveal_strlit("threat-actor");
    reveal_strlit("operator");
    reveal_strlit("identity");
    reveal_strlit("technique");
    reveal_strlit("ttp");
    reveal_strlit("attack-pattern");
    reveal_strlit("process");
    reveal_strlit("execution");
    reveal_strlit("uses");
    reveal_strlit("targets");
    reveal_strlit("creates");
    reveal_strlit("contains");
    reveal_strlit("belongs-to");
    reveal_strlit("resolves-to");
    reveal_strlit("connects-to");
    assert("malware"@.len() == 7 && "payload"@.len() == 7 && "threat-actor"@.len() == 12);
    assert("operator"@.len() == 8 && "identity"@.len() == 8 && "technique"@.len() == 9);
    assert("ttp"@.len() == 3 && "attack-pattern"@.len() == 14 && "process"@.len() == 7);
    assert("execution"@.len() == 9 && "uses"@.len() == 4 && "targets"@.len() == 7);
    assert("creates"@.len() == 7 && "contains"@.len() == 8 && "belongs-to"@.len() == 10);
    assert("resolves-to"@.len() == 11 && "connects-to"@.len() == 11);
    assert("process"@[0] != "malware"@[0] && "process"@[1] != "payload"@[1]);
    assert("technique"@[0] != "execution"@[0]);
    assert("creates"@[0] != "targets"@[0]);
    assert("resolves-to"@[0] != "connects-to"@[0]);
    assert("threat-actor"@ != "malware"@ && "threat-actor"@ != "payload"@);
    assert("technique"@ != "malware"@ && "technique"@ != "payload"@ && "technique"@ != "threat-actor"@
        && "technique"@ != "operator"@ && "technique"@ != "identity"@);
    assert("process"@ != "malware"@ && "process"@ != "payload"@ && "process"@ != "threat-actor"@
        && "process"@ != "operator"@ && "process"@ != "identity"@ && "process"@ != "technique"@
        && "process"@ != "ttp"@ && "process"@ != "attack-pattern"@);
    assert("targets"@ != "uses"@);
    assert("creates"@ != "uses"@ && "creates"@ != "targets"@);
    assert("contains"@ != "uses"@ && "contains"@ != "targets"@ && "contains"@ != "creates"@);
    assert("belongs-to"@ != "uses"@ && "belongs-to"@ != "targets"@ && "belongs-to"@ != "creates"@
        && "belongs-to"@ != "contains"@);
    assert("resolves-to"@ != "uses"@ && "resolves-to"@ != "targets"@ && "resolves-to"@
        != "creates"@ && "resolves-to"@ != "contains"@ && "resolves-to"@ != "belongs-to"@);
    assert("connects-to"@ != "uses"@ && "connects-to"@ != "targets"@ && "connects-to"@
        != "creates"@ && "connects-to"@ != "contains"@ && "connects-to"@ != "belongs-to"@
        && "connects-to"@ != "resolves-to"@);
}

/// `i` is among the entries of `idx`.
pub open spec fn index_listed(idx: Seq<usize>, i: int) -> bool {
    exists|a: int| 0 <= a < idx.len() && idx[a] == i
}

proof fn lemma_increasing_indices(idx: Seq<usize>, lo: int, hi: int)
    requires
        0 <= lo <= hi,
        forall|a: int, b: int| 0 <= a < b < idx.len() ==> idx[a] < idx[b],
        forall|a: int| 0 <= a < idx.len() ==> lo <= #[trigger] idx[a] < hi,
        forall|i: int| lo <= i < hi ==> #[trigger] index_listed(idx, i),
    ensures
        idx.len() == hi - lo,
        forall|a: int| 0 <= a < idx.len() ==> idx[a] == lo + a,
{
    if idx.len() > 0 {
        lemma_index_exact(idx, lo, hi, idx.len() - 1);
        assert(idx[idx.len() - 1] < hi);
    }
    if hi > lo {
        assert(index_listed(idx, hi - 1));
        let p = choose|p: int| 0 <= p < idx.len() && idx[p] == hi - 1;
        lemma_index_exact(idx, lo, hi, p);
    }
    assert forall|a: int| 0 <= a < idx.len() implies idx[a] == lo + a by {
        lemma_index_exact(idx, lo, hi, a);
    }
}

proof fn lemma_index_exact(idx: Seq<usize>, lo: int, hi: int, a: int)
    requires
        0 <= lo <= hi,
        0 <= a < idx.len(),
        forall|x: int, y: int| 0 <= x < y < idx.len() ==> idx[x] < idx[y],
        forall|x: int| 0 <= x < idx.len() ==> lo <= #[trigger] idx[x] < hi,
        forall|i: int| lo <= i < hi ==> #[trigger] index_listed(idx, i),
    ensures
        forall|q: int| 0 <= q <= a ==> idx[q] == lo + q,
    decreases a,
{
    if a > 0 {
        lemma_index_exact(idx, lo, hi, a - 1);
        assert(idx[a - 1] < idx[a]);
    }
    if idx[a] > lo + a {
        assert(lo <= lo + a < hi);
        assert(index_listed(idx, lo + a));
        let p = choose|p: int| 0 <= p < idx.len() && idx[p] == lo + a;
        if p < a {
            assert(idx[p] == lo + p);
        } else if p > a {
            assert(idx[a] < idx[p]);
        }
    }
}

/// Importing an attack flow, exporting what it gave, and importing that
/// export again gives back the same nodes (IDs and types, in the same
/// order) and the same relations (IDs, endpoints and types, in the same
/// order).
pub proof fn lemma_attack_flow_round_trip(
    b: AfbBundle,
    first_nodes: Seq<ImportedNode>,
    first_relations: Seq<RelationRecord>,
    exported: AfbExport,
    second_nodes: Seq<ImportedNode>,
    second_relations: Seq<RelationRecord>,
)
    requires
        is_afb_import(b, first_nodes, first_relations),
        is_afb_export(
            first_nodes.map_values(|n: ImportedNode| n.node),
            first_relations,
            exported,
        ),
        is_afb_import(exported.bundle, second_nodes, second_relations),
    ensures
        second_nodes.len() == first_nodes.len(),
        forall|i: int|
            0 <= i < first_nodes.len() ==> (#[trigger] second_nodes[i]).node.id@
                == first_nodes[i].node.id@ && second_nodes[i].node.node_type
                == first_nodes[i].node.node_type,
        second_relations.len() == first_relations.len(),
        forall|j: int|
            0 <= j < first_relations.len() ==> {
                &&& (#[trigger] second_relations[j]).id@ == first_relations[j].id@
                &&& second_relations[j].source_node_id@ == first_relations[j].source_node_id@
                &&& second_relations[j].target_node_id@ == first_relations[j].target_node_id@
                &&& second_relations[j].relation_type == first_relations[j].relation_type
            },
{
    lemma_afb_names();
    let records = first_nodes.map_values(|n: ImportedNode| n.node);
    let a_count = b.actions@.len() as int;
    let total = first_nodes.len() as int;
    assert forall|i: int| 0 <= i < total implies (is_asset_kind(#[trigger] records[i].node_type) <==> i >= a_count) by {
        if i < a_count {
            assert(is_action_node(b.actions@[i], i, first_nodes[i]));
        } else {
            assert(is_asset_node(b.assets@[i - a_count], a_count + (i - a_count), first_nodes[a_count + (i - a_count)]));
        }
    }
    let acts = exported.action_nodes@;
    let asts = exported.asset_nodes@;
    assert forall|a: int| 0 <= a < acts.len() implies 0 <= #[trigger] acts[a] < a_count by {
        assert(!is_asset_kind(records[acts[a] as int].node_type));
    }
    assert forall|i: int| 0 <= i < a_count implies #[trigger] index_listed(acts, i) by {
        assert(!is_asset_kind(records[i].node_type));
    }
    lemma_increasing_indices(acts, 0, a_count);
    assert forall|a: int| 0 <= a < asts.len() implies a_count <= #[trigger] asts[a] < total by {
        assert(is_asset_kind(records[asts[a] as int].node_type));
    }
    assert forall|i: int| a_count <= i < total implies #[trigger] index_listed(asts, i) by {
        assert(is_asset_kind(records[i].node_type));
    }
    lemma_increasing_indices(asts, a_count, total);
    let e = exported.bundle;
    assert forall|i: int|
        0 <= i < first_nodes.len() implies (#[trigger] second_nodes[i]).node.id@
            == first_nodes[i].node.id@ && second_nodes[i].node.node_type
            == first_nodes[i].node.node_type by {
        let n1 = first_nodes[i];
        assert(records[i] == n1.node);
        assert(n1.node.id@.len() > 0) by {
            if i < a_count {
                assert(is_action_node(b.actions@[i], i, n1));
            } else {
                assert(is_asset_node(b.assets@[i - a_count], a_count + (i - a_count), first_nodes[a_count + (i - a_count)]));
            }
        }
        if i < a_count {
            assert(acts[i] == i);
            assert(is_exported_action(records[i], e.actions@[i]));
            assert(is_action_node(e.actions@[i], i, second_nodes[i]));
            assert(is_action_node(b.actions@[i], i, n1));
        } else {
            let k = i - a_count;
            assert(asts[k] == i);
            assert(is_exported_asset(records[i], e.assets@[k]));
            assert(is_asset_node(e.assets@[k], a_count + k, second_nodes[a_count + k]));
            assert(is_asset_node(b.assets@[k], a_count + k, first_nodes[a_count + k]));
        }
    }
    assert forall|j: int|
        0 <= j < first_relations.len() implies {
            &&& (#[trigger] second_relations[j]).id@ == first_relations[j].id@
            &&& second_relations[j].source_node_id@ == first_relations[j].source_node_id@
            &&& second_relations[j].target_node_id@ == first_relations[j].target_node_id@
            &&& second_relations[j].relation_type == first_relations[j].relation_type
        } by {
        let r1 = first_relations[j];
        assert(is_afb_relation(b.relationships@[j], r1));
        assert(is_exported_relationship(r1, e.relationships@[j]));
        assert(is_afb_relation(e.relationships@[j], second_relations[j]));
        if trimmed(r1.label@).len() == 0 {
            assert(relation_type_of_afb(afb_text_of_relation(r1.relation_type)) == r1.relation_type);
        }
    }
}

/// What each action of an imported Attack Flow bundle becomes, by its
/// action type: `malware` and `payload` give a malware node named after
/// the action with the action type as its malware type; `threat-actor`,
/// `operator` and `identity` a threat actor named after it; `process` and
/// `execution` a process named after it; `technique`, `ttp`,
/// `attack-pattern` and any other type a technique whose MITRE ID is the
/// action's name.
pub proof fn lemma_attack_flow_action_kinds(
    b: AfbBundle,
    nodes: Seq<ImportedNode>,
    relations: Seq<RelationRecord>,
    i: int,
)
    requires
        is_afb_import(b, nodes, relations),
        0 <= i < b.actions@.len(),
    ensures
        ({
            let t = b.actions@[i].action_type@;
            let name = b.actions@[i].name@;
            let n = nodes[i].node;
            let malware = t == "malware"@ || t == "payload"@;
            let actor = t == "threat-actor"@ || t == "operator"@ || t == "identity"@;
            let process = t == "process"@ || t == "execution"@;
            &&& malware ==> n.node_type == NodeType::Malware
            &&& malware ==> (n.properties matches TypeSpecificProps::Malware(q) && q.family_name@ == name
                && opt_string_view(q.malware_type) == Some(t))
            &&& actor ==> n.node_type == NodeType::ThreatActor
            &&& actor ==> (n.properties matches TypeSpecificProps::ThreatActor(q) && q.name@ == name)
            &&& process ==> n.node_type == NodeType::Process
            &&& process ==> (n.properties matches TypeSpecificProps::Process(q) && q.process_name@
                == name)
            &&& (!malware && !actor && !process) ==> n.node_type == NodeType::Ttp
            &&& (!malware && !actor && !process) ==> (n.properties matches TypeSpecificProps::Ttp(q)
                && q.mitre_id@ == name)
        }),
{
    reveal_strlit("malware");
    reveal_strlit("payload");
    reveal_strlit("threat-actor");
    reveal_strlit("operator");
    reveal_strlit("identity");
    reveal_strlit("technique");
    reveal_strlit("ttp");
    reveal_strlit("attack-pattern");
    reveal_strlit("process");
    reveal_strlit("execution");
    assert(is_action_node(b.actions@[i], i, nodes[i]));
    let t = b.actions@[i].action_type@;
    assert("malware"@.len() == 7 && "payload"@.len() == 7 && "process"@.len() == 7);
    assert("threat-actor"@.len() == 12 && "operator"@.len() == 8 && "identity"@.len() == 8);
    assert("technique"@.len() == 9 && "execution"@.len() == 9 && "ttp"@.len() == 3);
    assert("attack-pattern"@.len() == 14);
    assert("process"@[0] != "malware"@[0]);
    assert("process"@ != "payload"@) by {
        assert("process"@[1] != "payload"@[1]);
    }
    assert("execution"@[0] != "technique"@[0]);
    if t == "malware"@ || t == "payload"@ {
        assert(t.len() > 0);
        assert(node_type_of_action(t) == NodeType::Malware);
    } else if t == "threat-actor"@ || t == "operator"@ || t == "identity"@ {
        assert(node_type_of_action(t) == NodeType::ThreatActor);
    } else if t == "process"@ || t == "execution"@ {
        assert(t != "technique"@ && t != "ttp"@ && t != "attack-pattern"@);
        assert(node_type_of_action(t) == NodeType::Process);
    } else {
        assert(node_type_of_action(t) == NodeType::Ttp);
    }
}

} // verus!
