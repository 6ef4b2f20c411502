//! What the desktop commands hand back and read: traversal results, graph
//! overviews, import and tool-run tallies, and the conversion between the
//! stored rows of an investigation and the records the exchange formats
//! read.
use vstd::prelude::*;
use vstd::string::StringExecFns;

use crate::domain::{
    default_props_for, node_type_by_name, node_type_by_snake, props_empty, props_kind,
    relation_type_by_name, relation_type_by_snake, NodeRecord, NodeType, RelationRecord,
    RelationType, TypeSpecificProps,
};
use crate::error::{AppError, ErrorView};
use crate::graph::engine::AdjacencyGraph;
use crate::graph::types::{edge_total, string_views, PathResult, PathView, TraversalPath};
use crate::plugins::MergePlan;
use crate::queries::{StoredNode, StoredRelation};
use crate::text::owned;

verus! {

/// The file the investigation database is kept in.
pub fn db_file_path() -> (r: &'static str)
    ensures
        r@ == "cyberweaver.db"@,
{
    "cyberweaver.db"
}

// ----------------------------------------------------------------------
// Traversal results
// ----------------------------------------------------------------------

/// A traversal path as the front end receives it.
#[derive(Debug)]
pub struct TraversalPathData {
    pub node_ids: Vec<String>,
    pub relation_ids: Vec<String>,
    pub relation_types: Vec<String>,
}

impl TraversalPathData {
    /// The same path, field for field.
    pub fn from_path(p: TraversalPath) -> (r: TraversalPathData)
        ensures
            r.node_ids@ == p.node_ids@,
            r.relation_ids@ == p.relation_ids@,
            r.relation_types@ == p.relation_types@,
    {
        TraversalPathData {
            node_ids: p.node_ids,
            relation_ids: p.relation_ids,
            relation_types: p.relation_types,
        }
    }
}

/// The paths found around a node, with their hop counts.
#[derive(Debug)]
pub struct ExpandNodeResult {
    pub paths: Vec<TraversalPathData>,
    pub total_hops: Vec<usize>,
}

/// The view of a transferred path.
pub open spec fn path_data_view(p: TraversalPathData) -> PathView {
    PathView {
        node_ids: string_views(p.node_ids@),
        relation_ids: string_views(p.relation_ids@),
        relation_types: string_views(p.relation_types@),
    }
}

impl ExpandNodeResult {
    /// The paths and hop counts of a traversal, in order.
    pub fn from_result(result: PathResult) -> (r: ExpandNodeResult)
        ensures
            r.paths@.len() == result.paths@.len(),
            forall|i: int|
                0 <= i < r.paths@.len() ==> path_data_view(#[trigger] r.paths@[i])
                    == result.paths@[i]@,
            r.total_hops@ == result.total_hops@,
    {
        let ghost given = result.paths@;
        let mut rest = result.paths;
        let mut paths: Vec<TraversalPathData> = Vec::new();
        let ghost mut i: int = 0;
        while rest.len() > 0
            invariant
                0 <= i <= given.len(),
                i + rest@.len() == given.len(),
                rest@ == given.skip(i),
                paths@.len() == i,
                forall|q: int| 0 <= q < i ==> path_data_view(#[trigger] paths@[q]) == given[q]@,
            decreases rest.len(),
        {
            let p = rest.remove(0);
            assert(p == given[i]);
            paths.push(TraversalPathData::from_path(p));
            proof {
                assert(rest@ =~= given.skip(i + 1));
                i = i + 1;
            }
        }
        ExpandNodeResult { paths, total_hops: result.total_hops }
    }
}

/// The size of an investigation graph and its node IDs.
#[derive(Debug)]
pub struct GraphSummary {
    pub node_count: usize,
    pub edge_count: usize,
    pub node_ids: Vec<String>,
}

/// How many nodes and edges the graph has, and its node IDs in order.
pub fn graph_overview(graph: &AdjacencyGraph) -> (s: GraphSummary)
    requires
        graph.wf(),
        edge_total(graph@.outgoing) <= usize::MAX,
    ensures
        s.node_count == graph@.node_ids.len(),
        s.edge_count == edge_total(graph@.outgoing),
        string_views(s.node_ids@) == graph@.node_ids,
{
    let ids = graph.node_ids();
    let mut node_ids: Vec<String> = Vec::new();
    let mut i: usize = 0;
    while i < ids.len()
        invariant
            i <= ids@.len(),
            string_views(node_ids@) == string_views(ids@.take(i as int)),
        decreases ids.len() - i,
    {
        let ghost prev = node_ids@;
        node_ids.push(ids[i].clone());
        assert(string_views(node_ids@) =~= string_views(prev).push(ids@[i as int]@));
        assert(string_views(ids@.take(i + 1)) =~= string_views(ids@.take(i as int)).push(
            ids@[i as int]@,
        ));
        i = i + 1;
    }
    assert(ids@.take(i as int) =~= ids@);
    GraphSummary { node_count: graph.node_count(), edge_count: graph.edge_count(), node_ids }
}

// ----------------------------------------------------------------------
// Tallies
// ----------------------------------------------------------------------

/// How an import went: what was stored and what failed.
#[derive(Debug)]
pub struct ImportResult {
    pub nodes_imported: usize,
    pub relations_imported: usize,
    pub errors: Vec<String>,
}

/// What merging a tool run created.
#[derive(Debug)]
pub struct ToolExecutionResult {
    pub nodes_created: usize,
    pub relations_created: usize,
    pub text_summary: String,
    pub new_node_ids: Vec<String>,
}

/// The tally of a merge that went through: the nodes and relations it
/// created, the IDs of the new nodes in order, and the tool's summary.
pub fn execution_result(plan: &MergePlan, text_summary: String) -> (r: ToolExecutionResult)
    ensures
        r.nodes_created == plan.nodes@.len(),
        r.relations_created == plan.relations@.len(),
        r.text_summary == text_summary,
        r.new_node_ids@.len() == plan.nodes@.len(),
        forall|i: int| 0 <= i < plan.nodes@.len() ==> (#[trigger] r.new_node_ids@[i])@ == plan.nodes@[i].id@,
{
    let mut ids: Vec<String> = Vec::new();
    let mut i: usize = 0;
    while i < plan.nodes.len()
        invariant
            i <= plan.nodes@.len(),
            ids@.len() == i,
            forall|q: int| 0 <= q < i ==> (#[trigger] ids@[q])@ == plan.nodes@[q].id@,
        decreases plan.nodes.len() - i,
    {
        ids.push(plan.nodes[i].id.clone());
        i = i + 1;
    }
    ToolExecutionResult {
        nodes_created: plan.nodes.len(),
        relations_created: plan.relations.len(),
        text_summary,
        new_node_ids: ids,
    }
}

// ----------------------------------------------------------------------
// Stored rows and exchange records
// ----------------------------------------------------------------------

/// The node type a stored row names, by its snake_case or variant name.
pub fn stored_node_type(value: &str) -> (r: Result<NodeType, AppError>)
    ensures
        match node_type_by_name(value@) {
            Some(t) => r == Ok::<NodeType, AppError>(t),
            None => r matches Err(e) && e@ == ErrorView::Import("unsupported node_type: "@ + value@),
        },
{
    match NodeType::from_name(value) {
        Some(t) => Ok(t),
        None => {
            let mut m = String::from_str("unsupported node_type: ");
            m.append(value);
            Err(AppError::Import(m))
        },
    }
}

/// The relation type a stored row names, by its snake_case or variant name.
pub fn stored_relation_type(value: &str) -> (r: Result<RelationType, AppError>)
    ensures
        match relation_type_by_name(value@) {
            Some(t) => r == Ok::<RelationType, AppError>(t),
            None => r matches Err(e) && e@ == ErrorView::Import("unsupported relation_type: "@ + value@),
        },
{
    match RelationType::from_name(value) {
        Some(t) => Ok(t),
        None => {
            let mut m = String::from_str("unsupported relation_type: ");
            m.append(value);
            Err(AppError::Import(m))
        },
    }
}

/// The record of a stored node whose properties column was read as
/// `properties`: fails on an unknown node type, else on unreadable
/// properties.
pub fn node_record_from_row(row: StoredNode, properties: Result<TypeSpecificProps, AppError>) -> (r:
    Result<NodeRecord, AppError>)
    ensures
        match node_type_by_name(row.node_type@) {
            None => r matches Err(e) && e@ == ErrorView::Import(
                "unsupported node_type: "@ + row.node_type@,
            ),
            Some(t) => match properties {
                Err(pe) => r == Err::<NodeRecord, AppError>(pe),
                Ok(p) => r matches Ok(n) && n.id == row.id && n.node_type == t && n.label == row.label
                    && n.description == row.description && n.properties == p
                    && n.investigation_id == row.investigation_id && n.created_at == Some(
                    row.created_at,
                ) && n.updated_at == Some(row.updated_at),
            },
        },
{
    let node_type = match stored_node_type(row.node_type.as_str()) {
        Ok(t) => t,
        Err(e) => {
            return Err(e);
        },
    };
    let properties = match properties {
        Ok(p) => p,
        Err(e) => {
            return Err(e);
        },
    };
    Ok(
        NodeRecord {
            id: row.id,
            node_type,
            label: row.label,
            description: row.description,
            properties,
            investigation_id: row.investigation_id,
            created_at: Some(row.created_at),
            updated_at: Some(row.updated_at),
        },
    )
}

/// The record of a stored relation: fails on an unknown relation type.
pub fn relation_record_from_row(row: StoredRelation) -> (r: Result<RelationRecord, AppError>)
    ensures
        match relation_type_by_name(row.relation_type@) {
            None => r matches Err(e) && e@ == ErrorView::Import(
                "unsupported relation_type: "@ + row.relation_type@,
            ),
            Some(t) => r matches Ok(x) && x.id == row.id && x.relation_type == t
                && x.source_node_id == row.source_node_id && x.target_node_id
                == row.target_node_id && x.label == row.label && x.first_seen == row.first_seen
                && x.last_seen == row.last_seen && x.investigation_id == row.investigation_id,
        },
{
    let relation_type = match stored_relation_type(row.relation_type.as_str()) {
        Ok(t) => t,
        Err(e) => {
            return Err(e);
        },
    };
    Ok(
        RelationRecord {
            id: row.id,
            relation_type,
            source_node_id: row.source_node_id,
            target_node_id: row.target_node_id,
            label: row.label,
            first_seen: row.first_seen,
            last_seen: row.last_seen,
            investigation_id: row.investigation_id,
        },
    )
}

/// The record of a stored node as the node list shows it, never failing:
/// an unknown node type reads as an asset, and unreadable properties
/// (`None`) as empty asset properties.
pub fn node_data_from_row(row: StoredNode, properties: Option<TypeSpecificProps>) -> (n: NodeRecord)
    ensures
        n.node_type == (match node_type_by_name(row.node_type@) {
            Some(t) => t,
            None => NodeType::Asset,
        }),
        match properties {
            Some(p) => n.properties == p,
            None => props_kind(n.properties) == NodeType::Asset && props_empty(n.properties),
        },
        n.id == row.id,
        n.label == row.label,
        n.description == row.description,
        n.investigation_id == row.investigation_id,
        n.created_at == Some(row.created_at),
        n.updated_at == Some(row.updated_at),
{
    let node_type = match NodeType::from_name(row.node_type.as_str()) {
        Some(t) => t,
        None => NodeType::Asset,
    };
    let properties = match properties {
        Some(p) => p,
        None => default_props_for(&NodeType::Asset),
    };
    NodeRecord {
        id: row.id,
        node_type,
        label: row.label,
        description: row.description,
        properties,
        investigation_id: row.investigation_id,
        created_at: Some(row.created_at),
        updated_at: Some(row.updated_at),
    }
}

/// The record of a stored relation as the relation list shows it, never
/// failing: an unknown relation type reads as a network connection.
pub fn relation_data_from_row(row: StoredRelation) -> (x: RelationRecord)
    ensures
        x.relation_type == (match relation_type_by_name(row.relation_type@) {
            Some(t) => t,
            None => RelationType::ConnectsTo,
        }),
        x.id == row.id,
        x.source_node_id == row.source_node_id,
        x.target_node_id == row.target_node_id,
        x.label == row.label,
        x.first_seen == row.first_seen,
        x.last_seen == row.last_seen,
        x.investigation_id == row.investigation_id,
{
    let relation_type = match RelationType::from_name(row.relation_type.as_str()) {
        Some(t) => t,
        None => RelationType::ConnectsTo,
    };
    RelationRecord {
        id: row.id,
        relation_type,
        source_node_id: row.source_node_id,
        target_node_id: row.target_node_id,
        label: row.label,
        first_seen: row.first_seen,
        last_seen: row.last_seen,
        investigation_id: row.investigation_id,
    }
}

/// The relation rows, each ID kept once, at its first occurrence.
pub open spec fn first_of_each_id(rows: Seq<StoredRelation>) -> Seq<StoredRelation>
    decreases rows.len(),
{
    if rows.len() == 0 {
        Seq::empty()
    } else {
        let kept = first_of_each_id(rows.drop_last());
        if rows.drop_last().map_values(|r: StoredRelation| r.id@).contains(rows.last().id@) {
            kept
        } else {
            kept.push(rows.last())
        }
    }
}

/// The IDs of relation rows, in order.
pub open spec fn relation_ids_of(rows: Seq<StoredRelation>) -> Seq<Seq<char>> {
    rows.map_values(|r: StoredRelation| r.id@)
}

/// Keeping the first row of each ID lists every ID of the rows, and each
/// only once.
pub proof fn lemma_first_of_each_id(rows: Seq<StoredRelation>)
    ensures
        relation_ids_of(first_of_each_id(rows)).no_duplicates(),
        forall|id: Seq<char>| #[trigger] relation_ids_of(first_of_each_id(rows)).contains(id)
            <==> relation_ids_of(rows).contains(id),
    decreases rows.len(),
{
    if rows.len() > 0 {
        let prev = rows.drop_last();
        let x = rows.last();
        lemma_first_of_each_id(prev);
        let kept = first_of_each_id(prev);
        assert(relation_ids_of(rows) =~= relation_ids_of(prev).push(x.id@));
        assert(prev.map_values(|r: StoredRelation| r.id@) == relation_ids_of(prev));
        if !relation_ids_of(prev).contains(x.id@) {
            assert(relation_ids_of(kept.push(x)) =~= relation_ids_of(kept).push(x.id@));
            assert forall|i: int, j: int|
                0 <= i < j < relation_ids_of(kept.push(x)).len() implies relation_ids_of(kept.push(x))[i]
                    != relation_ids_of(kept.push(x))[j] by {
                if j == relation_ids_of(kept).len() {
                    assert(relation_ids_of(kept).contains(relation_ids_of(kept)[i]));
                }
            }
        }
        assert forall|id: Seq<char>| #[trigger] relation_ids_of(first_of_each_id(rows)).contains(id)
            <==> relation_ids_of(rows).contains(id) by {
            if relation_ids_of(rows).contains(id) && id != x.id@ {
                let k = choose|k: int| 0 <= k < relation_ids_of(rows).len() && relation_ids_of(rows)[k] == id;
                assert(relation_ids_of(prev)[k] == id);
            }
            if relation_ids_of(prev).contains(id) {
                let k = choose|k: int| 0 <= k < relation_ids_of(prev).len() && relation_ids_of(prev)[k] == id;
                assert(relation_ids_of(rows)[k] == id);
            }
            if relation_ids_of(first_of_each_id(rows)).contains(id) && !relation_ids_of(kept).contains(id) {
                assert(id == x.id@);
                assert(relation_ids_of(rows)[rows.len() - 1] == id);
            }
            if id == x.id@ {
                assert(relation_ids_of(rows)[rows.len() - 1] == id);
                if !relation_ids_of(prev).contains(id) {
                    assert(relation_ids_of(first_of_each_id(rows))[relation_ids_of(kept).len() as int] == id);
                }
            }
            if relation_ids_of(kept).contains(id) {
                let k = choose|k: int| 0 <= k < relation_ids_of(kept).len() && relation_ids_of(kept)[k] == id;
                if !relation_ids_of(prev).contains(x.id@) {
                    assert(relation_ids_of(first_of_each_id(rows))[k] == id);
                }
            }
        }
    }
}

/// The relations of a node: its outgoing ones, then its incoming ones,
/// each relation once (a self-loop is both).
pub fn node_relations(outgoing: Vec<StoredRelation>, incoming: Vec<StoredRelation>) -> (r: Vec<
    StoredRelation,
>)
    ensures
        r@ == first_of_each_id(outgoing@ + incoming@),
{
    let ghost all = outgoing@ + incoming@;
    let mut rest = outgoing;
    let mut more = incoming;
    rest.append(&mut more);
    assert(rest@ == all);
    let mut seen: Vec<String> = Vec::new();
    let mut out: Vec<StoredRelation> = Vec::new();
    let ghost mut i: int = 0;
    assert(all.take(0) =~= Seq::<StoredRelation>::empty());
    while rest.len() > 0
        invariant
            0 <= i <= all.len(),
            i + rest@.len() == all.len(),
            rest@ == all.skip(i),
            out@ == first_of_each_id(all.take(i)),
            string_views(seen@) == all.take(i).map_values(|r: StoredRelation| r.id@),
        decreases rest.len(),
    {
        let x = rest.remove(0);
        let ghost t = all.take(i + 1);
        assert(x == all[i]);
        assert(t.drop_last() =~= all.take(i));
        assert(t.last() == x);
        let fresh = !crate::queries::lists_id(&seen, x.id.as_str());
        let ghost before = seen@;
        seen.push(x.id.clone());
        assert(string_views(seen@) =~= string_views(before).push(x.id@));
        assert(t.map_values(|r: StoredRelation| r.id@) =~= all.take(i).map_values(
            |r: StoredRelation| r.id@,
        ).push(x.id@));
        if fresh {
            out.push(x);
        }
        proof {
            assert(rest@ =~= all.skip(i + 1));
            i = i + 1;
        }
    }
    assert(all.take(i) =~= all);
    out
}

/// The node type a new node names by its snake_case name.
pub fn checked_node_type(value: &str) -> (r: Result<NodeType, String>)
    ensures
        match node_type_by_snake(value@) {
            Some(t) => r matches Ok(x) && x == t,
            None => r matches Err(m) && m@ == "invalid node_type: "@ + value@,
        },
{
    match NodeType::from_snake_name(value) {
        Some(t) => Ok(t),
        None => {
            let mut m = String::from_str("invalid node_type: ");
            m.append(value);
            Err(m)
        },
    }
}

/// The relation type a new relation names by its snake_case name.
pub fn checked_relation_type(value: &str) -> (r: Result<RelationType, String>)
    ensures
        match relation_type_by_snake(value@) {
            Some(t) => r matches Ok(x) && x == t,
            None => r matches Err(m) && m@ == "invalid relation_type: "@ + value@,
        },
{
    match RelationType::from_snake_name(value) {
        Some(t) => Ok(t),
        None => {
            let mut m = String::from_str("invalid relation_type: ");
            m.append(value);
            Err(m)
        },
    }
}

/// The fields of a node that an update may replace; `None` leaves a field
/// as it is.
#[derive(Debug)]
pub struct NodeUpdate {
    pub label: Option<String>,
    pub description: Option<String>,
    pub properties: Option<String>,
}

/// `o` if given, else `current`.
pub open spec fn replaced_by(current: String, o: Option<String>) -> String {
    match o {
        Some(v) => v,
        None => current,
    }
}

/// A stored node after an update made at time `now`: each given field
/// replaces the stored one, and the update time becomes `now`.
pub fn apply_update(row: StoredNode, update: NodeUpdate, now: String) -> (r: StoredNode)
    ensures
        r.id == row.id,
        r.investigation_id == row.investigation_id,
        r.node_type == row.node_type,
        r.label == replaced_by(row.label, update.label),
        r.description == replaced_by(row.description, update.description),
        r.properties == replaced_by(row.properties, update.properties),
        r.created_at == row.created_at,
        r.updated_at == now,
{
    let mut r = row;
    match update.label {
        Some(v) => {
            r.label = v;
        },
        None => {},
    }
    match update.description {
        Some(v) => {
            r.description = v;
        },
        None => {},
    }
    match update.properties {
        Some(v) => {
            r.properties = v;
        },
        None => {},
    }
    r.updated_at = now;
    r
}

} // verus!
