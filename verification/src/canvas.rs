//! JSON Canvas documents: import into, and export from, an investigation
//! graph.
//!
//! Positions and sizes on the canvas are floating-point values that the
//! caller keeps: an imported node records which canvas node it came from,
//! and exported canvas nodes come in the order of the graph's nodes.
use vstd::prelude::*;
use vstd::string::StringExecFns;

use crate::domain::{
    default_props_for_node_type, node_type_snake, props_empty_but_key, props_key, props_kind,
    NodeRecord, NodeType, RelationRecord, RelationType,
};
use crate::ids::{is_hyphenated_uuid, random_uuid};
use crate::json::{json_string, json_string_literal};
use crate::stix::opt_string_view;
use crate::stix_import::text_or_empty;
use crate::text::{chars_of, owned, push_char, str_eq};

verus! {

/// What a text node of a canvas says about the graph node it stands for.
#[derive(Clone, Debug)]
pub struct CanvasPayload {
    pub node_type: NodeType,
    pub label: String,
}

/// A node of a canvas: its ID, its kind (`text`, `file`, ...), its text,
/// and that text read as a [`CanvasPayload`] when it is one.
#[derive(Clone, Debug)]
pub struct CanvasNode {
    pub id: String,
    pub node_type: String,
    pub color: Option<String>,
    pub text: Option<String>,
    pub file: Option<String>,
    pub payload: Option<CanvasPayload>,
}

/// An edge of a canvas.
#[derive(Clone, Debug)]
pub struct CanvasEdge {
    pub id: String,
    pub from_node: String,
    pub to_node: String,
    pub label: Option<String>,
}

/// A canvas.
#[derive(Clone, Debug)]
pub struct JsonCanvas {
    pub nodes: Vec<CanvasNode>,
    pub edges: Vec<CanvasEdge>,
}

/// What a canvas gives: nodes, the index of the canvas node each came
/// from, and relations.
#[derive(Clone, Debug)]
pub struct CanvasImport {
    pub nodes: Vec<NodeRecord>,
    pub sources: Vec<usize>,
    pub relations: Vec<RelationRecord>,
}

// ----------------------------------------------------------------------
// Import
// ----------------------------------------------------------------------

/// `id` is the given identifier, or a new random one when that is empty.
pub open spec fn kept_or_drawn(given: Seq<char>, id: Seq<char>) -> bool {
    if given.len() == 0 {
        is_hyphenated_uuid(id)
    } else {
        id == given
    }
}

/// The canvas node becomes a graph node: it is a text node.
pub open spec fn is_text_node(c: CanvasNode) -> bool {
    c.node_type@ == "text"@
}

/// `n` is the graph node made of the text node `c`: the type and label of
/// its payload, or an asset labelled with its whole text.
pub open spec fn is_canvas_node(c: CanvasNode, n: NodeRecord) -> bool {
    let t = canvas_node_type(c);
    let label = canvas_label(c);
    &&& kept_or_drawn(c.id@, n.id@)
    &&& n.node_type == t
    &&& n.label@ == label
    &&& n.description@ == Seq::<char>::empty()
    &&& props_kind(n.properties) == t
    &&& props_key(n.properties) == label
    &&& props_empty_but_key(n.properties)
    &&& n.investigation_id@ == Seq::<char>::empty()
    &&& n.created_at is None
    &&& n.updated_at is None
}

/// The node type a text node stands for: its payload's, else asset.
pub open spec fn canvas_node_type(c: CanvasNode) -> NodeType {
    match c.payload {
        Some(p) => p.node_type,
        None => NodeType::Asset,
    }
}

/// The label a text node gives: its payload's, else its whole text.
pub open spec fn canvas_label(c: CanvasNode) -> Seq<char> {
    match c.payload {
        Some(p) => p.label@,
        None => text_or_empty(opt_string_view(c.text)),
    }
}

/// `n` is the graph node made of the canvas node at `source`, a text
/// node.
pub open spec fn made_from(canvas_nodes: Seq<CanvasNode>, n: NodeRecord, source: usize) -> bool {
    source < canvas_nodes.len() && is_text_node(canvas_nodes[source as int]) && is_canvas_node(
        canvas_nodes[source as int],
        n,
    )
}

/// `r` is the relation made of the canvas edge `e`.
pub open spec fn is_canvas_relation(e: CanvasEdge, r: RelationRecord) -> bool {
    &&& kept_or_drawn(e.id@, r.id@)
    &&& r.relation_type == RelationType::ConnectsTo
    &&& r.source_node_id@ == e.from_node@
    &&& r.target_node_id@ == e.to_node@
    &&& r.label@ == text_or_empty(opt_string_view(e.label))
    &&& r.first_seen is None
    &&& r.last_seen is None
    &&& r.investigation_id@ == Seq::<char>::empty()
}

fn canvas_id(given: &String) -> (r: String)
    ensures
        kept_or_drawn(given@, r@),
{
    if given.unicode_len() == 0 {
        random_uuid()
    } else {
        given.clone()
    }
}

fn optional_text(o: &Option<String>) -> (r: String)
    ensures
        r@ == text_or_empty(opt_string_view(*o)),
{
    match o {
        Some(s) => s.clone(),
        None => String::new(),
    }
}

fn canvas_node_to_node(c: &CanvasNode) -> (n: NodeRecord)
    ensures
        is_canvas_node(*c, n),
{
    let (node_type, label) = match &c.payload {
        Some(p) => (p.node_type, p.label.clone()),
        None => (NodeType::Asset, optional_text(&c.text)),
    };
    let properties = default_props_for_node_type(node_type, label.as_str());
    NodeRecord {
        id: canvas_id(&c.id),
        node_type,
        label,
        description: String::new(),
        properties,
        investigation_id: String::new(),
        created_at: None,
        updated_at: None,
    }
}

fn canvas_edge_to_relation(e: &CanvasEdge) -> (r: RelationRecord)
    ensures
        is_canvas_relation(*e, r),
{
    RelationRecord {
        id: canvas_id(&e.id),
        relation_type: RelationType::ConnectsTo,
        source_node_id: e.from_node.clone(),
        target_node_id: e.to_node.clone(),
        label: optional_text(&e.label),
        first_seen: None,
        last_seen: None,
        investigation_id: String::new(),
    }
}

/// `r` is what reading `canvas` gives: the graph nodes made of its text
/// nodes, in order, each with the index of the canvas node it came from,
/// and a relation made of each edge.
pub open spec fn is_canvas_import(canvas: JsonCanvas, r: CanvasImport) -> bool {
    &&& r.nodes@.len() == r.sources@.len()
    &&& forall|a: int, b: int| 0 <= a < b < r.sources@.len() ==> r.sources@[a] < r.sources@[b]
    &&& forall|a: int|
        0 <= a < r.sources@.len() ==> made_from(canvas.nodes@, #[trigger] r.nodes@[a], r.sources@[a])
    &&& forall|i: int|
        0 <= i < canvas.nodes@.len() && is_text_node(#[trigger] canvas.nodes@[i]) ==> exists|a: int|
            0 <= a < r.sources@.len() && r.sources@[a] == i
    &&& r.relations@.len() == canvas.edges@.len()
    &&& forall|j: int|
        0 <= j < canvas.edges@.len() ==> is_canvas_relation(canvas.edges@[j], #[trigger] r.relations@[j])
}

/// Reads a canvas: each text node, in order, becomes a node (other canvas
/// nodes are skipped), and each edge a `connects_to` relation.
pub fn parse_json_canvas(canvas: &JsonCanvas) -> (r: CanvasImport)
    ensures
        is_canvas_import(*canvas, r),
{
    let mut nodes: Vec<NodeRecord> = Vec::new();
    let mut sources: Vec<usize> = Vec::new();
    let mut i: usize = 0;
    while i < canvas.nodes.len()
        invariant
            i <= canvas.nodes@.len(),
            nodes@.len() == sources@.len(),
            forall|a: int, b: int| 0 <= a < b < sources@.len() ==> sources@[a] < sources@[b],
            forall|a: int| 0 <= a < sources@.len() ==> #[trigger] sources@[a] < i,
            forall|a: int| 0 <= a < sources@.len() ==> made_from(canvas.nodes@, #[trigger] nodes@[a], sources@[a]),
            forall|q: int|
                0 <= q < i && is_text_node(#[trigger] canvas.nodes@[q]) ==> exists|a: int|
                    0 <= a < sources@.len() && sources@[a] == q,
        decreases canvas.nodes.len() - i,
    {
        let c = &canvas.nodes[i];
        if str_eq(c.node_type.as_str(), "text") {
            let ghost prev_nodes = nodes@;
            let ghost prev_sources = sources@;
            nodes.push(canvas_node_to_node(c));
            sources.push(i);
            assert forall|a: int, b: int| 0 <= a < b < sources@.len() implies sources@[a] < sources@[b] by {
                if b < prev_sources.len() {
                    assert(sources@[a] == prev_sources[a] && sources@[b] == prev_sources[b]);
                } else {
                    assert(sources@[a] == prev_sources[a]);
                    assert(prev_sources[a] < i);
                }
            }
            assert forall|a: int| 0 <= a < sources@.len() implies #[trigger] sources@[a] < i + 1 by {
                if a < prev_sources.len() {
                    assert(sources@[a] == prev_sources[a]);
                }
            }
            assert forall|a: int| 0 <= a < sources@.len() implies made_from(canvas.nodes@, #[trigger] nodes@[a], sources@[a]) by {
                if a < prev_sources.len() {
                    assert(nodes@[a] == prev_nodes[a]);
                    assert(sources@[a] == prev_sources[a]);
                }
            }
            assert forall|q: int|
                0 <= q < i + 1 && is_text_node(#[trigger] canvas.nodes@[q]) implies exists|a: int|
                    0 <= a < sources@.len() && sources@[a] == q by {
                if q == i {
                    assert(sources@[prev_sources.len() as int] == q);
                } else {
                    let a = choose|a: int| 0 <= a < prev_sources.len() && prev_sources[a] == q;
                    assert(sources@[a] == q);
                }
            }
        }
        i = i + 1;
    }
    let mut relations: Vec<RelationRecord> = Vec::new();
    let mut j: usize = 0;
    while j < canvas.edges.len()
        invariant
            j <= canvas.edges@.len(),
            relations@.len() == j,
            nodes@.len() == sources@.len(),
            forall|a: int, b: int| 0 <= a < b < sources@.len() ==> sources@[a] < sources@[b],
            forall|a: int| 0 <= a < sources@.len() ==> #[trigger] sources@[a] < canvas.nodes@.len(),
            forall|a: int| 0 <= a < sources@.len() ==> made_from(canvas.nodes@, #[trigger] nodes@[a], sources@[a]),
            forall|q: int|
                0 <= q < canvas.nodes@.len() && is_text_node(#[trigger] canvas.nodes@[q]) ==> exists|a: int|
                    0 <= a < sources@.len() && sources@[a] == q,
            forall|q: int| 0 <= q < j ==> is_canvas_relation(canvas.edges@[q], #[trigger] relations@[q]),
        decreases canvas.edges.len() - j,
    {
        relations.push(canvas_edge_to_relation(&canvas.edges[j]));
        j = j + 1;
    }
    CanvasImport { nodes, sources, relations }
}

// ----------------------------------------------------------------------
// Export
// ----------------------------------------------------------------------

/// The text of an exported canvas node: the JSON object
/// `{"node_type":"<snake_case type>","label":"<label>"}`.
pub open spec fn payload_text(t: NodeType, label: Seq<char>) -> Seq<char> {
    "{\"node_type\":\""@ + node_type_snake(t) + "\",\"label\":"@ + json_string_literal(label) + "}"@
}

/// `c` is the canvas node exported for the graph node `n`.
pub open spec fn is_exported_canvas_node(n: NodeRecord, c: CanvasNode) -> bool {
    &&& c.id@ == n.id@
    &&& c.node_type@ == "text"@
    &&& c.color is None
    &&& opt_string_view(c.text) == Some(payload_text(n.node_type, n.label@))
    &&& c.file is None
    &&& c.payload matches Some(p) && p.node_type == n.node_type && p.label@ == n.label@
}

/// `c` is the canvas edge exported for the relation `r`.
pub open spec fn is_exported_canvas_edge(r: RelationRecord, c: CanvasEdge) -> bool {
    &&& c.id@ == r.id@
    &&& c.from_node@ == r.source_node_id@
    &&& c.to_node@ == r.target_node_id@
    &&& opt_string_view(c.label) == Some(r.label@)
}

/// `c` is the canvas exported for these nodes and relations: a text node
/// per node and an edge per relation, each in order.
pub open spec fn is_canvas_export(nodes: Seq<NodeRecord>, relations: Seq<RelationRecord>, c: JsonCanvas) -> bool {
    &&& c.nodes@.len() == nodes.len()
    &&& forall|i: int| 0 <= i < nodes.len() ==> is_exported_canvas_node(nodes[i], #[trigger] c.nodes@[i])
    &&& c.edges@.len() == relations.len()
    &&& forall|j: int| 0 <= j < relations.len() ==> is_exported_canvas_edge(relations[j], #[trigger] c.edges@[j])
}

fn node_to_canvas(n: &NodeRecord) -> (c: CanvasNode)
    ensures
        is_exported_canvas_node(*n, c),
{
    let mut text = String::from_str("{\"node_type\":\"");
    text.append(n.node_type.snake_name());
    text.append("\",\"label\":");
    let quoted = json_string(n.label.as_str());
    text.append(quoted.as_str());
    text.append("}");
    CanvasNode {
        id: n.id.clone(),
        node_type: String::from_str("text"),
        color: None,
        text: Some(text),
        file: None,
        payload: Some(CanvasPayload { node_type: n.node_type, label: n.label.clone() }),
    }
}

/// Exports nodes and relations as a canvas: a text node per node, whose
/// text is the node's type and label as JSON, and an edge per relation,
/// each in order.
pub fn to_json_canvas(nodes: &Vec<NodeRecord>, relations: &Vec<RelationRecord>) -> (c: JsonCanvas)
    ensures
        is_canvas_export(nodes@, relations@, c),
{
    let mut out_nodes: Vec<CanvasNode> = Vec::new();
    let mut i: usize = 0;
    while i < nodes.len()
        invariant
            i <= nodes@.len(),
            out_nodes@.len() == i,
            forall|q: int| 0 <= q < i ==> is_exported_canvas_node(nodes@[q], #[trigger] out_nodes@[q]),
        decreases nodes.len() - i,
    {
        out_nodes.push(node_to_canvas(&nodes[i]));
        i = i + 1;
    }
    let mut edges: Vec<CanvasEdge> = Vec::new();
    let mut j: usize = 0;
    while j < relations.len()
        invariant
            j <= relations@.len(),
            edges@.len() == j,
            forall|q: int| 0 <= q < j ==> is_exported_canvas_edge(relations@[q], #[trigger] edges@[q]),
        decreases relations.len() - j,
    {
        let r = &relations[j];
        edges.push(
            CanvasEdge {
                id: r.id.clone(),
                from_node: r.source_node_id.clone(),
                to_node: r.target_node_id.clone(),
                label: Some(r.label.clone()),
            },
        );
        j = j + 1;
    }
    JsonCanvas { nodes: out_nodes, edges }
}

/// Exporting a graph to a canvas and reading the canvas back gives the
/// graph back, when every node and relation has an ID: the same nodes in
/// order (each read from the canvas node at its own index) with their IDs,
/// types and labels, and the same relations in order with their IDs, ends
/// and labels, each a network connection.
pub proof fn lemma_canvas_round_trip(
    nodes: Seq<NodeRecord>,
    relations: Seq<RelationRecord>,
    c: JsonCanvas,
    r: CanvasImport,
)
    requires
        is_canvas_export(nodes, relations, c),
        is_canvas_import(c, r),
        forall|i: int| 0 <= i < nodes.len() ==> (#[trigger] nodes[i]).id@.len() > 0,
        forall|j: int| 0 <= j < relations.len() ==> (#[trigger] relations[j]).id@.len() > 0,
    ensures
        r.nodes@.len() == nodes.len(),
        forall|a: int|
            0 <= a < nodes.len() ==> r.sources@[a] == a && (#[trigger] r.nodes@[a]).id@ == nodes[a].id@
                && r.nodes@[a].node_type == nodes[a].node_type && r.nodes@[a].label@ == nodes[a].label@,
        r.relations@.len() == relations.len(),
        forall|j: int|
            0 <= j < relations.len() ==> (#[trigger] r.relations@[j]).id@ == relations[j].id@
                && r.relations@[j].source_node_id@ == relations[j].source_node_id@
                && r.relations@[j].target_node_id@ == relations[j].target_node_id@
                && r.relations@[j].label@ == relations[j].label@ && r.relations@[j].relation_type
                == RelationType::ConnectsTo,
{
    let n = nodes.len() as int;
    let m = r.sources@.len() as int;
    assert forall|a: int| 0 <= a < m implies r.sources@[a] >= a && r.sources@[a] < n by {
        lemma_increasing_from_zero(r.sources@, a);
        assert(made_from(c.nodes@, r.nodes@[a], r.sources@[a]));
    }
    assert forall|a: int| 0 <= a < n implies a < m && r.sources@[a] == a by {
        lemma_covered_in_place(c, r, n, a);
    }
    if n > 0 {
        lemma_covered_in_place(c, r, n, n - 1);
    }
    if m > 0 {
        assert(r.sources@[m - 1] >= m - 1 && r.sources@[m - 1] < n);
    }
    assert(m == n);
    assert forall|a: int| 0 <= a < n implies (#[trigger] r.nodes@[a]).id@ == nodes[a].id@
        && r.nodes@[a].node_type == nodes[a].node_type && r.nodes@[a].label@ == nodes[a].label@ by {
        lemma_covered_in_place(c, r, n, a);
        assert(made_from(c.nodes@, r.nodes@[a], r.sources@[a]));
        assert(is_exported_canvas_node(nodes[a], c.nodes@[a]));
    }
    assert forall|j: int| 0 <= j < relations.len() implies (#[trigger] r.relations@[j]).id@
        == relations[j].id@ && r.relations@[j].source_node_id@ == relations[j].source_node_id@
        && r.relations@[j].target_node_id@ == relations[j].target_node_id@ && r.relations@[j].label@
        == relations[j].label@ && r.relations@[j].relation_type == RelationType::ConnectsTo by {
        assert(is_exported_canvas_edge(relations[j], c.edges@[j]));
        assert(is_canvas_relation(c.edges@[j], r.relations@[j]));
    }
}

proof fn lemma_increasing_from_zero(s: Seq<usize>, a: int)
    requires
        forall|x: int, y: int| 0 <= x < y < s.len() ==> s[x] < s[y],
        0 <= a < s.len(),
    ensures
        s[a] >= a,
    decreases a,
{
    if a > 0 {
        lemma_increasing_from_zero(s, a - 1);
    }
}

proof fn lemma_covered_in_place(c: JsonCanvas, r: CanvasImport, n: int, a: int)
    requires
        c.nodes@.len() == n,
        forall|i: int| 0 <= i < n ==> is_text_node(#[trigger] c.nodes@[i]),
        is_canvas_import(c, r),
        0 <= a < n,
    ensures
        a < r.sources@.len(),
        r.sources@[a] == a,
    decreases a,
{
    assert(is_text_node(c.nodes@[a]));
    let w = choose|w: int| 0 <= w < r.sources@.len() && r.sources@[w] == a;
    if w < a {
        lemma_covered_in_place(c, r, n, w);
    }
    if w > a {
        lemma_increasing_from_zero(r.sources@, a);
    }
}

} // verus!
