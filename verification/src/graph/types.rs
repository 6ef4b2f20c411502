//! Value types shared by the graph engine and its traversals, with the
//! mathematical views that their contracts speak of.
use vstd::prelude::*;

pub use crate::graph::engine::AdjacencyGraph;



verus! {

/// Lightweight edge/relationship representation for traversal.
pub struct EdgeInfo {
    pub relation_id: String,
    pub source_id: String,
    pub target_id: String,
    pub relation_type: String,
    pub label: String,
}

/// The abstract value of an [`EdgeInfo`]: its five strings as character sequences.
pub struct EdgeView {
    pub relation_id: Seq<char>,
    pub source_id: Seq<char>,
    pub target_id: Seq<char>,
    pub relation_type: Seq<char>,
    pub label: Seq<char>,
}

impl View for EdgeInfo {
    type V = EdgeView;

    open spec fn view(&self) -> EdgeView {
        EdgeView {
            relation_id: self.relation_id@,
            source_id: self.source_id@,
            target_id: self.target_id@,
            relation_type: self.relation_type@,
            label: self.label@,
        }
    }
}

impl Clone for EdgeInfo {
    fn clone(&self) -> (res: Self)
        ensures
            res == *self,
    {
        EdgeInfo {
            relation_id: self.relation_id.clone(),
            source_id: self.source_id.clone(),
            target_id: self.target_id.clone(),
            relation_type: self.relation_type.clone(),
            label: self.label.clone(),
        }
    }
}

/// The views of a sequence of edges, in order.
pub open spec fn edge_views(edges: Seq<EdgeInfo>) -> Seq<EdgeView> {
    edges.map_values(|e: EdgeInfo| e@)
}

/// The abstract value of an [`AdjacencyGraph`].
pub struct GraphView {
    /// node ID -> outgoing edges, in insertion order
    pub outgoing: Map<Seq<char>, Seq<EdgeView>>,
    /// node ID -> incoming edges, in insertion order
    pub incoming: Map<Seq<char>, Seq<EdgeView>>,
    /// node IDs in insertion order
    pub node_ids: Seq<Seq<char>>,
}

/// The edge list stored under `key`, or the empty list when there is none.
pub open spec fn list_or_empty(m: Map<Seq<char>, Seq<EdgeView>>, key: Seq<char>) -> Seq<EdgeView> {
    if m.contains_key(key) {
        m[key]
    } else {
        Seq::empty()
    }
}

/// An edge passes an optional relation-type filter.
pub open spec fn passes_filter(filter: Option<Seq<char>>, e: EdgeView) -> bool {
    match filter {
        Some(rt) => e.relation_type == rt,
        None => true,
    }
}

/// A single traversal path through the graph.
pub struct TraversalPath {
    /// Ordered sequence of node IDs visited along the path
    pub node_ids: Vec<String>,
    /// Relation IDs connecting consecutive node pairs (len = node_ids.len() - 1)
    pub relation_ids: Vec<String>,
    /// Relation types corresponding to each hop
    pub relation_types: Vec<String>,
}

/// The abstract value of a [`TraversalPath`].
pub struct PathView {
    pub node_ids: Seq<Seq<char>>,
    pub relation_ids: Seq<Seq<char>>,
    pub relation_types: Seq<Seq<char>>,
}

impl View for TraversalPath {
    type V = PathView;

    open spec fn view(&self) -> PathView {
        PathView {
            node_ids: string_views(self.node_ids@),
            relation_ids: string_views(self.relation_ids@),
            relation_types: string_views(self.relation_types@),
        }
    }
}

impl Clone for TraversalPath {
    fn clone(&self) -> (res: Self)
        ensures
            res@ == self@,
    {
        let node_ids = self.node_ids.clone();
        let relation_ids = self.relation_ids.clone();
        let relation_types = self.relation_types.clone();
        assert(node_ids@ =~= self.node_ids@);
        assert(relation_ids@ =~= self.relation_ids@);
        assert(relation_types@ =~= self.relation_types@);
        TraversalPath { node_ids, relation_ids, relation_types }
    }
}

/// Result of a path-finding query.
pub struct PathResult {
    /// All paths discovered
    pub paths: Vec<TraversalPath>,
    /// Number of hops (edges) for each path
    pub total_hops: Vec<usize>,
}

/// The views of a sequence of paths, in order.
pub open spec fn path_views(paths: Seq<TraversalPath>) -> Seq<PathView> {
    paths.map_values(|p: TraversalPath| p@)
}

/// The views of a sequence of edge references, in order.
pub open spec fn edge_ref_views(edges: Seq<&EdgeInfo>) -> Seq<EdgeView> {
    edges.map_values(|e: &EdgeInfo| e@)
}

/// The character sequences of a sequence of strings, in order.
pub open spec fn string_views(s: Seq<String>) -> Seq<Seq<char>> {
    s.map_values(|x: String| x@)
}

/// The abstract value of an optional string slice.
pub open spec fn opt_str_view(o: Option<&str>) -> Option<Seq<char>> {
    match o {
        Some(s) => Some(s@),
        None => None,
    }
}

/// `m` with an (empty) list filed under `key` unless one is there already.
pub open spec fn with_key(m: Map<Seq<char>, Seq<EdgeView>>, key: Seq<char>) -> Map<
    Seq<char>,
    Seq<EdgeView>,
> {
    if m.contains_key(key) {
        m
    } else {
        m.insert(key, Seq::empty())
    }
}

/// The edges whose source is not `id`.
pub open spec fn without_source(edges: Seq<EdgeView>, id: Seq<char>) -> Seq<EdgeView> {
    edges.filter(|e: EdgeView| e.source_id != id)
}

/// The edges whose target is not `id`.
pub open spec fn without_target(edges: Seq<EdgeView>, id: Seq<char>) -> Seq<EdgeView> {
    edges.filter(|e: EdgeView| e.target_id != id)
}

/// The edges whose relation ID is not `id`.
pub open spec fn without_relation(edges: Seq<EdgeView>, id: Seq<char>) -> Seq<EdgeView> {
    edges.filter(|e: EdgeView| e.relation_id != id)
}

/// The target of every edge, in order.
pub open spec fn targets(edges: Seq<EdgeView>) -> Seq<Seq<char>> {
    edges.map_values(|e: EdgeView| e.target_id)
}

/// The source of every edge, in order.
pub open spec fn sources(edges: Seq<EdgeView>) -> Seq<Seq<char>> {
    edges.map_values(|e: EdgeView| e.source_id)
}

/// The positions of the stored edges: one pair (key, index) for each edge
/// in each list of `m`.
pub open spec fn edge_slots(m: Map<Seq<char>, Seq<EdgeView>>) -> Set<(Seq<char>, int)> {
    Set::new(|p: (Seq<char>, int)| m.contains_key(p.0) && 0 <= p.1 < m[p.0].len())
}

/// The number of edges stored in the lists of `m`.
pub open spec fn edge_total(m: Map<Seq<char>, Seq<EdgeView>>) -> nat {
    edge_slots(m).len()
}

/// The edges filed under each key: every node of `ids` and every source
/// (`by_source`) or target (otherwise) of an edge, each with the edges that
/// have it as that endpoint, in the order of `edges`.
pub open spec fn edges_keyed_by(
    ids: Seq<Seq<char>>,
    edges: Seq<EdgeView>,
    by_source: bool,
) -> Map<Seq<char>, Seq<EdgeView>> {
    Map::new(
        |k: Seq<char>|
            ids.contains(k) || exists|i: int|
                0 <= i < edges.len() && endpoint(#[trigger] edges[i], by_source) == k,
        |k: Seq<char>| edges.filter(|e: EdgeView| endpoint(e, by_source) == k),
    )
}

/// The source (`by_source`) or the target of an edge.
pub open spec fn endpoint(e: EdgeView, by_source: bool) -> Seq<char> {
    if by_source {
        e.source_id
    } else {
        e.target_id
    }
}

/// The lists of the node IDs in `touched` lose their edges from `id`; the
/// other lists are left as they are.
pub open spec fn lists_without_source(
    m: Map<Seq<char>, Seq<EdgeView>>,
    touched: Seq<Seq<char>>,
    id: Seq<char>,
) -> Map<Seq<char>, Seq<EdgeView>> {
    Map::new(
        |k: Seq<char>| m.contains_key(k),
        |k: Seq<char>|
            if touched.contains(k) {
                without_source(m[k], id)
            } else {
                m[k]
            },
    )
}

/// The lists of the node IDs in `touched` lose their edges into `id`.
pub open spec fn lists_without_target(
    m: Map<Seq<char>, Seq<EdgeView>>,
    touched: Seq<Seq<char>>,
    id: Seq<char>,
) -> Map<Seq<char>, Seq<EdgeView>> {
    Map::new(
        |k: Seq<char>| m.contains_key(k),
        |k: Seq<char>|
            if touched.contains(k) {
                without_target(m[k], id)
            } else {
                m[k]
            },
    )
}

/// The IDs other than `n`, in order.
pub open spec fn ids_without(ids: Seq<Seq<char>>, n: Seq<char>) -> Seq<Seq<char>> {
    ids.filter(|x: Seq<char>| x != n)
}

/// `n` is not among the IDs other than `n`.
pub proof fn lemma_ids_without(ids: Seq<Seq<char>>, n: Seq<char>)
    ensures
        !ids_without(ids, n).contains(n),
{
    let kept = ids_without(ids, n);
    if kept.contains(n) {
        let w = choose|w: int| 0 <= w < kept.len() && kept[w] == n;
        ids.lemma_filter_pred(|x: Seq<char>| x != n, w);
    }
}

/// The graph after removing node `n`: `n` leaves the node list; its outgoing
/// list is dropped and every target of those edges loses its incoming edges
/// from `n`; then its incoming list is dropped and every source of the edges
/// left in it loses its outgoing edges into `n`.
pub open spec fn graph_without_node(g: GraphView, n: Seq<char>) -> GraphView {
    let incoming1 = lists_without_source(
        g.incoming,
        targets(list_or_empty(g.outgoing, n)),
        n,
    );
    GraphView {
        outgoing: lists_without_target(
            g.outgoing.remove(n),
            sources(list_or_empty(incoming1, n)),
            n,
        ),
        incoming: incoming1.remove(n),
        node_ids: ids_without(g.node_ids, n),
    }
}

} // verus!
