//! Graph traversal algorithms: BFS multi-hop neighbourhood queries,
//! shortest path (undirected) and connected-component extraction.
use vstd::prelude::*;
use vstd::hash_map::StringHashMap;

use crate::graph::engine::AdjacencyGraph;
use crate::graph::types::{
    edge_ref_views, list_or_empty, opt_str_view, passes_filter, path_views, string_views, targets,
    EdgeInfo, EdgeView, GraphView, PathResult, PathView, TraversalPath,
};
use crate::text::owned;

verus! {

broadcast use vstd::seq_lib::group_seq_properties;

// ----------------------------------------------------------------------
// Directed paths
// ----------------------------------------------------------------------

/// The node a directed walk from `start` along `es` ends at.
pub open spec fn walk_end(start: Seq<char>, es: Seq<EdgeView>) -> Seq<char> {
    if es.len() == 0 {
        start
    } else {
        es.last().target_id
    }
}

/// The path that starts at `start` and follows the edges `es`.
pub open spec fn path_along(start: Seq<char>, es: Seq<EdgeView>) -> PathView {
    PathView {
        node_ids: seq![start] + targets(es),
        relation_ids: es.map_values(|e: EdgeView| e.relation_id),
        relation_types: es.map_values(|e: EdgeView| e.relation_type),
    }
}

/// The outgoing edges of `node` that pass the relation-type filter, in order.
pub open spec fn forward_edges(g: GraphView, filter: Option<Seq<char>>, node: Seq<char>) -> Seq<
    EdgeView,
> {
    list_or_empty(g.outgoing, node).filter(|e: EdgeView| passes_filter(filter, e))
}

/// The one-edge extensions of the walk `es` from `start` along outgoing
/// edges that pass the filter, into nodes not already on the walk.
pub open spec fn bfs_extensions(
    g: GraphView,
    filter: Option<Seq<char>>,
    start: Seq<char>,
    es: Seq<EdgeView>,
) -> Seq<Seq<EdgeView>> {
    forward_edges(g, filter, walk_end(start, es)).filter(
        |e: EdgeView| !path_along(start, es).node_ids.contains(e.target_id),
    ).map_values(|e: EdgeView| es.push(e))
}

/// Breadth-first layer `d` from `start`: the simple walks of `d` edges,
/// together with the nodes reached at a depth below `d` and the nodes
/// reached at depth `d` or less.  Layer `d` holds every extension of each
/// walk of layer `d - 1` that ends at a node not reached at a smaller
/// depth (walks into a node already reached earlier are kept but not
/// extended further).
pub open spec fn bfs_layer(g: GraphView, start: Seq<char>, filter: Option<Seq<char>>, d: nat) -> (
    Seq<Seq<EdgeView>>,
    Set<Seq<char>>,
    Set<Seq<char>>,
)
    decreases d,
{
    if d == 0 {
        (seq![Seq::empty()], Set::empty(), set![start])
    } else {
        let prev = bfs_layer(g, start, filter, (d - 1) as nat);
        let front = prev.0.filter(|es: Seq<EdgeView>| !prev.1.contains(walk_end(start, es)));
        let next = front.flat_map(|es: Seq<EdgeView>| bfs_extensions(g, filter, start, es));
        (next, prev.2, prev.2 + next.map_values(|es: Seq<EdgeView>| walk_end(start, es)).to_set())
    }
}

/// The walks of layers `1..=k`, layer by layer.
pub open spec fn bfs_found(g: GraphView, start: Seq<char>, filter: Option<Seq<char>>, k: nat) -> Seq<
    Seq<EdgeView>,
>
    decreases k,
{
    if k == 0 {
        Seq::empty()
    } else {
        bfs_found(g, start, filter, (k - 1) as nat) + bfs_layer(g, start, filter, k).0
    }
}

proof fn lemma_path_along_push(start: Seq<char>, es: Seq<EdgeView>, e: EdgeView)
    ensures
        path_along(start, es.push(e)) == (PathView {
            node_ids: path_along(start, es).node_ids.push(e.target_id),
            relation_ids: path_along(start, es).relation_ids.push(e.relation_id),
            relation_types: path_along(start, es).relation_types.push(e.relation_type),
        }),
{
    assert(path_along(start, es.push(e)).node_ids =~= path_along(start, es).node_ids.push(
        e.target_id,
    ));
    assert(path_along(start, es.push(e)).relation_ids =~= path_along(
        start,
        es,
    ).relation_ids.push(e.relation_id));
    assert(path_along(start, es.push(e)).relation_types =~= path_along(
        start,
        es,
    ).relation_types.push(e.relation_type));
}

proof fn lemma_path_along_end(start: Seq<char>, es: Seq<EdgeView>)
    ensures
        path_along(start, es).node_ids.len() == es.len() + 1,
        path_along(start, es).relation_ids.len() == es.len(),
        path_along(start, es).node_ids.last() == walk_end(start, es),
        path_along(start, es).node_ids[0] == start,
{
}

/// Once a layer is empty, every later layer is empty.
proof fn lemma_layers_stay_empty(
    g: GraphView,
    start: Seq<char>,
    filter: Option<Seq<char>>,
    d: nat,
    k: nat,
)
    requires
        bfs_layer(g, start, filter, d).0.len() == 0,
        d <= k,
    ensures
        bfs_layer(g, start, filter, k).0.len() == 0,
        bfs_found(g, start, filter, k) == bfs_found(g, start, filter, d),
    decreases k - d,
{
    if k > d {
        lemma_layers_stay_empty(g, start, filter, d, (k - 1) as nat);
        let prev = bfs_layer(g, start, filter, (k - 1) as nat);
        assert(prev.0 =~= Seq::<Seq<EdgeView>>::empty());
        let front = prev.0.filter(|es: Seq<EdgeView>| !prev.1.contains(walk_end(start, es)));
        assert(front.len() == 0) by {
            reveal(Seq::filter);
        }
        assert(front.flat_map(|es: Seq<EdgeView>| bfs_extensions(g, filter, start, es))
            =~= Seq::<Seq<EdgeView>>::empty());
        assert(bfs_found(g, start, filter, k) =~= bfs_found(g, start, filter, (k - 1) as nat));
    }
}

/// The walks of layer `d` end at nodes reached at depth `d` or less, and
/// the nodes reached below depth `d` are among them.
proof fn lemma_layer_ends_seen(g: GraphView, start: Seq<char>, filter: Option<Seq<char>>, d: nat)
    ensures
        forall|i: int|
            0 <= i < bfs_layer(g, start, filter, d).0.len() ==> bfs_layer(g, start, filter, d).2.contains(
                walk_end(start, #[trigger] bfs_layer(g, start, filter, d).0[i]),
            ),
        bfs_layer(g, start, filter, d).1.subset_of(bfs_layer(g, start, filter, d).2),
{
    let cur = bfs_layer(g, start, filter, d);
    if d == 0 {
        assert(cur.0 =~= seq![Seq::<EdgeView>::empty()]);
    } else {
        let ends = cur.0.map_values(|es: Seq<EdgeView>| walk_end(start, es));
        assert forall|i: int| 0 <= i < cur.0.len() implies cur.2.contains(
            walk_end(start, #[trigger] cur.0[i]),
        ) by {
            assert(ends[i] == walk_end(start, cur.0[i]));
            assert(ends.to_set().contains(ends[i]));
        }
    }
}

/// The path holding `start` alone.
fn single_node_path(start: &str) -> (p: TraversalPath)
    ensures
        p@ == path_along(start@, Seq::empty()),
{
    let mut node_ids: Vec<String> = Vec::new();
    node_ids.push(owned(start));
    let p = TraversalPath { node_ids, relation_ids: Vec::new(), relation_types: Vec::new() };
    assert(p@.node_ids =~= path_along(start@, Seq::empty()).node_ids);
    assert(p@.relation_ids =~= path_along(start@, Seq::empty()).relation_ids);
    assert(p@.relation_types =~= path_along(start@, Seq::empty()).relation_types);
    p
}

/// `path` extended by one hop to `next_node`, labelled `relation_id` / `relation_type`.
fn extend_path(path: &TraversalPath, next_node: String, relation_id: String, relation_type: String) -> (res:
    TraversalPath)
    ensures
        res@ == (PathView {
            node_ids: path@.node_ids.push(next_node@),
            relation_ids: path@.relation_ids.push(relation_id@),
            relation_types: path@.relation_types.push(relation_type@),
        }),
{
    let mut res = path.clone();
    let ghost before = res;
    res.node_ids.push(next_node);
    res.relation_ids.push(relation_id);
    res.relation_types.push(relation_type);
    assert(res@.node_ids =~= before@.node_ids.push(next_node@));
    assert(res@.relation_ids =~= before@.relation_ids.push(relation_id@));
    assert(res@.relation_types =~= before@.relation_types.push(relation_type@));
    res
}

/// Whether `ids` holds a string equal to `id`.
fn holds_id(ids: &Vec<String>, id: &str) -> (res: bool)
    ensures
        res == string_views(ids@).contains(id@),
{
    let mut i: usize = 0;
    while i < ids.len()
        invariant
            i <= ids@.len(),
            forall|j: int| 0 <= j < i ==> #[trigger] ids@[j]@ != id@,
        decreases ids.len() - i,
    {
        if crate::text::str_eq(ids[i].as_str(), id) {
            assert(string_views(ids@)[i as int] == id@);
            return true;
        }
        i = i + 1;
    }
    assert forall|j: int| 0 <= j < string_views(ids@).len() implies string_views(ids@)[j] != id@ by {
        assert(string_views(ids@)[j] == ids@[j]@);
    }
    false
}

/// BFS multi-hop neighbourhood: discover the paths originating from
/// `start_node_id` up to `max_hops` hops, optionally following only edges
/// of type `relation_type_filter`.
///
/// Every simple path (no node twice) is collected, layer by layer.  A
/// node's best depth is the depth at which it is first reached; a path
/// is extended further only when it ends at a node at that node's best
/// depth, so each node is expanded through its shortest paths and the
/// search cannot grow without bound.  Every non-empty path found is
/// returned, shortest first, with its number of hops.
pub fn bfs_paths(
    graph: &AdjacencyGraph,
    start_node_id: &str,
    max_hops: usize,
    relation_type_filter: Option<&str>,
) -> (res: PathResult)
    requires
        graph.wf(),
    ensures
        path_views(res.paths@) == bfs_found(
            graph@,
            start_node_id@,
            opt_str_view(relation_type_filter),
            max_hops as nat,
        ).map_values(|es: Seq<EdgeView>| path_along(start_node_id@, es)),
        res.total_hops@ == bfs_found(
            graph@,
            start_node_id@,
            opt_str_view(relation_type_filter),
            max_hops as nat,
        ).map_values(|es: Seq<EdgeView>| es.len() as usize),
{
    let ghost g = graph@;
    let ghost start = start_node_id@;
    let ghost filter = opt_str_view(relation_type_filter);
    let ghost to_path = |es: Seq<EdgeView>| path_along(start, es);
    let ghost to_hops = |es: Seq<EdgeView>| es.len() as usize;
    let ghost to_end = |es: Seq<EdgeView>| walk_end(start, es);

    let mut paths: Vec<TraversalPath> = Vec::new();
    let mut total_hops: Vec<usize> = Vec::new();
    // Best (minimum) hop depth at which each node has been seen.
    let mut best_depth: StringHashMap<usize> = StringHashMap::new();
    best_depth.insert(owned(start_node_id), 0);
    let mut frontier: Vec<TraversalPath> = Vec::new();
    frontier.push(single_node_path(start_node_id));
    let mut depth: usize = 0;
    proof {
        assert(path_views(frontier@) =~= bfs_layer(g, start, filter, 0).0.map_values(to_path));
        assert(path_views(paths@) =~= bfs_found(g, start, filter, 0).map_values(to_path));
        assert(total_hops@ =~= bfs_found(g, start, filter, 0).map_values(to_hops));
        assert(best_depth@.dom() =~= bfs_layer(g, start, filter, 0).2);
    }

    while depth < max_hops && frontier.len() > 0
        invariant
            graph.wf(),
            g == graph@,
            start == start_node_id@,
            filter == opt_str_view(relation_type_filter),
            to_path == (|es: Seq<EdgeView>| path_along(start, es)),
            to_hops == (|es: Seq<EdgeView>| es.len() as usize),
            to_end == (|es: Seq<EdgeView>| walk_end(start, es)),
            depth <= max_hops,
            path_views(frontier@) == bfs_layer(g, start, filter, depth as nat).0.map_values(to_path),
            path_views(paths@) == bfs_found(g, start, filter, depth as nat).map_values(to_path),
            total_hops@ == bfs_found(g, start, filter, depth as nat).map_values(to_hops),
            best_depth@.dom() == bfs_layer(g, start, filter, depth as nat).2,
            forall|k: Seq<char>| #[trigger]
                best_depth@.contains_key(k) ==> best_depth@[k] <= depth && (best_depth@[k] == depth
                    <==> !bfs_layer(g, start, filter, depth as nat).1.contains(k)),
            forall|i: int|
                0 <= i < bfs_layer(g, start, filter, depth as nat).0.len() ==> (
                #[trigger] bfs_layer(g, start, filter, depth as nat).0[i]).len() == depth,
        decreases max_hops - depth,
    {
        let next_hop = depth + 1;
        let ghost layer = bfs_layer(g, start, filter, depth as nat).0;
        let ghost before = bfs_layer(g, start, filter, depth as nat).1;
        let ghost seen = bfs_layer(g, start, filter, depth as nat).2;
        let ghost expand = |es: Seq<EdgeView>| !before.contains(walk_end(start, es));
        let ghost ext = |es: Seq<EdgeView>| bfs_extensions(g, filter, start, es);
        let mut next: Vec<TraversalPath> = Vec::new();
        let ghost mut next_es: Seq<Seq<EdgeView>> = Seq::empty();
        let mut i: usize = 0;
        proof {
            lemma_layer_ends_seen(g, start, filter, depth as nat);
            reveal(Seq::filter);
            assert(layer.take(0).filter(expand).flat_map(ext) =~= next_es);
            assert(path_views(next@) =~= next_es.map_values(to_path));
            assert(best_depth@.dom() =~= seen + next_es.map_values(to_end).to_set());
        }
        while i < frontier.len()
            invariant
                graph.wf(),
                g == graph@,
                start == start_node_id@,
                filter == opt_str_view(relation_type_filter),
                to_path == (|es: Seq<EdgeView>| path_along(start, es)),
                to_end == (|es: Seq<EdgeView>| walk_end(start, es)),
                expand == (|es: Seq<EdgeView>| !before.contains(walk_end(start, es))),
                ext == (|es: Seq<EdgeView>| bfs_extensions(g, filter, start, es)),
                layer == bfs_layer(g, start, filter, depth as nat).0,
                before == bfs_layer(g, start, filter, depth as nat).1,
                seen == bfs_layer(g, start, filter, depth as nat).2,
                forall|q: int| 0 <= q < layer.len() ==> seen.contains(
                    walk_end(start, #[trigger] layer[q]),
                ),
                before.subset_of(seen),
                next_hop == depth + 1,
                i <= frontier@.len(),
                path_views(frontier@) == layer.map_values(to_path),
                next_es == layer.take(i as int).filter(expand).flat_map(ext),
                path_views(next@) == next_es.map_values(to_path),
                best_depth@.dom() == seen + next_es.map_values(to_end).to_set(),
                forall|k: Seq<char>| #[trigger]
                    best_depth@.contains_key(k) ==> (seen.contains(k) ==> best_depth@[k] <= depth
                        && (best_depth@[k] == depth <==> !before.contains(k))) && (!seen.contains(k)
                        ==> best_depth@[k] == next_hop),
                forall|q: int| 0 <= q < layer.len() ==> (#[trigger] layer[q]).len() == depth,
                forall|q: int| 0 <= q < next_es.len() ==> (#[trigger] next_es[q]).len() == next_hop,
            decreases frontier.len() - i,
        {
            let current_path = &frontier[i];
            let ghost es_i = layer[i as int];
            proof {
                assert(layer.map_values(to_path).len() == layer.len());
                assert(path_views(frontier@)[i as int] == current_path@);
                assert(current_path@ == path_along(start, es_i));
                lemma_path_along_end(start, es_i);
                assert(current_path.node_ids@.len() == current_path@.node_ids.len());
                assert(layer.take(i as int + 1) =~= layer.take(i as int).push(es_i));
                layer.take(i as int).lemma_filter_push(es_i, expand);
            }
            let current_node = &current_path.node_ids[current_path.node_ids.len() - 1];
            proof {
                assert(string_views(current_path.node_ids@).last() == current_node@);
                assert(current_node@ == walk_end(start, es_i));
                assert(seen.contains(walk_end(start, es_i)));
                assert(best_depth@.contains_key(current_node@));
            }
            // Expand only paths that reach their end node at its best depth.
            let at_best = match best_depth.get(current_node.as_str()) {
                Some(best) => *best == depth,
                None => false,
            };
            proof {
                assert(at_best == expand(es_i));
            }
            if at_best {
                let successors = graph.successors(current_node.as_str(), relation_type_filter);
                let ghost succ = forward_edges(g, filter, walk_end(start, es_i));
                let ghost fresh = |e: EdgeView| !path_along(start, es_i).node_ids.contains(
                    e.target_id,
                );
                let ghost grow = |e: EdgeView| es_i.push(e);
                let ghost base = next_es;
                let mut j: usize = 0;
                proof {
                    assert(edge_ref_views(successors@) == succ);
                    assert(succ.take(0).filter(fresh).map_values(grow) =~= Seq::<
                        Seq<EdgeView>,
                    >::empty());
                    assert(base + Seq::<Seq<EdgeView>>::empty() =~= base);
                }
                while j < successors.len()
                    invariant
                        graph.wf(),
                        start == start_node_id@,
                        to_path == (|es: Seq<EdgeView>| path_along(start, es)),
                        to_end == (|es: Seq<EdgeView>| walk_end(start, es)),
                        fresh == (|e: EdgeView| !path_along(start, es_i).node_ids.contains(
                            e.target_id,
                        )),
                        grow == (|e: EdgeView| es_i.push(e)),
                        next_hop == depth + 1,
                        es_i.len() == depth,
                        current_path@ == path_along(start, es_i),
                        edge_ref_views(successors@) == succ,
                        j <= successors@.len(),
                        next_es == base + succ.take(j as int).filter(fresh).map_values(grow),
                        path_views(next@) == next_es.map_values(to_path),
                        best_depth@.dom() == seen + next_es.map_values(to_end).to_set(),
                        forall|k: Seq<char>| #[trigger]
                            best_depth@.contains_key(k) ==> (seen.contains(k) ==> best_depth@[k]
                                <= depth && (best_depth@[k] == depth <==> !before.contains(k))) && (
                            !seen.contains(k) ==> best_depth@[k] == next_hop),
                        forall|q: int| 0 <= q < next_es.len() ==> (#[trigger] next_es[q]).len()
                            == next_hop,
                    decreases successors.len() - j,
                {
                    let edge = successors[j];
                    let ghost e = edge@;
                    proof {
                        assert(edge_ref_views(successors@)[j as int] == e);
                        assert(succ.take(j as int + 1) =~= succ.take(j as int).push(e));
                        succ.take(j as int).lemma_filter_push(e, fresh);
                    }
                    // Per-path cycle prevention: do not revisit a node.
                    let on_path = holds_id(&current_path.node_ids, edge.target_id.as_str());
                    proof {
                        assert(on_path == current_path@.node_ids.contains(e.target_id));
                    }
                    if !on_path {
                        let ghost extended = es_i.push(e);
                        let ghost old_next = next@;
                        if !best_depth.contains_key(edge.target_id.as_str()) {
                            best_depth.insert(edge.target_id.clone(), next_hop);
                        }
                        let new_path = extend_path(
                            current_path,
                            edge.target_id.clone(),
                            edge.relation_id.clone(),
                            edge.relation_type.clone(),
                        );
                        next.push(new_path);
                        proof {
                            lemma_path_along_push(start, es_i, e);
                            assert(new_path@ == path_along(start, extended));
                            assert(path_views(next@) =~= path_views(old_next).push(new_path@));
                            let prev_es = next_es;
                            next_es = next_es.push(extended);
                            assert(succ.take(j as int).filter(fresh).push(e).map_values(grow)
                                =~= succ.take(j as int).filter(fresh).map_values(grow).push(
                                extended,
                            ));
                            assert(next_es =~= base + succ.take(j as int + 1).filter(
                                fresh,
                            ).map_values(grow));
                            assert(path_views(next@) =~= next_es.map_values(to_path));
                            assert(next_es.map_values(to_end) =~= prev_es.map_values(to_end).push(
                                e.target_id,
                            ));
                            prev_es.map_values(to_end).lemma_push_to_set_commute(e.target_id);
                            assert(best_depth@.dom() =~= seen + next_es.map_values(
                                to_end,
                            ).to_set());
                        }
                    } else {
                        proof {
                            assert(next_es =~= base + succ.take(j as int + 1).filter(
                                fresh,
                            ).map_values(grow));
                        }
                    }
                    j = j + 1;
                }
                proof {
                    assert(succ.take(successors@.len() as int) =~= succ);
                    assert(ext(es_i) == succ.filter(fresh).map_values(grow));
                    layer.take(i as int).filter(expand).lemma_flat_map_push(ext, es_i);
                }
            } else {
                proof {
                    assert(layer.take(i as int + 1).filter(expand) == layer.take(i as int).filter(
                        expand,
                    ));
                }
            }
            i = i + 1;
        }
        proof {
            assert(path_views(frontier@).len() == frontier@.len());
            assert(layer.map_values(to_path).len() == layer.len());
            assert(i == layer.len());
            assert(layer.take(layer.len() as int) =~= layer);
            assert(((next_hop as nat) - 1) as nat == depth as nat);
            assert(bfs_layer(g, start, filter, next_hop as nat).0 == next_es);
            assert(bfs_layer(g, start, filter, next_hop as nat).1 == seen);
            assert(bfs_layer(g, start, filter, next_hop as nat).2 == seen + next_es.map_values(
                to_end,
            ).to_set());
        }

        // Record every newly reached path.
        let mut q: usize = 0;
        let ghost found = bfs_found(g, start, filter, depth as nat);
        while q < next.len()
            invariant
                q <= next@.len(),
                path_views(next@) == next_es.map_values(to_path),
                forall|r: int| 0 <= r < next_es.len() ==> (#[trigger] next_es[r]).len() == next_hop,
                to_hops == (|es: Seq<EdgeView>| es.len() as usize),
                to_path == (|es: Seq<EdgeView>| path_along(start, es)),
                path_views(paths@) == (found + next_es.take(q as int)).map_values(to_path),
                total_hops@ == (found + next_es.take(q as int)).map_values(to_hops),
            decreases next.len() - q,
        {
            let ghost prev_paths = paths@;
            let ghost prev_hops = total_hops@;
            assert(next_es.map_values(to_path).len() == next_es.len());
            paths.push(next[q].clone());
            total_hops.push(next_hop);
            proof {
                assert(found + next_es.take(q as int + 1) =~= (found + next_es.take(q as int)).push(
                    next_es[q as int],
                ));
                assert(path_views(next@)[q as int] == path_along(start, next_es[q as int]));
                assert(path_views(paths@) =~= path_views(prev_paths).push(next@[q as int]@));
                assert(total_hops@ =~= prev_hops.push(next_hop));
            }
            q = q + 1;
        }
        proof {
            assert(next_es.take(next_es.len() as int) =~= next_es);
            assert(found + next_es == bfs_found(g, start, filter, next_hop as nat));
        }
        frontier = next;
        depth = next_hop;
    }
    proof {
        if depth < max_hops {
            assert(bfs_layer(g, start, filter, depth as nat).0.len() == 0);
            lemma_layers_stay_empty(g, start, filter, depth as nat, max_hops as nat);
        }
    }
    PathResult { paths, total_hops }
}

// ----------------------------------------------------------------------
// Undirected walks
// ----------------------------------------------------------------------

/// One hop of an undirected walk: an edge followed forwards (from its
/// source to its target) or backwards (from its target to its source).
pub struct Hop {
    pub edge: EdgeView,
    pub forward: bool,
}

/// The node a hop arrives at.
pub open spec fn hop_target(h: Hop) -> Seq<char> {
    if h.forward {
        h.edge.target_id
    } else {
        h.edge.source_id
    }
}

/// The relation ID a hop is labelled with: `rev:` marks a backward hop.
pub open spec fn hop_relation_id(h: Hop) -> Seq<char> {
    if h.forward {
        h.edge.relation_id
    } else {
        "rev:"@ + h.edge.relation_id
    }
}

/// The relation type a hop is labelled with: `rev:` marks a backward hop.
pub open spec fn hop_relation_type(h: Hop) -> Seq<char> {
    if h.forward {
        h.edge.relation_type
    } else {
        "rev:"@ + h.edge.relation_type
    }
}

/// The hops out of node `u`: its outgoing edges followed forwards, then its
/// incoming edges followed backwards, each list in order.
pub open spec fn undirected_hops(g: GraphView, u: Seq<char>) -> Seq<Hop> {
    list_or_empty(g.outgoing, u).map_values(|e: EdgeView| Hop { edge: e, forward: true })
        + list_or_empty(g.incoming, u).map_values(|e: EdgeView| Hop { edge: e, forward: false })
}

/// The node an undirected walk from `from` along `hs` ends at.
pub open spec fn hops_end(from: Seq<char>, hs: Seq<Hop>) -> Seq<char> {
    if hs.len() == 0 {
        from
    } else {
        hop_target(hs.last())
    }
}

/// The path that starts at `from` and takes the hops `hs`.
pub open spec fn hop_path(from: Seq<char>, hs: Seq<Hop>) -> PathView {
    PathView {
        node_ids: seq![from] + hs.map_values(|h: Hop| hop_target(h)),
        relation_ids: hs.map_values(|h: Hop| hop_relation_id(h)),
        relation_types: hs.map_values(|h: Hop| hop_relation_type(h)),
    }
}

/// Extends walk `p` by each hop of `hs` in turn whose target is not yet
/// visited, marking that target visited.
pub open spec fn visit_hops(
    state: (Seq<Seq<Hop>>, Set<Seq<char>>),
    p: Seq<Hop>,
    hs: Seq<Hop>,
) -> (Seq<Seq<Hop>>, Set<Seq<char>>)
    decreases hs.len(),
{
    if hs.len() == 0 {
        state
    } else {
        let st = visit_hops(state, p, hs.drop_last());
        let h = hs.last();
        if st.1.contains(hop_target(h)) {
            st
        } else {
            (st.0.push(p.push(h)), st.1.insert(hop_target(h)))
        }
    }
}

/// Expands every walk of `layer` in turn by the hops out of its end.
pub open spec fn visit_layer(
    g: GraphView,
    from: Seq<char>,
    state: (Seq<Seq<Hop>>, Set<Seq<char>>),
    layer: Seq<Seq<Hop>>,
) -> (Seq<Seq<Hop>>, Set<Seq<char>>)
    decreases layer.len(),
{
    if layer.len() == 0 {
        state
    } else {
        let st = visit_layer(g, from, state, layer.drop_last());
        visit_hops(st, layer.last(), undirected_hops(g, hops_end(from, layer.last())))
    }
}

/// Undirected breadth-first layer `d` from `from`, with the set of nodes
/// visited so far: every node is visited once, through the first walk (in
/// layer order, then hop order) that reaches it.
pub open spec fn sp_layer(g: GraphView, from: Seq<char>, d: nat) -> (Seq<Seq<Hop>>, Set<Seq<char>>)
    decreases d,
{
    if d == 0 {
        (seq![Seq::empty()], set![from])
    } else {
        let prev = sp_layer(g, from, (d - 1) as nat);
        visit_layer(g, from, (Seq::empty(), prev.1), prev.0)
    }
}

/// The walks of layers `0..=k`, layer by layer.
pub open spec fn sp_reached(g: GraphView, from: Seq<char>, k: nat) -> Seq<Seq<Hop>>
    decreases k,
{
    if k == 0 {
        sp_layer(g, from, 0).0
    } else {
        sp_reached(g, from, (k - 1) as nat) + sp_layer(g, from, k).0
    }
}

proof fn lemma_hop_path_push(from: Seq<char>, hs: Seq<Hop>, h: Hop)
    ensures
        hop_path(from, hs.push(h)) == (PathView {
            node_ids: hop_path(from, hs).node_ids.push(hop_target(h)),
            relation_ids: hop_path(from, hs).relation_ids.push(hop_relation_id(h)),
            relation_types: hop_path(from, hs).relation_types.push(hop_relation_type(h)),
        }),
        hop_path(from, hs).node_ids.len() == hs.len() + 1,
        hop_path(from, hs).node_ids.last() == hops_end(from, hs),
{
    assert(hop_path(from, hs.push(h)).node_ids =~= hop_path(from, hs).node_ids.push(
        hop_target(h),
    ));
    assert(hop_path(from, hs.push(h)).relation_ids =~= hop_path(from, hs).relation_ids.push(
        hop_relation_id(h),
    ));
    assert(hop_path(from, hs.push(h)).relation_types =~= hop_path(
        from,
        hs,
    ).relation_types.push(hop_relation_type(h)));
}

proof fn lemma_sp_reached_prefix(g: GraphView, from: Seq<char>, d: nat, k: nat)
    requires
        d <= k,
    ensures
        sp_reached(g, from, d).len() <= sp_reached(g, from, k).len(),
        forall|i: int|
            0 <= i < sp_reached(g, from, d).len() ==> #[trigger] sp_reached(g, from, k)[i]
                == sp_reached(g, from, d)[i],
    decreases k - d,
{
    if d < k {
        lemma_sp_reached_prefix(g, from, d, (k - 1) as nat);
    }
}

proof fn lemma_sp_layers_stay_empty(g: GraphView, from: Seq<char>, d: nat, k: nat)
    requires
        sp_layer(g, from, d).0.len() == 0,
        d <= k,
    ensures
        sp_layer(g, from, k).0.len() == 0,
        sp_reached(g, from, k) == sp_reached(g, from, d),
    decreases k - d,
{
    if d < k {
        lemma_sp_layers_stay_empty(g, from, d, (k - 1) as nat);
        let prev = sp_layer(g, from, (k - 1) as nat);
        assert(visit_layer(g, from, (Seq::empty(), prev.1), prev.0) == (
            Seq::<Seq<Hop>>::empty(),
            prev.1,
        ));
        assert(sp_reached(g, from, k) =~= sp_reached(g, from, (k - 1) as nat));
    }
}

proof fn lemma_filter_keeps_all(s: Seq<EdgeView>)
    ensures
        s.filter(|e: EdgeView| passes_filter(None, e)) == s,
    decreases s.len(),
{
    reveal(Seq::filter);
    if s.len() > 0 {
        lemma_filter_keeps_all(s.drop_last());
        assert(s.drop_last().push(s.last()) =~= s);
    }
}

/// `"rev:"` followed by `s`.
fn reversed_label(s: &String) -> (res: String)
    ensures
        res@ == "rev:"@ + s@,
{
    let mut res = String::from_str("rev:");
    res.append(s.as_str());
    res
}

/// The last node of a path.
fn last_node(path: &TraversalPath) -> (node: &String)
    requires
        path.node_ids@.len() > 0,
    ensures
        node@ == path@.node_ids.last(),
{
    &path.node_ids[path.node_ids.len() - 1]
}

/// The forward part of `expand_walk`: the hops along the outgoing edges.
fn expand_forward(
    graph: &AdjacencyGraph,
    current_path: &TraversalPath,
    current_node: &String,
    next: &mut Vec<TraversalPath>,
    visited: &mut StringHashMap<()>,
    Ghost(from): Ghost<Seq<char>>,
    Ghost(p): Ghost<Seq<Hop>>,
    Ghost(base): Ghost<(Seq<Seq<Hop>>, Set<Seq<char>>)>,
    Ghost(start): Ghost<(Seq<Seq<Hop>>, Set<Seq<char>>)>,
) -> (res: Ghost<(Seq<Seq<Hop>>, Set<Seq<char>>)>)
    requires
        graph.wf(),
        current_path@ == hop_path(from, p),
        current_node@ == hops_end(from, p),
        start == base,
        path_views(old(next)@) == start.0.map_values(|hs: Seq<Hop>| hop_path(from, hs)),
        old(visited)@.dom() == start.1,
    ensures
        res@ == visit_hops(
            base,
            p,
            undirected_hops(graph@, hops_end(from, p)).take(
                list_or_empty(graph@.outgoing, hops_end(from, p)).len() as int,
            ),
        ),
        path_views(final(next)@) == res@.0.map_values(|hs: Seq<Hop>| hop_path(from, hs)),
        final(visited)@.dom() == res@.1,
{
    let ghost g = graph@;
    let ghost to_path = |hs: Seq<Hop>| hop_path(from, hs);
    let ghost hops = undirected_hops(g, hops_end(from, p));
    let ghost mut state = start;
    let outs = graph.successors(current_node.as_str(), None);
    let ghost fwd = list_or_empty(g.outgoing, hops_end(from, p)).map_values(
        |e: EdgeView| Hop { edge: e, forward: true },
    );
    proof {
        lemma_filter_keeps_all(list_or_empty(g.outgoing, hops_end(from, p)));
        assert(opt_str_view(None) == None::<Seq<char>>);
        assert(hops.take(0) =~= Seq::<Hop>::empty());
    }
    // Forward edges.
    let mut j: usize = 0;
    while j < outs.len()
        invariant
            to_path == (|hs: Seq<Hop>| hop_path(from, hs)),
            current_path@ == hop_path(from, p),
            edge_ref_views(outs@) == list_or_empty(g.outgoing, hops_end(from, p)),
            hops == undirected_hops(g, hops_end(from, p)),
            fwd == list_or_empty(g.outgoing, hops_end(from, p)).map_values(
                |e: EdgeView| Hop { edge: e, forward: true },
            ),
            j <= outs@.len(),
            state == visit_hops(base, p, hops.take(j as int)),
            path_views(next@) == state.0.map_values(to_path),
            visited@.dom() == state.1,
        decreases outs.len() - j,
    {
        let edge = outs[j];
        let ghost h = Hop { edge: edge@, forward: true };
        proof {
            assert(edge_ref_views(outs@)[j as int] == edge@);
            assert(hops[j as int] == h);
            assert(hops.take(j as int + 1).drop_last() =~= hops.take(j as int));
            assert(hops.take(j as int + 1).last() == h);
        }
        if !visited.contains_key(edge.target_id.as_str()) {
            visited.insert(edge.target_id.clone(), ());
            let new_path = extend_path(
                current_path,
                edge.target_id.clone(),
                edge.relation_id.clone(),
                edge.relation_type.clone(),
            );
            let ghost old_next = next@;
            next.push(new_path);
            proof {
                lemma_hop_path_push(from, p, h);
                state = (state.0.push(p.push(h)), state.1.insert(hop_target(h)));
                assert(path_views(next@) =~= path_views(old_next).push(new_path@));
                assert(path_views(next@) =~= state.0.map_values(to_path));
                assert(visited@.dom() =~= state.1);
            }
        }
        j = j + 1;
    }
    Ghost(state)
}

/// The backward part of `expand_walk`: the hops back along the incoming
/// edges, after the forward ones.
fn expand_backward(
    graph: &AdjacencyGraph,
    current_path: &TraversalPath,
    current_node: &String,
    next: &mut Vec<TraversalPath>,
    visited: &mut StringHashMap<()>,
    Ghost(from): Ghost<Seq<char>>,
    Ghost(p): Ghost<Seq<Hop>>,
    Ghost(base): Ghost<(Seq<Seq<Hop>>, Set<Seq<char>>)>,
    Ghost(start): Ghost<(Seq<Seq<Hop>>, Set<Seq<char>>)>,
) -> (res: Ghost<(Seq<Seq<Hop>>, Set<Seq<char>>)>)
    requires
        graph.wf(),
        current_path@ == hop_path(from, p),
        current_node@ == hops_end(from, p),
        start == visit_hops(
            base,
            p,
            undirected_hops(graph@, hops_end(from, p)).take(
                list_or_empty(graph@.outgoing, hops_end(from, p)).len() as int,
            ),
        ),
        path_views(old(next)@) == start.0.map_values(|hs: Seq<Hop>| hop_path(from, hs)),
        old(visited)@.dom() == start.1,
    ensures
        res@ == visit_hops(base, p, undirected_hops(graph@, hops_end(from, p))),
        path_views(final(next)@) == res@.0.map_values(|hs: Seq<Hop>| hop_path(from, hs)),
        final(visited)@.dom() == res@.1,
{
    let ghost g = graph@;
    let ghost to_path = |hs: Seq<Hop>| hop_path(from, hs);
    let ghost hops = undirected_hops(g, hops_end(from, p));
    let ghost mut state = start;
    let ins = graph.predecessors(current_node.as_str(), None);
    let ghost fwd = list_or_empty(g.outgoing, hops_end(from, p)).map_values(
        |e: EdgeView| Hop { edge: e, forward: true },
    );
    proof {
        lemma_filter_keeps_all(list_or_empty(g.incoming, hops_end(from, p)));
        assert(opt_str_view(None) == None::<Seq<char>>);
        assert(fwd.len() + 0 == fwd.len());
    }
    // Backward edges (reverse traversal) — makes the search undirected.
    let mut j: usize = 0;
    while j < ins.len()
        invariant
            to_path == (|hs: Seq<Hop>| hop_path(from, hs)),
            current_path@ == hop_path(from, p),
            edge_ref_views(ins@) == list_or_empty(g.incoming, hops_end(from, p)),
            hops == undirected_hops(g, hops_end(from, p)),
            fwd == list_or_empty(g.outgoing, hops_end(from, p)).map_values(
                |e: EdgeView| Hop { edge: e, forward: true },
            ),
            j <= ins@.len(),
            state == visit_hops(base, p, hops.take(fwd.len() + j)),
            path_views(next@) == state.0.map_values(to_path),
            visited@.dom() == state.1,
        decreases ins.len() - j,
    {
        let edge = ins[j];
        let ghost h = Hop { edge: edge@, forward: false };
        proof {
            assert(edge_ref_views(ins@)[j as int] == edge@);
            assert(hops[fwd.len() + j] == h);
            assert(hops.take(fwd.len() + j + 1).drop_last() =~= hops.take(fwd.len() + j));
            assert(hops.take(fwd.len() + j + 1).last() == h);
        }
        if !visited.contains_key(edge.source_id.as_str()) {
            visited.insert(edge.source_id.clone(), ());
            let new_path = extend_path(
                current_path,
                edge.source_id.clone(),
                reversed_label(&edge.relation_id),
                reversed_label(&edge.relation_type),
            );
            let ghost old_next = next@;
            next.push(new_path);
            proof {
                lemma_hop_path_push(from, p, h);
                state = (state.0.push(p.push(h)), state.1.insert(hop_target(h)));
                assert(path_views(next@) =~= path_views(old_next).push(new_path@));
                assert(path_views(next@) =~= state.0.map_values(to_path));
                assert(visited@.dom() =~= state.1);
            }
        }
        j = j + 1;
    }
    proof {
        assert(hops.take(hops.len() as int) =~= hops);
    }
    Ghost(state)
}

/// Expands the walk `p` from `from` (whose path is `current_path`) by each
/// hop out of its end, forward hops first, into nodes not yet visited,
/// marking them visited and adding each new walk to `next`.
fn expand_walk(
    graph: &AdjacencyGraph,
    current_path: &TraversalPath,
    next: &mut Vec<TraversalPath>,
    visited: &mut StringHashMap<()>,
    Ghost(from): Ghost<Seq<char>>,
    Ghost(p): Ghost<Seq<Hop>>,
    Ghost(base): Ghost<(Seq<Seq<Hop>>, Set<Seq<char>>)>,
) -> (res: Ghost<(Seq<Seq<Hop>>, Set<Seq<char>>)>)
    requires
        graph.wf(),
        current_path@ == hop_path(from, p),
        path_views(old(next)@) == base.0.map_values(|hs: Seq<Hop>| hop_path(from, hs)),
        old(visited)@.dom() == base.1,
    ensures
        res@ == visit_hops(base, p, undirected_hops(graph@, hops_end(from, p))),
        path_views(final(next)@) == res@.0.map_values(|hs: Seq<Hop>| hop_path(from, hs)),
        final(visited)@.dom() == res@.1,
{
    proof {
        lemma_hop_path_push(from, p, Hop { edge: arbitrary(), forward: true });
        assert(current_path.node_ids@.len() == current_path@.node_ids.len());
    }
    let current_node = last_node(current_path);
    let mid = expand_forward(
        graph,
        current_path,
        current_node,
        next,
        visited,
        Ghost(from),
        Ghost(p),
        Ghost(base),
        Ghost(base),
    );
    expand_backward(
        graph,
        current_path,
        current_node,
        next,
        visited,
        Ghost(from),
        Ghost(p),
        Ghost(base),
        Ghost(mid@),
    )
}

/// Expands every walk of `frontier` (the walks `layer` from `from`) by the
/// hops out of its end into nodes not yet `visited`, marking them visited.
fn expand_undirected(
    graph: &AdjacencyGraph,
    frontier: &Vec<TraversalPath>,
    visited: &mut StringHashMap<()>,
    Ghost(from): Ghost<Seq<char>>,
    Ghost(layer): Ghost<Seq<Seq<Hop>>>,
    Ghost(seen): Ghost<Set<Seq<char>>>,
) -> (res: (Vec<TraversalPath>, Ghost<(Seq<Seq<Hop>>, Set<Seq<char>>)>))
    requires
        graph.wf(),
        path_views(frontier@) == layer.map_values(|hs: Seq<Hop>| hop_path(from, hs)),
        old(visited)@.dom() == seen,
    ensures
        res.1@ == visit_layer(graph@, from, (Seq::empty(), seen), layer),
        path_views(res.0@) == res.1@.0.map_values(|hs: Seq<Hop>| hop_path(from, hs)),
        final(visited)@.dom() == res.1@.1,
{
    let ghost g = graph@;
    let ghost to_path = |hs: Seq<Hop>| hop_path(from, hs);
    proof {
        assert(path_views(frontier@).len() == frontier@.len());
        assert(layer.map_values(to_path).len() == layer.len());
    }
    let mut next: Vec<TraversalPath> = Vec::new();
    let ghost mut state: (Seq<Seq<Hop>>, Set<Seq<char>>) = (Seq::empty(), seen);
    let mut i: usize = 0;
    proof {
        assert(layer.take(0) =~= Seq::<Seq<Hop>>::empty());
        assert(path_views(next@) =~= state.0.map_values(to_path));
    }
    while i < frontier.len()
        invariant
            graph.wf(),
            g == graph@,
            to_path == (|hs: Seq<Hop>| hop_path(from, hs)),
            i <= frontier@.len(),
            frontier@.len() == layer.len(),
            path_views(frontier@) == layer.map_values(to_path),
            state == visit_layer(g, from, (Seq::empty(), seen), layer.take(i as int)),
            path_views(next@) == state.0.map_values(to_path),
            visited@.dom() == state.1,
        decreases frontier.len() - i,
    {
        let current_path = &frontier[i];
        let ghost p = layer[i as int];
        let ghost base = state;
        proof {
            assert(path_views(frontier@)[i as int] == current_path@);
            assert(layer.take(i as int + 1).drop_last() =~= layer.take(i as int));
            assert(layer.take(i as int + 1).last() == p);
        }
        let walk_state = expand_walk(
            graph,
            current_path,
            &mut next,
            visited,
            Ghost(from),
            Ghost(p),
            Ghost(base),
        );
        proof {
            state = walk_state@;
        }
        i = i + 1;
    }
    proof {
        assert(layer.take(layer.len() as int) =~= layer);
    }
    (next, Ghost(state))
}

/// Find the shortest path (minimum number of edges) between `from_id` and
/// `to_id` within `max_hops`, treating the graph as **undirected** (both
/// outgoing and incoming edges are followed; a backward hop is labelled
/// with `rev:` before its relation ID and type).
///
/// The search runs breadth first and visits every node once, through the
/// first walk that reaches it.  Returns that walk for `to_id`, or `None`
/// when no walk of at most `max_hops` hops reaches it.
pub fn shortest_path(graph: &AdjacencyGraph, from_id: &str, to_id: &str, max_hops: usize) -> (res:
    Option<TraversalPath>)
    requires
        graph.wf(),
    ensures
        match res {
            Some(p) => exists|i: int|
                0 <= i < sp_reached(graph@, from_id@, max_hops as nat).len() && hops_end(
                    from_id@,
                    #[trigger] sp_reached(graph@, from_id@, max_hops as nat)[i],
                ) == to_id@ && p@ == hop_path(
                    from_id@,
                    sp_reached(graph@, from_id@, max_hops as nat)[i],
                ) && forall|j: int|
                    0 <= j < i ==> hops_end(
                        from_id@,
                        #[trigger] sp_reached(graph@, from_id@, max_hops as nat)[j],
                    ) != to_id@,
            None => forall|i: int|
                0 <= i < sp_reached(graph@, from_id@, max_hops as nat).len() ==> hops_end(
                    from_id@,
                    #[trigger] sp_reached(graph@, from_id@, max_hops as nat)[i],
                ) != to_id@,
        },
{
    let ghost g = graph@;
    let ghost from = from_id@;
    let ghost to = to_id@;
    let ghost to_path = |hs: Seq<Hop>| hop_path(from, hs);

    let mut visited: StringHashMap<()> = StringHashMap::new();
    visited.insert(owned(from_id), ());
    let mut frontier: Vec<TraversalPath> = Vec::new();
    frontier.push(single_node_path(from_id));
    let mut depth: usize = 0;
    proof {
        assert(path_along(from, Seq::empty()).node_ids =~= hop_path(from, Seq::empty()).node_ids);
        assert(path_along(from, Seq::empty()).relation_ids =~= hop_path(
            from,
            Seq::empty(),
        ).relation_ids);
        assert(path_along(from, Seq::empty()).relation_types =~= hop_path(
            from,
            Seq::empty(),
        ).relation_types);
        assert(path_views(frontier@) =~= sp_layer(g, from, 0).0.map_values(to_path));
        assert(visited@.dom() =~= sp_layer(g, from, 0).1);
    }

    loop
        invariant
            graph.wf(),
            g == graph@,
            from == from_id@,
            to == to_id@,
            to_path == (|hs: Seq<Hop>| hop_path(from, hs)),
            depth <= max_hops,
            path_views(frontier@) == sp_layer(g, from, depth as nat).0.map_values(to_path),
            visited@.dom() == sp_layer(g, from, depth as nat).1,
            depth > 0 ==> forall|j: int|
                0 <= j < sp_reached(g, from, (depth - 1) as nat).len() ==> hops_end(
                    from,
                    #[trigger] sp_reached(g, from, (depth - 1) as nat)[j],
                ) != to,
        decreases max_hops - depth,
    {
        let ghost layer = sp_layer(g, from, depth as nat).0;
        let ghost earlier = if depth > 0 {
            sp_reached(g, from, (depth - 1) as nat)
        } else {
            Seq::<Seq<Hop>>::empty()
        };
        proof {
            assert(path_views(frontier@).len() == frontier@.len());
            assert(layer.map_values(to_path).len() == layer.len());
            if depth > 0 {
                assert(sp_reached(g, from, depth as nat) == earlier + layer);
            } else {
                assert(sp_reached(g, from, depth as nat) =~= earlier + layer);
            }
        }
        // Target reached: breadth-first order makes this the shortest walk.
        let mut i: usize = 0;
        while i < frontier.len()
            invariant
                i <= frontier@.len(),
                frontier@.len() == layer.len(),
                to_path == (|hs: Seq<Hop>| hop_path(from, hs)),
                path_views(frontier@) == layer.map_values(to_path),
                to == to_id@,
                from == from_id@,
                g == graph@,
                depth <= max_hops,
                sp_reached(g, from, depth as nat) == earlier + layer,
                depth > 0 ==> earlier == sp_reached(g, from, (depth - 1) as nat),
                forall|j: int| 0 <= j < earlier.len() ==> hops_end(from, #[trigger] earlier[j]) != to,
                depth == 0 ==> earlier == Seq::<Seq<Hop>>::empty(),
                forall|j: int| 0 <= j < i ==> hops_end(from, #[trigger] layer[j]) != to,
            decreases frontier.len() - i,
        {
            let path = &frontier[i];
            proof {
                assert(path_views(frontier@)[i as int] == path@);
                lemma_hop_path_push(from, layer[i as int], Hop { edge: arbitrary(), forward: true });
                assert(path.node_ids@.len() == path@.node_ids.len());
            }
            let node = last_node(path);
            if crate::text::str_eq(node.as_str(), to_id) {
                let found = path.clone();
                proof {
                    let all = sp_reached(g, from, max_hops as nat);
                    let reached = sp_reached(g, from, depth as nat);
                    lemma_sp_reached_prefix(g, from, depth as nat, max_hops as nat);
                    let k = earlier.len() + i;
                    assert(reached[k] == layer[i as int]);
                    assert(all[k] == layer[i as int]);
                    assert forall|j: int| 0 <= j < k implies hops_end(from, #[trigger] all[j]) != to by {
                        assert(all[j] == reached[j]);
                        if j < earlier.len() {
                            assert(reached[j] == earlier[j]);
                        } else {
                            assert(reached[j] == layer[j - earlier.len()]);
                        }
                    }
                }
                return Some(found);
            }
            i = i + 1;
        }
        proof {
            let reached = sp_reached(g, from, depth as nat);
            assert forall|j: int| 0 <= j < reached.len() implies hops_end(from, #[trigger] reached[j]) != to by {
                if j < earlier.len() {
                    assert(reached[j] == earlier[j]);
                } else {
                    assert(reached[j] == layer[j - earlier.len()]);
                }
            }
        }
        if depth >= max_hops || frontier.len() == 0 {
            proof {
                if depth < max_hops {
                    lemma_sp_layers_stay_empty(g, from, depth as nat, max_hops as nat);
                }
            }
            return None;
        }

        let ghost seen = sp_layer(g, from, depth as nat).1;
        let (next, Ghost(state)) = expand_undirected(graph, &frontier, &mut visited, Ghost(from), Ghost(layer), Ghost(seen));
        proof {
            assert(layer.take(layer.len() as int) =~= layer);
            assert(((depth + 1) as nat - 1) as nat == depth as nat);
            assert(sp_layer(g, from, (depth + 1) as nat) == state);
        }
        frontier = next;
        depth = depth + 1;
    }
}


} // verus!
