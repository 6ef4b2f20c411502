//! Properties of the graph engine that relate several operations or hold
//! of every state.
use vstd::prelude::*;

use crate::graph::component::{is_undirected_walk, lemma_walk_extend, reachable};
use crate::graph::traversal::{
    bfs_extensions, bfs_found, bfs_layer, forward_edges, hops_end, path_along, sp_layer, sp_reached,
    undirected_hops, visit_hops, visit_layer, walk_end, hop_target, Hop,
};
use crate::graph::types::{
    edge_slots, edge_total, edges_keyed_by, graph_without_node, ids_without, lemma_ids_without, list_or_empty, sources, targets, without_relation,
    without_source, without_target, EdgeView, GraphView,
};

verus! {

broadcast use vstd::seq_lib::group_seq_properties;

/// Every edge is filed under its own endpoints in both directions: an
/// edge in the outgoing list of `k` leaves `k` and is in the incoming list
/// of its target, and an edge in the incoming list of `k` enters `k` and
/// is in the outgoing list of its source.
pub open spec fn is_consistent(g: GraphView) -> bool {
    &&& forall|k: Seq<char>, i: int|
        #![trigger g.outgoing[k][i]]
        g.outgoing.contains_key(k) && 0 <= i < g.outgoing[k].len() ==> {
            let e = g.outgoing[k][i];
            &&& e.source_id == k
            &&& list_or_empty(g.incoming, e.target_id).contains(e)
        }
    &&& forall|k: Seq<char>, i: int|
        #![trigger g.incoming[k][i]]
        g.incoming.contains_key(k) && 0 <= i < g.incoming[k].len() ==> {
            let e = g.incoming[k][i];
            &&& e.target_id == k
            &&& list_or_empty(g.outgoing, e.source_id).contains(e)
        }
}

/// No stored edge has `n` as an endpoint.
pub open spec fn detached(g: GraphView, n: Seq<char>) -> bool {
    &&& forall|k: Seq<char>, i: int|
        #![trigger g.outgoing[k][i]]
        g.outgoing.contains_key(k) && 0 <= i < g.outgoing[k].len() ==> g.outgoing[k][i].source_id
            != n && g.outgoing[k][i].target_id != n
    &&& forall|k: Seq<char>, i: int|
        #![trigger g.incoming[k][i]]
        g.incoming.contains_key(k) && 0 <= i < g.incoming[k].len() ==> g.incoming[k][i].source_id
            != n && g.incoming[k][i].target_id != n
}

/// Removing a node from a graph whose edges are filed consistently leaves
/// no edge at that node, and the node is no longer listed.
pub proof fn lemma_remove_node_detaches(g: GraphView, n: Seq<char>)
    requires
        is_consistent(g),
    ensures
        detached(graph_without_node(g, n), n),
        !graph_without_node(g, n).node_ids.contains(n),
{
    let r = graph_without_node(g, n);
    let out_n = list_or_empty(g.outgoing, n);
    let incoming1 = crate::graph::types::lists_without_source(g.incoming, targets(out_n), n);
    assert forall|k: Seq<char>, i: int|
        r.outgoing.contains_key(k) && 0 <= i < r.outgoing[k].len() implies r.outgoing[k][i].source_id
        != n && r.outgoing[k][i].target_id != n by {
        let e = r.outgoing[k][i];
        assert(k != n);
        let touched = sources(list_or_empty(incoming1, n));
        let base = g.outgoing[k];
        let pred = |x: EdgeView| x.target_id != n;
        if touched.contains(k) {
            assert(r.outgoing[k] == base.filter(pred));
            base.lemma_filter_pred(pred, i);
            assert(base.filter(pred).contains(e));
            base.lemma_filter_contains_rev(pred, e);
        } else {
            assert(r.outgoing[k] == base);
            assert(base.contains(e));
        }
        let j = choose|j: int| 0 <= j < base.len() && base[j] == e;
        assert(g.outgoing[k][j] == e);
        if e.target_id == n {
            assert(list_or_empty(g.incoming, n).contains(e));
            let in_n = g.incoming[n];
            let m = choose|m: int| 0 <= m < in_n.len() && in_n[m] == e;
            let spred = |x: EdgeView| x.source_id != n;
            let l1 = list_or_empty(incoming1, n);
            if targets(out_n).contains(n) {
                assert(l1 == in_n.filter(spred));
                in_n.lemma_filter_contains(spred, m);
            } else {
                assert(l1 == in_n);
            }
            assert(l1.contains(e));
            let q = choose|q: int| 0 <= q < l1.len() && l1[q] == e;
            assert(touched[q] == k);
            assert(touched.contains(k));
        }
    }
    assert forall|k: Seq<char>, i: int|
        r.incoming.contains_key(k) && 0 <= i < r.incoming[k].len() implies r.incoming[k][i].source_id
        != n && r.incoming[k][i].target_id != n by {
        let e = r.incoming[k][i];
        assert(k != n);
        let base = g.incoming[k];
        let spred = |x: EdgeView| x.source_id != n;
        if targets(out_n).contains(k) {
            assert(r.incoming[k] == base.filter(spred));
            base.lemma_filter_pred(spred, i);
        } else {
            assert(r.incoming[k] == base);
            assert(base.contains(e));
            let j = choose|j: int| 0 <= j < base.len() && base[j] == e;
            assert(g.incoming[k][j] == e);
            if e.source_id == n {
                assert(list_or_empty(g.outgoing, n).contains(e));
                let m = choose|m: int| 0 <= m < out_n.len() && out_n[m] == e;
                assert(targets(out_n)[m] == k);
            }
        }
        if targets(out_n).contains(k) {
            base.lemma_filter_contains_rev(spred, e);
        }
        let j = choose|j: int| 0 <= j < base.len() && base[j] == e;
        assert(g.incoming[k][j] == e);
    }
    assert(!r.node_ids.contains(n)) by {
        let pred = |x: Seq<char>| x != n;
        if r.node_ids.contains(n) {
            let i = choose|i: int| 0 <= i < r.node_ids.len() && r.node_ids[i] == n;
            g.node_ids.lemma_filter_pred(pred, i);
        }
    }
}

/// The edge lists after appending `e` to the list of `key`.
pub open spec fn with_edge_appended(m: Map<Seq<char>, Seq<EdgeView>>, key: Seq<char>, e: EdgeView) -> Map<
    Seq<char>,
    Seq<EdgeView>,
> {
    m.insert(key, list_or_empty(m, key).push(e))
}

/// The graph after adding the edge `e`, as `add_edge` leaves it.
pub open spec fn graph_with_edge(g: GraphView, e: EdgeView) -> GraphView {
    GraphView {
        outgoing: with_edge_appended(g.outgoing, e.source_id, e),
        incoming: with_edge_appended(g.incoming, e.target_id, e),
        node_ids: g.node_ids,
    }
}

/// Adding an edge to finitely many stored edges adds exactly one.
pub proof fn lemma_add_edge_counts_one(m: Map<Seq<char>, Seq<EdgeView>>, key: Seq<char>, e: EdgeView)
    requires
        edge_slots(m).finite(),
    ensures
        edge_slots(with_edge_appended(m, key, e)).finite(),
        edge_total(with_edge_appended(m, key, e)) == edge_total(m) + 1,
{
    let len = list_or_empty(m, key).len() as int;
    let after = with_edge_appended(m, key, e);
    assert(edge_slots(after) =~= edge_slots(m).insert((key, len)));
    assert(!edge_slots(m).contains((key, len)));
}

/// Adding an edge keeps the edges filed consistently.
pub proof fn lemma_add_edge_keeps_consistency(g: GraphView, e: EdgeView)
    requires
        is_consistent(g),
    ensures
        is_consistent(graph_with_edge(g, e)),
{
    let r = graph_with_edge(g, e);
    assert forall|k: Seq<char>, i: int|
        #![trigger r.outgoing[k][i]]
        r.outgoing.contains_key(k) && 0 <= i < r.outgoing[k].len() implies {
            let x = r.outgoing[k][i];
            &&& x.source_id == k
            &&& list_or_empty(r.incoming, x.target_id).contains(x)
        } by {
        let x = r.outgoing[k][i];
        if k == e.source_id && i == list_or_empty(g.outgoing, k).len() {
            assert(x == e);
            assert(r.incoming[e.target_id].last() == e);
        } else {
            assert(g.outgoing.contains_key(k) && g.outgoing[k][i] == x);
            let old_in = list_or_empty(g.incoming, x.target_id);
            let m = choose|m: int| 0 <= m < old_in.len() && old_in[m] == x;
            assert(list_or_empty(r.incoming, x.target_id)[m] == x);
        }
    }
    assert forall|k: Seq<char>, i: int|
        #![trigger r.incoming[k][i]]
        r.incoming.contains_key(k) && 0 <= i < r.incoming[k].len() implies {
            let x = r.incoming[k][i];
            &&& x.target_id == k
            &&& list_or_empty(r.outgoing, x.source_id).contains(x)
        } by {
        let x = r.incoming[k][i];
        if k == e.target_id && i == list_or_empty(g.incoming, k).len() {
            assert(x == e);
            assert(r.outgoing[e.source_id].last() == e);
        } else {
            assert(g.incoming.contains_key(k) && g.incoming[k][i] == x);
            let old_out = list_or_empty(g.outgoing, x.source_id);
            let m = choose|m: int| 0 <= m < old_out.len() && old_out[m] == x;
            assert(list_or_empty(r.outgoing, x.source_id)[m] == x);
        }
    }
}

/// A graph built from node IDs and edges files its edges consistently.
pub proof fn lemma_built_graph_is_consistent(ids: Seq<Seq<char>>, edges: Seq<EdgeView>)
    ensures
        is_consistent(
            GraphView {
                outgoing: edges_keyed_by(ids, edges, true),
                incoming: edges_keyed_by(ids, edges, false),
                node_ids: ids,
            },
        ),
{
    let out = edges_keyed_by(ids, edges, true);
    let inc = edges_keyed_by(ids, edges, false);
    assert forall|k: Seq<char>, i: int|
        #![trigger out[k][i]]
        out.contains_key(k) && 0 <= i < out[k].len() implies {
            let x = out[k][i];
            &&& x.source_id == k
            &&& list_or_empty(inc, x.target_id).contains(x)
        } by {
        let sp = |e: EdgeView| crate::graph::types::endpoint(e, true) == k;
        let x = out[k][i];
        edges.lemma_filter_pred(sp, i);
        assert(edges.filter(sp).contains(x));
        edges.lemma_filter_contains_rev(sp, x);
        let j = choose|j: int| 0 <= j < edges.len() && edges[j] == x;
        assert(crate::graph::types::endpoint(edges[j], false) == x.target_id);
        assert(inc.contains_key(x.target_id));
        let tp = |e: EdgeView| crate::graph::types::endpoint(e, false) == x.target_id;
        edges.lemma_filter_contains(tp, j);
    }
    assert forall|k: Seq<char>, i: int|
        #![trigger inc[k][i]]
        inc.contains_key(k) && 0 <= i < inc[k].len() implies {
            let x = inc[k][i];
            &&& x.target_id == k
            &&& list_or_empty(out, x.source_id).contains(x)
        } by {
        let tp = |e: EdgeView| crate::graph::types::endpoint(e, false) == k;
        let x = inc[k][i];
        edges.lemma_filter_pred(tp, i);
        assert(edges.filter(tp).contains(x));
        edges.lemma_filter_contains_rev(tp, x);
        let j = choose|j: int| 0 <= j < edges.len() && edges[j] == x;
        assert(crate::graph::types::endpoint(edges[j], true) == x.source_id);
        assert(out.contains_key(x.source_id));
        let sp = |e: EdgeView| crate::graph::types::endpoint(e, true) == x.source_id;
        edges.lemma_filter_contains(sp, j);
    }
}

// ----------------------------------------------------------------------
// Multi-hop neighbourhoods
// ----------------------------------------------------------------------

/// `es` is a directed walk from `start`: each edge is a stored outgoing
/// edge of the node reached so far that passes the relation-type filter.
pub open spec fn is_filtered_walk(g: GraphView, start: Seq<char>, filter: Option<Seq<char>>, es: Seq<EdgeView>) -> bool {
    forall|i: int|
        0 <= i < es.len() ==> #[trigger] forward_edges(g, filter, walk_end(start, es.take(i))).contains(
            es[i],
        )
}

proof fn lemma_flat_map_all<A, B>(s: Seq<A>, f: spec_fn(A) -> Seq<B>, p: spec_fn(B) -> bool)
    requires
        forall|i: int, j: int| 0 <= i < s.len() && 0 <= j < f(s[i]).len() ==> p(#[trigger] f(s[i])[j]),
    ensures
        forall|j: int| 0 <= j < s.flat_map(f).len() ==> p(#[trigger] s.flat_map(f)[j]),
    decreases s.len(),
{
    if s.len() == 0 {
        assert(s.flat_map(f) =~= Seq::<B>::empty()) by {
            assert(s.map_values(f) =~= Seq::<Seq<B>>::empty());
        }
    } else {
        let pre = s.drop_last();
        assert forall|i: int, j: int| 0 <= i < pre.len() && 0 <= j < f(pre[i]).len() implies p(
            #[trigger] f(pre[i])[j],
        ) by {
            assert(pre[i] == s[i]);
        }
        lemma_flat_map_all(pre, f, p);
        pre.lemma_flat_map_push(f, s.last());
        assert(pre.push(s.last()) =~= s);
        let whole = s.flat_map(f);
        assert forall|j: int| 0 <= j < whole.len() implies p(#[trigger] whole[j]) by {
            if j < pre.flat_map(f).len() {
                assert(whole[j] == pre.flat_map(f)[j]);
            } else {
                let t = j - pre.flat_map(f).len();
                assert(whole[j] == f(s[s.len() - 1])[t]);
            }
        }
    }
}

/// Every walk of layer `d` has `d` edges, is a filtered walk and visits
/// no node twice.
proof fn lemma_layer_walks(g: GraphView, start: Seq<char>, filter: Option<Seq<char>>, d: nat)
    ensures
        forall|i: int|
            0 <= i < bfs_layer(g, start, filter, d).0.len() ==> {
                let es = #[trigger] bfs_layer(g, start, filter, d).0[i];
                &&& es.len() == d
                &&& is_filtered_walk(g, start, filter, es)
                &&& path_along(start, es).node_ids.no_duplicates()
            },
    decreases d,
{
    if d == 0 {
        let es = Seq::<EdgeView>::empty();
        assert(bfs_layer(g, start, filter, 0).0 =~= seq![es]);
        assert(path_along(start, es).node_ids =~= seq![start]);
    } else {
        lemma_layer_walks(g, start, filter, (d - 1) as nat);
        let prev = bfs_layer(g, start, filter, (d - 1) as nat);
        let expand = |es: Seq<EdgeView>| !prev.1.contains(walk_end(start, es));
        let front = prev.0.filter(expand);
        let f = |es: Seq<EdgeView>| bfs_extensions(g, filter, start, es);
        let next = front.flat_map(f);
        let cur = bfs_layer(g, start, filter, d);
        assert(cur.0 == next);
        let q = |x: Seq<EdgeView>| {
            &&& x.len() == d
            &&& is_filtered_walk(g, start, filter, x)
            &&& path_along(start, x).node_ids.no_duplicates()
        };
        assert forall|i: int, j: int| 0 <= i < front.len() && 0 <= j < f(front[i]).len() implies q(
            #[trigger] f(front[i])[j],
        ) by {
            let es = front[i];
            assert(front.contains(es));
            prev.0.lemma_filter_contains_rev(expand, es);
            let w = choose|w: int| 0 <= w < prev.0.len() && prev.0[w] == es;
            assert(prev.0[w] == es);
            let old_nodes = path_along(start, es).node_ids;
            let fwd = forward_edges(g, filter, walk_end(start, es));
            let keep = |e: EdgeView| !old_nodes.contains(e.target_id);
            let kept = fwd.filter(keep);
            let e = kept[j];
            let x = es.push(e);
            assert(f(es)[j] == x);
            fwd.lemma_filter_pred(keep, j);
            assert(kept.contains(e));
            fwd.lemma_filter_contains_rev(keep, e);
            assert forall|t: int| 0 <= t < x.len() implies #[trigger] forward_edges(
                g,
                filter,
                walk_end(start, x.take(t)),
            ).contains(x[t]) by {
                if t < es.len() {
                    assert(x.take(t) =~= es.take(t));
                    assert(forward_edges(g, filter, walk_end(start, es.take(t))).contains(es[t]));
                } else {
                    assert(x.take(t) =~= es);
                }
            }
            let nodes = path_along(start, x).node_ids;
            assert(nodes =~= old_nodes.push(e.target_id));
            assert(nodes.no_duplicates()) by {
                assert forall|a: int, b: int| 0 <= a < b < nodes.len() implies nodes[a] != nodes[b] by {
                    if b == nodes.len() - 1 {
                        assert(old_nodes[a] == nodes[a]);
                        assert(old_nodes.contains(old_nodes[a]));
                    } else {
                        assert(old_nodes[a] == nodes[a] && old_nodes[b] == nodes[b]);
                    }
                }
            }
        }
        lemma_flat_map_all(front, f, q);
        assert forall|i: int| 0 <= i < cur.0.len() implies {
            let es = #[trigger] cur.0[i];
            &&& es.len() == d
            &&& is_filtered_walk(g, start, filter, es)
            &&& path_along(start, es).node_ids.no_duplicates()
        } by {
            assert(q(next[i]));
        }
    }
}

/// Every walk found by the multi-hop search from `start` within `k` hops
/// has between one and `k` edges, follows stored outgoing edges that pass
/// the relation-type filter, and visits no node twice.
pub proof fn lemma_bfs_walks_are_simple(g: GraphView, start: Seq<char>, filter: Option<Seq<char>>, k: nat)
    ensures
        forall|i: int|
            0 <= i < bfs_found(g, start, filter, k).len() ==> {
                let es = #[trigger] bfs_found(g, start, filter, k)[i];
                &&& 1 <= es.len() <= k
                &&& is_filtered_walk(g, start, filter, es)
                &&& path_along(start, es).node_ids.no_duplicates()
            },
    decreases k,
{
    if k > 0 {
        lemma_bfs_walks_are_simple(g, start, filter, (k - 1) as nat);
        lemma_layer_walks(g, start, filter, k);
        let before = bfs_found(g, start, filter, (k - 1) as nat);
        let layer = bfs_layer(g, start, filter, k).0;
        assert forall|i: int| 0 <= i < bfs_found(g, start, filter, k).len() implies {
            let es = #[trigger] bfs_found(g, start, filter, k)[i];
            &&& 1 <= es.len() <= k
            &&& is_filtered_walk(g, start, filter, es)
            &&& path_along(start, es).node_ids.no_duplicates()
        } by {
            if i < before.len() {
                assert(bfs_found(g, start, filter, k)[i] == before[i]);
            } else {
                assert(bfs_found(g, start, filter, k)[i] == layer[i - before.len()]);
            }
        }
    }
}

/// The walks found by the multi-hop search come ordered by their number of
/// hops: a walk found later never has fewer edges than one found earlier.
pub proof fn lemma_bfs_walks_by_hops(g: GraphView, start: Seq<char>, filter: Option<Seq<char>>, k: nat)
    ensures
        forall|i: int, j: int|
            0 <= i <= j < bfs_found(g, start, filter, k).len() ==> (#[trigger] bfs_found(
                g,
                start,
                filter,
                k,
            )[i]).len() <= (#[trigger] bfs_found(g, start, filter, k)[j]).len(),
    decreases k,
{
    if k > 0 {
        lemma_bfs_walks_by_hops(g, start, filter, (k - 1) as nat);
        lemma_bfs_walks_are_simple(g, start, filter, (k - 1) as nat);
        lemma_layer_walks(g, start, filter, k);
        let before = bfs_found(g, start, filter, (k - 1) as nat);
        let layer = bfs_layer(g, start, filter, k).0;
        let all = bfs_found(g, start, filter, k);
        assert(all == before + layer);
        assert forall|i: int, j: int| 0 <= i <= j < all.len() implies (#[trigger] all[i]).len()
            <= (#[trigger] all[j]).len() by {
            if j < before.len() {
                assert(all[i] == before[i]);
                assert(all[j] == before[j]);
            } else if i < before.len() {
                assert(all[i] == before[i]);
                assert(all[j] == layer[j - before.len()]);
            } else {
                assert(all[i] == layer[i - before.len()]);
                assert(all[j] == layer[j - before.len()]);
            }
        }
    }
}

// ----------------------------------------------------------------------
// Shortest paths
// ----------------------------------------------------------------------

proof fn lemma_visit_hops_keeps(
    state: (Seq<Seq<Hop>>, Set<Seq<char>>),
    p: Seq<Hop>,
    hs: Seq<Hop>,
    good: spec_fn(Seq<Hop>) -> bool,
)
    requires
        forall|i: int| 0 <= i < state.0.len() ==> good(#[trigger] state.0[i]),
        forall|j: int| 0 <= j < hs.len() ==> good(p.push(#[trigger] hs[j])),
    ensures
        forall|i: int| 0 <= i < visit_hops(state, p, hs).0.len() ==> good(
            #[trigger] visit_hops(state, p, hs).0[i],
        ),
    decreases hs.len(),
{
    if hs.len() > 0 {
        let pre = hs.drop_last();
        assert forall|j: int| 0 <= j < pre.len() implies good(p.push(#[trigger] pre[j])) by {
            assert(pre[j] == hs[j]);
        }
        lemma_visit_hops_keeps(state, p, pre, good);
        let st = visit_hops(state, p, pre);
        let h = hs.last();
        assert(good(p.push(hs[hs.len() - 1])));
        let out = visit_hops(state, p, hs);
        assert forall|i: int| 0 <= i < out.0.len() implies good(#[trigger] out.0[i]) by {
            if i < st.0.len() {
                assert(out.0[i] == st.0[i]);
            }
        }
    }
}

proof fn lemma_visit_layer_keeps(
    g: GraphView,
    from: Seq<char>,
    state: (Seq<Seq<Hop>>, Set<Seq<char>>),
    layer: Seq<Seq<Hop>>,
    good: spec_fn(Seq<Hop>) -> bool,
)
    requires
        forall|i: int| 0 <= i < state.0.len() ==> good(#[trigger] state.0[i]),
        forall|i: int, j: int|
            0 <= i < layer.len() && 0 <= j < undirected_hops(g, hops_end(from, layer[i])).len()
                ==> good(layer[i].push(#[trigger] undirected_hops(g, hops_end(from, layer[i]))[j])),
    ensures
        forall|i: int| 0 <= i < visit_layer(g, from, state, layer).0.len() ==> good(
            #[trigger] visit_layer(g, from, state, layer).0[i],
        ),
    decreases layer.len(),
{
    if layer.len() > 0 {
        let pre = layer.drop_last();
        assert forall|i: int, j: int|
            0 <= i < pre.len() && 0 <= j < undirected_hops(g, hops_end(from, pre[i])).len() implies good(
            pre[i].push(#[trigger] undirected_hops(g, hops_end(from, pre[i]))[j]),
        ) by {
            assert(pre[i] == layer[i]);
        }
        lemma_visit_layer_keeps(g, from, state, pre, good);
        let p = layer.last();
        let hs = undirected_hops(g, hops_end(from, p));
        assert forall|j: int| 0 <= j < hs.len() implies good(p.push(#[trigger] hs[j])) by {
            assert(layer[layer.len() - 1] == p);
        }
        lemma_visit_hops_keeps(visit_layer(g, from, state, pre), p, hs, good);
    }
}

/// Every walk of shortest-path layer `d` is an undirected walk of `d` hops.
proof fn lemma_sp_layer_walks(g: GraphView, from: Seq<char>, d: nat)
    ensures
        forall|i: int|
            0 <= i < sp_layer(g, from, d).0.len() ==> (#[trigger] sp_layer(g, from, d).0[i]).len() == d
                && is_undirected_walk(g, from, sp_layer(g, from, d).0[i]),
    decreases d,
{
    if d == 0 {
        let hs = Seq::<Hop>::empty();
        assert(sp_layer(g, from, 0).0 =~= seq![hs]);
    } else {
        lemma_sp_layer_walks(g, from, (d - 1) as nat);
        let prev = sp_layer(g, from, (d - 1) as nat);
        let good = |x: Seq<Hop>| x.len() == d && is_undirected_walk(g, from, x);
        assert forall|i: int, j: int|
            0 <= i < prev.0.len() && 0 <= j < undirected_hops(g, hops_end(from, prev.0[i])).len() implies good(
            prev.0[i].push(#[trigger] undirected_hops(g, hops_end(from, prev.0[i]))[j]),
        ) by {
            let p = prev.0[i];
            let h = undirected_hops(g, hops_end(from, p))[j];
            assert(undirected_hops(g, hops_end(from, p)).contains(h));
            lemma_walk_extend(g, from, p, h);
        }
        lemma_visit_layer_keeps(g, from, (Seq::empty(), prev.1), prev.0, good);
    }
}

/// Every walk the shortest-path search reaches within `k` hops is an
/// undirected walk from `from` (each hop follows a stored edge forwards
/// or backwards) of at most `k` hops; so is the path `shortest_path`
/// returns.
pub proof fn lemma_shortest_walks_valid(g: GraphView, from: Seq<char>, k: nat)
    ensures
        forall|i: int|
            0 <= i < sp_reached(g, from, k).len() ==> (#[trigger] sp_reached(g, from, k)[i]).len() <= k
                && is_undirected_walk(g, from, sp_reached(g, from, k)[i]),
    decreases k,
{
    lemma_sp_layer_walks(g, from, k);
    if k > 0 {
        lemma_shortest_walks_valid(g, from, (k - 1) as nat);
        let before = sp_reached(g, from, (k - 1) as nat);
        let layer = sp_layer(g, from, k).0;
        assert forall|i: int| 0 <= i < sp_reached(g, from, k).len() implies (
        #[trigger] sp_reached(g, from, k)[i]).len() <= k && is_undirected_walk(
            g,
            from,
            sp_reached(g, from, k)[i],
        ) by {
            if i < before.len() {
                assert(sp_reached(g, from, k)[i] == before[i]);
            } else {
                assert(sp_reached(g, from, k)[i] == layer[i - before.len()]);
            }
        }
    }
}

/// Visiting hops keeps the walks and nodes already there, reaches the
/// target of every hop, and adds a node only as the end of a new walk.
proof fn lemma_visit_hops_sets(
    from: Seq<char>,
    state: (Seq<Seq<Hop>>, Set<Seq<char>>),
    p: Seq<Hop>,
    hs: Seq<Hop>,
)
    ensures
        state.0.len() <= visit_hops(state, p, hs).0.len(),
        forall|t: int| 0 <= t < state.0.len() ==> visit_hops(state, p, hs).0[t] == state.0[t],
        state.1.subset_of(visit_hops(state, p, hs).1),
        forall|j: int| 0 <= j < hs.len() ==> visit_hops(state, p, hs).1.contains(hop_target(#[trigger] hs[j])),
        forall|x: Seq<char>|
            #[trigger] visit_hops(state, p, hs).1.contains(x) ==> state.1.contains(x) || exists|t: int|
                0 <= t < visit_hops(state, p, hs).0.len() && hops_end(from, visit_hops(state, p, hs).0[t])
                    == x,
    decreases hs.len(),
{
    if hs.len() > 0 {
        let pre = hs.drop_last();
        lemma_visit_hops_sets(from, state, p, pre);
        let st = visit_hops(state, p, pre);
        let h = hs.last();
        let out = visit_hops(state, p, hs);
        assert forall|j: int| 0 <= j < hs.len() implies out.1.contains(hop_target(#[trigger] hs[j])) by {
            if j < pre.len() {
                assert(pre[j] == hs[j]);
                assert(st.1.contains(hop_target(pre[j])));
            }
        }
        assert forall|x: Seq<char>| #[trigger] out.1.contains(x) implies state.1.contains(x) || exists|t: int|
            0 <= t < out.0.len() && hops_end(from, out.0[t]) == x by {
            if !st.1.contains(hop_target(h)) && x == hop_target(h) {
                assert(hops_end(from, out.0[st.0.len() as int]) == x);
            } else if !state.1.contains(x) {
                assert(st.1.contains(x));
                let t = choose|t: int| 0 <= t < st.0.len() && hops_end(from, st.0[t]) == x;
                assert(out.0[t] == st.0[t]);
            }
        }
    }
}

/// Visiting a layer keeps the walks and nodes already there, reaches the
/// target of every hop out of every walk of the layer, and adds a node
/// only as the end of a new walk.
proof fn lemma_visit_layer_sets(
    g: GraphView,
    from: Seq<char>,
    state: (Seq<Seq<Hop>>, Set<Seq<char>>),
    layer: Seq<Seq<Hop>>,
)
    ensures
        state.1.subset_of(visit_layer(g, from, state, layer).1),
        forall|i: int, j: int|
            0 <= i < layer.len() && 0 <= j < undirected_hops(g, hops_end(from, layer[i])).len()
                ==> visit_layer(g, from, state, layer).1.contains(
                hop_target(#[trigger] undirected_hops(g, hops_end(from, layer[i]))[j]),
            ),
        forall|x: Seq<char>|
            #[trigger] visit_layer(g, from, state, layer).1.contains(x) ==> state.1.contains(x)
                || exists|t: int|
                0 <= t < visit_layer(g, from, state, layer).0.len() && hops_end(
                    from,
                    visit_layer(g, from, state, layer).0[t],
                ) == x,
        state.0.len() <= visit_layer(g, from, state, layer).0.len(),
        forall|t: int| 0 <= t < state.0.len() ==> visit_layer(g, from, state, layer).0[t] == state.0[t],
    decreases layer.len(),
{
    if layer.len() > 0 {
        let pre = layer.drop_last();
        lemma_visit_layer_sets(g, from, state, pre);
        let st = visit_layer(g, from, state, pre);
        let p = layer.last();
        let hs = undirected_hops(g, hops_end(from, p));
        lemma_visit_hops_sets(from, st, p, hs);
        let out = visit_layer(g, from, state, layer);
        assert(out == visit_hops(st, p, hs));
        assert forall|i: int, j: int|
            0 <= i < layer.len() && 0 <= j < undirected_hops(g, hops_end(from, layer[i])).len() implies out.1.contains(
            hop_target(#[trigger] undirected_hops(g, hops_end(from, layer[i]))[j]),
        ) by {
            if i < pre.len() {
                assert(pre[i] == layer[i]);
                assert(st.1.contains(hop_target(undirected_hops(g, hops_end(from, pre[i]))[j])));
            } else {
                assert(layer[i] == p);
                assert(out.1.contains(hop_target(hs[j])));
            }
        }
        assert forall|x: Seq<char>| #[trigger] out.1.contains(x) implies state.1.contains(x) || exists|t: int|
            0 <= t < out.0.len() && hops_end(from, out.0[t]) == x by {
            if !st.1.contains(x) {
                let t = choose|t: int| 0 <= t < out.0.len() && hops_end(from, out.0[t]) == x;
            } else if !state.1.contains(x) {
                let t = choose|t: int| 0 <= t < st.0.len() && hops_end(from, st.0[t]) == x;
                assert(out.0[t] == st.0[t]);
            }
        }
    }
}

/// The nodes seen by layer `d` grow with `d`; each is the end of a walk of
/// some layer up to `d`; and every hop out of a walk of layer `d` leads to
/// a node seen by layer `d + 1`.
proof fn lemma_sp_layer_sets(g: GraphView, from: Seq<char>, d: nat)
    ensures
        sp_layer(g, from, d).1.subset_of(sp_layer(g, from, d + 1).1),
        forall|x: Seq<char>|
            #[trigger] sp_layer(g, from, d).1.contains(x) ==> exists|e: nat, t: int|
                e <= d && 0 <= t < sp_layer(g, from, e).0.len() && hops_end(
                    from,
                    sp_layer(g, from, e).0[t],
                ) == x,
        forall|i: int, j: int|
            0 <= i < sp_layer(g, from, d).0.len() && 0 <= j < undirected_hops(
                g,
                hops_end(from, sp_layer(g, from, d).0[i]),
            ).len() ==> sp_layer(g, from, d + 1).1.contains(
                hop_target(
                    #[trigger] undirected_hops(g, hops_end(from, sp_layer(g, from, d).0[i]))[j],
                ),
            ),
    decreases d,
{
    let cur = sp_layer(g, from, d);
    lemma_visit_layer_sets(g, from, (Seq::empty(), cur.1), cur.0);
    if d == 0 {
        assert forall|x: Seq<char>| #[trigger] cur.1.contains(x) implies exists|e: nat, t: int|
            e <= d && 0 <= t < sp_layer(g, from, e).0.len() && hops_end(from, sp_layer(g, from, e).0[t])
                == x by {
            assert(x == from);
            assert(hops_end(from, sp_layer(g, from, 0).0[0]) == from);
        }
    } else {
        lemma_sp_layer_sets(g, from, (d - 1) as nat);
        let prev = sp_layer(g, from, (d - 1) as nat);
        lemma_visit_layer_sets(g, from, (Seq::empty(), prev.1), prev.0);
        assert forall|x: Seq<char>| #[trigger] cur.1.contains(x) implies exists|e: nat, t: int|
            e <= d && 0 <= t < sp_layer(g, from, e).0.len() && hops_end(from, sp_layer(g, from, e).0[t])
                == x by {
            if prev.1.contains(x) {
                let (e, t) = choose|e: nat, t: int|
                    e <= d - 1 && 0 <= t < sp_layer(g, from, e).0.len() && hops_end(
                        from,
                        sp_layer(g, from, e).0[t],
                    ) == x;
            } else {
                let t = choose|t: int| 0 <= t < cur.0.len() && hops_end(from, cur.0[t]) == x;
                assert(hops_end(from, sp_layer(g, from, d).0[t]) == x);
            }
        }
    }
}

proof fn lemma_sp_sets_grow(g: GraphView, from: Seq<char>, a: nat, b: nat)
    requires
        a <= b,
    ensures
        sp_layer(g, from, a).1.subset_of(sp_layer(g, from, b).1),
    decreases b - a,
{
    if a < b {
        lemma_sp_sets_grow(g, from, a, (b - 1) as nat);
        lemma_sp_layer_sets(g, from, (b - 1) as nat);
    }
}

/// The end of the first `m` hops of an undirected walk from `from` is seen
/// by layer `m`.
proof fn lemma_walk_prefix_seen(g: GraphView, from: Seq<char>, hs: Seq<Hop>, m: nat)
    requires
        is_undirected_walk(g, from, hs),
        m <= hs.len(),
    ensures
        sp_layer(g, from, m).1.contains(hops_end(from, hs.take(m as int))),
    decreases m,
{
    if m == 0 {
        assert(hs.take(0) =~= Seq::<Hop>::empty());
    } else {
        let k = (m - 1) as nat;
        lemma_walk_prefix_seen(g, from, hs, k);
        let u = hops_end(from, hs.take(k as int));
        lemma_sp_layer_sets(g, from, k);
        let (e, t) = choose|e: nat, t: int|
            e <= k && 0 <= t < sp_layer(g, from, e).0.len() && hops_end(from, sp_layer(g, from, e).0[t])
                == u;
        lemma_sp_layer_sets(g, from, e);
        let h = hs[k as int];
        assert(undirected_hops(g, u).contains(h));
        let j = choose|j: int| 0 <= j < undirected_hops(g, u).len() && undirected_hops(g, u)[j] == h;
        assert(sp_layer(g, from, e + 1).1.contains(hop_target(h)));
        lemma_sp_sets_grow(g, from, e + 1, m);
        assert(hs.take(m as int).last() == h);
    }
}

/// `w` is among the walks reached within `k` hops.
pub open spec fn is_reached_walk(g: GraphView, from: Seq<char>, k: nat, w: Seq<Hop>) -> bool {
    exists|i: int| 0 <= i < sp_reached(g, from, k).len() && sp_reached(g, from, k)[i] == w
}

/// The walks of layer `d` come at positions `[start, start + len)` of the
/// walks reached within `k >= d` hops, and the reached walks are ordered by
/// length.
proof fn lemma_sp_reached_layers(g: GraphView, from: Seq<char>, k: nat)
    ensures
        forall|a: int, b: int|
            0 <= a < b < sp_reached(g, from, k).len() ==> (#[trigger] sp_reached(g, from, k)[a]).len()
                <= (#[trigger] sp_reached(g, from, k)[b]).len(),
        forall|d: nat, t: int|
            d <= k && 0 <= t < sp_layer(g, from, d).0.len() ==> is_reached_walk(
                g,
                from,
                k,
                #[trigger] sp_layer(g, from, d).0[t],
            ),
        forall|i: int|
            0 <= i < sp_reached(g, from, k).len() ==> (#[trigger] sp_reached(g, from, k)[i]).len() <= k,
    decreases k,
{
    lemma_sp_layer_walks(g, from, k);
    lemma_shortest_walks_valid(g, from, k);
    if k == 0 {
        assert forall|d: nat, t: int|
            d <= k && 0 <= t < sp_layer(g, from, d).0.len() implies is_reached_walk(
            g,
            from,
            k,
            #[trigger] sp_layer(g, from, d).0[t],
        ) by {
            assert(sp_reached(g, from, k)[t] == sp_layer(g, from, d).0[t]);
        }
    } else {
        lemma_sp_reached_layers(g, from, (k - 1) as nat);
        let before = sp_reached(g, from, (k - 1) as nat);
        let layer = sp_layer(g, from, k).0;
        let all = sp_reached(g, from, k);
        assert forall|a: int, b: int| 0 <= a < b < all.len() implies (#[trigger] all[a]).len() <= (
        #[trigger] all[b]).len() by {
            if b < before.len() {
                assert(all[a] == before[a] && all[b] == before[b]);
            } else if a < before.len() {
                assert(all[a] == before[a]);
                assert(all[b] == layer[b - before.len()]);
            } else {
                assert(all[a] == layer[a - before.len()]);
                assert(all[b] == layer[b - before.len()]);
            }
        }
        assert forall|d: nat, t: int|
            d <= k && 0 <= t < sp_layer(g, from, d).0.len() implies is_reached_walk(
            g,
            from,
            k,
            #[trigger] sp_layer(g, from, d).0[t],
        ) by {
            if d < k {
                assert(is_reached_walk(g, from, (k - 1) as nat, sp_layer(g, from, d).0[t]));
                let i = choose|i: int|
                    0 <= i < before.len() && before[i] == sp_layer(g, from, d).0[t];
                assert(all[i] == before[i]);
            } else {
                assert(all[before.len() + t] == layer[t]);
            }
        }
    }
}

/// Every node an undirected walk of at most `k` hops from `from` reaches
/// is the end of a walk the shortest-path search reaches within `k` hops;
/// so `shortest_path` answers `None` only for nodes no such walk reaches.
pub proof fn lemma_reachable_nodes_found(g: GraphView, from: Seq<char>, k: nat, hs: Seq<Hop>)
    requires
        is_undirected_walk(g, from, hs),
        hs.len() <= k,
    ensures
        exists|i: int|
            0 <= i < sp_reached(g, from, k).len() && hops_end(from, #[trigger] sp_reached(g, from, k)[i])
                == hops_end(from, hs),
{
    let m = hs.len();
    lemma_walk_prefix_seen(g, from, hs, m);
    assert(hs.take(m as int) =~= hs);
    lemma_sp_layer_sets(g, from, m);
    let (e, t) = choose|e: nat, t: int|
        e <= m && 0 <= t < sp_layer(g, from, e).0.len() && hops_end(from, sp_layer(g, from, e).0[t])
            == hops_end(from, hs);
    lemma_sp_reached_layers(g, from, k);
    assert(is_reached_walk(g, from, k, sp_layer(g, from, e).0[t]));
    let i = choose|i: int|
        0 <= i < sp_reached(g, from, k).len() && sp_reached(g, from, k)[i] == sp_layer(g, from, e).0[t];
    assert(hops_end(from, sp_reached(g, from, k)[i]) == hops_end(from, hs));
}

/// The first walk the shortest-path search reaches that ends at a node
/// (the one `shortest_path` returns) has no more hops than any undirected
/// walk of at most `k` hops from `from` to that node.
pub proof fn lemma_first_walk_is_shortest(g: GraphView, from: Seq<char>, k: nat, hs: Seq<Hop>, i: int)
    requires
        is_undirected_walk(g, from, hs),
        hs.len() <= k,
        0 <= i < sp_reached(g, from, k).len(),
        hops_end(from, sp_reached(g, from, k)[i]) == hops_end(from, hs),
        forall|j: int| 0 <= j < i ==> hops_end(from, #[trigger] sp_reached(g, from, k)[j]) != hops_end(from, hs),
    ensures
        sp_reached(g, from, k)[i].len() <= hs.len(),
{
    let m = hs.len();
    lemma_walk_prefix_seen(g, from, hs, m);
    assert(hs.take(m as int) =~= hs);
    lemma_sp_layer_sets(g, from, m);
    let (e, t) = choose|e: nat, t: int|
        e <= m && 0 <= t < sp_layer(g, from, e).0.len() && hops_end(from, sp_layer(g, from, e).0[t])
            == hops_end(from, hs);
    lemma_sp_reached_layers(g, from, k);
    lemma_sp_layer_walks(g, from, e);
    assert(is_reached_walk(g, from, k, sp_layer(g, from, e).0[t]));
    let w = choose|w: int|
        0 <= w < sp_reached(g, from, k).len() && sp_reached(g, from, k)[w] == sp_layer(g, from, e).0[t];
    assert(sp_layer(g, from, e).0[t].len() == e);
    if w < i {
        assert(hops_end(from, sp_reached(g, from, k)[w]) != hops_end(from, hs));
    }
    if i < w {
        assert(sp_reached(g, from, k)[i].len() <= sp_reached(g, from, k)[w].len());
    }
}

/// Undirected reachability is transitive: a node reachable from one that
/// is reachable from `a` is reachable from `a`.
pub proof fn lemma_reachable_transitive(g: GraphView, a: Seq<char>, b: Seq<char>, c: Seq<char>)
    requires
        reachable(g, a, b),
        reachable(g, b, c),
    ensures
        reachable(g, a, c),
{
    let h1 = choose|hs: Seq<Hop>| is_undirected_walk(g, a, hs) && hops_end(a, hs) == b;
    let h2 = choose|hs: Seq<Hop>| is_undirected_walk(g, b, hs) && hops_end(b, hs) == c;
    let w = h1 + h2;
    assert forall|i: int| 0 <= i < w.len() implies undirected_hops(
        g,
        hops_end(a, w.take(i)),
    ).contains(#[trigger] w[i]) by {
        if i < h1.len() {
            assert(w.take(i) =~= h1.take(i));
            assert(w[i] == h1[i]);
        } else {
            let k = i - h1.len();
            assert(w[i] == h2[k]);
            assert(undirected_hops(g, hops_end(b, h2.take(k))).contains(h2[k]));
            if k == 0 {
                assert(w.take(i) =~= h1);
            } else {
                assert(w.take(i).last() == h2.take(k).last());
            }
        }
    }
    if h2.len() == 0 {
        assert(w =~= h1);
    } else {
        assert(w.last() == h2.last());
    }
    assert(is_undirected_walk(g, a, w) && hops_end(a, w) == c);
}

/// Reading back an added edge: after `add_edge(e)` the edge is the last
/// of the outgoing edges of its source and of the incoming edges of its
/// target, behind the edges that were there before.
pub proof fn lemma_added_edge_reads_back(g: GraphView, e: EdgeView)
    ensures
        ({
            let h = graph_with_edge(g, e);
            &&& list_or_empty(h.outgoing, e.source_id) == list_or_empty(g.outgoing, e.source_id).push(e)
            &&& list_or_empty(h.incoming, e.target_id) == list_or_empty(g.incoming, e.target_id).push(e)
            &&& list_or_empty(h.outgoing, e.source_id).contains(e)
            &&& list_or_empty(h.incoming, e.target_id).contains(e)
        }),
{
    let h = graph_with_edge(g, e);
    let out = list_or_empty(g.outgoing, e.source_id).push(e);
    let inc = list_or_empty(g.incoming, e.target_id).push(e);
    assert(out[out.len() - 1] == e);
    assert(inc[inc.len() - 1] == e);
}

/// The edge lists after removing the edges of relation `rid` from the list
/// of `key`, as `remove_edge` leaves them.
pub open spec fn with_relation_removed(m: Map<Seq<char>, Seq<EdgeView>>, key: Seq<char>, rid: Seq<char>) -> Map<
    Seq<char>,
    Seq<EdgeView>,
> {
    if m.contains_key(key) {
        m.insert(key, without_relation(m[key], rid))
    } else {
        m
    }
}

proof fn lemma_kept_edge(s: Seq<EdgeView>, rid: Seq<char>, x: EdgeView)
    ensures
        without_relation(s, rid).contains(x) <==> (s.contains(x) && x.relation_id != rid),
    decreases s.len(),
{
    reveal(Seq::filter);
    let pred = |e: EdgeView| e.relation_id != rid;
    if s.len() > 0 {
        let prev = s.drop_last();
        lemma_kept_edge(prev, rid, x);
        let kept = without_relation(prev, rid);
        assert(without_relation(s, rid) == if pred(s.last()) {
            kept.push(s.last())
        } else {
            kept
        });
        if s.contains(x) && x != s.last() {
            let i = choose|i: int| 0 <= i < s.len() && s[i] == x;
            assert(prev[i] == x);
        }
        if prev.contains(x) {
            let i = choose|i: int| 0 <= i < prev.len() && prev[i] == x;
            assert(s[i] == x);
        }
        if pred(s.last()) && kept.push(s.last()).contains(x) && x != s.last() {
            let i = choose|i: int| 0 <= i < kept.len() + 1 && kept.push(s.last())[i] == x;
            assert(kept[i] == x);
        }
        if pred(s.last()) && kept.contains(x) {
            let i = choose|i: int| 0 <= i < kept.len() && kept[i] == x;
            assert(kept.push(s.last())[i] == x);
        }
        if x == s.last() {
            assert(s[s.len() - 1] == x);
            if pred(x) {
                assert(kept.push(x)[kept.len() as int] == x);
            }
        }
    } else {
        assert(without_relation(s, rid) =~= s);
    }
}

/// Reading back a removed edge: after `remove_edge` no edge of the
/// relation is left in the list it was removed from, and every other edge
/// of that list stays.
pub proof fn lemma_removed_edge_is_gone(m: Map<Seq<char>, Seq<EdgeView>>, key: Seq<char>, rid: Seq<char>)
    ensures
        forall|x: EdgeView| #[trigger]
            list_or_empty(with_relation_removed(m, key, rid), key).contains(x) <==> (list_or_empty(
                m,
                key,
            ).contains(x) && x.relation_id != rid),
{
    assert forall|x: EdgeView| #[trigger]
        list_or_empty(with_relation_removed(m, key, rid), key).contains(x) <==> (list_or_empty(m, key).contains(x)
            && x.relation_id != rid) by {
        if m.contains_key(key) {
            lemma_kept_edge(m[key], rid, x);
        }
    }
}

proof fn lemma_filter_keeps_all<A>(s: Seq<A>, pred: spec_fn(A) -> bool)
    requires
        forall|i: int| 0 <= i < s.len() ==> pred(#[trigger] s[i]),
    ensures
        s.filter(pred) == s,
    decreases s.len(),
{
    reveal(Seq::filter);
    if s.len() > 0 {
        lemma_filter_keeps_all(s.drop_last(), pred);
        assert(s.drop_last().push(s.last()) =~= s);
    } else {
        assert(s.filter(pred) =~= s);
    }
}

/// No stored edge belongs to relation `rid`.
pub open spec fn lacks_relation(g: GraphView, rid: Seq<char>) -> bool {
    &&& forall|k: Seq<char>, i: int|
        #![trigger g.outgoing[k][i]]
        g.outgoing.contains_key(k) && 0 <= i < g.outgoing[k].len() ==> g.outgoing[k][i].relation_id
            != rid
    &&& forall|k: Seq<char>, i: int|
        #![trigger g.incoming[k][i]]
        g.incoming.contains_key(k) && 0 <= i < g.incoming[k].len() ==> g.incoming[k][i].relation_id
            != rid
}

proof fn lemma_undo_append(m: Map<Seq<char>, Seq<EdgeView>>, key: Seq<char>, e: EdgeView)
    requires
        forall|k: Seq<char>, i: int|
            #![trigger m[k][i]]
            m.contains_key(k) && 0 <= i < m[k].len() ==> m[k][i].relation_id != e.relation_id,
    ensures
        forall|n: Seq<char>| #[trigger]
            list_or_empty(
                with_relation_removed(with_edge_appended(m, key, e), key, e.relation_id),
                n,
            ) == list_or_empty(m, n),
        edge_slots(with_relation_removed(with_edge_appended(m, key, e), key, e.relation_id))
            == edge_slots(m),
{
    let rid = e.relation_id;
    let pred = |x: EdgeView| x.relation_id != rid;
    let old_list = list_or_empty(m, key);
    let r = with_relation_removed(with_edge_appended(m, key, e), key, rid);
    assert forall|i: int| 0 <= i < old_list.len() implies pred(#[trigger] old_list[i]) by {
        assert(m.contains_key(key));
        assert(m[key][i] == old_list[i]);
    }
    lemma_filter_keeps_all(old_list, pred);
    old_list.lemma_filter_push(e, pred);
    assert(r[key] == old_list);
    assert forall|n: Seq<char>| #[trigger] list_or_empty(r, n) == list_or_empty(m, n) by {
        if n == key {
        }
    }
    assert(edge_slots(r) =~= edge_slots(m)) by {
        assert forall|p: (Seq<char>, int)| edge_slots(r).contains(p) <==> edge_slots(m).contains(
            p,
        ) by {
            assert(list_or_empty(r, p.0) == list_or_empty(m, p.0));
        }
    }
}

/// Adding an edge of a relation that the graph does not hold and then
/// removing that relation at the edge's ends gives back every list of
/// outgoing and incoming edges, the node IDs and the number of edges.
pub proof fn lemma_add_then_remove_edge(g: GraphView, e: EdgeView)
    requires
        lacks_relation(g, e.relation_id),
    ensures
        ({
            let h = graph_with_edge(g, e);
            let r = GraphView {
                outgoing: with_relation_removed(h.outgoing, e.source_id, e.relation_id),
                incoming: with_relation_removed(h.incoming, e.target_id, e.relation_id),
                node_ids: h.node_ids,
            };
            &&& r.node_ids == g.node_ids
            &&& forall|n: Seq<char>| #[trigger]
                list_or_empty(r.outgoing, n) == list_or_empty(g.outgoing, n)
            &&& forall|n: Seq<char>| #[trigger]
                list_or_empty(r.incoming, n) == list_or_empty(g.incoming, n)
            &&& edge_total(r.outgoing) == edge_total(g.outgoing)
        }),
{
    lemma_undo_append(g.outgoing, e.source_id, e);
    lemma_undo_append(g.incoming, e.target_id, e);
}

/// Removing a node from a graph whose edges are filed consistently removes
/// exactly the edges at that node: every other node keeps its outgoing
/// edges but those into the node and its incoming edges but those from it,
/// in order; the node keeps no list and is no longer listed, the other
/// nodes staying listed in order; and the graph stays consistent.
pub proof fn lemma_remove_node_removes_incident_edges(g: GraphView, n: Seq<char>)
    requires
        is_consistent(g),
    ensures
        forall|k: Seq<char>|
            k != n ==> #[trigger] list_or_empty(graph_without_node(g, n).outgoing, k) == without_target(
                list_or_empty(g.outgoing, k),
                n,
            ),
        forall|k: Seq<char>|
            k != n ==> #[trigger] list_or_empty(graph_without_node(g, n).incoming, k) == without_source(
                list_or_empty(g.incoming, k),
                n,
            ),
        list_or_empty(graph_without_node(g, n).outgoing, n) == Seq::<EdgeView>::empty(),
        list_or_empty(graph_without_node(g, n).incoming, n) == Seq::<EdgeView>::empty(),
        is_consistent(graph_without_node(g, n)),
        graph_without_node(g, n).node_ids == ids_without(g.node_ids, n),
        !graph_without_node(g, n).node_ids.contains(n),
{
    lemma_ids_without(g.node_ids, n);
    reveal(Seq::filter);
    lemma_remove_node_detaches(g, n);
    let r = graph_without_node(g, n);
    let out_n = list_or_empty(g.outgoing, n);
    let incoming1 = crate::graph::types::lists_without_source(g.incoming, targets(out_n), n);
    let touched = sources(list_or_empty(incoming1, n));
    let tpred = |x: EdgeView| x.target_id != n;
    let spred = |x: EdgeView| x.source_id != n;
    assert forall|k: Seq<char>| k != n implies #[trigger] list_or_empty(r.outgoing, k) == without_target(
        list_or_empty(g.outgoing, k),
        n,
    ) by {
        if !g.outgoing.contains_key(k) {
            assert(!r.outgoing.contains_key(k));
            assert(Seq::<EdgeView>::empty().filter(tpred) =~= Seq::<EdgeView>::empty());
        } else if !touched.contains(k) {
            assert(r.outgoing.contains_key(k));
            assert(r.outgoing[k] == g.outgoing[k]);
            assert forall|i: int| 0 <= i < g.outgoing[k].len() implies tpred(#[trigger] g.outgoing[k][i]) by {
                assert(r.outgoing[k][i] == g.outgoing[k][i]);
            }
            lemma_filter_keeps_all(g.outgoing[k], tpred);
        }
    }
    assert forall|k: Seq<char>| k != n implies #[trigger] list_or_empty(r.incoming, k) == without_source(
        list_or_empty(g.incoming, k),
        n,
    ) by {
        if !g.incoming.contains_key(k) {
            assert(!r.incoming.contains_key(k));
            assert(Seq::<EdgeView>::empty().filter(spred) =~= Seq::<EdgeView>::empty());
        } else if !targets(out_n).contains(k) {
            assert(r.incoming.contains_key(k));
            assert(r.incoming[k] == g.incoming[k]);
            assert forall|i: int| 0 <= i < g.incoming[k].len() implies spred(#[trigger] g.incoming[k][i]) by {
                assert(r.incoming[k][i] == g.incoming[k][i]);
            }
            lemma_filter_keeps_all(g.incoming[k], spred);
        }
    }
    assert(!r.outgoing.contains_key(n));
    assert(!r.incoming.contains_key(n));
    assert forall|k: Seq<char>, i: int|
        #![trigger r.outgoing[k][i]]
        r.outgoing.contains_key(k) && 0 <= i < r.outgoing[k].len() implies {
        let e = r.outgoing[k][i];
        &&& e.source_id == k
        &&& list_or_empty(r.incoming, e.target_id).contains(e)
    } by {
        let e = r.outgoing[k][i];
        assert(k != n);
        assert(list_or_empty(r.outgoing, k) == r.outgoing[k]);
        let base = list_or_empty(g.outgoing, k);
        assert(r.outgoing[k] == base.filter(tpred));
        base.lemma_filter_pred(tpred, i);
        base.lemma_filter_contains_rev(tpred, e);
        let j = choose|j: int| 0 <= j < base.len() && base[j] == e;
        assert(g.outgoing.contains_key(k));
        assert(g.outgoing[k][j] == e);
        let t = e.target_id;
        assert(t != n);
        let tin = list_or_empty(g.incoming, t);
        assert(tin.contains(e));
        let m = choose|m: int| 0 <= m < tin.len() && tin[m] == e;
        tin.lemma_filter_contains(spred, m);
        assert(list_or_empty(r.incoming, t) == tin.filter(spred));
    }
    assert forall|k: Seq<char>, i: int|
        #![trigger r.incoming[k][i]]
        r.incoming.contains_key(k) && 0 <= i < r.incoming[k].len() implies {
        let e = r.incoming[k][i];
        &&& e.target_id == k
        &&& list_or_empty(r.outgoing, e.source_id).contains(e)
    } by {
        let e = r.incoming[k][i];
        assert(k != n);
        assert(list_or_empty(r.incoming, k) == r.incoming[k]);
        let base = list_or_empty(g.incoming, k);
        assert(r.incoming[k] == base.filter(spred));
        base.lemma_filter_pred(spred, i);
        base.lemma_filter_contains_rev(spred, e);
        let j = choose|j: int| 0 <= j < base.len() && base[j] == e;
        assert(g.incoming.contains_key(k));
        assert(g.incoming[k][j] == e);
        let src = e.source_id;
        assert(src != n);
        let sout = list_or_empty(g.outgoing, src);
        assert(sout.contains(e));
        let m = choose|m: int| 0 <= m < sout.len() && sout[m] == e;
        sout.lemma_filter_contains(tpred, m);
        assert(list_or_empty(r.outgoing, src) == sout.filter(tpred));
    }
}

} // verus!
