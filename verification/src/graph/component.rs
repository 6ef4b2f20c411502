//! Weakly connected components: breadth-first search over the graph taken
//! as undirected.
use vstd::prelude::*;
use vstd::hash_map::StringHashMap;

use crate::graph::engine::AdjacencyGraph;
use crate::graph::traversal::{hop_target, hops_end, undirected_hops, Hop};
use crate::graph::types::{
    edge_ref_views, list_or_empty, opt_str_view, string_views, EdgeView, GraphView,
};
use crate::text::owned;

verus! {

broadcast use vstd::seq_lib::group_seq_properties;

/// `hs` is an undirected walk from `from`: each hop leaves the node the
/// walk has reached so far.
pub open spec fn is_undirected_walk(g: GraphView, from: Seq<char>, hs: Seq<Hop>) -> bool {
    forall|i: int|
        0 <= i < hs.len() ==> undirected_hops(g, hops_end(from, hs.take(i))).contains(
            #[trigger] hs[i],
        )
}

/// Node `v` can be reached from `from` by an undirected walk.
pub open spec fn reachable(g: GraphView, from: Seq<char>, v: Seq<char>) -> bool {
    exists|hs: Seq<Hop>| is_undirected_walk(g, from, hs) && hops_end(from, hs) == v
}

pub(crate) proof fn lemma_walk_extend(g: GraphView, from: Seq<char>, hs: Seq<Hop>, h: Hop)
    requires
        is_undirected_walk(g, from, hs),
        undirected_hops(g, hops_end(from, hs)).contains(h),
    ensures
        is_undirected_walk(g, from, hs.push(h)),
        hops_end(from, hs.push(h)) == hop_target(h),
{
    let w = hs.push(h);
    assert forall|i: int| 0 <= i < w.len() implies undirected_hops(
        g,
        hops_end(from, w.take(i)),
    ).contains(#[trigger] w[i]) by {
        if i < hs.len() {
            assert(w.take(i) =~= hs.take(i));
            assert(w[i] == hs[i]);
        } else {
            assert(w.take(i) =~= hs);
        }
    }
}

proof fn lemma_forward_hop(g: GraphView, u: Seq<char>, e: EdgeView)
    requires
        list_or_empty(g.outgoing, u).contains(e),
    ensures
        undirected_hops(g, u).contains(Hop { edge: e, forward: true }),
{
    let fwd = list_or_empty(g.outgoing, u).map_values(|x: EdgeView| Hop { edge: x, forward: true });
    let bwd = list_or_empty(g.incoming, u).map_values(|x: EdgeView| Hop { edge: x, forward: false });
    let j = choose|j: int| 0 <= j < list_or_empty(g.outgoing, u).len() && list_or_empty(g.outgoing, u)[j] == e;
    assert((fwd + bwd)[j] == Hop { edge: e, forward: true });
}

proof fn lemma_backward_hop(g: GraphView, u: Seq<char>, e: EdgeView)
    requires
        list_or_empty(g.incoming, u).contains(e),
    ensures
        undirected_hops(g, u).contains(Hop { edge: e, forward: false }),
{
    let fwd = list_or_empty(g.outgoing, u).map_values(|x: EdgeView| Hop { edge: x, forward: true });
    let bwd = list_or_empty(g.incoming, u).map_values(|x: EdgeView| Hop { edge: x, forward: false });
    let j = choose|j: int| 0 <= j < list_or_empty(g.incoming, u).len() && list_or_empty(g.incoming, u)[j] == e;
    assert((fwd + bwd)[fwd.len() + j] == Hop { edge: e, forward: false });
}

/// A node one hop away from a reachable node is reachable.
proof fn lemma_step_reachable(g: GraphView, from: Seq<char>, u: Seq<char>, h: Hop)
    requires
        reachable(g, from, u),
        undirected_hops(g, u).contains(h),
    ensures
        reachable(g, from, hop_target(h)),
{
    let hs = choose|hs: Seq<Hop>| is_undirected_walk(g, from, hs) && hops_end(from, hs) == u;
    lemma_walk_extend(g, from, hs, h);
}

/// A hop out of `u` follows an outgoing edge of `u` forwards or an incoming
/// edge of `u` backwards.
proof fn lemma_hop_origin(g: GraphView, u: Seq<char>, h: Hop)
    requires
        undirected_hops(g, u).contains(h),
    ensures
        h.forward ==> list_or_empty(g.outgoing, u).contains(h.edge),
        !h.forward ==> list_or_empty(g.incoming, u).contains(h.edge),
{
    let outs = list_or_empty(g.outgoing, u);
    let ins = list_or_empty(g.incoming, u);
    let fwd = outs.map_values(|x: EdgeView| Hop { edge: x, forward: true });
    let bwd = ins.map_values(|x: EdgeView| Hop { edge: x, forward: false });
    let k = choose|k: int| 0 <= k < (fwd + bwd).len() && (fwd + bwd)[k] == h;
    if k < fwd.len() {
        assert(fwd[k] == h);
        assert(outs[k] == h.edge);
    } else {
        assert(bwd[k - fwd.len()] == h);
        assert(ins[k - fwd.len()] == h.edge);
    }
}

/// Every node of a walk that starts inside a hop-closed set stays inside it.
proof fn lemma_closed_walk(g: GraphView, from: Seq<char>, hs: Seq<Hop>, inside: Set<Seq<char>>)
    requires
        inside.contains(from),
        is_undirected_walk(g, from, hs),
        forall|u: Seq<char>, h: Hop|
            inside.contains(u) && #[trigger] undirected_hops(g, u).contains(h) ==> inside.contains(
                hop_target(h),
            ),
    ensures
        inside.contains(hops_end(from, hs)),
    decreases hs.len(),
{
    if hs.len() > 0 {
        let prefix = hs.drop_last();
        assert forall|i: int| 0 <= i < prefix.len() implies undirected_hops(
            g,
            hops_end(from, prefix.take(i)),
        ).contains(#[trigger] prefix[i]) by {
            assert(prefix.take(i) =~= hs.take(i));
            assert(prefix[i] == hs[i]);
            assert(undirected_hops(g, hops_end(from, hs.take(i))).contains(hs[i]));
        }
        lemma_closed_walk(g, from, prefix, inside);
        assert(hs.take(hs.len() - 1) =~= prefix);
        assert(undirected_hops(g, hops_end(from, hs.take(hs.len() - 1))).contains(hs[hs.len() - 1]));
    }
}

proof fn lemma_filter_keeps_all(s: Seq<EdgeView>)
    ensures
        s.filter(|e: EdgeView| crate::graph::types::passes_filter(None, e)) == s,
    decreases s.len(),
{
    reveal(Seq::filter);
    if s.len() > 0 {
        lemma_filter_keeps_all(s.drop_last());
        assert(s.drop_last().push(s.last()) =~= s);
    }
}

/// A list without repeats drawn from `pool` and `extra` is no longer than
/// `pool` plus one.
proof fn lemma_distinct_within(q: Seq<Seq<char>>, pool: Seq<Seq<char>>, extra: Seq<char>)
    requires
        q.no_duplicates(),
        forall|i: int| 0 <= i < q.len() ==> pool.contains(#[trigger] q[i]) || q[i] == extra,
    ensures
        q.len() <= pool.len() + 1,
{
    let bigger = pool.to_set().insert(extra);
    q.unique_seq_to_set();
    pool.lemma_cardinality_of_set();
    assert forall|x: Seq<char>| q.to_set().contains(x) implies bigger.contains(x) by {
        let i = choose|i: int| 0 <= i < q.len() && q[i] == x;
        assert(pool.contains(q[i]) || q[i] == extra);
    }
    vstd::set_lib::lemma_len_subset(q.to_set(), bigger);
}

/// The breadth-first queue of a component search is sound: no repeats,
/// exactly the visited nodes, every entry reachable from `from` and drawn
/// from the graph's endpoints or `from` itself.
#[verifier::opaque]
spec fn queue_ok(
    g: GraphView,
    from: Seq<char>,
    pool: Seq<Seq<char>>,
    queue: Seq<Seq<char>>,
    visited: Set<Seq<char>>,
) -> bool {
    &&& queue.no_duplicates()
    &&& visited == queue.to_set()
    &&& queue.len() <= pool.len() + 1
    &&& queue.contains(from)
    &&& forall|i: int| 0 <= i < queue.len() ==> pool.contains(#[trigger] queue[i]) || queue[i] == from
    &&& forall|i: int| 0 <= i < queue.len() ==> reachable(g, from, #[trigger] queue[i])
}

/// Visits `node` unless it is visited already.
#[verifier::rlimit(40)]
fn enqueue(
    visited: &mut StringHashMap<()>,
    queue: &mut Vec<String>,
    node: &String,
    Ghost(g): Ghost<GraphView>,
    Ghost(from): Ghost<Seq<char>>,
    Ghost(pool): Ghost<Seq<Seq<char>>>,
)
    requires
        queue_ok(g, from, pool, string_views(old(queue)@), old(visited)@.dom()),
        pool.contains(node@) || node@ == from,
        reachable(g, from, node@),
    ensures
        queue_ok(g, from, pool, string_views(final(queue)@), final(visited)@.dom()),
        final(visited)@.contains_key(node@),
        old(visited)@.dom().subset_of(final(visited)@.dom()),
        old(queue)@.len() <= final(queue)@.len(),
        forall|i: int|
            0 <= i < old(queue)@.len() ==> #[trigger] string_views(final(queue)@)[i]
                == string_views(old(queue)@)[i],
{
    if !visited.contains_key(node.as_str()) {
        let ghost old_queue = string_views(queue@);
        visited.insert(node.clone(), ());
        queue.push(node.clone());
        proof {
            reveal(queue_ok);
            let q = string_views(queue@);
            assert(q =~= old_queue.push(node@));
            assert(!old_queue.contains(node@));
            old_queue.lemma_push_to_set_commute(node@);
            assert(visited@.dom() =~= q.to_set());
            assert forall|i: int| 0 <= i < q.len() implies reachable(g, from, #[trigger] q[i]) by {
                if i < old_queue.len() {
                    assert(q[i] == old_queue[i]);
                }
            }
            assert forall|i: int| 0 <= i < q.len() implies pool.contains(#[trigger] q[i]) || q[i]
                == from by {
                if i < old_queue.len() {
                    assert(q[i] == old_queue[i]);
                }
            }
            let w = choose|w: int| 0 <= w < old_queue.len() && old_queue[w] == from;
            assert(q[w] == from);
            lemma_distinct_within(q, pool, from);
        }
    }
}

/// Visits every node one hop away from `current`.
#[verifier::rlimit(100)]
fn visit_neighbours(
    graph: &AdjacencyGraph,
    current: &String,
    visited: &mut StringHashMap<()>,
    queue: &mut Vec<String>,
    Ghost(from): Ghost<Seq<char>>,
)
    requires
        graph.wf(),
        queue_ok(graph@, from, graph.endpoint_pool(), string_views(old(queue)@), old(visited)@.dom()),
        reachable(graph@, from, current@),
    ensures
        queue_ok(graph@, from, graph.endpoint_pool(), string_views(final(queue)@), final(visited)@.dom()),
        old(visited)@.dom().subset_of(final(visited)@.dom()),
        old(queue)@.len() <= final(queue)@.len(),
        forall|i: int|
            0 <= i < old(queue)@.len() ==> #[trigger] string_views(final(queue)@)[i]
                == string_views(old(queue)@)[i],
        forall|h: Hop| #[trigger]
            undirected_hops(graph@, current@).contains(h) ==> final(visited)@.contains_key(
                hop_target(h),
            ),
{
    let ghost g = graph@;
    let ghost pool = graph.endpoint_pool();
    let ghost u = current@;
    let ghost outs_v = list_or_empty(g.outgoing, u);
    let ghost ins_v = list_or_empty(g.incoming, u);
    let ghost start_queue = string_views(queue@);
    let ghost start_dom = visited@.dom();
    proof {
        lemma_filter_keeps_all(outs_v);
        lemma_filter_keeps_all(ins_v);
        assert(opt_str_view(None) == None::<Seq<char>>);
    }
    // Forward neighbours.
    let outs = graph.successors(current.as_str(), None);
    let mut j: usize = 0;
    while j < outs.len()
        invariant
            graph.wf(),
            g == graph@,
            pool == graph.endpoint_pool(),
            u == current@,
            reachable(g, from, u),
            edge_ref_views(outs@) == outs_v,
            outs_v == list_or_empty(g.outgoing, u),
            j <= outs@.len(),
            queue_ok(g, from, pool, string_views(queue@), visited@.dom()),
            start_dom.subset_of(visited@.dom()),
            start_queue.len() <= queue@.len(),
            forall|i: int|
                0 <= i < start_queue.len() ==> #[trigger] string_views(queue@)[i] == start_queue[i],
            forall|k: int| 0 <= k < j ==> visited@.contains_key((#[trigger] outs_v[k]).target_id),
        decreases outs@.len() - j,
    {
        let edge = outs[j];
        proof {
            assert(edge_ref_views(outs@)[j as int] == edge@);
            assert(outs_v.contains(edge@));
            lemma_forward_hop(g, u, edge@);
            lemma_step_reachable(g, from, u, Hop { edge: edge@, forward: true });
            graph.lemma_endpoints_pooled(u, edge@);
        }
        enqueue(visited, queue, &edge.target_id, Ghost(g), Ghost(from), Ghost(pool));
        j = j + 1;
    }
    let ghost mid_dom = visited@.dom();
    // Backward neighbours (reverse edges).
    let ins = graph.predecessors(current.as_str(), None);
    let mut j: usize = 0;
    while j < ins.len()
        invariant
            graph.wf(),
            g == graph@,
            pool == graph.endpoint_pool(),
            u == current@,
            reachable(g, from, u),
            edge_ref_views(ins@) == ins_v,
            ins_v == list_or_empty(g.incoming, u),
            j <= ins@.len(),
            queue_ok(g, from, pool, string_views(queue@), visited@.dom()),
            start_dom.subset_of(visited@.dom()),
            mid_dom.subset_of(visited@.dom()),
            start_queue.len() <= queue@.len(),
            forall|i: int|
                0 <= i < start_queue.len() ==> #[trigger] string_views(queue@)[i] == start_queue[i],
            forall|k: int| 0 <= k < j ==> visited@.contains_key((#[trigger] ins_v[k]).source_id),
        decreases ins@.len() - j,
    {
        let edge = ins[j];
        proof {
            assert(edge_ref_views(ins@)[j as int] == edge@);
            assert(ins_v.contains(edge@));
            lemma_backward_hop(g, u, edge@);
            lemma_step_reachable(g, from, u, Hop { edge: edge@, forward: false });
            graph.lemma_endpoints_pooled(u, edge@);
        }
        enqueue(visited, queue, &edge.source_id, Ghost(g), Ghost(from), Ghost(pool));
        j = j + 1;
    }
    proof {
        assert forall|h: Hop| #[trigger] undirected_hops(g, u).contains(h) implies visited@.contains_key(
            hop_target(h),
        ) by {
            lemma_hop_origin(g, u, h);
            if h.forward {
                let k = choose|k: int| 0 <= k < outs_v.len() && outs_v[k] == h.edge;
                assert(mid_dom.contains(outs_v[k].target_id));
            } else {
                let k = choose|k: int| 0 <= k < ins_v.len() && ins_v[k] == h.edge;
                assert(visited@.contains_key(ins_v[k].source_id));
            }
        }
    }
}

/// Compute the (weakly) connected component containing `node_id`, treating
/// the graph as undirected.  Returns every node reachable from `node_id`
/// by an undirected walk (`node_id` itself included, even when the graph
/// does not hold it), each once, in breadth-first order.
pub fn connected_component(graph: &AdjacencyGraph, node_id: &str) -> (res: Vec<String>)
    requires
        graph.wf(),
    ensures
        string_views(res@).no_duplicates(),
        forall|v: Seq<char>| #[trigger]
            string_views(res@).contains(v) <==> reachable(graph@, node_id@, v),
{
    let ghost g = graph@;
    let ghost from = node_id@;
    let ghost pool = graph.endpoint_pool();

    let mut visited: StringHashMap<()> = StringHashMap::new();
    let mut queue: Vec<String> = Vec::new();
    queue.push(owned(node_id));
    visited.insert(owned(node_id), ());
    let mut head: usize = 0;
    let ghost mut done: Seq<Seq<char>> = Seq::empty();
    proof {
        reveal(queue_ok);
        let q = string_views(queue@);
        assert(q =~= seq![from]);
        assert(visited@.dom() =~= q.to_set());
        assert(is_undirected_walk(g, from, Seq::empty()));
        assert(hops_end(from, Seq::<Hop>::empty()) == from);
        assert(reachable(g, from, q[0]));
        assert(q[0] == from);
        assert(q.take(0) =~= done);
    }

    while head < queue.len()
        invariant
            graph.wf(),
            g == graph@,
            from == node_id@,
            pool == graph.endpoint_pool(),
            head <= queue@.len(),
            queue_ok(g, from, pool, string_views(queue@), visited@.dom()),
            done == string_views(queue@).take(head as int),
            forall|u: Seq<char>, h: Hop|
                done.contains(u) && #[trigger] undirected_hops(g, u).contains(h)
                    ==> visited@.contains_key(hop_target(h)),
        decreases pool.len() + 1 - head,
    {
        let current = queue[head].clone();
        let ghost old_queue = string_views(queue@);
        let ghost old_dom = visited@.dom();
        proof {
            reveal(queue_ok);
            assert(old_queue[head as int] == current@);
            assert(reachable(g, from, old_queue[head as int]));
        }
        visit_neighbours(graph, &current, &mut visited, &mut queue, Ghost(from));
        proof {
            let q = string_views(queue@);
            let new_done = done.push(current@);
            assert(q.take(head as int + 1) =~= new_done) by {
                assert forall|i: int| 0 <= i < head + 1 implies q.take(head as int + 1)[i] == new_done[i] by {
                    assert(q[i] == old_queue[i]);
                }
            }
            assert forall|u: Seq<char>, h: Hop|
                new_done.contains(u) && #[trigger] undirected_hops(g, u).contains(h)
                    implies visited@.contains_key(hop_target(h)) by {
                let w = choose|w: int| 0 <= w < new_done.len() && new_done[w] == u;
                if w < done.len() {
                    assert(done.contains(u));
                    assert(old_dom.contains(hop_target(h)));
                }
            }
            done = new_done;
        }
        head = head + 1;
    }
    proof {
        reveal(queue_ok);
        let q = string_views(queue@);
        assert(done =~= q);
        let inside = q.to_set();
        assert forall|u: Seq<char>, h: Hop|
            inside.contains(u) && #[trigger] undirected_hops(g, u).contains(h) implies inside.contains(
            hop_target(h),
        ) by {
            assert(done.contains(u));
        }
        assert forall|v: Seq<char>| #[trigger] q.contains(v) <==> reachable(g, from, v) by {
            if q.contains(v) {
                let w = choose|w: int| 0 <= w < q.len() && q[w] == v;
                assert(reachable(g, from, q[w]));
            }
            if reachable(g, from, v) {
                let hs = choose|hs: Seq<Hop>| is_undirected_walk(g, from, hs) && hops_end(from, hs) == v;
                lemma_closed_walk(g, from, hs, inside);
            }
        }
    }
    queue
}

} // verus!
