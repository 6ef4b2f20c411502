//! In-memory adjacency-graph construction and mutation.
//!
//! [`AdjacencyGraph`] keeps, for every node ID, the list of its outgoing and
//! of its incoming edges, together with the list of node IDs.  Its methods
//! add and remove nodes and edges, answer successor / predecessor /
//! neighbour queries, and build a graph from external rows.
use vstd::prelude::*;

use crate::graph::types::{
    edge_ref_views, edge_slots, edge_total, edge_views, edges_keyed_by, endpoint, graph_without_node, list_or_empty,
    lists_without_source, lists_without_target, opt_str_view, passes_filter, sources,
    string_views, targets, with_key, without_relation, without_source, without_target, EdgeInfo,
    EdgeView, GraphView,
};
use crate::text::str_eq;

verus! {

broadcast use vstd::seq_lib::group_seq_properties;

// ----------------------------------------------------------------------
// Keyed edge lists
// ----------------------------------------------------------------------

/// The edges filed under one node ID.
struct AdjacencyList {
    node_id: String,
    edges: Vec<EdgeInfo>,
}

/// A map from node ID to edge list, kept as a list of entries whose keys
/// are pairwise distinct.  Counting the edges and removing a node walk
/// every list and edit lists in place; a list of entries gives both a
/// specified order of visit and in-place edits, which the string-keyed
/// hash map of `vstd` does not offer.
struct EdgeIndex {
    entries: Vec<AdjacencyList>,
}

/// Which endpoint or identifier of an edge a removal looks at.
#[derive(Clone, Copy)]
enum EdgeField {
    Source,
    Target,
    Relation,
}

/// The edges whose `field` differs from `value`.
spec fn edges_without(edges: Seq<EdgeView>, field: EdgeField, value: Seq<char>) -> Seq<EdgeView> {
    match field {
        EdgeField::Source => without_source(edges, value),
        EdgeField::Target => without_target(edges, value),
        EdgeField::Relation => without_relation(edges, value),
    }
}

spec fn keys_distinct(entries: Seq<AdjacencyList>) -> bool {
    forall|i: int, j: int|
        #![trigger entries[i], entries[j]]
        0 <= i < entries.len() && 0 <= j < entries.len() && i != j ==> entries[i].node_id@
            != entries[j].node_id@
}

spec fn has_key(entries: Seq<AdjacencyList>, k: Seq<char>) -> bool {
    exists|i: int| 0 <= i < entries.len() && #[trigger] entries[i].node_id@ == k
}

spec fn key_index(entries: Seq<AdjacencyList>, k: Seq<char>) -> int {
    choose|i: int| 0 <= i < entries.len() && #[trigger] entries[i].node_id@ == k
}

spec fn index_map(entries: Seq<AdjacencyList>) -> Map<Seq<char>, Seq<EdgeView>> {
    Map::new(
        |k: Seq<char>| has_key(entries, k),
        |k: Seq<char>| edge_views(entries[key_index(entries, k)].edges@),
    )
}

proof fn lemma_index_map_at(entries: Seq<AdjacencyList>, i: int)
    requires
        keys_distinct(entries),
        0 <= i < entries.len(),
    ensures
        index_map(entries).contains_key(entries[i].node_id@),
        index_map(entries)[entries[i].node_id@] == edge_views(entries[i].edges@),
{
    let k = entries[i].node_id@;
    assert(has_key(entries, k));
    let j = key_index(entries, k);
    assert(entries[j].node_id@ == k);
}

proof fn lemma_index_map_push(entries: Seq<AdjacencyList>, e: AdjacencyList)
    requires
        keys_distinct(entries),
        !index_map(entries).contains_key(e.node_id@),
    ensures
        keys_distinct(entries.push(e)),
        index_map(entries.push(e)) == index_map(entries).insert(
            e.node_id@,
            edge_views(e.edges@),
        ),
{
    let s = entries.push(e);
    let n = entries.len() as int;
    assert forall|i: int, j: int|
        #![trigger s[i], s[j]]
        0 <= i < s.len() && 0 <= j < s.len() && i != j implies s[i].node_id@ != s[j].node_id@ by {
        if i == n {
            assert(entries[j] == s[j]);
            if s[j].node_id@ == e.node_id@ {
                assert(has_key(entries, e.node_id@));
            }
        } else if j == n {
            assert(entries[i] == s[i]);
            if s[i].node_id@ == e.node_id@ {
                assert(has_key(entries, e.node_id@));
            }
        } else {
            assert(entries[i] == s[i] && entries[j] == s[j]);
        }
    }
    let m1 = index_map(s);
    let m2 = index_map(entries).insert(e.node_id@, edge_views(e.edges@));
    assert forall|k: Seq<char>| #[trigger] m1.contains_key(k) <==> m2.contains_key(k) by {
        if m1.contains_key(k) {
            let i = key_index(s, k);
            if i < n {
                assert(entries[i] == s[i]);
                assert(has_key(entries, k));
            }
        }
        if index_map(entries).contains_key(k) {
            let i = key_index(entries, k);
            assert(s[i] == entries[i]);
            assert(has_key(s, k));
        }
        if k == e.node_id@ {
            assert(s[n] == e);
            assert(has_key(s, k));
        }
    }
    assert forall|k: Seq<char>| #[trigger] m1.contains_key(k) implies m1[k] == m2[k] by {
        let i = key_index(s, k);
        lemma_index_map_at(s, i);
        if i < n {
            assert(entries[i] == s[i]);
            lemma_index_map_at(entries, i);
        } else {
            assert(s[i] == e);
        }
    }
    assert(m1 =~= m2);
}

proof fn lemma_index_map_update(entries: Seq<AdjacencyList>, i: int, e: AdjacencyList)
    requires
        keys_distinct(entries),
        0 <= i < entries.len(),
        e.node_id@ == entries[i].node_id@,
    ensures
        keys_distinct(entries.update(i, e)),
        index_map(entries.update(i, e)) == index_map(entries).insert(
            e.node_id@,
            edge_views(e.edges@),
        ),
{
    let s = entries.update(i, e);
    assert forall|a: int, b: int|
        #![trigger s[a], s[b]]
        0 <= a < s.len() && 0 <= b < s.len() && a != b implies s[a].node_id@ != s[b].node_id@ by {
        assert(s[a].node_id@ == entries[a].node_id@);
        assert(s[b].node_id@ == entries[b].node_id@);
    }
    let m1 = index_map(s);
    let m2 = index_map(entries).insert(e.node_id@, edge_views(e.edges@));
    lemma_index_map_at(entries, i);
    assert forall|k: Seq<char>| #[trigger] m1.contains_key(k) <==> m2.contains_key(k) by {
        if m1.contains_key(k) {
            let j = key_index(s, k);
            assert(s[j].node_id@ == entries[j].node_id@);
            assert(has_key(entries, k));
        }
        if index_map(entries).contains_key(k) {
            let j = key_index(entries, k);
            assert(s[j].node_id@ == entries[j].node_id@);
            assert(has_key(s, k));
        }
    }
    assert forall|k: Seq<char>| #[trigger] m1.contains_key(k) implies m1[k] == m2[k] by {
        let j = key_index(s, k);
        lemma_index_map_at(s, j);
        if j != i {
            assert(s[j] == entries[j]);
            lemma_index_map_at(entries, j);
        }
    }
    assert(m1 =~= m2);
}

proof fn lemma_index_map_remove(entries: Seq<AdjacencyList>, i: int)
    requires
        keys_distinct(entries),
        0 <= i < entries.len(),
    ensures
        keys_distinct(entries.remove(i)),
        index_map(entries.remove(i)) == index_map(entries).remove(entries[i].node_id@),
{
    let s = entries.remove(i);
    let key = entries[i].node_id@;
    assert forall|a: int, b: int|
        #![trigger s[a], s[b]]
        0 <= a < s.len() && 0 <= b < s.len() && a != b implies s[a].node_id@ != s[b].node_id@ by {
        let a2 = if a < i { a } else { a + 1 };
        let b2 = if b < i { b } else { b + 1 };
        assert(s[a] == entries[a2]);
        assert(s[b] == entries[b2]);
    }
    let m1 = index_map(s);
    let m2 = index_map(entries).remove(key);
    assert forall|k: Seq<char>| #[trigger] m1.contains_key(k) <==> m2.contains_key(k) by {
        if m1.contains_key(k) {
            let j = key_index(s, k);
            let j2 = if j < i { j } else { j + 1 };
            assert(s[j] == entries[j2]);
            assert(has_key(entries, k));
        }
        if m2.contains_key(k) {
            let j = key_index(entries, k);
            assert(j != i);
            let j2 = if j < i { j } else { j - 1 };
            assert(s[j2] == entries[j]);
            assert(has_key(s, k));
        }
    }
    assert forall|k: Seq<char>| #[trigger] m1.contains_key(k) implies m1[k] == m2[k] by {
        let j = key_index(s, k);
        lemma_index_map_at(s, j);
        let j2 = if j < i { j } else { j + 1 };
        assert(s[j] == entries[j2]);
        lemma_index_map_at(entries, j2);
    }
    assert(m1 =~= m2);
}

proof fn lemma_edge_views_push(edges: Seq<EdgeInfo>, e: EdgeInfo)
    ensures
        edge_views(edges.push(e)) == edge_views(edges).push(e@),
{
    assert(edge_views(edges.push(e)) =~= edge_views(edges).push(e@));
}

proof fn lemma_edge_views_take(edges: Seq<EdgeInfo>, i: int)
    requires
        0 <= i < edges.len(),
    ensures
        edge_views(edges.take(i + 1)) == edge_views(edges.take(i)).push(edges[i]@),
{
    assert(edges.take(i + 1) =~= edges.take(i).push(edges[i]));
    lemma_edge_views_push(edges.take(i), edges[i]);
}

/// Copies out the edges whose `field` is not `value`, keeping their order.
fn copy_edges_without(edges: &Vec<EdgeInfo>, field: EdgeField, value: &str) -> (res: Vec<
    EdgeInfo,
>)
    ensures
        edge_views(res@) == edges_without(edge_views(edges@), field, value@),
{
    let mut res: Vec<EdgeInfo> = Vec::new();
    let mut i: usize = 0;
    while i < edges.len()
        invariant
            i <= edges.len(),
            edge_views(res@) == edges_without(edge_views(edges@.take(i as int)), field, value@),
        decreases edges.len() - i,
    {
        let e = &edges[i];
        let keep = match field {
            EdgeField::Source => !str_eq(e.source_id.as_str(), value),
            EdgeField::Target => !str_eq(e.target_id.as_str(), value),
            EdgeField::Relation => !str_eq(e.relation_id.as_str(), value),
        };
        proof {
            lemma_edge_views_take(edges@, i as int);
            let prefix = edge_views(edges@.take(i as int));
            match field {
                EdgeField::Source => prefix.lemma_filter_push(
                    e@,
                    |x: EdgeView| x.source_id != value@,
                ),
                EdgeField::Target => prefix.lemma_filter_push(
                    e@,
                    |x: EdgeView| x.target_id != value@,
                ),
                EdgeField::Relation => prefix.lemma_filter_push(
                    e@,
                    |x: EdgeView| x.relation_id != value@,
                ),
            }
        }
        if keep {
            let c = e.clone();
            let ghost prev = res@;
            res.push(c);
            proof {
                lemma_edge_views_push(prev, c);
            }
        }
        i = i + 1;
    }
    assert(edges@.take(edges@.len() as int) =~= edges@);
    res
}

impl EdgeIndex {
    spec fn wf(&self) -> bool {
        keys_distinct(self.entries@)
    }

    spec fn map(&self) -> Map<Seq<char>, Seq<EdgeView>> {
        index_map(self.entries@)
    }

    fn new() -> (res: Self)
        ensures
            res.wf(),
            res.map() == Map::<Seq<char>, Seq<EdgeView>>::empty(),
    {
        let res = EdgeIndex { entries: Vec::new() };
        assert(res.map() =~= Map::<Seq<char>, Seq<EdgeView>>::empty());
        res
    }

    /// Position of the entry filed under `key`.
    fn find(&self, key: &str) -> (res: Option<usize>)
        requires
            self.wf(),
        ensures
            match res {
                Some(i) => i < self.entries@.len() && self.entries@[i as int].node_id@ == key@,
                None => !self.map().contains_key(key@),
            },
    {
        let mut i: usize = 0;
        while i < self.entries.len()
            invariant
                i <= self.entries@.len(),
                forall|j: int| 0 <= j < i ==> #[trigger] self.entries@[j].node_id@ != key@,
            decreases self.entries.len() - i,
        {
            if str_eq(self.entries[i].node_id.as_str(), key) {
                return Some(i);
            }
            i = i + 1;
        }
        None
    }

    fn get(&self, key: &str) -> (res: Option<&Vec<EdgeInfo>>)
        requires
            self.wf(),
        ensures
            match res {
                Some(v) => self.map().contains_key(key@) && edge_views(v@) == self.map()[key@],
                None => !self.map().contains_key(key@),
            },
    {
        match self.find(key) {
            Some(i) => {
                proof {
                    lemma_index_map_at(self.entries@, i as int);
                }
                Some(&self.entries[i].edges)
            },
            None => None,
        }
    }

    /// Files an empty edge list under `key` unless one is there already.
    fn ensure_key(&mut self, key: &String)
        requires
            old(self).wf(),
        ensures
            final(self).wf(),
            final(self).map() == (if old(self).map().contains_key(key@) {
                old(self).map()
            } else {
                old(self).map().insert(key@, Seq::empty())
            }),
    {
        match self.find(key.as_str()) {
            Some(i) => {
                proof {
                    lemma_index_map_at(self.entries@, i as int);
                }
            },
            None => {
                let entry = AdjacencyList { node_id: key.clone(), edges: Vec::new() };
                proof {
                    lemma_index_map_push(self.entries@, entry);
                    assert(edge_views(entry.edges@) =~= Seq::<EdgeView>::empty());
                }
                self.entries.push(entry);
            },
        }
    }

    /// Appends `edge` to the list filed under `key`, creating the list if needed.
    fn push_edge(&mut self, key: &String, edge: EdgeInfo)
        requires
            old(self).wf(),
        ensures
            final(self).wf(),
            final(self).map() == old(self).map().insert(
                key@,
                list_or_empty(old(self).map(), key@).push(edge@),
            ),
    {
        match self.find(key.as_str()) {
            Some(i) => {
                proof {
                    lemma_index_map_at(self.entries@, i as int);
                }
                let ghost before = self.entries@;
                let mut list = Vec::new();
                std::mem::swap(&mut list, &mut self.entries[i].edges);
                proof {
                    lemma_edge_views_push(list@, edge);
                }
                list.push(edge);
                let entry = AdjacencyList { node_id: key.clone(), edges: list };
                proof {
                    lemma_index_map_update(before, i as int, entry);
                }
                self.entries.set(i, entry);
                assert(self.entries@ =~= before.update(i as int, entry));
            },
            None => {
                let mut list = Vec::new();
                list.push(edge);
                let entry = AdjacencyList { node_id: key.clone(), edges: list };
                proof {
                    lemma_index_map_push(self.entries@, entry);
                    assert(edge_views(entry.edges@) =~= Seq::<EdgeView>::empty().push(edge@));
                }
                self.entries.push(entry);
            },
        }
    }

    /// Takes out the list filed under `key`.
    fn remove_key(&mut self, key: &str) -> (res: Option<Vec<EdgeInfo>>)
        requires
            old(self).wf(),
        ensures
            final(self).wf(),
            final(self).map() == old(self).map().remove(key@),
            match res {
                Some(v) => old(self).map().contains_key(key@) && edge_views(v@) == old(
                    self,
                ).map()[key@],
                None => !old(self).map().contains_key(key@),
            },
    {
        match self.find(key) {
            Some(i) => {
                proof {
                    lemma_index_map_at(self.entries@, i as int);
                    lemma_index_map_remove(self.entries@, i as int);
                }
                let entry = self.entries.remove(i);
                Some(entry.edges)
            },
            None => {
                assert(self.map() =~= old(self).map().remove(key@));
                None
            },
        }
    }

    /// Drops, from the list filed under `key`, the edges whose `field` is `value`.
    fn retain_without(&mut self, key: &str, field: EdgeField, value: &str)
        requires
            old(self).wf(),
        ensures
            final(self).wf(),
            final(self).map() == (if old(self).map().contains_key(key@) {
                old(self).map().insert(
                    key@,
                    edges_without(old(self).map()[key@], field, value@),
                )
            } else {
                old(self).map()
            }),
    {
        match self.find(key) {
            Some(i) => {
                proof {
                    lemma_index_map_at(self.entries@, i as int);
                }
                let kept = copy_edges_without(&self.entries[i].edges, field, value);
                let node_id = self.entries[i].node_id.clone();
                let entry = AdjacencyList { node_id, edges: kept };
                proof {
                    lemma_index_map_update(self.entries@, i as int, entry);
                }
                self.entries.set(i, entry);
            },
            None => {},
        }
    }
}

// ----------------------------------------------------------------------
// Sequence lemmas
// ----------------------------------------------------------------------

proof fn lemma_filter_idempotent(s: Seq<EdgeView>, p: spec_fn(EdgeView) -> bool)
    ensures
        s.filter(p).filter(p) == s.filter(p),
    decreases s.len(),
{
    reveal(Seq::filter);
    if s.len() > 0 {
        lemma_filter_idempotent(s.drop_last(), p);
        let f = s.drop_last().filter(p);
        if p(s.last()) {
            f.lemma_filter_push(s.last(), p);
        }
    }
}

proof fn lemma_string_views_push(s: Seq<String>, x: String)
    ensures
        string_views(s.push(x)) == string_views(s).push(x@),
{
    assert(string_views(s.push(x)) =~= string_views(s).push(x@));
}

proof fn lemma_string_views_take(s: Seq<String>, i: int)
    requires
        0 <= i < s.len(),
    ensures
        string_views(s.take(i + 1)) == string_views(s.take(i)).push(s[i]@),
{
    assert(s.take(i + 1) =~= s.take(i).push(s[i]));
    lemma_string_views_push(s.take(i), s[i]);
}

proof fn lemma_lists_without_source_step(
    m: Map<Seq<char>, Seq<EdgeView>>,
    touched: Seq<Seq<char>>,
    k: Seq<char>,
    id: Seq<char>,
)
    ensures
        lists_without_source(m, touched.push(k), id) == (if lists_without_source(
            m,
            touched,
            id,
        ).contains_key(k) {
            lists_without_source(m, touched, id).insert(
                k,
                without_source(lists_without_source(m, touched, id)[k], id),
            )
        } else {
            lists_without_source(m, touched, id)
        }),
{
    let p = |e: EdgeView| e.source_id != id;
    if m.contains_key(k) && touched.contains(k) {
        lemma_filter_idempotent(m[k], p);
    }
    assert forall|x: Seq<char>| #[trigger] touched.push(k).contains(x) <==> (touched.contains(x)
        || x == k) by {
        if touched.push(k).contains(x) {
            let j = choose|j: int| 0 <= j < touched.push(k).len() && touched.push(k)[j] == x;
            if j < touched.len() {
                assert(touched[j] == x);
            }
        }
        if touched.contains(x) {
            let j = choose|j: int| 0 <= j < touched.len() && touched[j] == x;
            assert(touched.push(k)[j] == x);
        }
        if x == k {
            assert(touched.push(k)[touched.len() as int] == x);
        }
    }
    assert(lists_without_source(m, touched.push(k), id) =~= (if lists_without_source(
        m,
        touched,
        id,
    ).contains_key(k) {
        lists_without_source(m, touched, id).insert(
            k,
            without_source(lists_without_source(m, touched, id)[k], id),
        )
    } else {
        lists_without_source(m, touched, id)
    }));
}

proof fn lemma_lists_without_target_step(
    m: Map<Seq<char>, Seq<EdgeView>>,
    touched: Seq<Seq<char>>,
    k: Seq<char>,
    id: Seq<char>,
)
    ensures
        lists_without_target(m, touched.push(k), id) == (if lists_without_target(
            m,
            touched,
            id,
        ).contains_key(k) {
            lists_without_target(m, touched, id).insert(
                k,
                without_target(lists_without_target(m, touched, id)[k], id),
            )
        } else {
            lists_without_target(m, touched, id)
        }),
{
    let p = |e: EdgeView| e.target_id != id;
    if m.contains_key(k) && touched.contains(k) {
        lemma_filter_idempotent(m[k], p);
    }
    assert forall|x: Seq<char>| #[trigger] touched.push(k).contains(x) <==> (touched.contains(x)
        || x == k) by {
        if touched.push(k).contains(x) {
            let j = choose|j: int| 0 <= j < touched.push(k).len() && touched.push(k)[j] == x;
            if j < touched.len() {
                assert(touched[j] == x);
            }
        }
        if touched.contains(x) {
            let j = choose|j: int| 0 <= j < touched.len() && touched[j] == x;
            assert(touched.push(k)[j] == x);
        }
        if x == k {
            assert(touched.push(k)[touched.len() as int] == x);
        }
    }
    assert(lists_without_target(m, touched.push(k), id) =~= (if lists_without_target(
        m,
        touched,
        id,
    ).contains_key(k) {
        lists_without_target(m, touched, id).insert(
            k,
            without_target(lists_without_target(m, touched, id)[k], id),
        )
    } else {
        lists_without_target(m, touched, id)
    }));
}

// ----------------------------------------------------------------------
// The graph
// ----------------------------------------------------------------------

/// Adjacency-list representation of a directed graph.
pub struct AdjacencyGraph {
    /// node ID -> list of outgoing edges
    outgoing: EdgeIndex,
    /// node ID -> list of incoming edges
    incoming: EdgeIndex,
    /// All node IDs present in the graph
    node_ids: Vec<String>,
}

impl View for AdjacencyGraph {
    type V = GraphView;

    closed spec fn view(&self) -> GraphView {
        GraphView {
            outgoing: self.outgoing.map(),
            incoming: self.incoming.map(),
            node_ids: string_views(self.node_ids@),
        }
    }
}

/// Whether `ids` holds a string equal to `id`.
fn contains_id(ids: &Vec<String>, id: &str) -> (res: bool)
    ensures
        res == string_views(ids@).contains(id@),
{
    let mut i: usize = 0;
    while i < ids.len()
        invariant
            i <= ids@.len(),
            forall|j: int| 0 <= j < i ==> #[trigger] ids@[j]@ != id@,
        decreases ids.len() - i,
    {
        if str_eq(ids[i].as_str(), id) {
            assert(string_views(ids@)[i as int] == id@);
            return true;
        }
        i = i + 1;
    }
    assert forall|j: int| 0 <= j < string_views(ids@).len() implies string_views(ids@)[j] != id@ by {
        assert(string_views(ids@)[j] == ids@[j]@);
    }
    false
}

impl AdjacencyGraph {
    /// The internal lists are consistent: each node ID is filed at most once.
    pub closed spec fn wf(&self) -> bool {
        self.outgoing.wf() && self.incoming.wf()
    }

    // ------------------------------------------------------------------
    // Construction
    // ------------------------------------------------------------------

    /// Create an empty graph.
    pub fn new() -> (g: Self)
        ensures
            g.wf(),
            g@.outgoing == Map::<Seq<char>, Seq<EdgeView>>::empty(),
            g@.incoming == Map::<Seq<char>, Seq<EdgeView>>::empty(),
            g@.node_ids == Seq::<Seq<char>>::empty(),
    {
        let g = AdjacencyGraph {
            outgoing: EdgeIndex::new(),
            incoming: EdgeIndex::new(),
            node_ids: Vec::new(),
        };
        assert(g@.node_ids =~= Seq::<Seq<char>>::empty());
        g
    }

    /// Build a graph from a list of node IDs and a list of edges: every
    /// node ID is listed once (in order of first occurrence, since an ID
    /// names one node) and gets an edge list, and every edge is appended to
    /// the outgoing list of its source and to the incoming list of its
    /// target.
    pub fn from_data(node_ids: Vec<String>, edges: Vec<EdgeInfo>) -> (g: Self)
        ensures
            g.wf(),
            g@.node_ids == string_views(node_ids@).remove_duplicates(Seq::empty()),
            g@.outgoing == edges_keyed_by(string_views(node_ids@), edge_views(edges@), true),
            g@.incoming == edges_keyed_by(string_views(node_ids@), edge_views(edges@), false),
    {
        let mut graph = Self::new();
        let ghost ids = string_views(node_ids@);
        let ghost evs = edge_views(edges@);
        let ghost no_edges = Seq::<EdgeView>::empty();

        let mut i: usize = 0;
        while i < node_ids.len()
            invariant
                i <= node_ids@.len(),
                ids == string_views(node_ids@),
                no_edges == Seq::<EdgeView>::empty(),
                graph.wf(),
                graph@.node_ids == ids.take(i as int).remove_duplicates(Seq::empty()),
                graph@.outgoing == edges_keyed_by(string_views(node_ids@.take(i as int)), no_edges, true),
                graph@.incoming == edges_keyed_by(string_views(node_ids@.take(i as int)), no_edges, false),
            decreases node_ids.len() - i,
        {
            let node_id = &node_ids[i];
            let ghost before = graph@;
            let ghost pre_ids = string_views(node_ids@.take(i as int));
            let ghost post_ids = string_views(node_ids@.take(i as int + 1));
            proof {
                lemma_string_views_take(node_ids@, i as int);
            }
            proof {
                assert(ids[i as int] == node_id@);
                push_unique_step(ids, i as int);
            }
            if !contains_id(&graph.node_ids, node_id.as_str()) {
                let ghost prev = graph.node_ids@;
                let c = node_id.clone();
                let ghost pushed = c;
                graph.node_ids.push(c);
                proof {
                    lemma_string_views_push(prev, pushed);
                }
            }
            graph.outgoing.ensure_key(node_id);
            graph.incoming.ensure_key(node_id);
            proof {
                lemma_keyed_no_edges(pre_ids, node_id@, post_ids, true);
                lemma_keyed_no_edges(pre_ids, node_id@, post_ids, false);
            }
            i = i + 1;
        }
        assert(node_ids@.take(node_ids@.len() as int) =~= node_ids@);
        assert(ids.take(ids.len() as int) =~= ids);
        assert(evs.take(0) =~= no_edges);

        let mut j: usize = 0;
        while j < edges.len()
            invariant
                j <= edges@.len(),
                evs == edge_views(edges@),
                graph.wf(),
                graph@.node_ids == ids.remove_duplicates(Seq::empty()),
                graph@.outgoing == edges_keyed_by(ids, evs.take(j as int), true),
                graph@.incoming == edges_keyed_by(ids, evs.take(j as int), false),
            decreases edges.len() - j,
        {
            let edge = &edges[j];
            proof {
                lemma_edge_views_take(edges@, j as int);
                assert(edge_views(edges@.take(j as int)) =~= evs.take(j as int));
                assert(edge_views(edges@.take(j as int + 1)) =~= evs.take(j as int + 1));
                lemma_keyed_step(ids, evs.take(j as int), edge@, true);
                lemma_keyed_step(ids, evs.take(j as int), edge@, false);
            }
            graph.outgoing.push_edge(&edge.source_id, edge.clone());
            graph.incoming.push_edge(&edge.target_id, edge.clone());
            j = j + 1;
        }
        assert(evs.take(evs.len() as int) =~= evs);
        graph
    }

    // ------------------------------------------------------------------
    // Node mutation
    // ------------------------------------------------------------------

    /// Add a node. No-op if the node already exists.
    pub fn add_node(&mut self, node_id: String)
        requires
            old(self).wf(),
        ensures
            final(self).wf(),
            old(self)@.node_ids.contains(node_id@) ==> final(self)@ == old(self)@,
            !old(self)@.node_ids.contains(node_id@) ==> final(self)@ == (GraphView {
                outgoing: with_key(old(self)@.outgoing, node_id@),
                incoming: with_key(old(self)@.incoming, node_id@),
                node_ids: old(self)@.node_ids.push(node_id@),
            }),
    {
        if !contains_id(&self.node_ids, node_id.as_str()) {
            let ghost before = self.node_ids@;
            self.node_ids.push(node_id.clone());
            proof {
                lemma_string_views_push(before, node_id);
            }
            self.outgoing.ensure_key(&node_id);
            self.incoming.ensure_key(&node_id);
        }
    }

    /// Remove a node and all edges incident to it.
    pub fn remove_node(&mut self, node_id: &str)
        requires
            old(self).wf(),
        ensures
            final(self).wf(),
            final(self)@ == graph_without_node(old(self)@, node_id@),
    {
        let ghost g0 = self@;
        self.node_ids = retain_other_ids(&self.node_ids, node_id);

        // Remove outgoing edges and clean up target node's incoming list.
        let removed_out = self.outgoing.remove_key(node_id);
        let ghost out_list = list_or_empty(g0.outgoing, node_id@);
        proof {
            assert(lists_without_source(g0.incoming, targets(out_list).take(0), node_id@)
                =~= g0.incoming);
        }
        match removed_out {
            Some(out_edges) => {
                let mut k: usize = 0;
                while k < out_edges.len()
                    invariant
                        k <= out_edges@.len(),
                        edge_views(out_edges@) == out_list,
                        self.incoming.wf(),
                        self.outgoing.wf(),
                        self.outgoing.map() == g0.outgoing.remove(node_id@),
                        string_views(self.node_ids@) == g0.node_ids.filter(
                            |x: Seq<char>| x != node_id@,
                        ),
                        self.incoming.map() == lists_without_source(
                            g0.incoming,
                            targets(out_list).take(k as int),
                            node_id@,
                        ),
                    decreases out_edges.len() - k,
                {
                    let target = &out_edges[k].target_id;
                    proof {
                        assert(targets(out_list).take(k as int + 1) =~= targets(out_list).take(
                            k as int,
                        ).push(target@));
                        lemma_lists_without_source_step(
                            g0.incoming,
                            targets(out_list).take(k as int),
                            target@,
                            node_id@,
                        );
                    }
                    self.incoming.retain_without(target.as_str(), EdgeField::Source, node_id);
                    k = k + 1;
                }
                assert(targets(out_list).take(out_edges@.len() as int) =~= targets(out_list));
            },
            None => {
                assert(targets(out_list) =~= targets(out_list).take(0));
            },
        }
        let ghost in1 = self.incoming.map();

        // Remove incoming edges and clean up source node's outgoing list.
        let removed_in = self.incoming.remove_key(node_id);
        let ghost in_list = list_or_empty(in1, node_id@);
        let ghost out1 = g0.outgoing.remove(node_id@);
        proof {
            assert(lists_without_target(out1, sources(in_list).take(0), node_id@) =~= out1);
        }
        match removed_in {
            Some(in_edges) => {
                let mut k: usize = 0;
                while k < in_edges.len()
                    invariant
                        k <= in_edges@.len(),
                        edge_views(in_edges@) == in_list,
                        self.outgoing.wf(),
                        self.incoming.wf(),
                        self.incoming.map() == in1.remove(node_id@),
                        string_views(self.node_ids@) == g0.node_ids.filter(
                            |x: Seq<char>| x != node_id@,
                        ),
                        self.outgoing.map() == lists_without_target(
                            out1,
                            sources(in_list).take(k as int),
                            node_id@,
                        ),
                    decreases in_edges.len() - k,
                {
                    let source = &in_edges[k].source_id;
                    proof {
                        assert(sources(in_list).take(k as int + 1) =~= sources(in_list).take(
                            k as int,
                        ).push(source@));
                        lemma_lists_without_target_step(
                            out1,
                            sources(in_list).take(k as int),
                            source@,
                            node_id@,
                        );
                    }
                    self.outgoing.retain_without(source.as_str(), EdgeField::Target, node_id);
                    k = k + 1;
                }
                assert(sources(in_list).take(in_edges@.len() as int) =~= sources(in_list));
            },
            None => {
                assert(sources(in_list) =~= sources(in_list).take(0));
            },
        }
    }

    // ------------------------------------------------------------------
    // Edge mutation
    // ------------------------------------------------------------------

    /// Add an edge: it is appended to the outgoing list of its source and to
    /// the incoming list of its target (lists are created as needed).
    pub fn add_edge(&mut self, edge: EdgeInfo)
        requires
            old(self).wf(),
        ensures
            final(self).wf(),
            final(self)@.node_ids == old(self)@.node_ids,
            final(self)@.outgoing == old(self)@.outgoing.insert(
                edge@.source_id,
                list_or_empty(old(self)@.outgoing, edge@.source_id).push(edge@),
            ),
            final(self)@.incoming == old(self)@.incoming.insert(
                edge@.target_id,
                list_or_empty(old(self)@.incoming, edge@.target_id).push(edge@),
            ),
    {
        let source = edge.source_id.clone();
        let target = edge.target_id.clone();
        self.outgoing.push_edge(&source, edge.clone());
        self.incoming.push_edge(&target, edge);
    }

    /// Remove the edge identified by `(relation_id, source_id, target_id)`:
    /// every edge with that relation ID leaves the outgoing list of
    /// `source_id` and the incoming list of `target_id`.
    pub fn remove_edge(&mut self, relation_id: &str, source_id: &str, target_id: &str)
        requires
            old(self).wf(),
        ensures
            final(self).wf(),
            final(self)@.node_ids == old(self)@.node_ids,
            final(self)@.outgoing == (if old(self)@.outgoing.contains_key(source_id@) {
                old(self)@.outgoing.insert(
                    source_id@,
                    without_relation(old(self)@.outgoing[source_id@], relation_id@),
                )
            } else {
                old(self)@.outgoing
            }),
            final(self)@.incoming == (if old(self)@.incoming.contains_key(target_id@) {
                old(self)@.incoming.insert(
                    target_id@,
                    without_relation(old(self)@.incoming[target_id@], relation_id@),
                )
            } else {
                old(self)@.incoming
            }),
    {
        self.outgoing.retain_without(source_id, EdgeField::Relation, relation_id);
        self.incoming.retain_without(target_id, EdgeField::Relation, relation_id);
    }

    // ------------------------------------------------------------------
    // Query helpers
    // ------------------------------------------------------------------

    /// Direct successors reachable from `node_id`: its outgoing edges, in
    /// order, optionally only those of type `relation_type`.
    pub fn successors(&self, node_id: &str, relation_type: Option<&str>) -> (res: Vec<&EdgeInfo>)
        requires
            self.wf(),
        ensures
            edge_ref_views(res@) == list_or_empty(self@.outgoing, node_id@).filter(
                |e: EdgeView| passes_filter(opt_str_view(relation_type), e),
            ),
    {
        match self.outgoing.get(node_id) {
            Some(edges) => select_by_type(edges, relation_type),
            None => {
                let res: Vec<&EdgeInfo> = Vec::new();
                proof {
                    reveal(Seq::filter);
                    assert(edge_ref_views(res@) =~= Seq::<EdgeView>::empty());
                }
                res
            },
        }
    }

    /// Direct predecessors that point to `node_id`: its incoming edges, in
    /// order, optionally only those of type `relation_type`.
    pub fn predecessors(&self, node_id: &str, relation_type: Option<&str>) -> (res: Vec<&EdgeInfo>)
        requires
            self.wf(),
        ensures
            edge_ref_views(res@) == list_or_empty(self@.incoming, node_id@).filter(
                |e: EdgeView| passes_filter(opt_str_view(relation_type), e),
            ),
    {
        match self.incoming.get(node_id) {
            Some(edges) => select_by_type(edges, relation_type),
            None => {
                let res: Vec<&EdgeInfo> = Vec::new();
                proof {
                    reveal(Seq::filter);
                    assert(edge_ref_views(res@) =~= Seq::<EdgeView>::empty());
                }
                res
            },
        }
    }

    /// All neighbouring node IDs (successors + predecessors), deduplicated:
    /// the targets of the outgoing edges, then the sources of the incoming
    /// edges, each kept at its first occurrence.
    pub fn neighbors(&self, node_id: &str) -> (res: Vec<String>)
        requires
            self.wf(),
        ensures
            string_views(res@) == (targets(list_or_empty(self@.outgoing, node_id@)) + sources(
                list_or_empty(self@.incoming, node_id@),
            )).remove_duplicates(Seq::empty()),
    {
        let mut neighbor_ids: Vec<String> = Vec::new();
        let ghost outs = targets(list_or_empty(self@.outgoing, node_id@));
        let ghost ins = sources(list_or_empty(self@.incoming, node_id@));
        let ghost all = outs + ins;
        proof {
            assert(all.take(0).remove_duplicates(Seq::empty()) =~= Seq::<Seq<char>>::empty());
            assert(string_views(neighbor_ids@) =~= Seq::<Seq<char>>::empty());
        }
        if let Some(out_edges) = self.outgoing.get(node_id) {
            let mut i: usize = 0;
            while i < out_edges.len()
                invariant
                    i <= out_edges@.len(),
                    outs == targets(edge_views(out_edges@)),
                    all == outs + ins,
                    string_views(neighbor_ids@) == all.take(i as int).remove_duplicates(Seq::empty()),
                decreases out_edges.len() - i,
            {
                let target = &out_edges[i].target_id;
                proof {
                    assert(all[i as int] == target@);
                    push_unique_step(all, i as int);
                }
                if !contains_id(&neighbor_ids, target.as_str()) {
                    let ghost prev = neighbor_ids@;
                    let c = target.clone();
                    let ghost pushed = c;
                    neighbor_ids.push(c);
                    proof {
                        lemma_string_views_push(prev, pushed);
                    }
                }
                i = i + 1;
            }
            assert(outs.len() == out_edges@.len());
        } else {
            assert(outs =~= Seq::<Seq<char>>::empty());
        }
        if let Some(in_edges) = self.incoming.get(node_id) {
            let mut i: usize = 0;
            while i < in_edges.len()
                invariant
                    i <= in_edges@.len(),
                    ins == sources(edge_views(in_edges@)),
                    all == outs + ins,
                    string_views(neighbor_ids@) == all.take(outs.len() + i).remove_duplicates(
                        Seq::empty(),
                    ),
                decreases in_edges.len() - i,
            {
                let source = &in_edges[i].source_id;
                proof {
                    assert(all[outs.len() + i] == source@);
                    push_unique_step(all, outs.len() + i);
                }
                if !contains_id(&neighbor_ids, source.as_str()) {
                    let ghost prev = neighbor_ids@;
                    let c = source.clone();
                    let ghost pushed = c;
                    neighbor_ids.push(c);
                    proof {
                        lemma_string_views_push(prev, pushed);
                    }
                }
                i = i + 1;
            }
            assert(all.take(all.len() as int) =~= all);
        } else {
            assert(ins =~= Seq::<Seq<char>>::empty());
            assert(all.take(outs.len() as int) =~= all);
        }
        neighbor_ids
    }

    /// Total number of nodes.
    pub fn node_count(&self) -> (n: usize)
        ensures
            n == self@.node_ids.len(),
    {
        self.node_ids.len()
    }

    /// Total number of directed edges: the sum of the lengths of all
    /// outgoing lists.
    pub fn edge_count(&self) -> (n: usize)
        requires
            self.wf(),
            edge_total(self@.outgoing) <= usize::MAX,
        ensures
            n == edge_total(self@.outgoing),
    {
        let entries = &self.outgoing.entries;
        proof {
            lemma_slots_len(entries@);
        }
        let mut total: usize = 0;
        let mut i: usize = 0;
        while i < entries.len()
            invariant
                i <= entries@.len(),
                total == entries_len_sum(entries@.take(i as int)),
                entries_len_sum(entries@) <= usize::MAX,
            decreases entries.len() - i,
        {
            proof {
                lemma_prefix_sum_le(entries@, i as int + 1);
                assert(entries@.take(i as int + 1).drop_last() =~= entries@.take(i as int));
            }
            total = total + entries[i].edges.len();
            i = i + 1;
        }
        assert(entries@.take(i as int) =~= entries@);
        total
    }

    /// The stored edges of a well-formed graph are finitely many.
    pub proof fn lemma_edge_slots_finite(&self)
        requires
            self.wf(),
        ensures
            edge_slots(self@.outgoing).finite(),
            edge_slots(self@.incoming).finite(),
    {
        lemma_slots_len(self.outgoing.entries@);
        lemma_slots_len(self.incoming.entries@);
    }

    /// The node IDs, in insertion order.
    pub fn node_ids(&self) -> (ids: &Vec<String>)
        ensures
            string_views(ids@) == self@.node_ids,
    {
        &self.node_ids
    }
}

// ----------------------------------------------------------------------
// Counting stored edges
// ----------------------------------------------------------------------

spec fn entries_len_sum(entries: Seq<AdjacencyList>) -> nat
    decreases entries.len(),
{
    if entries.len() == 0 {
        0
    } else {
        entries_len_sum(entries.drop_last()) + entries.last().edges@.len()
    }
}

proof fn lemma_prefix_sum_le(entries: Seq<AdjacencyList>, i: int)
    requires
        0 <= i <= entries.len(),
    ensures
        entries_len_sum(entries.take(i)) <= entries_len_sum(entries),
    decreases entries.len() - i,
{
    if i == entries.len() {
        assert(entries.take(i) =~= entries);
    } else {
        lemma_prefix_sum_le(entries, i + 1);
        assert(entries.take(i + 1).drop_last() =~= entries.take(i));
    }
}

spec fn slot_row(k: Seq<char>, n: int) -> Set<(Seq<char>, int)> {
    Set::new(|p: (Seq<char>, int)| p.0 == k && 0 <= p.1 < n)
}

proof fn lemma_slot_row_len(k: Seq<char>, n: nat)
    ensures
        slot_row(k, n as int).finite(),
        slot_row(k, n as int).len() == n,
    decreases n,
{
    if n == 0 {
        assert(slot_row(k, 0) =~= Set::<(Seq<char>, int)>::empty());
    } else {
        lemma_slot_row_len(k, (n - 1) as nat);
        assert(slot_row(k, n as int) =~= slot_row(k, n - 1).insert((k, n - 1)));
    }
}

proof fn lemma_slots_len(entries: Seq<AdjacencyList>)
    requires
        keys_distinct(entries),
    ensures
        edge_slots(index_map(entries)).finite(),
        edge_slots(index_map(entries)).len() == entries_len_sum(entries),
    decreases entries.len(),
{
    if entries.len() == 0 {
        assert(edge_slots(index_map(entries)) =~= Set::<(Seq<char>, int)>::empty());
    } else {
        let pre = entries.drop_last();
        let e = entries.last();
        let k = e.node_id@;
        assert(keys_distinct(pre)) by {
            assert forall|i: int, j: int|
                0 <= i < pre.len() && 0 <= j < pre.len() && i != j implies #[trigger] pre[i].node_id@
                != #[trigger] pre[j].node_id@ by {
                assert(pre[i] == entries[i] && pre[j] == entries[j]);
            }
        }
        assert(!index_map(pre).contains_key(k)) by {
            if has_key(pre, k) {
                let i = choose|i: int| 0 <= i < pre.len() && #[trigger] pre[i].node_id@ == k;
                assert(pre[i] == entries[i]);
                assert(entries[entries.len() - 1] == e);
            }
        }
        lemma_index_map_push(pre, e);
        assert(pre.push(e) =~= entries);
        lemma_slots_len(pre);
        let len = e.edges@.len();
        lemma_slot_row_len(k, len);
        let m0 = index_map(pre);
        assert(edge_views(e.edges@).len() == len);
        assert(edge_slots(index_map(entries)) =~= edge_slots(m0).union(slot_row(k, len as int)));
        assert(edge_slots(m0).disjoint(slot_row(k, len as int)));
        vstd::set_lib::lemma_set_disjoint_lens(edge_slots(m0), slot_row(k, len as int));
    }
}

/// One step of deduplicating `all`: the prefix up to `i + 1` either keeps
/// the deduplicated prefix up to `i` or extends it by `all[i]`.
proof fn push_unique_step(all: Seq<Seq<char>>, i: int)
    requires
        0 <= i < all.len(),
    ensures
        all.take(i + 1).remove_duplicates(Seq::empty()) == (if all.take(i).remove_duplicates(
            Seq::empty(),
        ).contains(all[i]) {
            all.take(i).remove_duplicates(Seq::empty())
        } else {
            all.take(i).remove_duplicates(Seq::empty()).push(all[i])
        }),
{
    let prefix = all.take(i);
    assert(all.take(i + 1) =~= prefix + seq![all[i]]);
    prefix.lemma_remove_duplicates_append(all[i], Seq::empty());
    prefix.lemma_remove_duplicates_properties(Seq::empty());
    assert(prefix + Seq::<Seq<char>>::empty() =~= prefix);
    assert(prefix.remove_duplicates(Seq::empty()) + seq![all[i]] =~= prefix.remove_duplicates(
        Seq::empty(),
    ).push(all[i]));
}

/// The node IDs other than `node_id`, in order.
fn retain_other_ids(ids: &Vec<String>, node_id: &str) -> (res: Vec<String>)
    ensures
        string_views(res@) == string_views(ids@).filter(|x: Seq<char>| x != node_id@),
{
    let mut res: Vec<String> = Vec::new();
    let mut i: usize = 0;
    while i < ids.len()
        invariant
            i <= ids@.len(),
            string_views(res@) == string_views(ids@.take(i as int)).filter(
                |x: Seq<char>| x != node_id@,
            ),
        decreases ids.len() - i,
    {
        proof {
            lemma_string_views_take(ids@, i as int);
            string_views(ids@.take(i as int)).lemma_filter_push(
                ids@[i as int]@,
                |x: Seq<char>| x != node_id@,
            );
        }
        if !str_eq(ids[i].as_str(), node_id) {
            let ghost prev = res@;
            res.push(ids[i].clone());
            proof {
                lemma_string_views_push(prev, ids@[i as int]);
            }
        }
        i = i + 1;
    }
    assert(ids@.take(ids@.len() as int) =~= ids@);
    res
}

/// The edges of `edges` that pass the optional relation-type filter, in order.
fn select_by_type<'a>(edges: &'a Vec<EdgeInfo>, relation_type: Option<&str>) -> (res: Vec<
    &'a EdgeInfo,
>)
    ensures
        edge_ref_views(res@) == edge_views(edges@).filter(
            |e: EdgeView| passes_filter(opt_str_view(relation_type), e),
        ),
{
    let mut res: Vec<&'a EdgeInfo> = Vec::new();
    let mut i: usize = 0;
    while i < edges.len()
        invariant
            i <= edges@.len(),
            edge_ref_views(res@) == edge_views(edges@.take(i as int)).filter(
                |e: EdgeView| passes_filter(opt_str_view(relation_type), e),
            ),
        decreases edges.len() - i,
    {
        let e = &edges[i];
        let pass = match relation_type {
            Some(rt) => str_eq(e.relation_type.as_str(), rt),
            None => true,
        };
        proof {
            lemma_edge_views_take(edges@, i as int);
            edge_views(edges@.take(i as int)).lemma_filter_push(
                e@,
                |x: EdgeView| passes_filter(opt_str_view(relation_type), x),
            );
        }
        if pass {
            let ghost prev = res@;
            res.push(e);
            proof {
                assert(edge_ref_views(prev.push(e)) =~= edge_ref_views(prev).push(e@));
            }
        }
        i = i + 1;
    }
    assert(edges@.take(edges@.len() as int) =~= edges@);
    res
}

/// Adding a node ID to the ID list when there are no edges files one more
/// (empty) list.
proof fn lemma_keyed_no_edges(
    pre: Seq<Seq<char>>,
    id: Seq<char>,
    post: Seq<Seq<char>>,
    by_source: bool,
)
    requires
        post == pre.push(id),
    ensures
        edges_keyed_by(post, Seq::empty(), by_source) == with_key(
            edges_keyed_by(pre, Seq::empty(), by_source),
            id,
        ),
{
    reveal(Seq::filter);
    let none = Seq::<EdgeView>::empty();
    let m0 = edges_keyed_by(pre, none, by_source);
    let m1 = edges_keyed_by(post, none, by_source);
    let m2 = with_key(m0, id);
    assert forall|k: Seq<char>| #[trigger] m1.contains_key(k) <==> m2.contains_key(k) by {
        if post.contains(k) {
            let j = choose|j: int| 0 <= j < post.len() && post[j] == k;
            if j < pre.len() {
                assert(pre[j] == k);
            }
        }
        if pre.contains(k) {
            let j = choose|j: int| 0 <= j < pre.len() && pre[j] == k;
            assert(post[j] == k);
        }
        if k == id {
            assert(post[pre.len() as int] == k);
        }
    }
    assert forall|k: Seq<char>| #[trigger] m1.contains_key(k) implies m1[k] == m2[k] by {
        assert(none.filter(|e: EdgeView| endpoint(e, by_source) == k) =~= none);
    }
    assert(m1 =~= m2);
}

/// How adding one edge changes the edge lists keyed by an endpoint.
proof fn lemma_keyed_step(ids: Seq<Seq<char>>, evs: Seq<EdgeView>, e: EdgeView, by_source: bool)
    ensures
        edges_keyed_by(ids, evs.push(e), by_source) == edges_keyed_by(ids, evs, by_source).insert(
            endpoint(e, by_source),
            list_or_empty(edges_keyed_by(ids, evs, by_source), endpoint(e, by_source)).push(e),
        ),
{
    let key = endpoint(e, by_source);
    let m0 = edges_keyed_by(ids, evs, by_source);
    let m1 = edges_keyed_by(ids, evs.push(e), by_source);
    let m2 = m0.insert(key, list_or_empty(m0, key).push(e));
    assert forall|k: Seq<char>| #[trigger] m1.contains_key(k) <==> m2.contains_key(k) by {
        if exists|i: int| 0 <= i < evs.push(e).len() && endpoint(#[trigger] evs.push(e)[i], by_source) == k {
            let i = choose|i: int| 0 <= i < evs.push(e).len() && endpoint(#[trigger] evs.push(e)[i], by_source) == k;
            if i < evs.len() {
                assert(evs[i] == evs.push(e)[i]);
            }
        }
        if exists|i: int| 0 <= i < evs.len() && endpoint(#[trigger] evs[i], by_source) == k {
            let i = choose|i: int| 0 <= i < evs.len() && endpoint(#[trigger] evs[i], by_source) == k;
            assert(evs[i] == evs.push(e)[i]);
        }
        if k == key {
            assert(evs.push(e)[evs.len() as int] == e);
        }
    }
    assert forall|k: Seq<char>| #[trigger] m1.contains_key(k) implies m1[k] == m2[k] by {
        let p = |x: EdgeView| endpoint(x, by_source) == k;
        evs.lemma_filter_push(e, p);
        if k == key && !m0.contains_key(k) {
            assert forall|i: int| 0 <= i < evs.len() implies !p(evs[i]) by {
                if p(evs[i]) {
                    assert(endpoint(evs[i], by_source) == k);
                }
            }
            evs.lemma_all_neg_filter_empty(p);
        }
    }
    assert(m1 =~= m2);
}

// ----------------------------------------------------------------------
// Every node an edge list can lead to
// ----------------------------------------------------------------------

spec fn entry_targets(entries: Seq<AdjacencyList>) -> Seq<Seq<Seq<char>>> {
    entries.map_values(|a: AdjacencyList| targets(edge_views(a.edges@)))
}

spec fn entry_sources(entries: Seq<AdjacencyList>) -> Seq<Seq<Seq<char>>> {
    entries.map_values(|a: AdjacencyList| sources(edge_views(a.edges@)))
}

proof fn lemma_flatten_contains(s: Seq<Seq<Seq<char>>>, i: int, j: int)
    requires
        0 <= i < s.len(),
        0 <= j < s[i].len(),
    ensures
        s.flatten().contains(s[i][j]),
    decreases i,
{
    if i == 0 {
        assert((s[0] + s.drop_first().flatten())[j] == s[0][j]);
    } else {
        lemma_flatten_contains(s.drop_first(), i - 1, j);
        assert(s.drop_first()[i - 1] == s[i]);
        let rest = s.drop_first().flatten();
        let k = choose|k: int| 0 <= k < rest.len() && rest[k] == s[i][j];
        assert((s[0] + rest)[s[0].len() + k] == s[i][j]);
    }
}

impl AdjacencyGraph {
    /// Every target of an outgoing edge and every source of an incoming
    /// edge the graph holds: a finite list of all nodes a step can reach.
    pub closed spec fn endpoint_pool(&self) -> Seq<Seq<char>> {
        entry_targets(self.outgoing.entries@).flatten() + entry_sources(
            self.incoming.entries@,
        ).flatten()
    }

    /// The targets of outgoing lists and the sources of incoming lists lie in
    /// the endpoint pool.
    pub proof fn lemma_endpoints_pooled(&self, u: Seq<char>, e: EdgeView)
        requires
            self.wf(),
        ensures
            list_or_empty(self@.outgoing, u).contains(e) ==> self.endpoint_pool().contains(
                e.target_id,
            ),
            list_or_empty(self@.incoming, u).contains(e) ==> self.endpoint_pool().contains(
                e.source_id,
            ),
    {
        let outs = entry_targets(self.outgoing.entries@).flatten();
        let ins = entry_sources(self.incoming.entries@).flatten();
        if list_or_empty(self@.outgoing, u).contains(e) {
            let entries = self.outgoing.entries@;
            let i = key_index(entries, u);
            lemma_index_map_at(entries, i);
            let list = edge_views(entries[i].edges@);
            let j = choose|j: int| 0 <= j < list.len() && list[j] == e;
            assert(entry_targets(entries)[i] == targets(list));
            assert(targets(list)[j] == e.target_id);
            lemma_flatten_contains(entry_targets(entries), i, j);
            let k = choose|k: int| 0 <= k < outs.len() && outs[k] == e.target_id;
            assert((outs + ins)[k] == e.target_id);
        }
        if list_or_empty(self@.incoming, u).contains(e) {
            let entries = self.incoming.entries@;
            let i = key_index(entries, u);
            lemma_index_map_at(entries, i);
            let list = edge_views(entries[i].edges@);
            let j = choose|j: int| 0 <= j < list.len() && list[j] == e;
            assert(entry_sources(entries)[i] == sources(list));
            assert(sources(list)[j] == e.source_id);
            lemma_flatten_contains(entry_sources(entries), i, j);
            let k = choose|k: int| 0 <= k < ins.len() && ins[k] == e.source_id;
            assert((outs + ins)[outs.len() + k] == e.source_id);
        }
    }
}

} // verus!
