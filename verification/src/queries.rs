//! The read side of the assistant's tool server: one-line summaries of
//! nodes and relations, the selection of nodes and relations a request
//! names, keyword search, the neighborhood of a node and the statistics of
//! an investigation graph.
//!
//! Nodes and relations are read as the database stores them; their
//! confidences and canvas positions stay with the caller.
use vstd::prelude::*;
use vstd::string::StringExecFns;

use crate::error::AppError;
use crate::graph::component::{connected_component, reachable};
use crate::graph::engine::AdjacencyGraph;
use crate::graph::laws::lemma_reachable_transitive;
use crate::graph::types::{
    edge_views, edges_keyed_by, path_views, string_views, EdgeInfo, EdgeView, GraphView, PathView,
    TraversalPath,
};
use crate::text::{
    contains, decimal, join, join_strings, occurs_in, owned, push_decimal, str_eq, strip_prefix,
    lemma_text_before_asymmetric, lemma_text_before_total, lemma_text_before_transitive, text_before,
    text_less,
};

verus! {

broadcast use vstd::seq_lib::group_seq_properties;

/// A node row of an investigation.
#[derive(Clone, Debug)]
pub struct StoredNode {
    pub id: String,
    pub investigation_id: String,
    pub node_type: String,
    pub label: String,
    pub description: String,
    pub properties: String,
    pub created_at: String,
    pub updated_at: String,
}

/// A relation row of an investigation.
#[derive(Clone, Debug)]
pub struct StoredRelation {
    pub id: String,
    pub investigation_id: String,
    pub relation_type: String,
    pub source_node_id: String,
    pub target_node_id: String,
    pub label: String,
    pub first_seen: Option<String>,
    pub last_seen: Option<String>,
    pub properties: String,
    pub created_at: String,
}

/// Failures of the assistant's tools.
#[derive(Debug)]
pub enum McpError {
    /// A failure of the application core.
    App(AppError),
    /// Something the request names does not exist.
    NotFound(String),
    /// The server itself failed.
    Internal(String),
}

// ----------------------------------------------------------------------
// Summaries
// ----------------------------------------------------------------------

/// `type: label — description`.
pub open spec fn node_summary_text(n: StoredNode) -> Seq<char> {
    n.node_type@ + ": "@ + n.label@ + " — "@ + n.description@
}

/// The one-line summary of a node: `type: label — description`.
pub fn node_summary(node: &StoredNode) -> (r: String)
    ensures
        r@ == node_summary_text(*node),
{
    let mut r = node.node_type.clone();
    r.append(": ");
    r.append(node.label.as_str());
    r.append(" — ");
    r.append(node.description.as_str());
    r
}

/// The node listed last with ID `id`, as a map built from the list in
/// order keeps it.
pub open spec fn node_with_id(nodes: Seq<StoredNode>, id: Seq<char>) -> Option<StoredNode>
    decreases nodes.len(),
{
    if nodes.len() == 0 {
        None
    } else if nodes.last().id@ == id {
        Some(nodes.last())
    } else {
        node_with_id(nodes.drop_last(), id)
    }
}

/// The node listed last with ID `id`.
pub fn find_node<'a>(nodes: &'a Vec<StoredNode>, id: &str) -> (r: Option<&'a StoredNode>)
    ensures
        match r {
            Some(n) => node_with_id(nodes@, id@) == Some(*n),
            None => node_with_id(nodes@, id@) is None,
        },
{
    let mut i: usize = nodes.len();
    assert(nodes@.take(i as int) =~= nodes@);
    while i > 0
        invariant
            i <= nodes@.len(),
            node_with_id(nodes@, id@) == node_with_id(nodes@.take(i as int), id@),
        decreases i,
    {
        assert(nodes@.take(i as int).drop_last() =~= nodes@.take(i - 1));
        if str_eq(nodes[i - 1].id.as_str(), id) {
            return Some(&nodes[i - 1]);
        }
        i = i - 1;
    }
    None
}

/// `source -[type]-> target`, with the labels of the end nodes.
pub open spec fn relation_summary_text(r: StoredRelation, source: StoredNode, target: StoredNode) -> Seq<
    char,
> {
    source.label@ + " -["@ + r.relation_type@ + "]-> "@ + target.label@
}

/// The one-line summary of a relation, `source -[type]-> target` with the
/// labels of its end nodes among `nodes`; none when either end is not
/// there.
pub fn relation_summary(relation: &StoredRelation, nodes: &Vec<StoredNode>) -> (r: Option<String>)
    ensures
        match (
            node_with_id(nodes@, relation.source_node_id@),
            node_with_id(nodes@, relation.target_node_id@),
        ) {
            (Some(s), Some(t)) => r matches Some(text) && text@ == relation_summary_text(
                *relation,
                s,
                t,
            ),
            _ => r is None,
        },
{
    let source = match find_node(nodes, relation.source_node_id.as_str()) {
        Some(n) => n,
        None => {
            return None;
        },
    };
    let target = match find_node(nodes, relation.target_node_id.as_str()) {
        Some(n) => n,
        None => {
            return None;
        },
    };
    let mut r = source.label.clone();
    r.append(" -[");
    r.append(relation.relation_type.as_str());
    r.append("]-> ");
    r.append(target.label.as_str());
    Some(r)
}

// ----------------------------------------------------------------------
// Selections
// ----------------------------------------------------------------------

/// Whether `ids` lists `id`.
pub fn lists_id(ids: &Vec<String>, id: &str) -> (r: bool)
    ensures
        r == string_views(ids@).contains(id@),
{
    let mut i: usize = 0;
    while i < ids.len()
        invariant
            i <= ids@.len(),
            forall|j: int| 0 <= j < i ==> #[trigger] ids@[j]@ != id@,
        decreases ids.len() - i,
    {
        if str_eq(ids[i].as_str(), id) {
            assert(string_views(ids@)[i as int] == id@);
            return true;
        }
        i = i + 1;
    }
    assert forall|j: int| 0 <= j < string_views(ids@).len() implies string_views(ids@)[j] != id@ by {
        assert(string_views(ids@)[j] == ids@[j]@);
    }
    false
}

/// Both ends of `r` are among `selected`.
pub open spec fn links_selected(r: StoredRelation, selected: Seq<Seq<char>>) -> bool {
    selected.contains(r.source_node_id@) && selected.contains(r.target_node_id@)
}

/// The relations whose both ends are selected, in order; all of them when
/// there is no selection.
pub fn filter_relations(relations: Vec<StoredRelation>, selected_node_ids: Option<&Vec<String>>) -> (r:
    Vec<StoredRelation>)
    ensures
        match selected_node_ids {
            Some(sel) => r@ == relations@.filter(
                |x: StoredRelation| links_selected(x, string_views(sel@)),
            ),
            None => r@ == relations@,
        },
{
    match selected_node_ids {
        None => relations,
        Some(sel) => {
            let ghost pred = |x: StoredRelation| links_selected(x, string_views(sel@));
            let mut kept: Vec<StoredRelation> = Vec::new();
            let mut rest = relations;
            let ghost all = rest@;
            let ghost mut i: int = 0;
            proof {
                reveal(Seq::filter);
            }
            while rest.len() > 0
                invariant
                    0 <= i <= all.len(),
                    i + rest@.len() == all.len(),
                    rest@ == all.skip(i),
                    kept@ == all.take(i).filter(pred),
                    pred == (|x: StoredRelation| links_selected(x, string_views(sel@))),
                decreases rest.len(),
            {
                let x = rest.remove(0);
                assert(all.take(i + 1).drop_last() =~= all.take(i));
                assert(all[i] == x);
                let keep = lists_id(sel, x.source_node_id.as_str()) && lists_id(
                    sel,
                    x.target_node_id.as_str(),
                );
                assert(keep == pred(x));
                if keep {
                    kept.push(x);
                }
                proof {
                    reveal(Seq::filter);
                    let t = all.take(i + 1);
                    assert(t.last() == x);
                    assert(t.filter(pred) == if pred(x) {
                        t.drop_last().filter(pred).push(x)
                    } else {
                        t.drop_last().filter(pred)
                    });
                }
                assert(rest@ =~= all.skip(i + 1));
                proof {
                    i = i + 1;
                }
            }
            assert(all.take(i) =~= all);
            kept
        },
    }
}

/// The IDs of the nodes, in order.
pub open spec fn node_ids_of(nodes: Seq<StoredNode>) -> Seq<Seq<char>> {
    nodes.map_values(|n: StoredNode| n.id@)
}

/// The selected IDs that no node has, each once, in the order in which
/// they are first selected.
pub open spec fn missing_ids(selected: Seq<Seq<char>>, ids: Seq<Seq<char>>) -> Seq<Seq<char>>
    decreases selected.len(),
{
    if selected.len() == 0 {
        Seq::empty()
    } else {
        let m = missing_ids(selected.drop_last(), ids);
        let x = selected.last();
        if ids.contains(x) || m.contains(x) {
            m
        } else {
            m.push(x)
        }
    }
}

/// The message for selected IDs that no node has.
pub open spec fn not_found_message(missing: Seq<Seq<char>>) -> Seq<char> {
    "node_ids not found in investigation "@ + join(missing, ", "@) + ": "@ + decimal(missing.len())
}

/// Node `n` is among the selected.
pub open spec fn is_selected(n: StoredNode, selected: Seq<Seq<char>>) -> bool {
    selected.contains(n.id@)
}

/// The selected nodes, in order; all of them when there is no selection.
/// Fails when a selected ID belongs to no node.
pub fn filter_nodes(nodes: Vec<StoredNode>, selected_node_ids: Option<&Vec<String>>) -> (r: Result<
    Vec<StoredNode>,
    McpError,
>)
    ensures
        match selected_node_ids {
            None => r matches Ok(v) && v@ == nodes@,
            Some(sel) => {
                let missing = missing_ids(string_views(sel@), node_ids_of(nodes@));
                if missing.len() == 0 {
                    r matches Ok(v) && v@ == nodes@.filter(
                        |n: StoredNode| is_selected(n, string_views(sel@)),
                    )
                } else {
                    r matches Err(McpError::NotFound(m)) && m@ == not_found_message(missing)
                }
            },
        },
{
    let sel = match selected_node_ids {
        None => {
            return Ok(nodes);
        },
        Some(sel) => sel,
    };
    let mut ids: Vec<String> = Vec::new();
    let mut k: usize = 0;
    while k < nodes.len()
        invariant
            k <= nodes@.len(),
            string_views(ids@) == node_ids_of(nodes@.take(k as int)),
        decreases nodes.len() - k,
    {
        ids.push(nodes[k].id.clone());
        assert(node_ids_of(nodes@.take(k + 1)) =~= node_ids_of(nodes@.take(k as int)).push(
            nodes@[k as int].id@,
        ));
        assert(string_views(ids@) =~= node_ids_of(nodes@.take(k + 1)));
        k = k + 1;
    }
    assert(nodes@.take(k as int) =~= nodes@);
    let ghost sv = string_views(sel@);
    let mut missing: Vec<String> = Vec::new();
    let mut j: usize = 0;
    while j < sel.len()
        invariant
            j <= sel@.len(),
            sv == string_views(sel@),
            string_views(ids@) == node_ids_of(nodes@),
            string_views(missing@) == missing_ids(sv.take(j as int), node_ids_of(nodes@)),
        decreases sel.len() - j,
    {
        assert(sv.take(j + 1).drop_last() =~= sv.take(j as int));
        assert(sv.take(j + 1).last() == sel@[j as int]@);
        if !lists_id(&ids, sel[j].as_str()) && !lists_id(&missing, sel[j].as_str()) {
            let ghost prev = missing@;
            missing.push(sel[j].clone());
            assert(string_views(missing@) =~= string_views(prev).push(sel@[j as int]@));
        }
        j = j + 1;
    }
    assert(sv.take(j as int) =~= sv);
    if missing.len() > 0 {
        let mut m = String::from_str("node_ids not found in investigation ");
        let listed = join_strings(&missing, ", ");
        m.append(listed.as_str());
        m.append(": ");
        push_decimal(&mut m, missing.len() as u64);
        return Err(McpError::NotFound(m));
    }
    let ghost pred = |n: StoredNode| is_selected(n, sv);
    let mut kept: Vec<StoredNode> = Vec::new();
    let mut rest = nodes;
    let ghost all = rest@;
    let ghost mut i: int = 0;
    proof {
        reveal(Seq::filter);
    }
    while rest.len() > 0
        invariant
            0 <= i <= all.len(),
            i + rest@.len() == all.len(),
            rest@ == all.skip(i),
            kept@ == all.take(i).filter(pred),
            sv == string_views(sel@),
            pred == (|n: StoredNode| is_selected(n, sv)),
        decreases rest.len(),
    {
        let x = rest.remove(0);
        assert(all.take(i + 1).drop_last() =~= all.take(i));
        assert(all[i] == x);
        let keep = lists_id(sel, x.id.as_str());
        assert(keep == pred(x));
        if keep {
            kept.push(x);
        }
        proof {
            reveal(Seq::filter);
            assert(all.take(i + 1).last() == x);
        }
        assert(rest@ =~= all.skip(i + 1));
        proof {
            i = i + 1;
        }
    }
    assert(all.take(i) =~= all);
    Ok(kept)
}

/// The keyword occurs in the node's label or description.
pub open spec fn mentions(n: StoredNode, keyword: Seq<char>) -> bool {
    occurs_in(n.label@, keyword) || occurs_in(n.description@, keyword)
}

/// The nodes whose label or description contains the keyword, in order;
/// all of them when there is no keyword.
pub fn filter_by_keyword(nodes: Vec<StoredNode>, keyword: Option<&str>) -> (r: Vec<StoredNode>)
    ensures
        match keyword {
            Some(k) => r@ == nodes@.filter(|n: StoredNode| mentions(n, k@)),
            None => r@ == nodes@,
        },
{
    let k = match keyword {
        None => {
            return nodes;
        },
        Some(k) => k,
    };
    let ghost pred = |n: StoredNode| mentions(n, k@);
    let mut kept: Vec<StoredNode> = Vec::new();
    let mut rest = nodes;
    let ghost all = rest@;
    let ghost mut i: int = 0;
    proof {
        reveal(Seq::filter);
    }
    while rest.len() > 0
        invariant
            0 <= i <= all.len(),
            i + rest@.len() == all.len(),
            rest@ == all.skip(i),
            kept@ == all.take(i).filter(pred),
            pred == (|n: StoredNode| mentions(n, k@)),
        decreases rest.len(),
    {
        let x = rest.remove(0);
        assert(all.take(i + 1).drop_last() =~= all.take(i));
        assert(all[i] == x);
        let keep = contains(x.label.as_str(), k) || contains(x.description.as_str(), k);
        assert(keep == pred(x));
        if keep {
            kept.push(x);
        }
        proof {
            reveal(Seq::filter);
            assert(all.take(i + 1).last() == x);
        }
        assert(rest@ =~= all.skip(i + 1));
        proof {
            i = i + 1;
        }
    }
    assert(all.take(i) =~= all);
    kept
}

// ----------------------------------------------------------------------
// Stable ordering by a text key
// ----------------------------------------------------------------------

/// Where an item with key `k` goes in `s`: before the first item whose key
/// comes after `k`, or at the end.
pub open spec fn insertion_point<T>(s: Seq<T>, key: spec_fn(T) -> Seq<char>, k: Seq<char>) -> int
    decreases s.len(),
{
    if s.len() == 0 {
        0
    } else if text_before(k, key(s[0])) {
        0
    } else {
        1 + insertion_point(s.drop_first(), key, k)
    }
}

/// `s` ordered by key, items with equal keys keeping their order: each item
/// in turn goes after every earlier one whose key does not come after its
/// own (a stable sort).
pub open spec fn stable_sorted<T>(s: Seq<T>, key: spec_fn(T) -> Seq<char>) -> Seq<T>
    decreases s.len(),
{
    if s.len() == 0 {
        s
    } else {
        let t = stable_sorted(s.drop_last(), key);
        t.insert(insertion_point(t, key, key(s.last())), s.last())
    }
}

proof fn lemma_insertion_point_bounds<T>(s: Seq<T>, key: spec_fn(T) -> Seq<char>, k: Seq<char>)
    ensures
        0 <= insertion_point(s, key, k) <= s.len(),
    decreases s.len(),
{
    if s.len() > 0 {
        lemma_insertion_point_bounds(s.drop_first(), key, k);
    }
}

proof fn lemma_stable_sorted_len<T>(s: Seq<T>, key: spec_fn(T) -> Seq<char>)
    ensures
        stable_sorted(s, key).len() == s.len(),
    decreases s.len(),
{
    if s.len() > 0 {
        lemma_stable_sorted_len(s.drop_last(), key);
        let t = stable_sorted(s.drop_last(), key);
        lemma_insertion_point_bounds(t, key, key(s.last()));
    }
}

/// No item of `s` has a key that comes before the key of an earlier item.
pub open spec fn ordered_by<T>(s: Seq<T>, key: spec_fn(T) -> Seq<char>) -> bool {
    forall|i: int, j: int| 0 <= i < j < s.len() ==> !text_before(key(#[trigger] s[j]), key(#[trigger] s[i]))
}

proof fn lemma_insertion_point_splits<T>(t: Seq<T>, key: spec_fn(T) -> Seq<char>, k: Seq<char>)
    requires
        ordered_by(t, key),
    ensures
        forall|j: int| 0 <= j < insertion_point(t, key, k) ==> !text_before(k, key(#[trigger] t[j])),
        forall|j: int| insertion_point(t, key, k) <= j < t.len() ==> text_before(k, key(#[trigger] t[j])),
    decreases t.len(),
{
    lemma_insertion_point_bounds(t, key, k);
    if t.len() > 0 {
        let rest = t.drop_first();
        assert forall|i: int, j: int| 0 <= i < j < rest.len() implies !text_before(
            key(#[trigger] rest[j]),
            key(#[trigger] rest[i]),
        ) by {
            assert(rest[i] == t[i + 1] && rest[j] == t[j + 1]);
        }
        lemma_insertion_point_splits(rest, key, k);
        if text_before(k, key(t[0])) {
            assert forall|j: int| 0 <= j < t.len() implies text_before(k, key(#[trigger] t[j])) by {
                if j > 0 {
                    assert(!text_before(key(t[j]), key(t[0])));
                    lemma_text_before_total(key(t[0]), key(t[j]));
                    if key(t[0]) != key(t[j]) {
                        lemma_text_before_transitive(k, key(t[0]), key(t[j]));
                    }
                }
            }
        } else {
            assert forall|j: int| 0 <= j < insertion_point(t, key, k) implies !text_before(
                k,
                key(#[trigger] t[j]),
            ) by {
                if j > 0 {
                    assert(t[j] == rest[j - 1]);
                }
            }
            assert forall|j: int| insertion_point(t, key, k) <= j < t.len() implies text_before(
                k,
                key(#[trigger] t[j]),
            ) by {
                assert(t[j] == rest[j - 1]);
            }
        }
    }
}

/// A stable sort orders its items by key: no item's key comes before the
/// key of an item placed ahead of it.
pub proof fn lemma_stable_sorted_is_ordered<T>(s: Seq<T>, key: spec_fn(T) -> Seq<char>)
    ensures
        ordered_by(stable_sorted(s, key), key),
        stable_sorted(s, key).len() == s.len(),
    decreases s.len(),
{
    lemma_stable_sorted_len(s, key);
    if s.len() > 0 {
        let t = stable_sorted(s.drop_last(), key);
        let x = s.last();
        let k = key(x);
        lemma_stable_sorted_is_ordered(s.drop_last(), key);
        lemma_insertion_point_splits(t, key, k);
        lemma_insertion_point_bounds(t, key, k);
        let p = insertion_point(t, key, k);
        let r = t.insert(p, x);
        assert(r.len() == t.len() + 1);
        assert forall|i: int, j: int| 0 <= i < j < r.len() implies !text_before(
            key(#[trigger] r[j]),
            key(#[trigger] r[i]),
        ) by {
            if j < p {
                assert(r[i] == t[i] && r[j] == t[j]);
            } else if j == p {
                assert(r[i] == t[i] && r[j] == x);
            } else if i == p {
                assert(r[j] == t[j - 1]);
                lemma_text_before_asymmetric(k, key(t[j - 1]));
            } else if i < p {
                assert(r[i] == t[i] && r[j] == t[j - 1]);
            } else {
                assert(r[i] == t[i - 1] && r[j] == t[j - 1]);
            }
        }
    }
}

/// A stable sort keeps every item: the sorted list holds the same items,
/// each as often, as the given one.
pub proof fn lemma_stable_sorted_keeps_items<T>(s: Seq<T>, key: spec_fn(T) -> Seq<char>)
    ensures
        stable_sorted(s, key).to_multiset() =~= s.to_multiset(),
    decreases s.len(),
{
    broadcast use vstd::multiset::group_multiset_axioms;

    if s.len() > 0 {
        let t = stable_sorted(s.drop_last(), key);
        let x = s.last();
        lemma_stable_sorted_keeps_items(s.drop_last(), key);
        lemma_insertion_point_bounds(t, key, key(x));
        let p = insertion_point(t, key, key(x));
        let r = t.insert(p, x);
        assert(r =~= t.take(p) + (seq![x] + t.skip(p)));
        assert(t =~= t.take(p) + t.skip(p));
        vstd::seq_lib::lemma_multiset_commutative(t.take(p), seq![x] + t.skip(p));
        vstd::seq_lib::lemma_multiset_commutative(seq![x], t.skip(p));
        vstd::seq_lib::lemma_multiset_commutative(t.take(p), t.skip(p));
        assert(s =~= s.drop_last().push(x));
        s.drop_last().to_multiset_ensures();
        assert(seq![x] =~= Seq::<T>::empty().push(x));
        Seq::<T>::empty().to_multiset_ensures();
    }
}

/// The items of keyed pairs, in order.
pub open spec fn items_of<T>(s: Seq<(String, T)>) -> Seq<T> {
    s.map_values(|p: (String, T)| p.1)
}

/// Each pair's text is the key of its item.
pub open spec fn keyed_by<T>(s: Seq<(String, T)>, key: spec_fn(T) -> Seq<char>) -> bool {
    forall|i: int| 0 <= i < s.len() ==> (#[trigger] s[i]).0@ == key(s[i].1)
}

/// Where an item with key `k` goes among the sorted pairs.
fn find_insertion_point<T>(out: &Vec<(String, T)>, k: &str, Ghost(key): Ghost<spec_fn(T) -> Seq<char>>) -> (p:
    usize)
    requires
        keyed_by(out@, key),
    ensures
        p == insertion_point(items_of(out@), key, k@),
{
    let ghost s = items_of(out@);
    let mut j: usize = 0;
    assert(s.skip(0) =~= s);
    while j < out.len()
        invariant
            j <= out@.len(),
            s == items_of(out@),
            keyed_by(out@, key),
            insertion_point(s, key, k@) == j + insertion_point(s.skip(j as int), key, k@),
        decreases out.len() - j,
    {
        assert(s.skip(j as int)[0] == out@[j as int].1);
        assert(out@[j as int].0@ == key(out@[j as int].1));
        if text_less(k, out[j].0.as_str()) {
            return j;
        }
        assert(s.skip(j as int).drop_first() =~= s.skip(j + 1));
        j = j + 1;
    }
    assert(s.skip(j as int).len() == 0);
    j
}

/// The items of the keyed pairs, stably ordered by key.
fn sort_by_text_key<T>(items: Vec<(String, T)>, Ghost(key): Ghost<spec_fn(T) -> Seq<char>>) -> (r:
    Vec<T>)
    requires
        keyed_by(items@, key),
    ensures
        r@ == stable_sorted(items_of(items@), key),
{
    let ghost all = items_of(items@);
    let mut rest = items;
    let mut out: Vec<(String, T)> = Vec::new();
    let ghost mut i: int = 0;
    assert(all.take(0) =~= Seq::<T>::empty());
    assert(items_of(out@) =~= Seq::<T>::empty());
    while rest.len() > 0
        invariant
            0 <= i <= all.len(),
            i + rest@.len() == all.len(),
            items_of(rest@) == all.skip(i),
            keyed_by(rest@, key),
            keyed_by(out@, key),
            items_of(out@) == stable_sorted(all.take(i), key),
        decreases rest.len(),
    {
        let ghost before = out@;
        let ghost prior = rest@;
        let x = rest.remove(0);
        assert(x == prior[0]);
        assert(x.1 == all[i]) by {
            assert(items_of(prior)[0] == x.1);
        }
        assert(x.0@ == key(x.1));
        let p = find_insertion_point(&out, x.0.as_str(), Ghost(key));
        proof {
            lemma_insertion_point_bounds(items_of(out@), key, x.0@);
            lemma_stable_sorted_len(all.take(i), key);
        }
        out.insert(p, x);
        proof {
            let t = all.take(i + 1);
            assert(t.drop_last() =~= all.take(i));
            assert(t.last() == all[i]);
            assert(items_of(out@) =~= items_of(before).insert(p as int, all[i]));
            assert forall|q: int| 0 <= q < out@.len() implies (#[trigger] out@[q]).0@ == key(out@[q].1) by {
                if q < p {
                    assert(out@[q] == before[q]);
                } else if q > p {
                    assert(out@[q] == before[q - 1]);
                }
            }
            assert forall|q: int| 0 <= q < rest@.len() implies (#[trigger] rest@[q]).0@ == key(rest@[q].1) by {
                assert(rest@[q] == prior[q + 1]);
            }
            assert forall|q: int| 0 <= q < rest@.len() implies items_of(rest@)[q] == all.skip(i + 1)[q] by {
                assert(rest@[q] == prior[q + 1]);
                assert(items_of(prior)[q + 1] == all.skip(i)[q + 1]);
            }
            assert(items_of(rest@) =~= all.skip(i + 1));
            i = i + 1;
        }
    }
    assert(all.take(i) =~= all);
    let mut r: Vec<T> = Vec::new();
    let ghost sorted = items_of(out@);
    let ghost mut j: int = 0;
    while out.len() > 0
        invariant
            0 <= j <= sorted.len(),
            j + out@.len() == sorted.len(),
            items_of(out@) == sorted.skip(j),
            r@ == sorted.take(j),
        decreases out.len(),
    {
        let ghost prior = out@;
        let x = out.remove(0);
        assert(x == prior[0]);
        assert(x.1 == sorted[j]) by {
            assert(items_of(prior)[0] == x.1);
        }
        r.push(x.1);
        proof {
            assert(r@ =~= sorted.take(j + 1));
            assert forall|q: int| 0 <= q < out@.len() implies items_of(out@)[q] == sorted.skip(j + 1)[q] by {
                assert(out@[q] == prior[q + 1]);
                assert(items_of(prior)[q + 1] == sorted.skip(j)[q + 1]);
            }
            assert(items_of(out@) =~= sorted.skip(j + 1));
            j = j + 1;
        }
    }
    assert(sorted.take(j) =~= sorted);
    r
}

// ----------------------------------------------------------------------
// The neighborhood of a node
// ----------------------------------------------------------------------

/// The node IDs along the paths, path after path.
pub open spec fn path_node_ids(paths: Seq<PathView>) -> Seq<Seq<char>>
    decreases paths.len(),
{
    if paths.len() == 0 {
        Seq::empty()
    } else {
        path_node_ids(paths.drop_last()) + paths.last().node_ids
    }
}

/// A relation ID with the `rev:` mark of a backward hop taken off.
pub open spec fn unmarked(rid: Seq<char>) -> Seq<char> {
    if "rev:"@.is_prefix_of(rid) {
        rid.skip("rev:"@.len() as int)
    } else {
        rid
    }
}

/// The relation IDs along the paths, unmarked, path after path.
pub open spec fn path_relation_ids(paths: Seq<PathView>) -> Seq<Seq<char>>
    decreases paths.len(),
{
    if paths.len() == 0 {
        Seq::empty()
    } else {
        path_relation_ids(paths.drop_last()) + paths.last().relation_ids.map_values(
            |r: Seq<char>| unmarked(r),
        )
    }
}

/// Node `n` lies on one of the paths and is not the center.
pub open spec fn is_neighbor(n: StoredNode, center: Seq<char>, paths: Seq<PathView>) -> bool {
    n.id@ != center && path_node_ids(paths).contains(n.id@)
}

/// Relation `r` is followed by one of the paths, in either direction.
pub open spec fn is_on_paths(r: StoredRelation, paths: Seq<PathView>) -> bool {
    path_relation_ids(paths).contains(r.id@)
}

/// The nodes and relations around a node, each in order of creation.
#[derive(Debug)]
pub struct Neighborhood {
    pub neighbors: Vec<StoredNode>,
    pub relations: Vec<StoredRelation>,
}

/// The node IDs and the unmarked relation IDs along the paths.
fn ids_along(paths: &Vec<TraversalPath>) -> (r: (Vec<String>, Vec<String>))
    ensures
        string_views(r.0@) == path_node_ids(path_views(paths@)),
        string_views(r.1@) == path_relation_ids(path_views(paths@)),
{
    let ghost pv = path_views(paths@);
    let mut node_ids: Vec<String> = Vec::new();
    let mut relation_ids: Vec<String> = Vec::new();
    let mut i: usize = 0;
    while i < paths.len()
        invariant
            i <= paths@.len(),
            pv == path_views(paths@),
            string_views(node_ids@) == path_node_ids(pv.take(i as int)),
            string_views(relation_ids@) == path_relation_ids(pv.take(i as int)),
        decreases paths.len() - i,
    {
        let path = &paths[i];
        assert(pv.take(i + 1).drop_last() =~= pv.take(i as int));
        assert(pv.take(i + 1).last() == path@);
        let ghost base_nodes = string_views(node_ids@);
        let ghost base_relations = string_views(relation_ids@);
        let mut j: usize = 0;
        while j < path.node_ids.len()
            invariant
                j <= path.node_ids@.len(),
                string_views(node_ids@) == base_nodes + string_views(path.node_ids@).take(j as int),
            decreases path.node_ids.len() - j,
        {
            let ghost prev = node_ids@;
            node_ids.push(path.node_ids[j].clone());
            assert(string_views(node_ids@) =~= string_views(prev).push(path.node_ids@[j as int]@));
            assert(string_views(path.node_ids@).take(j + 1) =~= string_views(path.node_ids@).take(
                j as int,
            ).push(path.node_ids@[j as int]@));
            j = j + 1;
        }
        assert(string_views(path.node_ids@).take(j as int) =~= string_views(path.node_ids@));
        let ghost marked = string_views(path.relation_ids@);
        let ghost plain = marked.map_values(|r: Seq<char>| unmarked(r));
        let mut k: usize = 0;
        while k < path.relation_ids.len()
            invariant
                k <= path.relation_ids@.len(),
                marked == string_views(path.relation_ids@),
                plain == marked.map_values(|r: Seq<char>| unmarked(r)),
                string_views(relation_ids@) == base_relations + plain.take(k as int),
            decreases path.relation_ids.len() - k,
        {
            let rid = path.relation_ids[k].as_str();
            let id = match strip_prefix(rid, "rev:") {
                Some(rest) => owned(rest),
                None => owned(rid),
            };
            assert(id@ == plain[k as int]);
            let ghost prev = relation_ids@;
            relation_ids.push(id);
            assert(string_views(relation_ids@) =~= string_views(prev).push(plain[k as int]));
            assert(plain.take(k + 1) =~= plain.take(k as int).push(plain[k as int]));
            k = k + 1;
        }
        assert(plain.take(k as int) =~= plain);
        i = i + 1;
    }
    assert(pv.take(i as int) =~= pv);
    (node_ids, relation_ids)
}

/// The neighborhood of `center` reached by `paths` (the breadth-first
/// walks from it): the other nodes on the paths and the relations they
/// follow, each kept in its given order and then stably ordered by
/// creation time.
pub fn neighborhood(
    center: &str,
    paths: &Vec<TraversalPath>,
    nodes: Vec<StoredNode>,
    relations: Vec<StoredRelation>,
) -> (r: Neighborhood)
    ensures
        r.neighbors@ == stable_sorted(
            nodes@.filter(|n: StoredNode| is_neighbor(n, center@, path_views(paths@))),
            |n: StoredNode| n.created_at@,
        ),
        r.relations@ == stable_sorted(
            relations@.filter(|x: StoredRelation| is_on_paths(x, path_views(paths@))),
            |x: StoredRelation| x.created_at@,
        ),
{
    let ghost pv = path_views(paths@);
    let (node_ids, relation_ids) = ids_along(paths);
    let ghost npred = |n: StoredNode| is_neighbor(n, center@, pv);
    let ghost nkey = |n: StoredNode| n.created_at@;
    let mut keyed_nodes: Vec<(String, StoredNode)> = Vec::new();
    let mut rest = nodes;
    let ghost all = rest@;
    let ghost mut i: int = 0;
    proof {
        reveal(Seq::filter);
    }
    while rest.len() > 0
        invariant
            0 <= i <= all.len(),
            i + rest@.len() == all.len(),
            rest@ == all.skip(i),
            items_of(keyed_nodes@) == all.take(i).filter(npred),
            keyed_by(keyed_nodes@, nkey),
            string_views(node_ids@) == path_node_ids(pv),
            npred == (|n: StoredNode| is_neighbor(n, center@, pv)),
            nkey == (|n: StoredNode| n.created_at@),
        decreases rest.len(),
    {
        let x = rest.remove(0);
        assert(all.take(i + 1).drop_last() =~= all.take(i));
        assert(all[i] == x);
        let keep = !str_eq(x.id.as_str(), center) && lists_id(&node_ids, x.id.as_str());
        assert(keep == npred(x));
        let ghost before = keyed_nodes@;
        if keep {
            keyed_nodes.push((x.created_at.clone(), x));
            assert(items_of(keyed_nodes@) =~= items_of(before).push(x));
        }
        proof {
            reveal(Seq::filter);
            assert(all.take(i + 1).last() == x);
        }
        assert(rest@ =~= all.skip(i + 1));
        proof {
            i = i + 1;
        }
    }
    assert(all.take(i) =~= all);
    let neighbors = sort_by_text_key(keyed_nodes, Ghost(nkey));
    let ghost rpred = |x: StoredRelation| is_on_paths(x, pv);
    let ghost rkey = |x: StoredRelation| x.created_at@;
    let mut keyed_relations: Vec<(String, StoredRelation)> = Vec::new();
    let mut rrest = relations;
    let ghost rall = rrest@;
    let ghost mut j: int = 0;
    while rrest.len() > 0
        invariant
            0 <= j <= rall.len(),
            j + rrest@.len() == rall.len(),
            rrest@ == rall.skip(j),
            items_of(keyed_relations@) == rall.take(j).filter(rpred),
            keyed_by(keyed_relations@, rkey),
            string_views(relation_ids@) == path_relation_ids(pv),
            rpred == (|x: StoredRelation| is_on_paths(x, pv)),
            rkey == (|x: StoredRelation| x.created_at@),
        decreases rrest.len(),
    {
        let x = rrest.remove(0);
        assert(rall.take(j + 1).drop_last() =~= rall.take(j));
        assert(rall[j] == x);
        let keep = lists_id(&relation_ids, x.id.as_str());
        assert(keep == rpred(x));
        let ghost before = keyed_relations@;
        if keep {
            keyed_relations.push((x.created_at.clone(), x));
            assert(items_of(keyed_relations@) =~= items_of(before).push(x));
        }
        proof {
            reveal(Seq::filter);
            assert(rall.take(j + 1).last() == x);
        }
        assert(rrest@ =~= rall.skip(j + 1));
        proof {
            j = j + 1;
        }
    }
    assert(rall.take(j) =~= rall);
    let relations = sort_by_text_key(keyed_relations, Ghost(rkey));
    Neighborhood { neighbors, relations }
}

// ----------------------------------------------------------------------
// The graph of an investigation and its statistics
// ----------------------------------------------------------------------

/// The edge a relation row stands for.
pub open spec fn relation_edge(r: StoredRelation) -> EdgeView {
    EdgeView {
        relation_id: r.id@,
        source_id: r.source_node_id@,
        target_id: r.target_node_id@,
        relation_type: r.relation_type@,
        label: r.label@,
    }
}

/// The edges of the relation rows, in order.
pub open spec fn relation_edges(relations: Seq<StoredRelation>) -> Seq<EdgeView> {
    relations.map_values(|r: StoredRelation| relation_edge(r))
}

/// The graph of an investigation: every node ID once, in order of first
/// occurrence, and every relation as an edge from its source to its target.
pub fn graph_of(nodes: &Vec<StoredNode>, relations: &Vec<StoredRelation>) -> (g: AdjacencyGraph)
    ensures
        g.wf(),
        g@.node_ids == node_ids_of(nodes@).remove_duplicates(Seq::empty()),
        g@.outgoing == edges_keyed_by(node_ids_of(nodes@), relation_edges(relations@), true),
        g@.incoming == edges_keyed_by(node_ids_of(nodes@), relation_edges(relations@), false),
{
    let mut ids: Vec<String> = Vec::new();
    let mut i: usize = 0;
    while i < nodes.len()
        invariant
            i <= nodes@.len(),
            string_views(ids@) == node_ids_of(nodes@.take(i as int)),
        decreases nodes.len() - i,
    {
        let ghost prev = ids@;
        ids.push(nodes[i].id.clone());
        assert(string_views(ids@) =~= string_views(prev).push(nodes@[i as int].id@));
        assert(node_ids_of(nodes@.take(i + 1)) =~= node_ids_of(nodes@.take(i as int)).push(
            nodes@[i as int].id@,
        ));
        i = i + 1;
    }
    assert(nodes@.take(i as int) =~= nodes@);
    let mut edges: Vec<EdgeInfo> = Vec::new();
    let mut j: usize = 0;
    while j < relations.len()
        invariant
            j <= relations@.len(),
            edge_views(edges@) == relation_edges(relations@.take(j as int)),
        decreases relations.len() - j,
    {
        let r = &relations[j];
        let ghost prev = edges@;
        edges.push(
            EdgeInfo {
                relation_id: r.id.clone(),
                source_id: r.source_node_id.clone(),
                target_id: r.target_node_id.clone(),
                relation_type: r.relation_type.clone(),
                label: r.label.clone(),
            },
        );
        assert(edge_views(edges@) =~= edge_views(prev).push(relation_edge(relations@[j as int])));
        assert(relation_edges(relations@.take(j + 1)) =~= relation_edges(relations@.take(j as int)).push(
            relation_edge(relations@[j as int]),
        ));
        j = j + 1;
    }
    assert(relations@.take(j as int) =~= relations@);
    AdjacencyGraph::from_data(ids, edges)
}

/// How many of the nodes have the type `t`.
pub open spec fn type_count(nodes: Seq<StoredNode>, t: Seq<char>) -> nat
    decreases nodes.len(),
{
    if nodes.len() == 0 {
        0
    } else {
        type_count(nodes.drop_last(), t) + if nodes.last().node_type@ == t {
            1nat
        } else {
            0nat
        }
    }
}

/// The types of the nodes, in order.
pub open spec fn node_types(nodes: Seq<StoredNode>) -> Seq<Seq<char>> {
    nodes.map_values(|n: StoredNode| n.node_type@)
}

/// The keys of (type, count) rows, in order.
pub open spec fn row_keys(rows: Seq<(String, usize)>) -> Seq<Seq<char>> {
    rows.map_values(|r: (String, usize)| r.0@)
}

/// `rows` counts the node types of `nodes`: one row per type that occurs,
/// in increasing order of type, with the number of nodes of that type.
pub open spec fn is_type_distribution(rows: Seq<(String, usize)>, nodes: Seq<StoredNode>) -> bool {
    &&& forall|i: int, j: int| 0 <= i < j < rows.len() ==> text_before(#[trigger] rows[i].0@, #[trigger] rows[j].0@)
    &&& forall|t: Seq<char>| #[trigger] row_keys(rows).contains(t) <==> node_types(nodes).contains(t)
    &&& forall|i: int| 0 <= i < rows.len() ==> (#[trigger] rows[i]).1 == type_count(nodes, rows[i].0@)
}

proof fn lemma_type_count_bound(nodes: Seq<StoredNode>, t: Seq<char>)
    ensures
        type_count(nodes, t) <= nodes.len(),
    decreases nodes.len(),
{
    if nodes.len() > 0 {
        lemma_type_count_bound(nodes.drop_last(), t);
    }
}

/// The sum of the counts of the rows.
pub open spec fn row_total(rows: Seq<(String, usize)>) -> nat
    decreases rows.len(),
{
    if rows.len() == 0 {
        0
    } else {
        row_total(rows.drop_last()) + rows.last().1 as nat
    }
}

/// How many of the nodes have one of the types listed in `keys`, each
/// listed type counted as often as it is listed.
pub open spec fn counted(keys: Seq<Seq<char>>, nodes: Seq<StoredNode>) -> nat
    decreases keys.len(),
{
    if keys.len() == 0 {
        0
    } else {
        counted(keys.drop_last(), nodes) + type_count(nodes, keys.last())
    }
}

/// How often `t` is listed in `keys`.
pub open spec fn listings(keys: Seq<Seq<char>>, t: Seq<char>) -> nat
    decreases keys.len(),
{
    if keys.len() == 0 {
        0
    } else {
        listings(keys.drop_last(), t) + if keys.last() == t {
            1nat
        } else {
            0nat
        }
    }
}

proof fn lemma_rows_counted(rows: Seq<(String, usize)>, nodes: Seq<StoredNode>)
    requires
        forall|i: int| 0 <= i < rows.len() ==> (#[trigger] rows[i]).1 == type_count(nodes, rows[i].0@),
    ensures
        row_total(rows) == counted(row_keys(rows), nodes),
    decreases rows.len(),
{
    if rows.len() > 0 {
        let prev = rows.drop_last();
        assert(row_keys(prev) =~= row_keys(rows).drop_last());
        assert forall|i: int| 0 <= i < prev.len() implies (#[trigger] prev[i]).1 == type_count(nodes, prev[i].0@) by {
            assert(prev[i] == rows[i]);
        }
        lemma_rows_counted(prev, nodes);
        assert(rows.last() == rows[rows.len() - 1]);
    }
}

proof fn lemma_counted_last(keys: Seq<Seq<char>>, nodes: Seq<StoredNode>)
    requires
        nodes.len() > 0,
    ensures
        counted(keys, nodes) == counted(keys, nodes.drop_last()) + listings(keys, nodes.last().node_type@),
    decreases keys.len(),
{
    if keys.len() > 0 {
        lemma_counted_last(keys.drop_last(), nodes);
    }
}

proof fn lemma_listings_distinct(keys: Seq<Seq<char>>, t: Seq<char>)
    requires
        keys.no_duplicates(),
    ensures
        listings(keys, t) == if keys.contains(t) {
            1nat
        } else {
            0nat
        },
    decreases keys.len(),
{
    if keys.len() > 0 {
        let prev = keys.drop_last();
        assert forall|i: int, j: int| 0 <= i < prev.len() && 0 <= j < prev.len() && i != j implies prev[i] != prev[j] by {
            assert(prev[i] == keys[i] && prev[j] == keys[j]);
        }
        lemma_listings_distinct(prev, t);
        if keys.last() == t {
            if prev.contains(t) {
                let q = choose|q: int| 0 <= q < prev.len() && prev[q] == t;
                assert(keys[q] == keys[keys.len() - 1]);
            }
            assert(keys[keys.len() - 1] == t);
        } else {
            if keys.contains(t) {
                let q = choose|q: int| 0 <= q < keys.len() && keys[q] == t;
                assert(prev[q] == t);
            }
            if prev.contains(t) {
                let q = choose|q: int| 0 <= q < prev.len() && prev[q] == t;
                assert(keys[q] == t);
            }
        }
    }
}

proof fn lemma_counted_covering(keys: Seq<Seq<char>>, nodes: Seq<StoredNode>)
    requires
        keys.no_duplicates(),
        forall|i: int| 0 <= i < nodes.len() ==> keys.contains(#[trigger] nodes[i].node_type@),
    ensures
        counted(keys, nodes) == nodes.len(),
    decreases nodes.len(),
{
    if nodes.len() == 0 {
        lemma_counted_empty(keys, nodes);
    } else {
        let prev = nodes.drop_last();
        assert forall|i: int| 0 <= i < prev.len() implies keys.contains(#[trigger] prev[i].node_type@) by {
            assert(prev[i] == nodes[i]);
        }
        lemma_counted_covering(keys, prev);
        lemma_counted_last(keys, nodes);
        assert(nodes.last() == nodes[nodes.len() - 1]);
        lemma_listings_distinct(keys, nodes.last().node_type@);
    }
}

proof fn lemma_counted_empty(keys: Seq<Seq<char>>, nodes: Seq<StoredNode>)
    requires
        nodes.len() == 0,
    ensures
        counted(keys, nodes) == 0,
    decreases keys.len(),
{
    if keys.len() > 0 {
        lemma_counted_empty(keys.drop_last(), nodes);
    }
}

/// The counts of a type distribution add up to the number of nodes: each
/// node is counted once, under its own type.
pub proof fn lemma_distribution_counts_every_node(rows: Seq<(String, usize)>, nodes: Seq<StoredNode>)
    requires
        is_type_distribution(rows, nodes),
    ensures
        row_total(rows) == nodes.len(),
{
    lemma_rows_counted(rows, nodes);
    let keys = row_keys(rows);
    assert forall|i: int, j: int| 0 <= i < keys.len() && 0 <= j < keys.len() && i != j implies keys[i] != keys[j] by {
        if i < j {
            assert(text_before(rows[i].0@, rows[j].0@));
            lemma_text_before_asymmetric(rows[i].0@, rows[i].0@);
        } else {
            assert(text_before(rows[j].0@, rows[i].0@));
            lemma_text_before_asymmetric(rows[j].0@, rows[j].0@);
        }
    }
    assert forall|i: int| 0 <= i < nodes.len() implies keys.contains(#[trigger] nodes[i].node_type@) by {
        assert(node_types(nodes)[i] == nodes[i].node_type@);
        assert(node_types(nodes).contains(nodes[i].node_type@));
    }
    lemma_counted_covering(keys, nodes);
}

/// How many nodes there are of each type, by increasing type.
pub fn type_distribution(nodes: &Vec<StoredNode>) -> (rows: Vec<(String, usize)>)
    ensures
        is_type_distribution(rows@, nodes@),
{
    let mut rows: Vec<(String, usize)> = Vec::new();
    let mut k: usize = 0;
    while k < nodes.len()
        invariant
            k <= nodes@.len(),
            is_type_distribution(rows@, nodes@.take(k as int)),
        decreases nodes.len() - k,
    {
        let ghost before = rows@;
        let ghost done = nodes@.take(k as int);
        let ghost next = nodes@.take(k + 1);
        let t = nodes[k].node_type.as_str();
        assert(next.drop_last() =~= done);
        assert(next.last() == nodes@[k as int]);
        assert(node_types(next) =~= node_types(done).push(t@));
        let mut j: usize = 0;
        while j < rows.len() && text_less(rows[j].0.as_str(), t)
            invariant
                j <= rows@.len(),
                rows@ == before,
                forall|q: int| 0 <= q < j ==> text_before(#[trigger] rows@[q].0@, t@),
            decreases rows.len() - j,
        {
            j = j + 1;
        }
        proof {
            lemma_type_count_bound(done, t@);
        }
        if j < rows.len() && str_eq(rows[j].0.as_str(), t) {
            let c = rows[j].1;
            assert(c == type_count(done, t@));
            let name = rows[j].0.clone();
            rows.set(j, (name, c + 1));
            proof {
                assert forall|q: int| 0 <= q < rows@.len() implies (#[trigger] rows@[q]).1 == type_count(
                    next,
                    rows@[q].0@,
                ) by {
                    if q != j {
                        assert(rows@[q] == before[q]);
                        assert(before[q].0@ != t@) by {
                            lemma_text_before_asymmetric(before[q].0@, before[j as int].0@);
                        }
                    }
                }
                assert(row_keys(rows@) =~= row_keys(before));
                assert(row_keys(before)[j as int] == t@);
                assert forall|x: Seq<char>| #[trigger] row_keys(rows@).contains(x) <==> node_types(
                    next,
                ).contains(x) by {
                    if x == t@ {
                        assert(node_types(next)[k as int] == t@);
                    } else if node_types(next).contains(x) {
                        let q = choose|q: int| 0 <= q < node_types(next).len() && node_types(next)[q] == x;
                        assert(node_types(done)[q] == x);
                    }
                }
                assert forall|a: int, b: int| 0 <= a < b < rows@.len() implies text_before(
                    #[trigger] rows@[a].0@,
                    #[trigger] rows@[b].0@,
                ) by {
                    assert(rows@[a].0@ == before[a].0@);
                    assert(rows@[b].0@ == before[b].0@);
                }
            }
        } else {
            proof {
                assert(!row_keys(before).contains(t@)) by {
                    if row_keys(before).contains(t@) {
                        let q = choose|q: int| 0 <= q < row_keys(before).len() && row_keys(before)[q] == t@;
                        if q < j {
                            lemma_text_before_asymmetric(t@, t@);
                        } else if q > j {
                            lemma_text_before_total(before[j as int].0@, t@);
                            lemma_text_before_transitive(t@, before[j as int].0@, before[q].0@);
                            lemma_text_before_asymmetric(t@, t@);
                        }
                    }
                }
                if j < before.len() {
                    lemma_text_before_total(before[j as int].0@, t@);
                }
                assert forall|q: int| j <= q < before.len() implies text_before(t@, #[trigger] before[q].0@) by {
                    if q > j {
                        lemma_text_before_transitive(t@, before[j as int].0@, before[q].0@);
                    }
                }
                lemma_text_before_asymmetric(t@, t@);
                assert(!node_types(done).contains(t@));
                lemma_type_count_absent(done, t@);
            }
            rows.insert(j, (t.to_string(), 1));
            proof {
                assert forall|a: int, b: int| 0 <= a < b < rows@.len() implies text_before(
                    #[trigger] rows@[a].0@,
                    #[trigger] rows@[b].0@,
                ) by {
                    if b < j {
                        assert(rows@[a] == before[a] && rows@[b] == before[b]);
                    } else if b == j {
                        assert(rows@[a] == before[a]);
                    } else if a == j {
                        assert(rows@[b] == before[b - 1]);
                    } else if a < j {
                        assert(rows@[a] == before[a]);
                        assert(rows@[b] == before[b - 1]);
                    } else {
                        assert(rows@[a] == before[a - 1]);
                        assert(rows@[b] == before[b - 1]);
                    }
                }
                assert(row_keys(rows@) =~= row_keys(before).insert(j as int, t@));
                assert forall|x: Seq<char>| #[trigger] row_keys(rows@).contains(x) <==> node_types(
                    next,
                ).contains(x) by {
                    if x == t@ {
                        assert(node_types(next)[k as int] == t@);
                        assert(row_keys(rows@)[j as int] == t@);
                    } else {
                        if node_types(next).contains(x) {
                            let q = choose|q: int| 0 <= q < node_types(next).len() && node_types(next)[q] == x;
                            assert(node_types(done)[q] == x);
                            assert(row_keys(before).contains(x));
                            let p = choose|p: int| 0 <= p < row_keys(before).len() && row_keys(before)[p] == x;
                            if p < j {
                                assert(row_keys(rows@)[p] == x);
                            } else {
                                assert(row_keys(rows@)[p + 1] == x);
                            }
                        }
                        if row_keys(rows@).contains(x) {
                            let p = choose|p: int| 0 <= p < row_keys(rows@).len() && row_keys(rows@)[p] == x;
                            if p < j {
                                assert(row_keys(before)[p] == x);
                            } else {
                                assert(row_keys(before)[p - 1] == x);
                            }
                            assert(row_keys(before).contains(x));
                            assert(node_types(done).contains(x));
                            let q = choose|q: int| 0 <= q < node_types(done).len() && node_types(done)[q] == x;
                            assert(node_types(next)[q] == x);
                        }
                    }
                }
                assert forall|q: int| 0 <= q < rows@.len() implies (#[trigger] rows@[q]).1 == type_count(
                    next,
                    rows@[q].0@,
                ) by {
                    if q < j {
                        assert(rows@[q] == before[q]);
                        assert(text_before(before[q].0@, t@));
                    } else if q > j {
                        assert(rows@[q] == before[q - 1]);
                        assert(text_before(t@, before[q - 1].0@));
                    }
                }
            }
        }
        k = k + 1;
    }
    assert(nodes@.take(k as int) =~= nodes@);
    rows
}

proof fn lemma_type_count_absent(nodes: Seq<StoredNode>, t: Seq<char>)
    requires
        !node_types(nodes).contains(t),
    ensures
        type_count(nodes, t) == 0,
    decreases nodes.len(),
{
    if nodes.len() > 0 {
        assert(node_types(nodes.drop_last()) =~= node_types(nodes).drop_last());
        assert(node_types(nodes)[nodes.len() - 1] == nodes.last().node_type@);
        lemma_type_count_absent(nodes.drop_last(), t);
    }
}

/// Node `v` can be reached from `u` along relations taken in either
/// direction.
#[verifier::opaque]
pub open spec fn connected(g: GraphView, u: Seq<char>, v: Seq<char>) -> bool {
    reachable(g, u, v)
}

/// The `i`-th listed node starts a component: no node listed before it
/// is connected to it.
pub open spec fn starts_component(g: GraphView, ids: Seq<Seq<char>>, i: int) -> bool {
    forall|j: int| 0 <= j < i ==> !connected(g, #[trigger] ids[j], ids[i])
}

/// How many of the first `n` listed nodes start a component.
pub open spec fn component_starts(g: GraphView, ids: Seq<Seq<char>>, n: nat) -> nat
    decreases n,
{
    if n == 0 {
        0
    } else {
        component_starts(g, ids, (n - 1) as nat) + if starts_component(g, ids, n - 1) {
            1nat
        } else {
            0nat
        }
    }
}

/// No more components start among the first `n` listed nodes than there
/// are nodes.
pub proof fn lemma_component_starts_bound(g: GraphView, ids: Seq<Seq<char>>, n: nat)
    ensures
        component_starts(g, ids, n) <= n,
    decreases n,
{
    if n > 0 {
        lemma_component_starts_bound(g, ids, (n - 1) as nat);
    }
}

/// Some node among the first `i` listed reaches `v`.
pub open spec fn reached_from_first(g: GraphView, ids: Seq<Seq<char>>, i: int, v: Seq<char>) -> bool {
    exists|j: int| 0 <= j < i && connected(g, #[trigger] ids[j], v)
}

/// `seen` holds exactly the nodes reached from the first `i` listed.
pub open spec fn holds_reached(seen: Seq<Seq<char>>, g: GraphView, ids: Seq<Seq<char>>, i: int) -> bool {
    forall|v: Seq<char>| #[trigger] seen.contains(v) <==> reached_from_first(g, ids, i, v)
}

proof fn lemma_seen_node(g: GraphView, ids: Seq<Seq<char>>, i: int, seen: Seq<Seq<char>>)
    requires
        0 <= i < ids.len(),
        holds_reached(seen, g, ids, i),
        seen.contains(ids[i]),
    ensures
        !starts_component(g, ids, i),
        holds_reached(seen, g, ids, i + 1),
{
    let j0 = choose|j: int| 0 <= j < i && connected(g, #[trigger] ids[j], ids[i]);
    assert forall|v: Seq<char>| #[trigger] seen.contains(v) <==> reached_from_first(g, ids, i + 1, v) by {
        if reached_from_first(g, ids, i + 1, v) {
            let j1 = choose|j: int| 0 <= j < i + 1 && connected(g, #[trigger] ids[j], v);
            if j1 == i {
                reveal(connected);
                lemma_reachable_transitive(g, ids[j0], ids[i], v);
            }
            assert(reached_from_first(g, ids, i, v));
        }
        if seen.contains(v) {
            let j1 = choose|j: int| 0 <= j < i && connected(g, #[trigger] ids[j], v);
            assert(0 <= j1 < i + 1 && connected(g, ids[j1], v));
        }
    }
}

proof fn lemma_new_component(g: GraphView, ids: Seq<Seq<char>>, i: int, seen: Seq<Seq<char>>, comp: Seq<Seq<char>>)
    requires
        0 <= i < ids.len(),
        holds_reached(seen, g, ids, i),
        !seen.contains(ids[i]),
        forall|v: Seq<char>| #[trigger] comp.contains(v) <==> connected(g, ids[i], v),
    ensures
        starts_component(g, ids, i),
        holds_reached(seen + comp, g, ids, i + 1),
{
    assert forall|j: int| 0 <= j < i implies !connected(g, #[trigger] ids[j], ids[i]) by {
        if connected(g, ids[j], ids[i]) {
            assert(reached_from_first(g, ids, i, ids[i]));
        }
    }
    let all = seen + comp;
    assert forall|v: Seq<char>| #[trigger] all.contains(v) <==> reached_from_first(g, ids, i + 1, v) by {
        if all.contains(v) {
            let p = choose|p: int| 0 <= p < all.len() && all[p] == v;
            if p < seen.len() {
                assert(seen[p] == v);
                assert(seen.contains(v));
                let j1 = choose|j: int| 0 <= j < i && connected(g, #[trigger] ids[j], v);
                assert(0 <= j1 < i + 1 && connected(g, ids[j1], v));
            } else {
                assert(comp[p - seen.len()] == v);
                assert(comp.contains(v));
                assert(0 <= i < i + 1 && connected(g, ids[i], v));
            }
        }
        if reached_from_first(g, ids, i + 1, v) {
            let j1 = choose|j: int| 0 <= j < i + 1 && connected(g, #[trigger] ids[j], v);
            if j1 < i {
                assert(reached_from_first(g, ids, i, v));
                assert(seen.contains(v));
                let p = choose|p: int| 0 <= p < seen.len() && seen[p] == v;
                assert(all[p] == v);
            } else {
                assert(comp.contains(v));
                let p = choose|p: int| 0 <= p < comp.len() && comp[p] == v;
                assert(all[seen.len() + p] == v);
            }
        }
    }
}

/// Appends copies of `more` to `v`.
fn append_copies(v: &mut Vec<String>, more: &Vec<String>)
    ensures
        string_views(final(v)@) == string_views(old(v)@) + string_views(more@),
{
    let ghost start = string_views(v@);
    let mut k: usize = 0;
    while k < more.len()
        invariant
            k <= more@.len(),
            string_views(v@) == start + string_views(more@).take(k as int),
        decreases more.len() - k,
    {
        let ghost before = v@;
        v.push(more[k].clone());
        assert(string_views(v@) =~= string_views(before).push(more@[k as int]@));
        assert(string_views(more@).take(k + 1) =~= string_views(more@).take(k as int).push(
            more@[k as int]@,
        ));
        k = k + 1;
    }
    assert(string_views(more@).take(k as int) =~= string_views(more@));
}

/// The number of weakly connected components: the listed nodes that no
/// earlier listed node reaches, each of which starts a new one.
pub fn component_count(graph: &AdjacencyGraph) -> (c: usize)
    requires
        graph.wf(),
    ensures
        c == component_starts(graph@, graph@.node_ids, graph@.node_ids.len()),
{
    let ids = graph.node_ids();
    let ghost g = graph@;
    let ghost gids = g.node_ids;
    let mut visited: Vec<String> = Vec::new();
    let mut count: usize = 0;
    let mut i: usize = 0;
    while i < ids.len()
        invariant
            graph.wf(),
            g == graph@,
            gids == g.node_ids,
            string_views(ids@) == gids,
            i <= ids@.len(),
            count == component_starts(g, gids, i as nat),
            holds_reached(string_views(visited@), g, gids, i as int),
        decreases ids.len() - i,
    {
        let id = ids[i].as_str();
        assert(gids[i as int] == id@);
        proof {
            lemma_component_starts_bound(g, gids, i as nat);
        }
        if lists_id(&visited, id) {
            proof {
                lemma_seen_node(g, gids, i as int, string_views(visited@));
            }
        } else {
            let component = connected_component(graph, id);
            let ghost prev = string_views(visited@);
            append_copies(&mut visited, &component);
            proof {
                assert forall|v: Seq<char>| #[trigger] string_views(component@).contains(v) <==> connected(
                    g,
                    gids[i as int],
                    v,
                ) by {
                    reveal(connected);
                }
                lemma_new_component(g, gids, i as int, prev, string_views(component@));
            }
            count = count + 1;
        }
        i = i + 1;
    }
    count
}

/// The statistics of an investigation graph.
#[derive(Debug)]
pub struct GraphSummary {
    pub node_count: usize,
    pub type_distribution: Vec<(String, usize)>,
    pub relation_count: usize,
    pub component_count: usize,
}

/// The statistics of the investigation with these nodes and relations: how
/// many nodes and relations it has, how many nodes of each type, and how
/// many weakly connected components its graph has.
pub fn graph_summary(nodes: &Vec<StoredNode>, relations: &Vec<StoredRelation>) -> (s: GraphSummary)
    ensures
        s.node_count == nodes@.len(),
        s.relation_count == relations@.len(),
        is_type_distribution(s.type_distribution@, nodes@),
        ({
            let ids = node_ids_of(nodes@);
            let edges = relation_edges(relations@);
            let listed = ids.remove_duplicates(Seq::empty());
            let g = GraphView {
                outgoing: edges_keyed_by(ids, edges, true),
                incoming: edges_keyed_by(ids, edges, false),
                node_ids: listed,
            };
            s.component_count == component_starts(g, listed, listed.len())
        }),
{
    let graph = graph_of(nodes, relations);
    let components = component_count(&graph);
    GraphSummary {
        node_count: nodes.len(),
        type_distribution: type_distribution(nodes),
        relation_count: relations.len(),
        component_count: components,
    }
}

} // verus!
