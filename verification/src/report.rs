//! The HTML investigation report: a header with the report's metadata
//! and counts, a summary of node and relation types, and the list of
//! indicators of compromise.
use vstd::prelude::*;
use vstd::string::StringExecFns;

use crate::clock::{chrono_now, is_reading_text};
use crate::domain::{
    node_type_snake, NodeRecord, NodeType, RelationRecord, RelationType, TypeSpecificProps,
};
use crate::graph::types::string_views;
use crate::text::{chars_of, decimal, push_char, push_decimal};

verus! {

/// What a report shows.
#[derive(Clone, Debug)]
pub struct ReportConfig {
    pub title: String,
    pub author: String,
    pub organization: String,
    pub include_ioc_list: bool,
    pub include_graph_summary: bool,
}

// ----------------------------------------------------------------------
// The page template
// ----------------------------------------------------------------------

/// The graph-summary section up to the node-type rows.
pub const SUMMARY_OPEN: &'static str = "<section class=\"panel\">\n  <h2>图谱摘要</h2>\n  <div class=\"grid two\">\n    <article class=\"card\">\n      <h3>node_type</h3>\n      <table>\n        <thead><tr><th>类型</th><th>数量</th></tr></thead>\n        <tbody>";

/// The graph-summary section between the node-type and relation-type rows.
pub const SUMMARY_BETWEEN: &'static str = "</tbody>\n      </table>\n    </article>\n    <article class=\"card\">\n      <h3>relation_type</h3>\n      <table>\n        <thead><tr><th>类型</th><th>数量</th></tr></thead>\n        <tbody>";

/// The end of the graph-summary section.
pub const SUMMARY_CLOSE: &'static str = "</tbody>\n      </table>\n    </article>\n  </div>\n</section>";

/// The IOC section up to its rows.
pub const IOC_OPEN: &'static str = "<section class=\"panel\">\n  <h2>IOC 清单</h2>\n  <article class=\"card\">\n    <table>\n      <thead><tr><th>类型</th><th>值</th><th>标签</th><th>置信度</th></tr></thead>\n      <tbody>";

/// The end of the IOC section.
pub const IOC_CLOSE: &'static str = "</tbody>\n    </table>\n  </article>\n</section>";

/// The page up to the title in its head.
pub const PAGE_HEAD: &'static str = "<!DOCTYPE html>\n<html lang=\"zh-CN\">\n<head>\n  <meta charset=\"UTF-8\" />\n  <meta name=\"viewport\" content=\"width=device-width, initial-scale=1.0\" />\n  <title>";

/// The style sheet and the page up to the title in its header.
pub const PAGE_STYLE: &'static str = "</title>\n  <style>\n    :root {\n      color-scheme: dark;\n      --bg: #09111b;\n      --bg-accent: #0e1a29;\n      --card: rgba(16, 27, 41, 0.9);\n      --card-strong: rgba(20, 34, 52, 0.96);\n      --ink: #e9f1fb;\n      --muted: #8ea3ba;\n      --line: rgba(120, 156, 194, 0.22);\n      --accent: #4ecdc4;\n      --accent-2: #7bb6ff;\n      --shadow: 0 24px 80px rgba(0, 0, 0, 0.35);\n    }\n    * { box-sizing: border-box; }\n    body {\n      margin: 0;\n      min-height: 100vh;\n      color: var(--ink);\n      font-family: \"Segoe UI\", \"PingFang SC\", \"Helvetica Neue\", sans-serif;\n      background:\n        radial-gradient(circle at top right, rgba(78, 205, 196, 0.14), transparent 24%),\n        radial-gradient(circle at left center, rgba(123, 182, 255, 0.12), transparent 26%),\n        linear-gradient(180deg, var(--bg) 0%, #060c14 100%);\n      padding: 40px 20px 56px;\n    }\n    .page {\n      max-width: 1200px;\n      margin: 0 auto;\n    }\n    .hero {\n      background: linear-gradient(135deg, rgba(24, 42, 65, 0.96), rgba(10, 18, 28, 0.96));\n      border: 1px solid var(--line);\n      border-radius: 24px;\n      padding: 32px;\n      box-shadow: var(--shadow);\n      position: relative;\n      overflow: hidden;\n    }\n    .hero::after {\n      content: \"\";\n      position: absolute;\n      inset: -30% auto auto 60%;\n      width: 260px;\n      height: 260px;\n      background: radial-gradient(circle, rgba(78, 205, 196, 0.18), transparent 70%);\n      pointer-events: none;\n    }\n    h1, h2, h3 { margin: 0; }\n    h1 {\n      font-size: 34px;\n      letter-spacing: 0.02em;\n      margin-bottom: 12px;\n    }\n    h2 {\n      font-size: 22px;\n      color: var(--accent);\n      margin-bottom: 16px;\n    }\n    h3 {\n      font-size: 15px;\n      color: var(--accent-2);\n      margin-bottom: 12px;\n      text-transform: uppercase;\n      letter-spacing: 0.08em;\n    }\n    .meta {\n      display: grid;\n      grid-template-columns: repeat(auto-fit, minmax(180px, 1fr));\n      gap: 12px;\n      margin-top: 18px;\n    }\n    .meta-item {\n      background: rgba(255, 255, 255, 0.03);\n      border: 1px solid var(--line);\n      border-radius: 14px;\n      padding: 14px 16px;\n    }\n    .meta-item span {\n      display: block;\n      font-size: 12px;\n      color: var(--muted);\n      text-transform: uppercase;\n      letter-spacing: 0.08em;\n      margin-bottom: 6px;\n    }\n    .stats {\n      display: grid;\n      grid-template-columns: repeat(auto-fit, minmax(160px, 1fr));\n      gap: 16px;\n      margin: 24px 0 0;\n    }\n    .stat {\n      background: linear-gradient(180deg, rgba(255, 255, 255, 0.04), rgba(255, 255, 255, 0.02));\n      border: 1px solid var(--line);\n      border-radius: 16px;\n      padding: 18px;\n    }\n    .stat span {\n      display: block;\n      color: var(--muted);\n      font-size: 13px;\n      margin-bottom: 8px;\n    }\n    .stat strong {\n      font-size: 30px;\n      color: var(--ink);\n    }\n    .panel {\n      margin-top: 28px;\n    }\n    .grid {\n      display: grid;\n      gap: 18px;\n    }\n    .grid.two {\n      grid-template-columns: repeat(auto-fit, minmax(280px, 1fr));\n    }\n    .card {\n      background: var(--card);\n      border: 1px solid var(--line);\n      border-radius: 18px;\n      padding: 18px;\n      box-shadow: var(--shadow);\n    }\n    table {\n      width: 100%;\n      border-collapse: collapse;\n      background: var(--card-strong);\n      border-radius: 14px;\n      overflow: hidden;\n    }\n    th, td {\n      text-align: left;\n      padding: 12px 14px;\n      border-bottom: 1px solid var(--line);\n      font-size: 14px;\n    }\n    th {\n      color: var(--accent);\n      background: rgba(78, 205, 196, 0.06);\n      font-weight: 700;\n    }\n    tr:last-child td {\n      border-bottom: none;\n    }\n    .hint {\n      color: var(--muted);\n      margin-top: 10px;\n      font-size: 13px;\n    }\n  </style>\n</head>\n<body>\n  <main class=\"page\">\n    <header class=\"hero\">\n      <h1>";

/// The page between the header title and the author.
pub const PAGE_AUTHOR: &'static str = "</h1>\n      <p class=\"hint\">专业威胁情报视图，聚焦图谱规模、关系分布与 IOC 资产。</p>\n      <section class=\"meta\">\n        <div class=\"meta-item\"><span>author</span>";

/// The page between the author and the organization.
pub const PAGE_ORGANIZATION: &'static str = "</div>\n        <div class=\"meta-item\"><span>organization</span>";

/// The page between the organization and the generation time.
pub const PAGE_GENERATED_AT: &'static str = "</div>\n        <div class=\"meta-item\"><span>generated_at</span>";

/// The page between the generation time and the node count.
pub const PAGE_NODE_COUNT: &'static str = "</div>\n      </section>\n      <section class=\"stats\">\n        <div class=\"stat\"><span>nodes</span><strong>";

/// The page between the node count and the relation count.
pub const PAGE_RELATION_COUNT: &'static str = "</strong></div>\n        <div class=\"stat\"><span>relations</span><strong>";

/// The page between the relation count and the IOC count.
pub const PAGE_IOC_COUNT: &'static str = "</strong></div>\n        <div class=\"stat\"><span>ioc</span><strong>";

/// The page between the IOC count and the graph-summary section.
pub const PAGE_SECTIONS: &'static str = "</strong></div>\n      </section>\n    </header>\n    ";

/// The page between the graph-summary and IOC sections.
pub const PAGE_BETWEEN_SECTIONS: &'static str = "\n    ";

/// The end of the page.
pub const PAGE_TAIL: &'static str = "\n  </main>\n</body>\n</html>";

// ----------------------------------------------------------------------
// Escaping
// ----------------------------------------------------------------------

/// How `c` is written in HTML text: `&`, `<`, `>` and `"` as entities.
pub open spec fn html_escaped_char(c: char) -> Seq<char> {
    if c == '&' {
        seq!['&', 'a', 'm', 'p', ';']
    } else if c == '<' {
        seq!['&', 'l', 't', ';']
    } else if c == '>' {
        seq!['&', 'g', 't', ';']
    } else if c == '"' {
        seq!['&', 'q', 'u', 'o', 't', ';']
    } else {
        seq![c]
    }
}

/// `s` as HTML text.
pub open spec fn html_escaped(s: Seq<char>) -> Seq<char>
    decreases s.len(),
{
    if s.len() == 0 {
        Seq::empty()
    } else {
        html_escaped(s.drop_last()) + html_escaped_char(s.last())
    }
}

fn push_escaped_html(out: &mut String, s: &str)
    ensures
        final(out)@ == old(out)@ + html_escaped(s@),
{
    let cs = chars_of(s);
    let ghost start = out@;
    let mut i: usize = 0;
    while i < cs.len()
        invariant
            cs@ == s@,
            i <= cs@.len(),
            out@ == start + html_escaped(s@.take(i as int)),
        decreases cs.len() - i,
    {
        assert(s@.take(i + 1).drop_last() =~= s@.take(i as int));
        let c = cs[i];
        if c == '&' {
            out.append("&amp;");
        } else if c == '<' {
            out.append("&lt;");
        } else if c == '>' {
            out.append("&gt;");
        } else if c == '"' {
            out.append("&quot;");
        } else {
            push_char(out, c);
        }
        proof {
            reveal_strlit("&amp;");
            reveal_strlit("&lt;");
            reveal_strlit("&gt;");
            reveal_strlit("&quot;");
        }
        assert(out@ =~= start + html_escaped(s@.take(i + 1)));
        i = i + 1;
    }
    assert(s@.take(i as int) =~= s@);
}

/// `value` as HTML text: `&`, `<`, `>` and `"` written as entities.
pub fn escape_html(value: &str) -> (r: String)
    ensures
        r@ == html_escaped(value@),
{
    let mut out = String::new();
    push_escaped_html(&mut out, value);
    out
}

// ----------------------------------------------------------------------
// Type summary
// ----------------------------------------------------------------------

/// The name a node type is summarised under (its variant name in lower
/// case).
pub open spec fn node_kind_name(t: NodeType) -> Seq<char> {
    match t {
        NodeType::IpAddress => "ipaddress"@,
        NodeType::Domain => "domain"@,
        NodeType::FileHash => "filehash"@,
        NodeType::Process => "process"@,
        NodeType::Malware => "malware"@,
        NodeType::Ttp => "ttp"@,
        NodeType::ThreatActor => "threatactor"@,
        NodeType::Asset => "asset"@,
    }
}

/// The name a relation type is summarised under (its variant name in
/// lower case).
pub open spec fn relation_kind_name(t: RelationType) -> Seq<char> {
    match t {
        RelationType::ConnectsTo => "connectsto"@,
        RelationType::ResolvesTo => "resolvesto"@,
        RelationType::Creates => "creates"@,
        RelationType::BelongsTo => "belongsto"@,
        RelationType::Uses => "uses"@,
        RelationType::Targets => "targets"@,
        RelationType::Contains => "contains"@,
    }
}

/// The node types in the alphabetical order of their summary names.
pub open spec fn node_kinds_in_order() -> Seq<NodeType> {
    seq![
        NodeType::Asset,
        NodeType::Domain,
        NodeType::FileHash,
        NodeType::IpAddress,
        NodeType::Malware,
        NodeType::Process,
        NodeType::ThreatActor,
        NodeType::Ttp,
    ]
}

/// The relation types in the alphabetical order of their summary names.
pub open spec fn relation_kinds_in_order() -> Seq<RelationType> {
    seq![
        RelationType::BelongsTo,
        RelationType::ConnectsTo,
        RelationType::Contains,
        RelationType::Creates,
        RelationType::ResolvesTo,
        RelationType::Targets,
        RelationType::Uses,
    ]
}

/// A summary row: the kind's name and how many items have it.
pub open spec fn summary_row(name: Seq<char>, count: nat) -> Seq<char> {
    "<tr><td>"@ + html_escaped(name) + "</td><td>"@ + decimal(count) + "</td></tr>"@
}

/// How many nodes have type `t`.
pub open spec fn node_type_count(nodes: Seq<NodeRecord>, t: NodeType) -> nat {
    nodes.filter(|n: NodeRecord| n.node_type == t).len()
}

/// How many relations have type `t`.
pub open spec fn relation_type_count(relations: Seq<RelationRecord>, t: RelationType) -> nat {
    relations.filter(|r: RelationRecord| r.relation_type == t).len()
}

/// The summary rows of the node types among `kinds` that occur, in order.
pub open spec fn node_summary_rows(kinds: Seq<NodeType>, nodes: Seq<NodeRecord>) -> Seq<char>
    decreases kinds.len(),
{
    if kinds.len() == 0 {
        Seq::empty()
    } else {
        let c = node_type_count(nodes, kinds.last());
        node_summary_rows(kinds.drop_last(), nodes) + if c > 0 {
            summary_row(node_kind_name(kinds.last()), c)
        } else {
            Seq::empty()
        }
    }
}

/// The summary rows of the relation types among `kinds` that occur, in
/// order.
pub open spec fn relation_summary_rows(kinds: Seq<RelationType>, relations: Seq<RelationRecord>) -> Seq<char>
    decreases kinds.len(),
{
    if kinds.len() == 0 {
        Seq::empty()
    } else {
        let c = relation_type_count(relations, kinds.last());
        relation_summary_rows(kinds.drop_last(), relations) + if c > 0 {
            summary_row(relation_kind_name(kinds.last()), c)
        } else {
            Seq::empty()
        }
    }
}

fn push_summary_row(out: &mut String, name: &str, count: usize)
    ensures
        final(out)@ == old(out)@ + summary_row(name@, count as nat),
{
    out.append("<tr><td>");
    push_escaped_html(out, name);
    out.append("</td><td>");
    push_decimal(out, count as u64);
    out.append("</td></tr>");
}

fn count_nodes_of_type(nodes: &Vec<NodeRecord>, t: NodeType) -> (c: usize)
    ensures
        c == node_type_count(nodes@, t),
{
    broadcast use vstd::seq_lib::group_seq_properties;

    let mut c: usize = 0;
    let mut i: usize = 0;
    while i < nodes.len()
        invariant
            i <= nodes@.len(),
            c == node_type_count(nodes@.take(i as int), t),
            c <= i,
        decreases nodes.len() - i,
    {
        assert(nodes@.take(i + 1) =~= nodes@.take(i as int).push(nodes@[i as int]));
        proof {
            nodes@.take(i as int).lemma_filter_push(nodes@[i as int], |n: NodeRecord| n.node_type == t);
        }
        if nodes[i].node_type == t {
            c = c + 1;
        }
        i = i + 1;
    }
    assert(nodes@.take(i as int) =~= nodes@);
    c
}

fn count_relations_of_type(relations: &Vec<RelationRecord>, t: RelationType) -> (c: usize)
    ensures
        c == relation_type_count(relations@, t),
{
    broadcast use vstd::seq_lib::group_seq_properties;

    let mut c: usize = 0;
    let mut i: usize = 0;
    while i < relations.len()
        invariant
            i <= relations@.len(),
            c == relation_type_count(relations@.take(i as int), t),
            c <= i,
        decreases relations.len() - i,
    {
        assert(relations@.take(i + 1) =~= relations@.take(i as int).push(relations@[i as int]));
        proof {
            relations@.take(i as int).lemma_filter_push(
                relations@[i as int],
                |r: RelationRecord| r.relation_type == t,
            );
        }
        if relations[i].relation_type == t {
            c = c + 1;
        }
        i = i + 1;
    }
    assert(relations@.take(i as int) =~= relations@);
    c
}

fn node_kind_label(t: NodeType) -> (r: &'static str)
    ensures
        r@ == node_kind_name(t),
{
    match t {
        NodeType::IpAddress => "ipaddress",
        NodeType::Domain => "domain",
        NodeType::FileHash => "filehash",
        NodeType::Process => "process",
        NodeType::Malware => "malware",
        NodeType::Ttp => "ttp",
        NodeType::ThreatActor => "threatactor",
        NodeType::Asset => "asset",
    }
}

fn relation_kind_label(t: RelationType) -> (r: &'static str)
    ensures
        r@ == relation_kind_name(t),
{
    match t {
        RelationType::ConnectsTo => "connectsto",
        RelationType::ResolvesTo => "resolvesto",
        RelationType::Creates => "creates",
        RelationType::BelongsTo => "belongsto",
        RelationType::Uses => "uses",
        RelationType::Targets => "targets",
        RelationType::Contains => "contains",
    }
}

fn push_node_summary(out: &mut String, nodes: &Vec<NodeRecord>)
    ensures
        final(out)@ == old(out)@ + node_summary_rows(node_kinds_in_order(), nodes@),
{
    let kinds: Vec<NodeType> = vec![
        NodeType::Asset,
        NodeType::Domain,
        NodeType::FileHash,
        NodeType::IpAddress,
        NodeType::Malware,
        NodeType::Process,
        NodeType::ThreatActor,
        NodeType::Ttp,
    ];
    assert(kinds@ =~= node_kinds_in_order());
    let ghost start = out@;
    let mut k: usize = 0;
    while k < kinds.len()
        invariant
            k <= kinds@.len(),
            kinds@ == node_kinds_in_order(),
            out@ == start + node_summary_rows(kinds@.take(k as int), nodes@),
        decreases kinds.len() - k,
    {
        assert(kinds@.take(k + 1).drop_last() =~= kinds@.take(k as int));
        let t = kinds[k];
        let c = count_nodes_of_type(nodes, t);
        if c > 0 {
            push_summary_row(out, node_kind_label(t), c);
        }
        assert(out@ =~= start + node_summary_rows(kinds@.take(k + 1), nodes@));
        k = k + 1;
    }
    assert(kinds@.take(k as int) =~= kinds@);
}

fn push_relation_summary(out: &mut String, relations: &Vec<RelationRecord>)
    ensures
        final(out)@ == old(out)@ + relation_summary_rows(relation_kinds_in_order(), relations@),
{
    let kinds: Vec<RelationType> = vec![
        RelationType::BelongsTo,
        RelationType::ConnectsTo,
        RelationType::Contains,
        RelationType::Creates,
        RelationType::ResolvesTo,
        RelationType::Targets,
        RelationType::Uses,
    ];
    assert(kinds@ =~= relation_kinds_in_order());
    let ghost start = out@;
    let mut k: usize = 0;
    while k < kinds.len()
        invariant
            k <= kinds@.len(),
            kinds@ == relation_kinds_in_order(),
            out@ == start + relation_summary_rows(kinds@.take(k as int), relations@),
        decreases kinds.len() - k,
    {
        assert(kinds@.take(k + 1).drop_last() =~= kinds@.take(k as int));
        let t = kinds[k];
        let c = count_relations_of_type(relations, t);
        if c > 0 {
            push_summary_row(out, relation_kind_label(t), c);
        }
        assert(out@ =~= start + relation_summary_rows(kinds@.take(k + 1), relations@));
        k = k + 1;
    }
    assert(kinds@.take(k as int) =~= kinds@);
}

// ----------------------------------------------------------------------
// Indicators of compromise
// ----------------------------------------------------------------------

/// The IOC a node is, if it is one: its kind and value (IP addresses,
/// domains and file hashes whose properties match their type).
pub open spec fn ioc_of(n: NodeRecord) -> Option<(Seq<char>, Seq<char>)> {
    match n.properties {
        TypeSpecificProps::IpAddress(p) => if n.node_type == NodeType::IpAddress {
            Some(("ip_address"@, p.address@))
        } else {
            None
        },
        TypeSpecificProps::Domain(p) => if n.node_type == NodeType::Domain {
            Some(("domain"@, p.domain@))
        } else {
            None
        },
        TypeSpecificProps::FileHash(p) => if n.node_type == NodeType::FileHash {
            Some(("file_hash"@, p.hash_value@))
        } else {
            None
        },
        _ => None,
    }
}

/// The IOC row of a node, shown with the confidence text `confidence`
/// (empty when the node is no IOC).
pub open spec fn ioc_row(n: NodeRecord, confidence: Seq<char>) -> Seq<char> {
    match ioc_of(n) {
        Some((kind, value)) => "<tr><td>"@ + html_escaped(kind) + "</td><td>"@ + html_escaped(value)
            + "</td><td>"@ + html_escaped(n.label@) + "</td><td>"@ + confidence + "</td></tr>"@,
        None => Seq::empty(),
    }
}

/// The IOC rows of the first `k` nodes.
pub open spec fn ioc_rows(nodes: Seq<NodeRecord>, confidences: Seq<Seq<char>>, k: int) -> Seq<char>
    decreases k,
{
    if k <= 0 {
        Seq::empty()
    } else {
        ioc_rows(nodes, confidences, k - 1) + ioc_row(nodes[k - 1], confidences[k - 1])
    }
}

/// How many nodes are IOCs.
pub open spec fn ioc_count(nodes: Seq<NodeRecord>) -> nat {
    nodes.filter(|n: NodeRecord| ioc_of(n) is Some).len()
}

fn push_ioc_rows(out: &mut String, nodes: &Vec<NodeRecord>, confidences: &Vec<String>) -> (count: usize)
    requires
        confidences@.len() == nodes@.len(),
    ensures
        final(out)@ == old(out)@ + ioc_rows(nodes@, string_views(confidences@), nodes@.len() as int),
        count == ioc_count(nodes@),
{
    broadcast use vstd::seq_lib::group_seq_properties;

    let ghost start = out@;
    let ghost confs = string_views(confidences@);
    let mut count: usize = 0;
    let mut i: usize = 0;
    while i < nodes.len()
        invariant
            i <= nodes@.len(),
            confidences@.len() == nodes@.len(),
            confs == string_views(confidences@),
            out@ == start + ioc_rows(nodes@, confs, i as int),
            count == ioc_count(nodes@.take(i as int)),
            count <= i,
        decreases nodes.len() - i,
    {
        assert(nodes@.take(i + 1) =~= nodes@.take(i as int).push(nodes@[i as int]));
        proof {
            nodes@.take(i as int).lemma_filter_push(nodes@[i as int], |n: NodeRecord| ioc_of(n) is Some);
        }
        let n = &nodes[i];
        let entry: Option<(&str, &str)> = match &n.properties {
            TypeSpecificProps::IpAddress(p) if n.node_type == NodeType::IpAddress => Some(
                ("ip_address", p.address.as_str()),
            ),
            TypeSpecificProps::Domain(p) if n.node_type == NodeType::Domain => Some(
                ("domain", p.domain.as_str()),
            ),
            TypeSpecificProps::FileHash(p) if n.node_type == NodeType::FileHash => Some(
                ("file_hash", p.hash_value.as_str()),
            ),
            _ => None,
        };
        match entry {
            Some((kind, value)) => {
                out.append("<tr><td>");
                push_escaped_html(out, kind);
                out.append("</td><td>");
                push_escaped_html(out, value);
                out.append("</td><td>");
                push_escaped_html(out, n.label.as_str());
                out.append("</td><td>");
                out.append(confidences[i].as_str());
                out.append("</td></tr>");
                count = count + 1;
            },
            None => {},
        }
        assert(out@ =~= start + ioc_rows(nodes@, confs, i + 1));
        i = i + 1;
    }
    assert(nodes@.take(i as int) =~= nodes@);
    count
}

// ----------------------------------------------------------------------
// The page
// ----------------------------------------------------------------------

/// The graph-summary section, when the report includes it.
pub open spec fn summary_section(nodes: Seq<NodeRecord>, relations: Seq<RelationRecord>, shown: bool) -> Seq<char> {
    if shown {
        SUMMARY_OPEN@ + node_summary_rows(node_kinds_in_order(), nodes) + SUMMARY_BETWEEN@
            + relation_summary_rows(relation_kinds_in_order(), relations) + SUMMARY_CLOSE@
    } else {
        Seq::empty()
    }
}

/// The IOC section, when the report includes it.
pub open spec fn ioc_section(nodes: Seq<NodeRecord>, confidences: Seq<Seq<char>>, shown: bool) -> Seq<char> {
    if shown {
        IOC_OPEN@ + ioc_rows(nodes, confidences, nodes.len() as int) + IOC_CLOSE@
    } else {
        Seq::empty()
    }
}

/// The report page for the given graph, each IOC's confidence text,
/// configuration and generation time.
pub open spec fn report_page(
    nodes: Seq<NodeRecord>,
    confidences: Seq<Seq<char>>,
    relations: Seq<RelationRecord>,
    config: ReportConfig,
    generated_at: Seq<char>,
) -> Seq<char> {
    PAGE_HEAD@ + html_escaped(config.title@) + PAGE_STYLE@ + html_escaped(config.title@)
        + PAGE_AUTHOR@ + html_escaped(config.author@) + PAGE_ORGANIZATION@ + html_escaped(
        config.organization@,
    ) + PAGE_GENERATED_AT@ + html_escaped(generated_at) + PAGE_NODE_COUNT@ + decimal(
        nodes.len(),
    ) + PAGE_RELATION_COUNT@ + decimal(relations.len()) + PAGE_IOC_COUNT@ + decimal(
        ioc_count(nodes),
    ) + PAGE_SECTIONS@ + summary_section(nodes, relations, config.include_graph_summary)
        + PAGE_BETWEEN_SECTIONS@ + ioc_section(nodes, confidences, config.include_ioc_list)
        + PAGE_TAIL@
}

/// Renders the report page; `confidences` holds, for each node, its
/// confidence written with two decimals.
pub fn render_html_report(
    nodes: &Vec<NodeRecord>,
    confidences: &Vec<String>,
    relations: &Vec<RelationRecord>,
    config: &ReportConfig,
    generated_at: &str,
) -> (r: String)
    requires
        confidences@.len() == nodes@.len(),
    ensures
        r@ == report_page(nodes@, string_views(confidences@), relations@, *config, generated_at@),
{
    let mut summary = String::new();
    if config.include_graph_summary {
        summary.append(SUMMARY_OPEN);
        push_node_summary(&mut summary, nodes);
        summary.append(SUMMARY_BETWEEN);
        push_relation_summary(&mut summary, relations);
        summary.append(SUMMARY_CLOSE);
    }
    let mut iocs = String::new();
    let mut rows = String::new();
    let ioc_total = push_ioc_rows(&mut rows, nodes, confidences);
    if config.include_ioc_list {
        iocs.append(IOC_OPEN);
        iocs.append(rows.as_str());
        iocs.append(IOC_CLOSE);
    }
    let mut page = String::from_str(PAGE_HEAD);
    push_escaped_html(&mut page, config.title.as_str());
    page.append(PAGE_STYLE);
    push_escaped_html(&mut page, config.title.as_str());
    page.append(PAGE_AUTHOR);
    push_escaped_html(&mut page, config.author.as_str());
    page.append(PAGE_ORGANIZATION);
    push_escaped_html(&mut page, config.organization.as_str());
    page.append(PAGE_GENERATED_AT);
    push_escaped_html(&mut page, generated_at);
    page.append(PAGE_NODE_COUNT);
    push_decimal(&mut page, nodes.len() as u64);
    page.append(PAGE_RELATION_COUNT);
    push_decimal(&mut page, relations.len() as u64);
    page.append(PAGE_IOC_COUNT);
    push_decimal(&mut page, ioc_total as u64);
    page.append(PAGE_SECTIONS);
    page.append(summary.as_str());
    page.append(PAGE_BETWEEN_SECTIONS);
    page.append(iocs.as_str());
    page.append(PAGE_TAIL);
    assert(summary@ =~= summary_section(nodes@, relations@, config.include_graph_summary));
    assert(iocs@ =~= ioc_section(nodes@, string_views(confidences@), config.include_ioc_list));
    assert(page@ =~= report_page(nodes@, string_views(confidences@), relations@, *config, generated_at@));
    page
}

/// Generates the report page, stamped with the current time.
pub fn generate_html_report(
    nodes: &Vec<NodeRecord>,
    confidences: &Vec<String>,
    relations: &Vec<RelationRecord>,
    config: &ReportConfig,
) -> (r: String)
    requires
        confidences@.len() == nodes@.len(),
    ensures
        exists|reading: Option<u64>, t: Seq<char>|
            is_reading_text(reading, t) && r@ == report_page(
                nodes@,
                string_views(confidences@),
                relations@,
                *config,
                t,
            ),
{
    let generated_at = chrono_now();
    render_html_report(nodes, confidences, relations, config, generated_at.as_str())
}

/// The IOCs of a report are the IP address, domain and file hash nodes
/// whose properties match their type; each is listed with the snake-case
/// name of its node type as its kind and its address, domain or hash value
/// as its value, so nodes of different types never share a kind.
pub proof fn lemma_ioc_kind_is_node_type(n: NodeRecord, confidence: Seq<char>)
    ensures
        ioc_of(n) is Some <==> ((n.node_type == NodeType::IpAddress && n.properties is IpAddress)
            || (n.node_type == NodeType::Domain && n.properties is Domain) || (n.node_type
            == NodeType::FileHash && n.properties is FileHash)),
        ioc_of(n) is Some ==> ioc_of(n).unwrap().0 == node_type_snake(n.node_type),
        n.properties matches TypeSpecificProps::IpAddress(p) ==> (n.node_type == NodeType::IpAddress
            ==> ioc_of(n).unwrap().1 == p.address@),
        n.properties matches TypeSpecificProps::Domain(p) ==> (n.node_type == NodeType::Domain
            ==> ioc_of(n).unwrap().1 == p.domain@),
        n.properties matches TypeSpecificProps::FileHash(p) ==> (n.node_type == NodeType::FileHash
            ==> ioc_of(n).unwrap().1 == p.hash_value@),
        ioc_of(n) is Some ==> ioc_row(n, confidence) == "<tr><td>"@ + html_escaped(
            node_type_snake(n.node_type),
        ) + "</td><td>"@ + html_escaped(ioc_of(n).unwrap().1) + "</td><td>"@ + html_escaped(
            n.label@,
        ) + "</td><td>"@ + confidence + "</td></tr>"@,
        ioc_of(n) is None ==> ioc_row(n, confidence) == Seq::<char>::empty(),
{
}

} // verus!
