//! The language-model side of an investigation: the prompts, the requests
//! built around them, and the reading of what the model answers —
//! extracted relations, suggested next steps and approved agent actions.
//!
//! Confidences, which the model gives as fractions, stay with the caller.
use vstd::prelude::*;
use vstd::string::StringExecFns;

use crate::domain::{
    node_type_by_name, node_type_variant, relation_type_by_name, NodeType, RelationType,
};
use crate::error::{AppError, ErrorView};
use crate::graph::types::string_views;
use crate::json::{json_string, json_string_literal};
use crate::llm::{check_relation_indices, parse_node_type, parse_relation_type};
use crate::text::{decimal, join, push_decimal, trim, trimmed};

verus! {

// ----------------------------------------------------------------------
// Prompts
// ----------------------------------------------------------------------

/// The system prompt that asks the model for the entities of a text.
pub const ENTITY_EXTRACTION_SYSTEM: &'static str = "You are a cyber threat intelligence analyst. Extract all security-relevant entities from the text.\n\nReturn ONLY valid JSON, no markdown, no explanation:\n{\n  \"entities\": [\n    {\n      \"node_type\": \"IpAddress\",\n      \"label\": \"192.168.1.1\",\n      \"description\": \"C2 server observed in traffic\",\n      \"confidence\": 0.95,\n      \"properties\": { \"address\": \"192.168.1.1\", \"version\": \"IPv4\" }\n    }\n  ]\n}\n\nValid node_type values: IpAddress, Domain, FileHash, Process, Malware, Ttp, ThreatActor, Asset\n\nType-specific properties (only include known fields):\n- IpAddress: { \"address\": \"...\", \"version\": \"IPv4|IPv6\", \"geo_location\": \"...\", \"asn\": \"...\", \"isp\": \"...\" }\n- Domain: { \"domain\": \"...\", \"registrar\": \"...\", \"creation_date\": \"...\" }\n- FileHash: { \"hash_value\": \"...\", \"algorithm\": \"MD5|SHA1|SHA256\", \"file_name\": \"...\", \"file_size\": 0, \"file_type\": \"...\", \"malware_classification\": \"...\" }\n- Process: { \"process_name\": \"...\", \"pid\": 0, \"command_line\": \"...\", \"parent_process\": \"...\", \"user\": \"...\" }\n- Malware: { \"family_name\": \"...\", \"aliases\": [...], \"malware_type\": \"...\", \"first_seen\": \"...\" }\n- Ttp: { \"mitre_id\": \"T1059.001\", \"tactic\": \"Execution\", \"platform\": [...], \"data_source\": [...] }\n- ThreatActor: { \"name\": \"...\", \"aliases\": [...], \"motivation\": \"...\", \"sophistication\": \"...\", \"targets\": [...] }\n- Asset: { \"hostname\": \"...\", \"os\": \"...\", \"ip_addresses\": [...], \"owner\": \"...\", \"criticality\": \"...\" }\n\nConfidence: 0.9+ for explicitly named entities, 0.5-0.7 for inferred ones.";

/// The system prompt that asks the model for the relations among extracted entities.
pub const RELATION_EXTRACTION_SYSTEM: &'static str = "You are a cyber threat intelligence analyst. Given a list of entities and the original text, identify all relationships between entities.\n\nReturn ONLY valid JSON, no markdown, no explanation:\n{\n  \"relations\": [\n    {\n      \"source_index\": 0,\n      \"target_index\": 1,\n      \"relation_type\": \"ConnectsTo\",\n      \"label\": \"outbound connection to C2\",\n      \"confidence\": 0.9\n    }\n  ]\n}\n\nsource_index and target_index refer to array positions in the entity list provided.\nValid relation_type values: ConnectsTo, ResolvesTo, Creates, BelongsTo, Uses, Targets, Contains\n\nMapping:\n- ConnectsTo: network connection (IP→IP, Process→IP)\n- ResolvesTo: DNS resolution (Domain→IP)\n- Creates: process/file creation (Process→File)\n- BelongsTo: ownership/attribution (File→Malware, IP→ThreatActor)\n- Uses: technique usage (ThreatActor→Ttp, Malware→Ttp)\n- Targets: attack target (ThreatActor→Asset)\n- Contains: containment (Malware→File)";

/// The system prompt that asks the model for next investigation steps.
pub const SUGGESTION_SYSTEM: &'static str = "You are a senior DFIR investigator. Given the current investigation graph state, suggest the most valuable next steps.\n\nReturn ONLY valid JSON, no markdown, no explanation:\n{\n  \"suggestions\": [\n    {\n      \"action\": \"add_node\",\n      \"description\": \"Add the C2 domain resolved by this IP based on DNS pivot analysis\",\n      \"entity_type\": \"Domain\",\n      \"relation_type\": null,\n      \"confidence\": 0.7\n    }\n  ]\n}\n\nValid actions: add_node, add_relation, query_external, investigate\nentity_type only for add_node. relation_type only for add_relation.";

/// The agent's system prompt before the list of tools.
pub const AGENT_PROMPT_HEAD: &'static str = "You are an autonomous DFIR investigation agent.\nGiven the current investigation graph state, propose concrete next actions.\n\n";

/// The agent's system prompt after the list of tools.
pub const AGENT_PROMPT_TAIL: &'static str = "\n\nReturn ONLY valid JSON. Do not include markdown fences or commentary.\n{\n  \"reasoning\": \"explain your investigative reasoning in 2-3 sentences\",\n  \"actions\": [\n    { \"action\": \"AddNode\", \"params\": { \"node_type\": \"ip_address\", \"label\": \"...\", \"description\": \"...\", \"confidence\": 0.8, \"pos_x\": 0.0, \"pos_y\": 0.0 } },\n    { \"action\": \"AddRelation\", \"params\": { \"source_node_id\": \"node-1\", \"target_node_id\": \"node-2\", \"relation_type\": \"connects_to\", \"label\": \"...\", \"confidence\": 0.8 } },\n    { \"action\": \"QueryExternal\", \"params\": { \"query_type\": \"virustotal|whois|shodan\", \"query_value\": \"...\" } },\n    { \"action\": \"UseTool\", \"params\": { \"tool_name\": \"virustotal_ip_lookup\", \"params\": { \"ip_address\": \"8.8.8.8\" }, \"auto_merge\": true } }\n  ]\n}\nFocus on high-impact actions. Be specific and data-driven. Use UseTool when an available investigation tool is a better fit than a generic external query.";

// ----------------------------------------------------------------------
// The agent's request
// ----------------------------------------------------------------------

/// The agent's system prompt with the list of available tools in place.
pub open spec fn agent_prompt_text(tool_section: Seq<char>) -> Seq<char> {
    AGENT_PROMPT_HEAD@ + tool_section + AGENT_PROMPT_TAIL@
}

/// The agent's system prompt with the list of available tools in place.
pub fn agent_prompt(tool_section: &str) -> (r: String)
    ensures
        r@ == agent_prompt_text(tool_section@),
{
    let mut r = String::from_str(AGENT_PROMPT_HEAD);
    r.append(tool_section);
    r.append(AGENT_PROMPT_TAIL);
    r
}

/// One string of an indented JSON array, as a JSON string literal.
pub open spec fn pretty_item(s: Seq<char>) -> Seq<char> {
    "    "@ + json_string_literal(s)
}

/// An array of strings as the value of a top-level entry of a JSON object
/// printed with two-space indentation.
pub open spec fn pretty_array(items: Seq<Seq<char>>) -> Seq<char> {
    if items.len() == 0 {
        "[]"@
    } else {
        "[\n"@ + join(items.map_values(|s: Seq<char>| pretty_item(s)), ",\n"@) + "\n  ]"@
    }
}

/// The graph state handed to the agent: the node and relation summaries
/// as a JSON object printed with two-space indentation.
pub open spec fn agent_state_text(nodes: Seq<Seq<char>>, relations: Seq<Seq<char>>) -> Seq<char> {
    "{\n  \"nodes\": "@ + pretty_array(nodes) + ",\n  \"relations\": "@ + pretty_array(relations)
        + "\n}"@
}

/// The agent's user message for a graph with these summaries.
pub open spec fn agent_message_text(nodes: Seq<Seq<char>>, relations: Seq<Seq<char>>) -> Seq<char> {
    "Current investigation graph:\n"@ + agent_state_text(nodes, relations)
        + "\n\nPropose next actions."@
}

/// Appends an array of strings as the value of a top-level entry.
fn push_pretty_array(out: &mut String, items: &Vec<String>)
    ensures
        final(out)@ == old(out)@ + pretty_array(string_views(items@)),
{
    if items.len() == 0 {
        out.append("[]");
        return;
    }
    let ghost start = out@;
    let ghost all = string_views(items@).map_values(|s: Seq<char>| pretty_item(s));
    out.append("[\n");
    let mut i: usize = 0;
    while i < items.len()
        invariant
            i <= items@.len(),
            items@.len() > 0,
            all == string_views(items@).map_values(|s: Seq<char>| pretty_item(s)),
            out@ == start + "[\n"@ + join(all.take(i as int), ",\n"@),
        decreases items.len() - i,
    {
        let ghost before = out@;
        if i > 0 {
            out.append(",\n");
        }
        out.append("    ");
        let quoted = json_string(items[i].as_str());
        out.append(quoted.as_str());
        proof {
            let t = all.take(i + 1);
            assert(t.drop_last() =~= all.take(i as int));
            assert(t.last() == pretty_item(items@[i as int]@));
            if i == 0 {
                assert(join(t, ",\n"@) == t[0]);
            }
            assert(out@ =~= start + "[\n"@ + join(t, ",\n"@));
        }
        i = i + 1;
    }
    assert(all.take(i as int) =~= all);
    out.append("\n  ]");
}

/// The agent's user message: the node and relation summaries of the
/// graph as indented JSON, and the request for next actions.
pub fn agent_message(node_summaries: &Vec<String>, relation_summaries: &Vec<String>) -> (r: String)
    ensures
        r@ == agent_message_text(string_views(node_summaries@), string_views(relation_summaries@)),
{
    let mut r = String::from_str("Current investigation graph:\n");
    r.append("{\n  \"nodes\": ");
    push_pretty_array(&mut r, node_summaries);
    r.append(",\n  \"relations\": ");
    push_pretty_array(&mut r, relation_summaries);
    r.append("\n}");
    r.append("\n\nPropose next actions.");
    assert(r@ =~= agent_message_text(string_views(node_summaries@), string_views(relation_summaries@)));
    r
}

// ----------------------------------------------------------------------
// Approving the agent's actions
// ----------------------------------------------------------------------

/// An analyst's decision on one proposed action, possibly with a
/// replacement action written as JSON.
#[derive(Clone, Debug)]
pub struct ActionApproval {
    pub action_index: usize,
    pub approved: bool,
    pub modifications: Option<String>,
}

/// What becomes of an approved action: it is kept as proposed, or replaced
/// by the action the given JSON describes.
#[derive(Debug)]
pub enum ApprovalStep {
    Keep(usize),
    Replace(usize, String),
}

/// The abstract value of an [`ApprovalStep`].
pub enum StepView {
    Keep(int),
    Replace(int, Seq<char>),
}

/// The abstract value of an approval step.
pub open spec fn step_view(s: ApprovalStep) -> StepView {
    match s {
        ApprovalStep::Keep(i) => StepView::Keep(i as int),
        ApprovalStep::Replace(i, raw) => StepView::Replace(i as int, raw@),
    }
}

/// The first approving decision on action `i`.
pub open spec fn first_approval(approvals: Seq<ActionApproval>, i: int) -> Option<ActionApproval>
    decreases approvals.len(),
{
    if approvals.len() == 0 {
        None
    } else if approvals[0].approved && approvals[0].action_index == i {
        Some(approvals[0])
    } else {
        first_approval(approvals.drop_first(), i)
    }
}

/// What the approving decision `a` does to action `i`: a replacement that
/// is not blank replaces it, else it is kept.
pub open spec fn step_of(a: ActionApproval, i: int) -> StepView {
    match a.modifications {
        Some(raw) => if trimmed(raw@).len() > 0 {
            StepView::Replace(i, raw@)
        } else {
            StepView::Keep(i)
        },
        None => StepView::Keep(i),
    }
}

/// The steps for the first `n` proposed actions: one for each approved
/// action, in order.
pub open spec fn approval_plan(approvals: Seq<ActionApproval>, n: nat) -> Seq<StepView>
    decreases n,
{
    if n == 0 {
        Seq::empty()
    } else {
        let before = approval_plan(approvals, (n - 1) as nat);
        match first_approval(approvals, n - 1) {
            Some(a) => before.push(step_of(a, n - 1)),
            None => before,
        }
    }
}

/// The first approving decision on action `i`.
fn find_approval<'a>(approvals: &'a Vec<ActionApproval>, i: usize) -> (r: Option<&'a ActionApproval>)
    ensures
        match r {
            Some(a) => first_approval(approvals@, i as int) == Some(*a),
            None => first_approval(approvals@, i as int) is None,
        },
{
    let mut j: usize = 0;
    assert(approvals@.skip(0) =~= approvals@);
    while j < approvals.len()
        invariant
            j <= approvals@.len(),
            first_approval(approvals@, i as int) == first_approval(approvals@.skip(j as int), i as int),
        decreases approvals.len() - j,
    {
        assert(approvals@.skip(j as int)[0] == approvals@[j as int]);
        if approvals[j].approved && approvals[j].action_index == i {
            return Some(&approvals[j]);
        }
        assert(approvals@.skip(j as int).drop_first() =~= approvals@.skip(j + 1));
        j = j + 1;
    }
    None
}

/// What to do with each of the `action_count` proposed actions that an
/// analyst approved, in the order of the actions: keep it, or replace it
/// by the first approving decision's replacement when that is not blank.
pub fn approval_steps(action_count: usize, approvals: &Vec<ActionApproval>) -> (r: Vec<ApprovalStep>)
    ensures
        r@.map_values(|s: ApprovalStep| step_view(s)) == approval_plan(approvals@, action_count as nat),
{
    let mut steps: Vec<ApprovalStep> = Vec::new();
    let mut i: usize = 0;
    while i < action_count
        invariant
            i <= action_count,
            steps@.map_values(|s: ApprovalStep| step_view(s)) == approval_plan(approvals@, i as nat),
        decreases action_count - i,
    {
        let ghost before = steps@;
        match find_approval(approvals, i) {
            Some(a) => {
                let step = match &a.modifications {
                    Some(raw) => {
                        if trim(raw.as_str()).unicode_len() > 0 {
                            ApprovalStep::Replace(i, raw.clone())
                        } else {
                            ApprovalStep::Keep(i)
                        }
                    },
                    None => ApprovalStep::Keep(i),
                };
                assert(step_view(step) == step_of(*a, i as int));
                steps.push(step);
                assert(steps@.map_values(|s: ApprovalStep| step_view(s)) =~= before.map_values(
                    |s: ApprovalStep| step_view(s),
                ).push(step_of(*a, i as int)));
            },
            None => {},
        }
        i = i + 1;
    }
    steps
}

/// The error for a replacement of action `index` that does not describe an
/// action, with the reader's explanation `detail`.
pub fn modification_error(index: usize, detail: &str) -> (e: AppError)
    ensures
        e@ == ErrorView::InvalidInput(
            "invalid approval modification for action "@ + decimal(index as nat) + ": "@ + detail@,
        ),
{
    let mut m = String::from_str("invalid approval modification for action ");
    push_decimal(&mut m, index as u64);
    m.append(": ");
    m.append(detail);
    AppError::InvalidInput(m)
}

// ----------------------------------------------------------------------
// Suggested next steps
// ----------------------------------------------------------------------

/// The kind of a suggested next step.
#[derive(Clone, Copy, Debug, PartialEq, Eq, Structural)]
pub enum SuggestionAction {
    AddNode,
    AddRelation,
    QueryExternal,
    Investigate,
}

/// A next step as the model states it.
#[derive(Debug)]
pub struct RawSuggestion {
    pub action: String,
    pub description: String,
    pub entity_type: Option<String>,
    pub relation_type: Option<String>,
}

/// A next step, read.
#[derive(Debug)]
pub struct Suggestion {
    pub action: SuggestionAction,
    pub description: String,
    pub entity_type: Option<NodeType>,
    pub relation_type: Option<RelationType>,
}

/// The action a step names.
pub open spec fn action_by_name(s: Seq<char>) -> Option<SuggestionAction> {
    if s == "add_node"@ {
        Some(SuggestionAction::AddNode)
    } else if s == "add_relation"@ {
        Some(SuggestionAction::AddRelation)
    } else if s == "query_external"@ {
        Some(SuggestionAction::QueryExternal)
    } else if s == "investigate"@ {
        Some(SuggestionAction::Investigate)
    } else {
        None
    }
}

/// The action a step names: `add_node`, `add_relation`, `query_external`
/// or `investigate`.
pub fn suggestion_action(name: &str) -> (r: Result<SuggestionAction, AppError>)
    ensures
        match action_by_name(name@) {
            Some(a) => r matches Ok(x) && x == a,
            None => r matches Err(e) && e@ == ErrorView::LlmService(
                "Unknown suggestion action: "@ + name@,
            ),
        },
{
    if crate::text::str_eq(name, "add_node") {
        Ok(SuggestionAction::AddNode)
    } else if crate::text::str_eq(name, "add_relation") {
        Ok(SuggestionAction::AddRelation)
    } else if crate::text::str_eq(name, "query_external") {
        Ok(SuggestionAction::QueryExternal)
    } else if crate::text::str_eq(name, "investigate") {
        Ok(SuggestionAction::Investigate)
    } else {
        let mut m = String::from_str("Unknown suggestion action: ");
        m.append(name);
        Err(AppError::LlmService(m))
    }
}

/// Why a stated step cannot be read: an unknown action, then an unknown
/// entity type, then an unknown relation type.
pub open spec fn suggestion_failure(raw: RawSuggestion) -> Option<ErrorView> {
    if action_by_name(raw.action@) is None {
        Some(ErrorView::LlmService("Unknown suggestion action: "@ + raw.action@))
    } else if raw.entity_type matches Some(t) && node_type_by_name(t@) is None {
        Some(ErrorView::LlmService("unknown node_type: "@ + raw.entity_type->Some_0@))
    } else if raw.relation_type matches Some(t) && relation_type_by_name(t@) is None {
        Some(ErrorView::LlmService("unknown relation_type: "@ + raw.relation_type->Some_0@))
    } else {
        None
    }
}

/// `s` is the reading of the stated step `raw`.
pub open spec fn reads_suggestion(raw: RawSuggestion, s: Suggestion) -> bool {
    &&& action_by_name(raw.action@) == Some(s.action)
    &&& s.description == raw.description
    &&& match raw.entity_type {
        Some(t) => node_type_by_name(t@) == s.entity_type,
        None => s.entity_type is None,
    }
    &&& match raw.relation_type {
        Some(t) => relation_type_by_name(t@) == s.relation_type,
        None => s.relation_type is None,
    }
}

/// Reads one stated step.
pub fn read_suggestion(raw: &RawSuggestion) -> (r: Result<Suggestion, AppError>)
    ensures
        match suggestion_failure(*raw) {
            Some(v) => r matches Err(e) && e@ == v,
            None => r matches Ok(s) && reads_suggestion(*raw, s),
        },
{
    let action = match suggestion_action(raw.action.as_str()) {
        Ok(a) => a,
        Err(e) => {
            return Err(e);
        },
    };
    let entity_type = match &raw.entity_type {
        Some(t) => match parse_node_type(t.as_str()) {
            Ok(x) => Some(x),
            Err(e) => {
                return Err(e);
            },
        },
        None => None,
    };
    let relation_type = match &raw.relation_type {
        Some(t) => match parse_relation_type(t.as_str()) {
            Ok(x) => Some(x),
            Err(e) => {
                return Err(e);
            },
        },
        None => None,
    };
    Ok(Suggestion { action, description: raw.description.clone(), entity_type, relation_type })
}

/// Reads the stated steps in order; the first that cannot be read fails
/// the whole answer.
pub fn read_suggestions(raws: &Vec<RawSuggestion>) -> (r: Result<Vec<Suggestion>, AppError>)
    ensures
        match r {
            Ok(v) => v@.len() == raws@.len() && forall|i: int|
                0 <= i < raws@.len() ==> suggestion_failure(#[trigger] raws@[i]) is None
                    && reads_suggestion(raws@[i], v@[i]),
            Err(e) => exists|k: int|
                0 <= k < raws@.len() && suggestion_failure(#[trigger] raws@[k]) == Some(e@)
                    && forall|i: int| 0 <= i < k ==> suggestion_failure(#[trigger] raws@[i]) is None,
        },
{
    let mut out: Vec<Suggestion> = Vec::new();
    let mut i: usize = 0;
    while i < raws.len()
        invariant
            i <= raws@.len(),
            out@.len() == i,
            forall|q: int|
                0 <= q < i ==> suggestion_failure(#[trigger] raws@[q]) is None && reads_suggestion(
                    raws@[q],
                    out@[q],
                ),
        decreases raws.len() - i,
    {
        match read_suggestion(&raws[i]) {
            Ok(s) => {
                out.push(s);
            },
            Err(e) => {
                assert(suggestion_failure(raws@[i as int]) == Some(e@));
                return Err(e);
            },
        }
        i = i + 1;
    }
    Ok(out)
}

/// The user message asking for next steps on a graph described by
/// `node_info`.
pub open spec fn suggestion_request_text(node_info: Seq<char>) -> Seq<char> {
    "Investigation graph nodes:\n"@ + node_info + "\n\nSuggest next investigation steps."@
}

/// The user message asking for next steps on a graph described by
/// `node_info`.
pub fn suggestion_request(node_info: &str) -> (r: String)
    ensures
        r@ == suggestion_request_text(node_info@),
{
    let mut r = String::from_str("Investigation graph nodes:\n");
    r.append(node_info);
    r.append("\n\nSuggest next investigation steps.");
    r
}

// ----------------------------------------------------------------------
// Extracted relations
// ----------------------------------------------------------------------

/// A relation between extracted entities as the model states it.
#[derive(Debug)]
pub struct RawRelation {
    pub source_index: usize,
    pub target_index: usize,
    pub relation_type: String,
    pub label: Option<String>,
}

/// A relation between extracted entities, read.
#[derive(Debug)]
pub struct ExtractedRelation {
    pub source_index: usize,
    pub target_index: usize,
    pub relation_type: RelationType,
    pub label: String,
}

/// Why a stated relation among `entity_count` entities cannot be read: an
/// index out of range, then an unknown relation type.
pub open spec fn relation_failure(raw: RawRelation, entity_count: nat) -> Option<ErrorView> {
    if raw.source_index >= entity_count || raw.target_index >= entity_count {
        Some(
            ErrorView::LlmService(
                "relation index out of range: source_index="@ + decimal(raw.source_index as nat)
                    + ", target_index="@ + decimal(raw.target_index as nat) + ", entity_count="@
                    + decimal(entity_count),
            ),
        )
    } else if relation_type_by_name(raw.relation_type@) is None {
        Some(ErrorView::LlmService("unknown relation_type: "@ + raw.relation_type@))
    } else {
        None
    }
}

/// `x` is the reading of the stated relation `raw`.
pub open spec fn reads_relation(raw: RawRelation, x: ExtractedRelation) -> bool {
    &&& x.source_index == raw.source_index
    &&& x.target_index == raw.target_index
    &&& relation_type_by_name(raw.relation_type@) == Some(x.relation_type)
    &&& x.label@ == match raw.label {
        Some(l) => l@,
        None => Seq::<char>::empty(),
    }
}

/// Reads one stated relation among `entity_count` entities.
pub fn read_relation(raw: &RawRelation, entity_count: usize) -> (r: Result<ExtractedRelation, AppError>)
    ensures
        match relation_failure(*raw, entity_count as nat) {
            Some(v) => r matches Err(e) && e@ == v,
            None => r matches Ok(x) && reads_relation(*raw, x),
        },
{
    match check_relation_indices(raw.source_index, raw.target_index, entity_count) {
        Ok(()) => {},
        Err(e) => {
            return Err(e);
        },
    }
    let relation_type = match parse_relation_type(raw.relation_type.as_str()) {
        Ok(t) => t,
        Err(e) => {
            return Err(e);
        },
    };
    let label = match &raw.label {
        Some(l) => l.clone(),
        None => String::new(),
    };
    Ok(
        ExtractedRelation {
            source_index: raw.source_index,
            target_index: raw.target_index,
            relation_type,
            label,
        },
    )
}

/// Reads the stated relations in order; the first that cannot be read
/// fails the whole answer.
pub fn read_relations(raws: &Vec<RawRelation>, entity_count: usize) -> (r: Result<
    Vec<ExtractedRelation>,
    AppError,
>)
    ensures
        match r {
            Ok(v) => v@.len() == raws@.len() && forall|i: int|
                0 <= i < raws@.len() ==> relation_failure(#[trigger] raws@[i], entity_count as nat)
                    is None && reads_relation(raws@[i], v@[i]),
            Err(e) => exists|k: int|
                0 <= k < raws@.len() && relation_failure(#[trigger] raws@[k], entity_count as nat)
                    == Some(e@) && forall|i: int|
                    0 <= i < k ==> relation_failure(#[trigger] raws@[i], entity_count as nat) is None,
        },
{
    let mut out: Vec<ExtractedRelation> = Vec::new();
    let mut i: usize = 0;
    while i < raws.len()
        invariant
            i <= raws@.len(),
            out@.len() == i,
            forall|q: int|
                0 <= q < i ==> relation_failure(#[trigger] raws@[q], entity_count as nat) is None
                    && reads_relation(raws@[q], out@[q]),
        decreases raws.len() - i,
    {
        match read_relation(&raws[i], entity_count) {
            Ok(x) => {
                out.push(x);
            },
            Err(e) => {
                assert(relation_failure(raws@[i as int], entity_count as nat) == Some(e@));
                return Err(e);
            },
        }
        i = i + 1;
    }
    Ok(out)
}

/// One line of the entity list: `[index] Variant: label`.
pub open spec fn entity_line(index: nat, t: NodeType, label: Seq<char>) -> Seq<char> {
    "["@ + decimal(index) + "] "@ + node_type_variant(t) + ": "@ + label
}

/// The entity lines of the first `n` entities.
pub open spec fn entity_lines(entities: Seq<(NodeType, String)>, n: nat) -> Seq<Seq<char>> {
    Seq::new(n, |i: int| entity_line(i as nat, entities[i].0, entities[i].1@))
}

/// The user message asking for the relations among `entities` in `text`.
pub open spec fn relation_request_text(text: Seq<char>, entities: Seq<(NodeType, String)>) -> Seq<char> {
    "Original text:\n"@ + text + "\n\nEntities:\n"@ + join(
        entity_lines(entities, entities.len()),
        "\n"@,
    ) + "\n\nExtract supported relations using the indexes above."@
}

/// The user message asking for the relations among the extracted entities
/// (given by type and label) in `text`, each listed with its index.
pub fn relation_request(text: &str, entities: &Vec<(NodeType, String)>) -> (r: String)
    ensures
        r@ == relation_request_text(text@, entities@),
{
    let mut r = String::from_str("Original text:\n");
    r.append(text);
    r.append("\n\nEntities:\n");
    let ghost start = r@;
    let mut i: usize = 0;
    while i < entities.len()
        invariant
            i <= entities@.len(),
            r@ == start + join(entity_lines(entities@, i as nat), "\n"@),
        decreases entities.len() - i,
    {
        let ghost before = r@;
        if i > 0 {
            r.append("\n");
        }
        r.append("[");
        push_decimal(&mut r, i as u64);
        r.append("] ");
        r.append(entities[i].0.variant_name());
        r.append(": ");
        r.append(entities[i].1.as_str());
        proof {
            let t = entity_lines(entities@, (i + 1) as nat);
            assert(t.drop_last() =~= entity_lines(entities@, i as nat));
            if i == 0 {
                assert(join(t, "\n"@) == t[0]);
            }
            assert(r@ =~= start + join(t, "\n"@));
        }
        i = i + 1;
    }
    r.append("\n\nExtract supported relations using the indexes above.");
    r
}

} // verus!
