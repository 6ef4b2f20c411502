//! The decisions around the language-model service: its configuration, the
//! request it is sent, and the cleaning and checking of what it answers.
use vstd::prelude::*;
use vstd::string::StringExecFns;

use crate::domain::{node_type_by_name, relation_type_by_name, NodeType, RelationType};
use crate::error::{AppError, ErrorView};
use crate::text::{
    decimal, owned, push_decimal, strip_prefix, strip_suffix, trim, trim_end_char,
    trim_end_matches_char, trimmed,
};

verus! {

// ----------------------------------------------------------------------
// Configuration
// ----------------------------------------------------------------------

/// How to reach an OpenAI-compatible chat-completions service.
#[derive(Clone, Debug)]
pub struct LlmConfig {
    pub api_base: String,
    pub api_key: String,
    pub model: String,
    pub configured: bool,
}

impl Default for LlmConfig {
    /// Unconfigured, with the model `gpt-4o`.
    fn default() -> (r: Self)
        ensures
            r.api_base@ == Seq::<char>::empty(),
            r.api_key@ == Seq::<char>::empty(),
            r.model@ == "gpt-4o"@,
            !r.configured,
    {
        LlmConfig {
            api_base: String::new(),
            api_key: String::new(),
            model: String::from_str("gpt-4o"),
            configured: false,
        }
    }
}

/// What the user interface is told of the configuration (never the key).
#[derive(Clone, Debug)]
pub struct LlmConfigStatus {
    pub configured: bool,
    pub model: String,
    pub api_base: String,
}

/// A request to configure the service.
#[derive(Clone, Debug)]
pub struct ConfigureLlmRequest {
    pub api_base: String,
    pub api_key: String,
    pub model: String,
}

/// The status shown for `config`.
pub fn config_status(config: &LlmConfig) -> (r: LlmConfigStatus)
    ensures
        r.configured == config.configured,
        r.model@ == config.model@,
        r.api_base@ == config.api_base@,
{
    LlmConfigStatus {
        configured: config.configured,
        model: config.model.clone(),
        api_base: config.api_base.clone(),
    }
}

impl LlmConfig {
    /// The configuration stored for a configure request: every field
    /// trimmed, trailing slashes dropped from the base URL, and configured
    /// when the trimmed base URL and model are both non-empty.
    pub fn from_request(request: &ConfigureLlmRequest) -> (r: LlmConfig)
        ensures
            r.api_base@ == trim_end_char(trimmed(request.api_base@), '/'),
            r.api_key@ == trimmed(request.api_key@),
            r.model@ == trimmed(request.model@),
            r.configured == (trimmed(request.api_base@).len() > 0 && trimmed(
                request.model@,
            ).len() > 0),
    {
        let base = trim(request.api_base.as_str());
        let model = trim(request.model.as_str());
        LlmConfig {
            api_base: owned(trim_end_matches_char(base, '/')),
            api_key: owned(trim(request.api_key.as_str())),
            model: owned(model),
            configured: base.unicode_len() > 0 && model.unicode_len() > 0,
        }
    }
}

/// The configuration built from its three parts: every part trimmed,
/// trailing slashes dropped from the base URL, and configured when the
/// resulting base URL and model are both non-empty.
pub fn llm_config_from_parts(api_base: &str, api_key: &str, model: &str) -> (r: LlmConfig)
    ensures
        r.api_base@ == trim_end_char(trimmed(api_base@), '/'),
        r.api_key@ == trimmed(api_key@),
        r.model@ == trimmed(model@),
        r.configured == (r.api_base@.len() > 0 && r.model@.len() > 0),
{
    let base = trim_end_matches_char(trim(api_base), '/');
    let model = trim(model);
    LlmConfig {
        configured: base.unicode_len() > 0 && model.unicode_len() > 0,
        api_base: owned(base),
        api_key: owned(trim(api_key)),
        model: owned(model),
    }
}

/// Checks that the service can be called: it is marked configured, and
/// neither the base URL nor the model is blank.
pub fn validate_config(config: &LlmConfig) -> (r: Result<(), AppError>)
    ensures
        r is Ok <==> config.configured && trimmed(config.api_base@).len() > 0 && trimmed(
            config.model@,
        ).len() > 0,
        !config.configured ==> (r matches Err(e) && e@ == ErrorView::LlmService(
            "LLM not configured"@,
        )),
        config.configured && trimmed(config.api_base@).len() == 0 ==> (r matches Err(e) && e@
            == ErrorView::LlmService("LLM api_base is empty"@)),
        config.configured && trimmed(config.api_base@).len() > 0 && trimmed(config.model@).len()
            == 0 ==> (r matches Err(e) && e@ == ErrorView::LlmService("LLM model is empty"@)),
{
    if !config.configured {
        return Err(AppError::LlmService(String::from_str("LLM not configured")));
    }
    if trim(config.api_base.as_str()).unicode_len() == 0 {
        return Err(AppError::LlmService(String::from_str("LLM api_base is empty")));
    }
    if trim(config.model.as_str()).unicode_len() == 0 {
        return Err(AppError::LlmService(String::from_str("LLM model is empty")));
    }
    Ok(())
}

/// The chat-completions endpoint under `api_base`.
pub fn chat_url(api_base: &str) -> (r: String)
    ensures
        r@ == trim_end_char(api_base@, '/') + "/v1/chat/completions"@,
{
    let mut url = owned(trim_end_matches_char(api_base, '/'));
    url.append("/v1/chat/completions");
    url
}

/// The `Authorization` header value for `api_key`, if the trimmed key is
/// not empty.
pub fn authorization_header(api_key: &str) -> (r: Option<String>)
    ensures
        trimmed(api_key@).len() == 0 ==> r is None,
        trimmed(api_key@).len() > 0 ==> (r matches Some(h) && h@ == "Bearer "@ + trimmed(
            api_key@,
        )),
{
    let key = trim(api_key);
    if key.unicode_len() == 0 {
        None
    } else {
        let mut h = String::from_str("Bearer ");
        h.append(key);
        Some(h)
    }
}

// ----------------------------------------------------------------------
// Answers
// ----------------------------------------------------------------------

/// Three backticks.
pub open spec fn fence() -> Seq<char> {
    seq!['`', '`', '`']
}

/// Three backticks followed by `json`.
pub open spec fn json_fence() -> Seq<char> {
    fence() + seq!['j', 's', 'o', 'n']
}

/// What `s` holds between the opening fence `open` at its start and a
/// closing fence at its end, if it has both.
pub open spec fn unfenced(s: Seq<char>, open: Seq<char>) -> Option<Seq<char>> {
    if open.is_prefix_of(s) && fence().is_suffix_of(s.skip(open.len() as int)) {
        Some(s.skip(open.len() as int).take(s.len() - open.len() - fence().len()))
    } else {
        None
    }
}

/// A model answer with surrounding whitespace and a Markdown code fence
/// (with or without the `json` tag) removed.
pub open spec fn cleaned_response(raw: Seq<char>) -> Seq<char> {
    let t = trimmed(raw);
    match unfenced(t, json_fence()) {
        Some(inner) => trimmed(inner),
        None => match unfenced(t, fence()) {
            Some(inner) => trimmed(inner),
            None => t,
        },
    }
}

/// Strips whitespace and a Markdown code fence from a model answer.
pub fn clean_json_response(raw: &str) -> (r: String)
    ensures
        r@ == cleaned_response(raw@),
{
    let t = trim(raw);
    let json_open = "```json";
    let plain = "```";
    proof {
        reveal_strlit("```json");
        reveal_strlit("```");
        assert(json_open@ =~= json_fence());
        assert(plain@ =~= fence());
    }
    if let Some(v) = strip_prefix(t, json_open) {
        if let Some(inner) = strip_suffix(v, plain) {
            return owned(trim(inner));
        }
    }
    if let Some(v) = strip_prefix(t, plain) {
        if let Some(inner) = strip_suffix(v, plain) {
            return owned(trim(inner));
        }
    }
    owned(t)
}

/// Reads a node type named by the model, in `snake_case` or as the
/// variant's name.
pub fn parse_node_type(value: &str) -> (r: Result<NodeType, AppError>)
    ensures
        match r {
            Ok(t) => node_type_by_name(value@) == Some(t),
            Err(e) => node_type_by_name(value@) is None && e@ == ErrorView::LlmService(
                "unknown node_type: "@ + value@,
            ),
        },
{
    match NodeType::from_name(value) {
        Some(t) => Ok(t),
        None => {
            let mut m = String::from_str("unknown node_type: ");
            m.append(value);
            Err(AppError::LlmService(m))
        },
    }
}

/// Reads a relation type named by the model, in `snake_case` or as the
/// variant's name.
pub fn parse_relation_type(value: &str) -> (r: Result<RelationType, AppError>)
    ensures
        match r {
            Ok(t) => relation_type_by_name(value@) == Some(t),
            Err(e) => relation_type_by_name(value@) is None && e@ == ErrorView::LlmService(
                "unknown relation_type: "@ + value@,
            ),
        },
{
    match RelationType::from_name(value) {
        Some(t) => Ok(t),
        None => {
            let mut m = String::from_str("unknown relation_type: ");
            m.append(value);
            Err(AppError::LlmService(m))
        },
    }
}

/// Checks that a relation proposed by the model joins two of the
/// `entity_count` extracted entities.
pub fn check_relation_indices(source_index: usize, target_index: usize, entity_count: usize) -> (r:
    Result<(), AppError>)
    ensures
        r is Ok <==> source_index < entity_count && target_index < entity_count,
        r matches Err(e) ==> e@ == ErrorView::LlmService(
            "relation index out of range: source_index="@ + decimal(source_index as nat)
                + ", target_index="@ + decimal(target_index as nat) + ", entity_count="@
                + decimal(entity_count as nat),
        ),
{
    if source_index >= entity_count || target_index >= entity_count {
        let mut m = String::from_str("relation index out of range: source_index=");
        push_decimal(&mut m, source_index as u64);
        m.append(", target_index=");
        push_decimal(&mut m, target_index as u64);
        m.append(", entity_count=");
        push_decimal(&mut m, entity_count as u64);
        return Err(AppError::LlmService(m));
    }
    Ok(())
}

/// Whether the service may be used: fails when it is not configured.
pub fn require_configured(config: &LlmConfig) -> (r: Result<(), String>)
    ensures
        r is Ok <==> config.configured,
        r matches Err(m) ==> m@ == "LLM is not configured"@,
{
    if config.configured {
        Ok(())
    } else {
        Err(String::from_str("LLM is not configured"))
    }
}

} // verus!
