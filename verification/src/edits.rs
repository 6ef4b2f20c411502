//! The write side of the assistant's tool server: reading the node and
//! relation types a request names, the rows an addition stores, and the
//! answers and errors of additions and deletions.
//!
//! Confidences and canvas positions stay with the caller.
use vstd::prelude::*;
use vstd::string::StringExecFns;

use crate::domain::{
    node_type_by_snake, node_type_snake, relation_type_by_snake, relation_type_snake, NodeType,
    RelationType,
};
use crate::error::{AppError, ErrorView};
use crate::json::{json_string, json_string_literal};
use crate::queries::{McpError, StoredNode};
use crate::text::owned;

verus! {

/// `e` is the application error `v`.
pub open spec fn is_app_error(e: McpError, v: ErrorView) -> bool {
    e matches McpError::App(a) && a@ == v
}

/// The node type a request names by its snake_case name.
pub fn parse_node_type(value: &str) -> (r: Result<NodeType, McpError>)
    ensures
        match node_type_by_snake(value@) {
            Some(t) => r matches Ok(x) && x == t,
            None => r matches Err(e) && is_app_error(
                e,
                ErrorView::InvalidInput("unsupported node_type: "@ + value@),
            ),
        },
{
    match NodeType::from_snake_name(value) {
        Some(t) => Ok(t),
        None => {
            let mut m = String::from_str("unsupported node_type: ");
            m.append(value);
            Err(McpError::App(AppError::InvalidInput(m)))
        },
    }
}

/// The relation type a request names by its snake_case name.
pub fn parse_relation_type(value: &str) -> (r: Result<RelationType, McpError>)
    ensures
        match relation_type_by_snake(value@) {
            Some(t) => r matches Ok(x) && x == t,
            None => r matches Err(e) && is_app_error(
                e,
                ErrorView::InvalidInput("unsupported relation_type: "@ + value@),
            ),
        },
{
    match RelationType::from_snake_name(value) {
        Some(t) => Ok(t),
        None => {
            let mut m = String::from_str("unsupported relation_type: ");
            m.append(value);
            Err(McpError::App(AppError::InvalidInput(m)))
        },
    }
}

/// A request to add a node.
#[derive(Debug)]
pub struct AddNodeRequest {
    pub investigation_id: String,
    pub node_type: String,
    pub label: String,
    pub description: Option<String>,
    pub properties: Option<String>,
}

/// A request to add a relation.
#[derive(Debug)]
pub struct AddRelationRequest {
    pub investigation_id: String,
    pub relation_type: String,
    pub source_node_id: String,
    pub target_node_id: String,
    pub label: Option<String>,
}

/// A request to delete a node.
#[derive(Debug)]
pub struct DeleteNodeParams {
    pub node_id: String,
}

/// A node row to store.
#[derive(Debug)]
pub struct NewNodeRow {
    pub fixed_id: String,
    pub investigation_id: String,
    pub node_type: String,
    pub label: String,
    pub description: String,
    pub properties: String,
}

/// A relation row to store.
#[derive(Debug)]
pub struct NewRelationRow {
    pub investigation_id: String,
    pub relation_type: String,
    pub source_node_id: String,
    pub target_node_id: String,
    pub label: String,
    pub first_seen: Option<String>,
    pub last_seen: Option<String>,
    pub properties: String,
}

/// The text of an optional field, empty when it is absent.
pub open spec fn text_or_empty(o: Option<String>) -> Seq<char> {
    match o {
        Some(s) => s@,
        None => Seq::empty(),
    }
}

/// The row stored for an added node with ID `fixed_id`: its type in
/// snake_case, an empty description and `{}` properties when none are
/// given.  Fails on an unknown node type.
pub fn node_row(request: AddNodeRequest, fixed_id: String) -> (r: Result<NewNodeRow, McpError>)
    ensures
        match node_type_by_snake(request.node_type@) {
            None => r matches Err(e) && is_app_error(
                e,
                ErrorView::InvalidInput("unsupported node_type: "@ + request.node_type@),
            ),
            Some(t) => r matches Ok(row) && row.fixed_id == fixed_id && row.investigation_id
                == request.investigation_id && row.node_type@ == node_type_snake(t) && row.label
                == request.label && row.description@ == text_or_empty(request.description)
                && row.properties@ == (match request.properties {
                Some(p) => p@,
                None => "{}"@,
            }),
        },
{
    let node_type = match parse_node_type(request.node_type.as_str()) {
        Ok(t) => t,
        Err(e) => {
            return Err(e);
        },
    };
    let description = match request.description {
        Some(d) => d,
        None => String::new(),
    };
    let properties = match request.properties {
        Some(p) => p,
        None => owned("{}"),
    };
    Ok(
        NewNodeRow {
            fixed_id,
            investigation_id: request.investigation_id,
            node_type: owned(node_type.snake_name()),
            label: request.label,
            description,
            properties,
        },
    )
}

/// The row stored for an added relation: its type in snake_case, an empty
/// label when none is given, no sightings and `{}` properties.  Fails on an
/// unknown relation type.
pub fn relation_row(request: AddRelationRequest) -> (r: Result<NewRelationRow, McpError>)
    ensures
        match relation_type_by_snake(request.relation_type@) {
            None => r matches Err(e) && is_app_error(
                e,
                ErrorView::InvalidInput("unsupported relation_type: "@ + request.relation_type@),
            ),
            Some(t) => r matches Ok(row) && row.investigation_id == request.investigation_id
                && row.relation_type@ == relation_type_snake(t) && row.source_node_id
                == request.source_node_id && row.target_node_id == request.target_node_id
                && row.label@ == text_or_empty(request.label) && row.first_seen is None
                && row.last_seen is None && row.properties@ == "{}"@,
        },
{
    let relation_type = match parse_relation_type(request.relation_type.as_str()) {
        Ok(t) => t,
        Err(e) => {
            return Err(e);
        },
    };
    let label = match request.label {
        Some(l) => l,
        None => String::new(),
    };
    Ok(
        NewRelationRow {
            investigation_id: request.investigation_id,
            relation_type: owned(relation_type.snake_name()),
            source_node_id: request.source_node_id,
            target_node_id: request.target_node_id,
            label,
            first_seen: None,
            last_seen: None,
            properties: owned("{}"),
        },
    )
}

/// The node a relation end names, as looked up: fails when there is none,
/// naming the request field.
pub fn ensure_node_exists(found: Option<StoredNode>, node_id: &str, field_name: &str) -> (r: Result<
    StoredNode,
    McpError,
>)
    ensures
        match found {
            Some(n) => r matches Ok(x) && x == n,
            None => r matches Err(McpError::NotFound(m)) && m@ == field_name@ + " not found: "@
                + node_id@,
        },
{
    match found {
        Some(n) => Ok(n),
        None => {
            let mut m = owned(field_name);
            m.append(" not found: ");
            m.append(node_id);
            Err(McpError::NotFound(m))
        },
    }
}

/// Whether a node may be deleted: fails when it does not exist.
pub fn check_deletion(params: &DeleteNodeParams, exists: bool) -> (r: Result<(), McpError>)
    ensures
        exists ==> r is Ok,
        !exists ==> (r matches Err(McpError::NotFound(m)) && m@ == "node not found: "@
            + params.node_id@),
{
    if exists {
        Ok(())
    } else {
        let mut m = String::from_str("node not found: ");
        m.append(params.node_id.as_str());
        Err(McpError::NotFound(m))
    }
}

/// The JSON answer to a deletion.
pub open spec fn deleted_answer_text(node_id: Seq<char>) -> Seq<char> {
    "{\"deleted\":true,\"node_id\":"@ + json_string_literal(node_id) + "}"@
}

/// The JSON answer to a deletion: `{"deleted":true,"node_id":…}`.
pub fn deleted_answer(params: &DeleteNodeParams) -> (r: String)
    ensures
        r@ == deleted_answer_text(params.node_id@),
{
    let mut r = String::from_str("{\"deleted\":true,\"node_id\":");
    let quoted = json_string(params.node_id.as_str());
    r.append(quoted.as_str());
    r.append("}");
    r
}

} // verus!
