//! Replication between nodes that share all their tables.

use crate::change_logging::change_logging::{ChangeLogEntry, EntryView};
use crate::replication::active_replication::ResponseView;
use crate::schema::schema::{Schema, SchemaView};
use crate::string_map::{Duplicate, Same};
use crate::text::concat2;
use vstd::prelude::*;

verus! {

/// Changes with the schema that they belong to.
#[derive(Debug)]
pub struct ReplicationRequest {
    pub schema: Schema,
    pub entries: Vec<ChangeLogEntry>,
}

/// A [`ReplicationRequest`] as a mathematical value.
pub struct RequestView {
    pub schema: SchemaView,
    pub entries: Seq<EntryView>,
}

impl DeepView for ReplicationRequest {
    type V = RequestView;

    open spec fn deep_view(&self) -> RequestView {
        RequestView { schema: self.schema.deep_view(), entries: self.entries.deep_view() }
    }
}

/// What a node answers to changes.
#[derive(Debug, PartialEq, Eq)]
pub struct ReplicationResponse {
    pub status: String,
    pub message: Option<String>,
}

impl DeepView for ReplicationResponse {
    type V = ResponseView;

    open spec fn deep_view(&self) -> ResponseView {
        ResponseView { status: self.status@, message: self.message.deep_view() }
    }
}

/// A node that all changes go to.
#[derive(Debug, PartialEq, Eq)]
pub struct ReplicationNode {
    pub name: String,
    pub url: String,
    pub description: String,
}

/// The nodes that are configured.
#[derive(Debug, Default, PartialEq, Eq)]
pub struct NodesConfig {
    pub nodes: Vec<ReplicationNode>,
}

/// The URL to which changes for a node are sent.
pub fn push_url(node: &ReplicationNode) -> (r: String)
    ensures
        r@ == node.url@ + "/api/replication/push"@,
{
    concat2(node.url.as_str(), "/api/replication/push")
}

/// The request that carries one change.
pub fn replicate_change_to_nodes(schema: &Schema, log_entry: &ChangeLogEntry) -> (r:
    ReplicationRequest)
    ensures
        r.deep_view() == (RequestView {
            schema: schema.deep_view(),
            entries: seq![log_entry.deep_view()],
        }),
{
    let mut entries: Vec<ChangeLogEntry> = Vec::new();
    entries.push(log_entry.duplicate());
    assert(entries.deep_view() =~= seq![log_entry.deep_view()]);
    ReplicationRequest { schema: schema.duplicate(), entries }
}

/// Whether one of the changes is to the schema.
pub open spec fn changes_schema(entries: Seq<EntryView>) -> bool {
    exists|i: int| 0 <= i < entries.len() && (#[trigger] entries[i]).change_type.changes_schema()
}

fn has_schema_change(entries: &Vec<ChangeLogEntry>) -> (r: bool)
    ensures
        r == changes_schema(entries.deep_view()),
{
    let ghost es = entries.deep_view();
    let mut i: usize = 0;
    while i < entries.len()
        invariant
            i <= entries@.len(),
            es == entries.deep_view(),
            forall|k: int| 0 <= k < i ==> !(#[trigger] es[k]).change_type.changes_schema(),
        decreases entries@.len() - i,
    {
        assert(es[i as int] == entries@[i as int].deep_view());
        if entries[i].change_type.is_schema_change() {
            return true;
        }
        i = i + 1;
    }
    false
}

fn make_response(code: u16, status: &str, message: Option<String>) -> (r: (
    u16,
    ReplicationResponse,
))
    ensures
        r.0 == code,
        r.1.deep_view() == (ResponseView { status: status@, message: message.deep_view() }),
{
    (code, ReplicationResponse { status: status.to_owned(), message })
}

/// What is answered to changes before any of them is applied: changes that come
/// with another schema are refused, unless one of them is to the schema. `None`
/// stands for changes that are to be applied.
pub fn replication_push(current_schema: &Schema, payload: &ReplicationRequest) -> (r: Option<
    (u16, ReplicationResponse),
>)
    ensures
        match r {
            None => current_schema.deep_view() == payload.deep_view().schema || changes_schema(
                payload.deep_view().entries,
            ),
            Some((code, response)) => current_schema.deep_view() != payload.deep_view().schema
                && !changes_schema(payload.deep_view().entries) && code == 400
                && response.deep_view() == (ResponseView {
                status: "failed"@,
                message: Some("Schema mismatch"@),
            }),
        },
{
    let has_change = has_schema_change(&payload.entries);
    if !current_schema.same(&payload.schema) && !has_change {
        Some(make_response(400, "failed", Some("Schema mismatch".to_owned())))
    } else {
        None
    }
}

/// What is answered when the changes were applied, or when there was an error.
pub fn pushed_response(error: &Option<String>) -> (r: (u16, ReplicationResponse))
    ensures
        match error {
            None => r.0 == 200 && r.1.deep_view() == (ResponseView {
                status: "success"@,
                message: None,
            }),
            Some(e) => r.0 == 500 && r.1.deep_view() == (ResponseView {
                status: "failed"@,
                message: Some("Replication failed: "@ + e@),
            }),
        },
{
    match error {
        None => make_response(200, "success", None),
        Some(e) => make_response(
            500,
            "failed",
            Some(concat2("Replication failed: ", e.as_str())),
        ),
    }
}

} // verus!
