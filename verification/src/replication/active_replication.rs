//! Changes that are sent to other nodes as they happen, and what a node does
//! with the changes that come in.

use crate::change_logging::change_logging::{ChangeLogEntry, EntryView};
use crate::config::database_config::{ConfigView, DatabaseConfig};
use crate::json;
use crate::json::{find_field, is_success, json_eq, Fields, Json, JsonView};
use crate::numbers;
use crate::numbers::u64_to_string;
use crate::recovery::recovery_run;
use crate::recovery::recovery_run::{choose_action, EntryAction, EntryActionView};
use crate::replication::replication_nodes;
use crate::replication::replication_nodes::{
    ModeView, NodeView, NodesConfig, ReplicationMode, ReplicationNode,
};
use crate::schema::schema::{initial_table_name, updates_table_name, Schema, SchemaView};
use crate::string_map::Duplicate;
use crate::text;
use crate::text::{concat2, concat3, str_contains, str_eq, Text};
use vstd::prelude::*;
use vstd::string::*;

verus! {

/// Changes for a node, with the schema that they belong to.
#[derive(Debug)]
pub struct ReplicationRequest {
    pub schema: Schema,
    pub entries: Vec<ChangeLogEntry>,
    pub target_node: ReplicationNode,
}

/// A [`ReplicationRequest`] as a mathematical value.
pub struct RequestView {
    pub schema: SchemaView,
    pub entries: Seq<EntryView>,
    pub target_node: NodeView,
}

impl DeepView for ReplicationRequest {
    type V = RequestView;

    open spec fn deep_view(&self) -> RequestView {
        RequestView {
            schema: self.schema.deep_view(),
            entries: self.entries.deep_view(),
            target_node: self.target_node.deep_view(),
        }
    }
}

impl Duplicate for ReplicationRequest {
    fn duplicate(&self) -> (r: Self) {
        ReplicationRequest {
            schema: self.schema.duplicate(),
            entries: self.entries.duplicate(),
            target_node: self.target_node.duplicate(),
        }
    }
}

/// What a node answers to changes.
#[derive(Debug, PartialEq, Eq)]
pub struct ReplicationResponse {
    pub status: String,
    pub message: Option<String>,
}

/// A [`ReplicationResponse`] as a mathematical value.
pub struct ResponseView {
    pub status: Text,
    pub message: Option<Text>,
}

impl DeepView for ReplicationResponse {
    type V = ResponseView;

    open spec fn deep_view(&self) -> ResponseView {
        ResponseView { status: self.status@, message: self.message.deep_view() }
    }
}

/// An answer with the HTTP status that it goes out with.
#[derive(Debug, PartialEq, Eq)]
pub struct PushReply {
    pub code: u16,
    pub response: ReplicationResponse,
}

/// A [`PushReply`] as a mathematical value.
pub struct PushReplyView {
    pub code: u16,
    pub response: ResponseView,
}

impl DeepView for PushReply {
    type V = PushReplyView;

    open spec fn deep_view(&self) -> PushReplyView {
        PushReplyView { code: self.code, response: self.response.deep_view() }
    }
}

/// The answer with the given parts.
pub open spec fn answer(code: u16, status: Text, message: Text) -> PushReplyView {
    PushReplyView { code, response: ResponseView { status, message: Some(message) } }
}

fn make_answer(code: u16, status: &str, message: String) -> (r: PushReply)
    ensures
        r.deep_view() == answer(code, status@, message@),
{
    PushReply {
        code,
        response: ReplicationResponse { status: status.to_owned(), message: Some(message) },
    }
}

// ---------------------------------------------------------------------------
// Sending changes
// ---------------------------------------------------------------------------

/// The request that carries one change to a node.
pub open spec fn change_request(
    schema: SchemaView,
    entry: EntryView,
    node: NodeView,
) -> RequestView {
    RequestView { schema, entries: seq![entry], target_node: node }
}

/// The requests that carry one change to the nodes that it goes to, in the
/// order of the nodes.
pub open spec fn change_requests(
    nodes: Seq<NodeView>,
    schema: SchemaView,
    entry: EntryView,
) -> Seq<RequestView>
    decreases nodes.len(),
{
    if nodes.len() == 0 {
        Seq::empty()
    } else {
        let before = change_requests(nodes.drop_last(), schema, entry);
        if replication_nodes::replicates(nodes.last().replication_mode, entry.table_name) {
            before.push(change_request(schema, entry, nodes.last()))
        } else {
            before
        }
    }
}

/// The requests that carry one change to the nodes that it goes to.
pub fn replicate_change_to_nodes(
    nodes_config: &NodesConfig,
    schema: &Schema,
    log_entry: &ChangeLogEntry,
) -> (r: Vec<ReplicationRequest>)
    ensures
        r.deep_view() == change_requests(
            nodes_config.deep_view(),
            schema.deep_view(),
            log_entry.deep_view(),
        ),
{
    let nodes = &nodes_config.nodes;
    let ghost ns = nodes.deep_view();
    let mut r: Vec<ReplicationRequest> = Vec::new();
    let mut i: usize = 0;
    assert(ns.take(0) =~= Seq::<NodeView>::empty());
    assert(r.deep_view() =~= Seq::<RequestView>::empty());
    while i < nodes.len()
        invariant
            i <= nodes@.len(),
            ns == nodes.deep_view(),
            r.deep_view() == change_requests(
                ns.take(i as int),
                schema.deep_view(),
                log_entry.deep_view(),
            ),
        decreases nodes@.len() - i,
    {
        let ghost before = r.deep_view();
        assert(ns.take(i as int + 1).drop_last() =~= ns.take(i as int));
        assert(ns.take(i as int + 1).last() == nodes@[i as int].deep_view());
        if nodes[i].should_replicate(log_entry.table_name.as_str()) {
            let mut entries: Vec<ChangeLogEntry> = Vec::new();
            entries.push(log_entry.duplicate());
            assert(entries.deep_view() =~= seq![log_entry.deep_view()]);
            let request = ReplicationRequest {
                schema: schema.duplicate(),
                entries,
                target_node: nodes[i].duplicate(),
            };
            let ghost v = request.deep_view();
            r.push(request);
            assert(r.deep_view() =~= before.push(v));
        }
        i = i + 1;
    }
    assert(ns.take(i as int) =~= ns);
    r
}

/// Every change goes to exactly the nodes whose mode it falls under: for each
/// of them there is a request, and there is no request for another node.
pub proof fn law_change_goes_to_its_nodes(
    nodes: Seq<NodeView>,
    schema: SchemaView,
    entry: EntryView,
    node: NodeView,
)
    ensures
        change_requests(nodes, schema, entry).contains(change_request(schema, entry, node)) <==> (
        nodes.contains(node) && replication_nodes::replicates(
            node.replication_mode,
            entry.table_name,
        )),
    decreases nodes.len(),
{
    let requests = change_requests(nodes, schema, entry);
    let wanted = change_request(schema, entry, node);
    if nodes.len() > 0 {
        let d = nodes.drop_last();
        let before = change_requests(d, schema, entry);
        law_change_goes_to_its_nodes(d, schema, entry, node);
        assert(nodes =~= d.push(nodes.last()));
        if nodes.contains(node) {
            let i = choose|i: int| 0 <= i < nodes.len() && nodes[i] == node;
            if i < d.len() {
                assert(d[i] == node);
            }
        }
        if d.contains(node) {
            let i = choose|i: int| 0 <= i < d.len() && d[i] == node;
            assert(nodes[i] == node);
        }
        if before.contains(wanted) {
            let i = choose|i: int| 0 <= i < before.len() && before[i] == wanted;
            assert(requests[i] == wanted);
        }
        if requests.contains(wanted) {
            let i = choose|i: int| 0 <= i < requests.len() && requests[i] == wanted;
            if i < before.len() {
                assert(before[i] == wanted);
            } else {
                assert(requests[i].target_node == nodes.last());
                assert(nodes[nodes.len() - 1] == node);
            }
        }
        if replication_nodes::replicates(nodes.last().replication_mode, entry.table_name) {
            assert(requests.last() == change_request(schema, entry, nodes.last()));
            if nodes.last() == node {
                assert(requests[requests.len() - 1] == wanted);
            }
        }
    }
}

/// Whether a node took the changes, given the status of its reply, that status
/// in words, and the answer in the reply or the error with which it could not
/// be read.
pub fn replicate_to_single_node(
    status: u16,
    status_text: &str,
    response: &Result<ReplicationResponse, String>,
) -> (r: Result<bool, String>)
    ensures
        match (r, *response) {
            (Ok(taken), Ok(answer)) => json::success(status) && taken == (answer.status@
                == "success"@),
            (Ok(_), Err(_)) => false,
            (Err(e), Err(read_error)) => e@ == if json::success(status) {
                read_error@
            } else {
                "HTTP error: "@ + status_text@
            },
            (Err(e), Ok(_)) => !json::success(status) && e@ == "HTTP error: "@ + status_text@,
        },
{
    if is_success(status) {
        match response {
            Ok(answer) => Ok(str_eq(answer.status.as_str(), "success")),
            Err(e) => Err(e.clone()),
        }
    } else {
        Err(concat2("HTTP error: ", status_text))
    }
}

/// Whether a request has to wait in the queue, given what came of sending it:
/// unless the node took the changes.
pub fn fallback_to_passive_replication(outcome: &Result<bool, String>) -> (r: bool)
    ensures
        r == (*outcome != Ok::<bool, String>(true)),
{
    match outcome {
        Ok(true) => false,
        Ok(false) => true,
        Err(_) => true,
    }
}

// ---------------------------------------------------------------------------
// Applying changes
// ---------------------------------------------------------------------------

/// Whether a line of a log mentions a change.
pub open spec fn log_mentions(lines: Seq<Text>, change_id: Text) -> bool {
    exists|i: int| 0 <= i < lines.len() && text::contains_text(#[trigger] lines[i], change_id)
}

/// Whether a change is in the log already, given the lines of the log.
pub fn is_log_already_present(lines: &Vec<String>, change_id: &str) -> (r: bool)
    ensures
        r == log_mentions(lines.deep_view(), change_id@),
{
    let ghost ls = lines.deep_view();
    let mut i: usize = 0;
    while i < lines.len()
        invariant
            i <= lines@.len(),
            ls == lines.deep_view(),
            forall|k: int| 0 <= k < i ==> !text::contains_text(#[trigger] ls[k], change_id@),
        decreases lines@.len() - i,
    {
        assert(ls[i as int] == lines@[i as int]@);
        if str_contains(lines[i].as_str(), change_id) {
            return true;
        }
        i = i + 1;
    }
    false
}

/// A change that was appended to the log is not taken a second time: a line
/// that holds the identifier of the change makes the log mention it, whatever
/// lines come after.
pub proof fn law_change_is_taken_once(
    lines: Seq<Text>,
    line: Text,
    later: Seq<Text>,
    change_id: Text,
)
    requires
        text::contains_text(line, change_id),
    ensures
        log_mentions(lines.push(line) + later, change_id),
{
    assert((lines.push(line) + later)[lines.len() as int] == line);
}

/// What is done with a change.
pub open spec fn action_for(config: ConfigView, entry: EntryView) -> EntryActionView {
    recovery_run::table_action(config, entry.table_name, entry.change_type)
}

/// What is done with a change.
pub fn action_log_entry(config: &DatabaseConfig, entry: &ChangeLogEntry) -> (r: EntryAction)
    ensures
        r.deep_view() == action_for(config.deep_view(), entry.deep_view()),
{
    choose_action(config, entry.table_name.as_str(), entry.change_type)
}

// ---------------------------------------------------------------------------
// Comparing schemas
// ---------------------------------------------------------------------------

/// The tables of a schema in JSON.
pub open spec fn tables_field(schema: JsonView) -> Option<Fields> {
    match json::get(schema, "tables"@) {
        Some(JsonView::Object(fields)) => Some(fields),
        _ => None,
    }
}

/// Whether two schemas have a table, and the same one, under a name.
pub open spec fn same_table(a: Fields, b: Fields, name: Text) -> bool {
    json::field_of(a, name) is Some && json::field_of(a, name) == json::field_of(b, name)
}

/// Whether two schemas agree on both parts of a table.
pub open spec fn same_parts(a: Fields, b: Fields, table: Text) -> bool {
    same_table(a, b, table + "_initial"@) && same_table(a, b, table + "_updates"@)
}

/// Whether two schemas agree on each of the given tables.
pub open spec fn agree_on(a: Fields, b: Fields, tables: Seq<Text>) -> bool {
    forall|i: int| 0 <= i < tables.len() ==> same_parts(a, b, #[trigger] tables[i])
}

/// Whether two schemas agree on every table that either of them has.
pub open spec fn agree_on_all(a: Fields, b: Fields) -> bool {
    forall|name: Text|
        json::field_of(a, name) is Some || json::field_of(b, name) is Some ==> #[trigger] same_table(
            a,
            b,
            name,
        )
}

/// Whether an incoming schema agrees with the present one as far as a node of
/// the given mode is concerned: on each of its tables, where it has some of its
/// own, and else on all tables.
pub open spec fn schemas_agree(
    incoming: JsonView,
    current: JsonView,
    mode: Option<ModeView>,
) -> Result<bool, Text> {
    match (tables_field(incoming), tables_field(current)) {
        (None, _) => Err("Could not extract tables from incoming schema"@),
        (_, None) => Err("Could not extract tables from current schema"@),
        (Some(a), Some(b)) => match mode {
            None => Ok(false),
            Some(ModeView::All) => Ok(agree_on_all(a, b)),
            Some(ModeView::Specific(tables)) => Ok(agree_on(a, b, tables)),
        },
    }
}

fn tables_are_same(a: &Vec<(String, Json)>, b: &Vec<(String, Json)>, name: &str) -> (r: bool)
    ensures
        r == same_table(a.deep_view(), b.deep_view(), name@),
{
    match (find_field(a, name), find_field(b, name)) {
        (Some(i), Some(j)) => json_eq(&a[i].1, &b[j].1),
        _ => false,
    }
}

proof fn lemma_field_at(fields: Fields, i: int)
    requires
        0 <= i < fields.len(),
    ensures
        json::field_of(fields, fields[i].0) is Some,
    decreases fields.len(),
{
    if i > 0 && fields[0].0 != fields[i].0 {
        lemma_field_at(fields.skip(1), i - 1);
    }
}

proof fn lemma_field_is_somewhere(fields: Fields, name: Text)
    requires
        json::field_of(fields, name) is Some,
    ensures
        exists|i: int| 0 <= i < fields.len() && (#[trigger] fields[i]).0 == name,
    decreases fields.len(),
{
    if fields[0].0 != name {
        lemma_field_is_somewhere(fields.skip(1), name);
        let i = choose|i: int|
            0 <= i < fields.skip(1).len() && (#[trigger] fields.skip(1)[i]).0 == name;
        assert(fields[i + 1].0 == name);
    }
}

/// Whether two schemas have the same table under each name that `names` has a
/// field for.
fn tables_agree_under(
    names: &Vec<(String, Json)>,
    a: &Vec<(String, Json)>,
    b: &Vec<(String, Json)>,
) -> (r: bool)
    ensures
        r == forall|name: Text|
            json::field_of(names.deep_view(), name) is Some ==> #[trigger] same_table(
                a.deep_view(),
                b.deep_view(),
                name,
            ),
{
    let ghost ns = names.deep_view();
    let mut i: usize = 0;
    while i < names.len()
        invariant
            i <= names@.len(),
            ns == names.deep_view(),
            forall|k: int|
                0 <= k < i ==> same_table(a.deep_view(), b.deep_view(), (#[trigger] ns[k]).0),
        decreases names@.len() - i,
    {
        assert(ns[i as int].0 == names@[i as int].0@);
        if !tables_are_same(a, b, names[i].0.as_str()) {
            proof {
                lemma_field_at(ns, i as int);
            }
            return false;
        }
        i = i + 1;
    }
    assert forall|name: Text| json::field_of(ns, name) is Some implies #[trigger] same_table(
        a.deep_view(),
        b.deep_view(),
        name,
    ) by {
        lemma_field_is_somewhere(ns, name);
        let k = choose|k: int| 0 <= k < ns.len() && (#[trigger] ns[k]).0 == name;
        assert(same_table(a.deep_view(), b.deep_view(), ns[k].0));
    }
    true
}

/// Whether an incoming schema agrees with the present one as far as a node is
/// concerned.
pub fn compare_schemas(
    incoming_schema_json: &Json,
    current_schema_json: &Json,
    replication_node: Option<&ReplicationNode>,
) -> (r: Result<bool, String>)
    ensures
        match r {
            Ok(x) => schemas_agree(
                incoming_schema_json.deep_view(),
                current_schema_json.deep_view(),
                match replication_node {
                    Some(node) => Some(node.deep_view().replication_mode),
                    None => None,
                },
            ) == Ok::<_, Text>(x),
            Err(e) => schemas_agree(
                incoming_schema_json.deep_view(),
                current_schema_json.deep_view(),
                match replication_node {
                    Some(node) => Some(node.deep_view().replication_mode),
                    None => None,
                },
            ) == Err::<bool, _>(e@),
        },
{
    let incoming = match incoming_schema_json.get("tables") {
        Some(Json::Object(fields)) => fields,
        _ => return Err("Could not extract tables from incoming schema".to_owned()),
    };
    let current = match current_schema_json.get("tables") {
        Some(Json::Object(fields)) => fields,
        _ => return Err("Could not extract tables from current schema".to_owned()),
    };
    proof {
        json::lemma_object_view(*incoming);
        json::lemma_object_view(*current);
    }
    match replication_node {
        None => Ok(false),
        Some(node) => match &node.replication_mode {
            ReplicationMode::All => {
                let there = tables_agree_under(incoming, incoming, current);
                let here = tables_agree_under(current, incoming, current);
                assert((there && here) == agree_on_all(
                    incoming.deep_view(),
                    current.deep_view(),
                ));
                Ok(there && here)
            },
            ReplicationMode::Specific(tables) => {
                let ghost names = tables.deep_view();
                let mut i: usize = 0;
                while i < tables.len()
                    invariant
                        i <= tables@.len(),
                        names == tables.deep_view(),
                        forall|k: int|
                            0 <= k < i ==> same_parts(
                                incoming.deep_view(),
                                current.deep_view(),
                                #[trigger] names[k],
                            ),
                    ensures
                        i <= tables@.len(),
                        i < tables@.len() ==> !same_parts(
                            incoming.deep_view(),
                            current.deep_view(),
                            names[i as int],
                        ),
                        forall|k: int|
                            0 <= k < i ==> same_parts(
                                incoming.deep_view(),
                                current.deep_view(),
                                #[trigger] names[k],
                            ),
                    decreases tables@.len() - i,
                {
                    assert(names[i as int] == tables@[i as int]@);
                    let initial = initial_table_name(tables[i].as_str());
                    let updates = updates_table_name(tables[i].as_str());
                    if !tables_are_same(incoming, current, initial.as_str()) || !tables_are_same(
                        incoming,
                        current,
                        updates.as_str(),
                    ) {
                        break ;
                    }
                    i = i + 1;
                }
                assert((i == tables@.len()) == agree_on(
                    incoming.deep_view(),
                    current.deep_view(),
                    names,
                ));
                Ok(i == tables.len())
            },
        },
    }
}

// ---------------------------------------------------------------------------
// Taking in changes
// ---------------------------------------------------------------------------

/// Whether a change is one to the schema that concerns a node of the given
/// mode.
pub open spec fn is_forced(mode: ModeView, entry: EntryView) -> bool {
    entry.change_type.changes_schema() && replication_nodes::replicates(mode, entry.table_name)
}

/// The changes to the schema that concern a node of the given mode, in their
/// order.
pub open spec fn forced_entries(mode: ModeView, entries: Seq<EntryView>) -> Seq<EntryView>
    decreases entries.len(),
{
    if entries.len() == 0 {
        Seq::empty()
    } else {
        let before = forced_entries(mode, entries.drop_last());
        if is_forced(mode, entries.last()) {
            before.push(entries.last())
        } else {
            before
        }
    }
}

fn select_forced(node: &ReplicationNode, entries: &Vec<ChangeLogEntry>) -> (r: Vec<ChangeLogEntry>)
    ensures
        r.deep_view() == forced_entries(node.deep_view().replication_mode, entries.deep_view()),
{
    let ghost es = entries.deep_view();
    let mut r: Vec<ChangeLogEntry> = Vec::new();
    let mut i: usize = 0;
    assert(es.take(0) =~= Seq::<EntryView>::empty());
    assert(r.deep_view() =~= Seq::<EntryView>::empty());
    while i < entries.len()
        invariant
            i <= entries@.len(),
            es == entries.deep_view(),
            r.deep_view() == forced_entries(node.deep_view().replication_mode, es.take(i as int)),
        decreases entries@.len() - i,
    {
        let ghost before = r.deep_view();
        assert(es.take(i as int + 1).drop_last() =~= es.take(i as int));
        assert(es.take(i as int + 1).last() == entries@[i as int].deep_view());
        if entries[i].change_type.is_schema_change() && node.should_replicate(
            entries[i].table_name.as_str(),
        ) {
            r.push(entries[i].duplicate());
            assert(r.deep_view() =~= before.push(es[i as int]));
        }
        i = i + 1;
    }
    assert(es.take(i as int) =~= es);
    r
}

/// The changes of a request that are being applied one after another.
#[derive(Debug)]
pub struct PushRun {
    forced: bool,
    target: String,
    entries: Vec<ChangeLogEntry>,
    at: usize,
    refreshing: bool,
}

/// A [`PushRun`] as a mathematical value.
pub struct RunView {
    /// Whether these are changes to the schema that are taken whatever the
    /// schemas are.
    pub forced: bool,
    /// The name of the node that the changes are for.
    pub target: Text,
    pub entries: Seq<EntryView>,
    /// The change that is being applied.
    pub at: int,
    /// Whether the change was applied and the schema is being read again.
    pub refreshing: bool,
}

impl DeepView for PushRun {
    type V = RunView;

    closed spec fn deep_view(&self) -> RunView {
        RunView {
            forced: self.forced,
            target: self.target@,
            entries: self.entries.deep_view(),
            at: self.at as int,
            refreshing: self.refreshing,
        }
    }
}

/// What is to be done for a request.
#[derive(Debug, PartialEq, Eq)]
pub enum PushAction {
    /// The change at a position is to be applied.
    Apply(usize),
    /// The schema is to be read again.
    Refresh,
    /// The request is answered.
    Finish(PushReply),
}

/// A [`PushAction`] as a mathematical value.
pub enum PushActionView {
    Apply(int),
    Refresh,
    Finish(PushReplyView),
}

impl DeepView for PushAction {
    type V = PushActionView;

    open spec fn deep_view(&self) -> PushActionView {
        match self {
            PushAction::Apply(i) => PushActionView::Apply(*i as int),
            PushAction::Refresh => PushActionView::Refresh,
            PushAction::Finish(reply) => PushActionView::Finish(reply.deep_view()),
        }
    }
}

/// What came of an action.
#[derive(Debug, PartialEq, Eq)]
pub enum PushEvent {
    /// The change was applied, or there was an error.
    Applied(Option<String>),
    /// The schema was read again, or could not be.
    Refreshed(bool),
}

/// What is done with a request.
#[derive(Debug)]
pub enum PushPlan {
    /// It is answered at once.
    Answer(PushReply),
    /// It is refused as a bad request.
    BadRequest(String),
    /// Its changes are applied.
    Run(PushRun),
}

/// A [`PushPlan`] as a mathematical value.
pub enum PushPlanView {
    Answer(PushReplyView),
    BadRequest(Text),
    Run(RunView),
}

impl DeepView for PushPlan {
    type V = PushPlanView;

    open spec fn deep_view(&self) -> PushPlanView {
        match self {
            PushPlan::Answer(reply) => PushPlanView::Answer(reply.deep_view()),
            PushPlan::BadRequest(message) => PushPlanView::BadRequest(message@),
            PushPlan::Run(run) => PushPlanView::Run(run.deep_view()),
        }
    }
}

/// A run before its first change.
pub open spec fn new_run(forced: bool, target: Text, entries: Seq<EntryView>) -> RunView {
    RunView { forced, target, entries, at: 0, refreshing: false }
}

/// What is done with a request, given the nodes that are configured, where they
/// could be read, and the two schemas in JSON.
pub open spec fn push_plan(
    nodes: Option<Seq<NodeView>>,
    request: RequestView,
    incoming: JsonView,
    current: JsonView,
) -> PushPlanView {
    match nodes {
        None => PushPlanView::Answer(
            answer(500, "failed"@, "Could not load nodes configuration"@),
        ),
        Some(ns) => match replication_nodes::position_of_name(ns, request.target_node.name) {
            None => PushPlanView::BadRequest("Invalid target node"@),
            Some(i) => {
                let forced = forced_entries(ns[i].replication_mode, request.entries);
                if forced.len() > 0 {
                    PushPlanView::Run(new_run(true, request.target_node.name, forced))
                } else {
                    match schemas_agree(
                        incoming,
                        current,
                        Some(request.target_node.replication_mode),
                    ) {
                        Ok(true) => PushPlanView::Run(
                            new_run(false, request.target_node.name, request.entries),
                        ),
                        Ok(false) => PushPlanView::Answer(
                            answer(400, "failed"@, "Schema mismatch"@),
                        ),
                        Err(e) => PushPlanView::Answer(
                            answer(500, "failed"@, "Schema comparison error: "@ + e),
                        ),
                    }
                }
            },
        },
    }
}

/// What is done with a request.
pub fn plan_push(
    nodes: &Option<NodesConfig>,
    payload: &ReplicationRequest,
    incoming_schema_json: &Json,
    current_schema_json: &Json,
) -> (r: PushPlan)
    ensures
        r.deep_view() == push_plan(
            nodes.deep_view(),
            payload.deep_view(),
            incoming_schema_json.deep_view(),
            current_schema_json.deep_view(),
        ),
{
    let config = match nodes {
        None => return PushPlan::Answer(
            make_answer(500, "failed", "Could not load nodes configuration".to_owned()),
        ),
        Some(config) => config,
    };
    let i = match config.find_name(payload.target_node.name.as_str()) {
        None => return PushPlan::BadRequest("Invalid target node".to_owned()),
        Some(i) => i,
    };
    assert(config.deep_view()[i as int] == config.nodes@[i as int].deep_view());
    let forced = select_forced(&config.nodes[i], &payload.entries);
    if forced.len() > 0 {
        return PushPlan::Run(
            PushRun {
                forced: true,
                target: payload.target_node.name.clone(),
                entries: forced,
                at: 0,
                refreshing: false,
            },
        );
    }
    match compare_schemas(incoming_schema_json, current_schema_json, Some(&payload.target_node)) {
        Ok(true) => PushPlan::Run(
            PushRun {
                forced: false,
                target: payload.target_node.name.clone(),
                entries: payload.entries.duplicate(),
                at: 0,
                refreshing: false,
            },
        ),
        Ok(false) => PushPlan::Answer(make_answer(400, "failed", "Schema mismatch".to_owned())),
        Err(e) => PushPlan::Answer(
            make_answer(500, "failed", concat2("Schema comparison error: ", e.as_str())),
        ),
    }
}

/// The answer when all changes were applied.
pub open spec fn done_answer(run: RunView) -> PushReplyView {
    if run.forced {
        answer(
            200,
            "force_success"@,
            "Forced replication for CREATE completed for node "@ + run.target,
        )
    } else {
        PushReplyView {
            code: 200,
            response: ResponseView { status: "success"@, message: None },
        }
    }
}

/// The answer when a change could not be applied.
pub open spec fn failed_answer(run: RunView, error: Text) -> PushReplyView {
    if run.forced {
        answer(500, "forced_failed"@, "Forced replication failed: "@ + error)
    } else {
        answer(
            500,
            "failed"@,
            "Replication failed at entry "@ + numbers::decimal(run.at as nat) + ": "@ + error,
        )
    }
}

/// The answer when the schema could not be read again.
pub open spec fn unrefreshed_answer(run: RunView) -> PushReplyView {
    if run.forced {
        answer(500, "forced_schema_refresh_failed"@, "Forced schema refresh failed"@)
    } else {
        answer(500, "failed"@, "Unable to refresh schema"@)
    }
}

/// The run at the change at position `i`, and what is then to be done.
pub open spec fn turn_to(run: RunView, i: int) -> (RunView, PushActionView) {
    let next = RunView { at: i, refreshing: false, ..run };
    if i < run.entries.len() {
        (next, PushActionView::Apply(i))
    } else {
        (next, PushActionView::Finish(done_answer(next)))
    }
}

/// Whether an event is one that a run waits for.
pub open spec fn awaits(run: RunView, event: PushEvent) -> bool {
    0 <= run.at < run.entries.len() && (event is Refreshed <==> run.refreshing)
}

/// What follows an event: after a change to the schema the schema is read
/// again, and then comes the next change. The first error ends the run.
pub open spec fn after_event(run: RunView, event: PushEvent) -> (RunView, PushActionView) {
    match event {
        PushEvent::Applied(None) => if run.entries[run.at].change_type.changes_schema() {
            (RunView { refreshing: true, ..run }, PushActionView::Refresh)
        } else {
            turn_to(run, run.at + 1)
        },
        PushEvent::Applied(Some(e)) => (run, PushActionView::Finish(failed_answer(run, e@))),
        PushEvent::Refreshed(true) => turn_to(run, run.at + 1),
        PushEvent::Refreshed(false) => (run, PushActionView::Finish(unrefreshed_answer(run))),
    }
}

impl PushRun {
    /// The change at a position.
    pub fn entry(&self, i: usize) -> (r: &ChangeLogEntry)
        requires
            i < self.deep_view().entries.len(),
        ensures
            r.deep_view() == self.deep_view().entries[i as int],
    {
        &self.entries[i]
    }

    fn done(&self) -> (r: PushReply)
        ensures
            r.deep_view() == done_answer(self.deep_view()),
    {
        if self.forced {
            make_answer(
                200,
                "force_success",
                concat2("Forced replication for CREATE completed for node ", self.target.as_str()),
            )
        } else {
            PushReply {
                code: 200,
                response: ReplicationResponse { status: "success".to_owned(), message: None },
            }
        }
    }

    /// What is to be done first.
    pub fn begin(&self) -> (r: PushAction)
        requires
            self.deep_view().at == 0,
            !self.deep_view().refreshing,
        ensures
            (self.deep_view(), r.deep_view()) == turn_to(self.deep_view(), 0),
    {
        if self.entries.len() > 0 {
            PushAction::Apply(0)
        } else {
            PushAction::Finish(self.done())
        }
    }

    fn advance(&mut self) -> (r: PushAction)
        requires
            0 <= old(self).deep_view().at < old(self).deep_view().entries.len(),
        ensures
            (final(self).deep_view(), r.deep_view()) == turn_to(
                old(self).deep_view(),
                old(self).deep_view().at + 1,
            ),
    {
        let n: usize = self.entries.len();
        self.at = self.at + 1;
        self.refreshing = false;
        if self.at < n {
            PushAction::Apply(self.at)
        } else {
            PushAction::Finish(self.done())
        }
    }

    /// What is to be done after an event.
    pub fn proceed(&mut self, event: &PushEvent) -> (r: PushAction)
        requires
            awaits(old(self).deep_view(), *event),
        ensures
            (final(self).deep_view(), r.deep_view()) == after_event(
                old(self).deep_view(),
                *event,
            ),
    {
        match event {
            PushEvent::Applied(None) => {
                assert(self.entries@[self.at as int].deep_view()
                    == self.deep_view().entries[self.deep_view().at]);
                if self.entries[self.at].change_type.is_schema_change() {
                    self.refreshing = true;
                    PushAction::Refresh
                } else {
                    self.advance()
                }
            },
            PushEvent::Applied(Some(e)) => {
                if self.forced {
                    PushAction::Finish(
                        make_answer(
                            500,
                            "forced_failed",
                            concat2("Forced replication failed: ", e.as_str()),
                        ),
                    )
                } else {
                    let mut message = concat3(
                        "Replication failed at entry ",
                        u64_to_string(self.at as u64).as_str(),
                        ": ",
                    );
                    message.append(e.as_str());
                    PushAction::Finish(make_answer(500, "failed", message))
                }
            },
            PushEvent::Refreshed(true) => self.advance(),
            PushEvent::Refreshed(false) => {
                if self.forced {
                    PushAction::Finish(
                        make_answer(
                            500,
                            "forced_schema_refresh_failed",
                            "Forced schema refresh failed".to_owned(),
                        ),
                    )
                } else {
                    PushAction::Finish(
                        make_answer(500, "failed", "Unable to refresh schema".to_owned()),
                    )
                }
            },
        }
    }
}

/// What is done for a run from the change at position `i` on, as long as
/// nothing fails: each change in its order, the schema after each change to it,
/// and then the answer.
pub open spec fn smooth_course(run: RunView, i: int) -> Seq<PushActionView>
    decreases run.entries.len() - i,
{
    if i < 0 || i >= run.entries.len() {
        seq![PushActionView::Finish(done_answer(run))]
    } else if run.entries[i].change_type.changes_schema() {
        seq![PushActionView::Apply(i), PushActionView::Refresh] + smooth_course(run, i + 1)
    } else {
        seq![PushActionView::Apply(i)] + smooth_course(run, i + 1)
    }
}

/// The event that an action has when nothing fails.
pub open spec fn good_event(action: PushActionView) -> PushEvent {
    match action {
        PushActionView::Refresh => PushEvent::Refreshed(true),
        _ => PushEvent::Applied(None),
    }
}

/// The first `n` actions of a run from a state and an action on, when nothing
/// fails.
pub open spec fn course(run: RunView, action: PushActionView, n: nat) -> Seq<PushActionView>
    decreases n,
{
    if n == 0 {
        Seq::empty()
    } else if action is Finish {
        seq![action]
    } else {
        let (next, then_action) = after_event(run, good_event(action));
        seq![action] + course(next, then_action, (n - 1) as nat)
    }
}

/// As long as nothing fails, a run applies every change exactly once and in
/// order, reads the schema again after each change to it, and ends with the
/// answer of success.
pub proof fn law_run_applies_every_change_in_order(run: RunView, i: int, n: nat)
    requires
        0 <= i <= run.entries.len(),
        n > 2 * (run.entries.len() - i),
    ensures
        course(turn_to(run, i).0, turn_to(run, i).1, n) == smooth_course(run, i),
    decreases run.entries.len() - i,
{
    let (now, action) = turn_to(run, i);
    if i < run.entries.len() {
        let (next, second) = after_event(now, good_event(action));
        assert(turn_to(now, i + 1) == turn_to(run, i + 1));
        assert(course(now, action, n) == seq![action] + course(next, second, (n - 1) as nat));
        if run.entries[i].change_type.changes_schema() {
            let (third, after) = after_event(next, good_event(second));
            assert(turn_to(next, i + 1) == turn_to(run, i + 1));
            assert(course(next, second, (n - 1) as nat) == seq![second] + course(
                third,
                after,
                (n - 2) as nat,
            ));
            law_run_applies_every_change_in_order(run, i + 1, (n - 2) as nat);
            assert(seq![action] + (seq![second] + smooth_course(run, i + 1)) =~= seq![
                action,
                second,
            ] + smooth_course(run, i + 1));
        } else {
            law_run_applies_every_change_in_order(run, i + 1, (n - 1) as nat);
        }
    }
}

/// A request from a node with another schema is refused, unless it carries a
/// change to the schema that concerns the node: nothing of it is applied.
pub proof fn law_mismatch_is_refused(
    nodes: Seq<NodeView>,
    request: RequestView,
    incoming: JsonView,
    current: JsonView,
    i: int,
)
    requires
        replication_nodes::position_of_name(nodes, request.target_node.name) == Some(i),
        forall|k: int|
            0 <= k < request.entries.len() ==> !is_forced(
                nodes[i].replication_mode,
                #[trigger] request.entries[k],
            ),
        schemas_agree(incoming, current, Some(request.target_node.replication_mode)) != Ok::<
            bool,
            Text,
        >(true),
    ensures
        push_plan(Some(nodes), request, incoming, current) is Answer,
        !json::success(push_plan(Some(nodes), request, incoming, current)->Answer_0.code),
{
    lemma_nothing_forced(nodes[i].replication_mode, request.entries);
}

proof fn lemma_nothing_forced(mode: ModeView, entries: Seq<EntryView>)
    requires
        forall|k: int| 0 <= k < entries.len() ==> !is_forced(mode, #[trigger] entries[k]),
    ensures
        forced_entries(mode, entries).len() == 0,
    decreases entries.len(),
{
    if entries.len() > 0 {
        let d = entries.drop_last();
        assert(forall|k: int| 0 <= k < d.len() ==> d[k] == entries[k]);
        assert(!is_forced(mode, entries[entries.len() - 1]));
        lemma_nothing_forced(mode, d);
    }
}

} // verus!
