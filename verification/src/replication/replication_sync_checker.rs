//! Bringing nodes back in step whose tables have come to differ.

use crate::change_logging::change_logging;
use crate::change_logging::change_logging::{
    entries_equal, select_entries, ChangeLogEntry, EntryView,
};
use crate::json;
use crate::json::{is_success, json_eq, string_array, Json, JsonView, PlainReply, PlainView};
use crate::replication::active_replication::{ReplicationRequest, RequestView};
use crate::replication::passive_replication;
use crate::replication::passive_replication::{
    ReplicationError, ReplicationErrorView, SendResult,
};
use crate::replication::replication_nodes;
use crate::replication::replication_nodes::{
    auth_header, ModeView, NodeView, ReplicationMode, ReplicationNode,
};
use crate::schema::schema::Schema;
use crate::string_map::{Duplicate, StringMap};
use crate::text;
use crate::text::{concat2, concat4, join_with, replace_all, str_ends_with, str_eq, Text};
use vstd::prelude::*;

verus! {

// ---------------------------------------------------------------------------
// The data of a node
// ---------------------------------------------------------------------------

/// The rows of the tables of a node, each row a JSON array, without the names
/// of the columns.
pub type TableData = StringMap<Vec<Json>>;

/// A [`TableData`] as a mathematical value.
pub type DataView = Map<Text, Seq<JsonView>>;

/// The table whose initial rows a file holds.
pub open spec fn table_of_file(file_name: Text) -> Option<Text> {
    if text::ends_with(file_name, "_initial"@) {
        Some(text::replaced(file_name, "_initial"@, ""@))
    } else {
        None
    }
}

/// The table whose initial rows a file holds.
pub fn table_in_file(file_name: &str) -> (r: Option<String>)
    ensures
        r.deep_view() == table_of_file(file_name@),
{
    if str_ends_with(file_name, "_initial") {
        proof {
            reveal_strlit("_initial");
        }
        Some(replace_all(file_name, "_initial", ""))
    } else {
        None
    }
}

/// The rows of a table as JSON arrays, without the names of the columns.
pub open spec fn row_arrays(rows: Seq<Seq<Text>>) -> Seq<JsonView> {
    Seq::new(
        if rows.len() == 0 {
            0
        } else {
            (rows.len() - 1) as nat
        },
        |i: int| json::text_array(rows[i + 1]),
    )
}

/// The rows of a table of this node as JSON arrays, without the names of the
/// columns.
pub fn current_table_values(rows: &Vec<Vec<String>>) -> (r: Vec<Json>)
    ensures
        r.deep_view() == row_arrays(rows.deep_view()),
{
    let ghost rs = rows.deep_view();
    let mut r: Vec<Json> = Vec::new();
    let mut i: usize = 1;
    while i < rows.len()
        invariant
            1 <= i,
            i <= rows@.len() || (i == 1 && rows@.len() == 0),
            rs == rows.deep_view(),
            r@.len() == i - 1,
            forall|k: int|
                0 <= k < i - 1 ==> (#[trigger] r@[k]).deep_view() == json::text_array(rs[k + 1]),
        decreases rows@.len() - i,
    {
        assert(rs[i as int] == rows@[i as int].deep_view());
        r.push(string_array(&rows[i]));
        i = i + 1;
    }
    assert(r.deep_view() =~= row_arrays(rs));
    r
}

/// Some rows as JSON arrays.
pub open spec fn arrays(rows: Seq<Seq<JsonView>>) -> Seq<JsonView> {
    Seq::new(rows.len(), |i: int| JsonView::Array(rows[i]))
}

/// The data after another node was asked for a table, given the status of its
/// reply and the rows in it: an error leaves the table out.
pub open spec fn with_reply(
    data: DataView,
    table: Text,
    status: u16,
    rows: Seq<Seq<JsonView>>,
) -> DataView {
    if json::success(status) {
        data.insert(table, arrays(rows))
    } else {
        data
    }
}

fn record_table(
    table_data: &mut TableData,
    table_name: &str,
    status: u16,
    rows: &Vec<Vec<Json>>,
)
    ensures
        final(table_data).deep_view() == with_reply(
            old(table_data).deep_view(),
            table_name@,
            status,
            rows.deep_view(),
        ),
{
    if is_success(status) {
        let ghost rs = rows.deep_view();
        let mut values: Vec<Json> = Vec::new();
        let mut i: usize = 0;
        while i < rows.len()
            invariant
                i <= rows@.len(),
                rs == rows.deep_view(),
                values@.len() == i,
                forall|k: int|
                    0 <= k < i ==> (#[trigger] values@[k]).deep_view() == JsonView::Array(rs[k]),
            decreases rows@.len() - i,
        {
            let row = rows[i].duplicate();
            proof {
                json::lemma_array_view(row);
                assert(rs[i as int] == rows@[i as int].deep_view());
            }
            values.push(Json::Array(row));
            i = i + 1;
        }
        assert(values.deep_view() =~= arrays(rs));
        table_data.insert(table_name.to_owned(), values);
    }
}

/// The path under which a node is asked for the names of its tables.
pub const TABLES_PATH: &'static str = "/api/tables";

/// The URL under which a node at an address is asked for a table.
pub open spec fn table_url(node_url: Text, address: Text, table: Text) -> Text {
    replication_nodes::endpoint(node_url, address, "/api/tables/"@ + table)
}

/// The tables of another node that are being read one after another.
#[derive(Debug)]
pub struct FetchRun {
    node: ReplicationNode,
    address: String,
    tables: Vec<String>,
    at: usize,
    data: TableData,
}

/// A [`FetchRun`] as a mathematical value.
pub struct FetchView {
    pub node: NodeView,
    pub address: Text,
    pub tables: Seq<Text>,
    /// The table that is being read.
    pub at: int,
    pub data: DataView,
}

impl DeepView for FetchRun {
    type V = FetchView;

    closed spec fn deep_view(&self) -> FetchView {
        FetchView {
            node: self.node.deep_view(),
            address: self.address@,
            tables: self.tables.deep_view(),
            at: self.at as int,
            data: self.data.deep_view(),
        }
    }
}

/// What is to be asked of another node.
#[derive(Debug, PartialEq, Eq)]
pub enum FetchAction {
    /// The names of its tables, with a header that says who asks.
    List { url: String, authorization: String },
    /// A table.
    Table { url: String },
    /// Nothing more.
    Finish,
    /// Something went wrong.
    Fail(String),
}

/// A [`FetchAction`] as a mathematical value.
pub enum FetchActionView {
    List { url: Text, authorization: Text },
    Table { url: Text },
    Finish,
    Fail(Text),
}

impl DeepView for FetchAction {
    type V = FetchActionView;

    open spec fn deep_view(&self) -> FetchActionView {
        match self {
            FetchAction::List { url, authorization } => FetchActionView::List {
                url: url@,
                authorization: authorization@,
            },
            FetchAction::Table { url } => FetchActionView::Table { url: url@ },
            FetchAction::Finish => FetchActionView::Finish,
            FetchAction::Fail(e) => FetchActionView::Fail(e@),
        }
    }
}

/// What is to be asked when the table at position `i` comes next.
pub open spec fn ask_for(run: FetchView, i: int) -> FetchActionView {
    if i < run.tables.len() {
        FetchActionView::Table { url: table_url(run.node.node_url, run.address, run.tables[i]) }
    } else {
        FetchActionView::Finish
    }
}

/// A run that has read nothing yet.
pub open spec fn new_fetch(node: NodeView, address: Text, tables: Seq<Text>) -> FetchView {
    FetchView { node, address, tables, at: 0, data: Map::empty() }
}

/// What is to be asked first: a node that takes all tables is asked for their
/// names; else its own tables are read.
pub open spec fn first_question(node: NodeView, address: Text) -> (FetchView, FetchActionView) {
    match node.replication_mode {
        ModeView::All => (
            new_fetch(node, address, Seq::empty()),
            FetchActionView::List {
                url: replication_nodes::endpoint(node.node_url, address, TABLES_PATH@),
                authorization: replication_nodes::node_header(node),
            },
        ),
        ModeView::Specific(tables) => (
            new_fetch(node, address, tables),
            ask_for(new_fetch(node, address, tables), 0),
        ),
    }
}

/// What follows when the names of the tables came, or an error.
pub open spec fn after_list(
    run: FetchView,
    status: u16,
    status_text: Text,
    names: Seq<Text>,
) -> (FetchView, FetchActionView) {
    if json::success(status) {
        let next = FetchView { tables: names, at: 0, ..run };
        (next, ask_for(next, 0))
    } else {
        (run, FetchActionView::Fail("Failed to fetch table list: "@ + status_text))
    }
}

/// What follows when a table came, or an error: the next table.
pub open spec fn after_table(
    run: FetchView,
    status: u16,
    rows: Seq<Seq<JsonView>>,
) -> (FetchView, FetchActionView) {
    let next = FetchView {
        at: run.at + 1,
        data: with_reply(run.data, run.tables[run.at], status, rows),
        ..run
    };
    (next, ask_for(next, next.at))
}

/// What is said of an error when a node could not be reached.
pub open spec fn unreachable_text(mode: ModeView, error: Text) -> Text {
    match mode {
        ModeView::All => error,
        ModeView::Specific(_) => "Failed to fetch table list: "@ + error,
    }
}

impl FetchRun {
    fn ask(&self) -> (r: FetchAction)
        ensures
            r.deep_view() == ask_for(self.deep_view(), self.deep_view().at),
    {
        if self.at < self.tables.len() {
            assert(self.deep_view().tables[self.at as int] == self.tables@[self.at as int]@);
            let path = concat2("/api/tables/", self.tables[self.at].as_str());
            FetchAction::Table {
                url: self.node.endpoint_url(self.address.as_str(), path.as_str()),
            }
        } else {
            FetchAction::Finish
        }
    }

    /// The reading of the tables of a node at an address, and what is to be
    /// asked first.
    pub fn begin(node: &ReplicationNode, address: &str) -> (r: (FetchRun, FetchAction))
        ensures
            (r.0.deep_view(), r.1.deep_view()) == first_question(node.deep_view(), address@),
    {
        let (all, tables) = match &node.replication_mode {
            ReplicationMode::All => {
                let none: Vec<String> = Vec::new();
                assert(none.deep_view() =~= Seq::<Text>::empty());
                (true, none)
            },
            ReplicationMode::Specific(tables) => (false, tables.duplicate()),
        };
        let run = FetchRun {
            node: node.duplicate(),
            address: address.to_owned(),
            tables,
            at: 0,
            data: StringMap::new(),
        };
        let action = if all {
            FetchAction::List {
                url: node.endpoint_url(address, TABLES_PATH),
                authorization: auth_header(node),
            }
        } else {
            run.ask()
        };
        (run, action)
    }

    /// What is to be asked when the names of the tables came, or an error.
    pub fn list_fetched(&mut self, status: u16, status_text: &str, names: &Vec<String>) -> (r:
        FetchAction)
        ensures
            (final(self).deep_view(), r.deep_view()) == after_list(
                old(self).deep_view(),
                status,
                status_text@,
                names.deep_view(),
            ),
    {
        if is_success(status) {
            self.tables = names.duplicate();
            self.at = 0;
            self.ask()
        } else {
            FetchAction::Fail(concat2("Failed to fetch table list: ", status_text))
        }
    }

    /// What is to be asked when a table came, or an error.
    pub fn table_fetched(&mut self, status: u16, rows: &Vec<Vec<Json>>) -> (r: FetchAction)
        requires
            0 <= old(self).deep_view().at < old(self).deep_view().tables.len(),
        ensures
            (final(self).deep_view(), r.deep_view()) == after_table(
                old(self).deep_view(),
                status,
                rows.deep_view(),
            ),
    {
        assert(self.at < self.tables.len());
        assert(self.deep_view().tables[self.at as int] == self.tables@[self.at as int]@);
        let table = self.tables[self.at].clone();
        record_table(&mut self.data, table.as_str(), status, rows);
        self.at = self.at + 1;
        self.ask()
    }

    /// What is said of an error when the node could not be reached.
    pub fn unreachable(&self, error: &str) -> (r: String)
        ensures
            r@ == unreachable_text(self.deep_view().node.replication_mode, error@),
    {
        match &self.node.replication_mode {
            ReplicationMode::All => error.to_owned(),
            ReplicationMode::Specific(_) => concat2("Failed to fetch table list: ", error),
        }
    }

    /// The tables that were read.
    pub fn into_data(self) -> (r: TableData)
        ensures
            r.deep_view() == self.deep_view().data,
    {
        self.data
    }
}

/// Whether a reply is one of success; else an error that ends with its status
/// in words.
pub fn check_status(what: &str, status: u16, status_text: &str) -> (r: Result<(), String>)
    ensures
        match r {
            Ok(_) => json::success(status),
            Err(e) => !json::success(status) && e@ == what@ + status_text@,
        },
{
    if is_success(status) {
        Ok(())
    } else {
        Err(concat2(what, status_text))
    }
}

// ---------------------------------------------------------------------------
// Comparing logs
// ---------------------------------------------------------------------------

/// The last entry with an identifier.
pub open spec fn last_with_id(logs: Seq<EntryView>, id: Text) -> Option<EntryView>
    decreases logs.len(),
{
    if logs.len() == 0 {
        None
    } else if logs.last().change_id == id {
        Some(logs.last())
    } else {
        last_with_id(logs.drop_last(), id)
    }
}

/// The entries of the first log that the second has not, or has otherwise, in
/// their order.
pub open spec fn difference(logs1: Seq<EntryView>, logs2: Seq<EntryView>) -> Seq<EntryView>
    decreases logs1.len(),
{
    if logs1.len() == 0 {
        Seq::empty()
    } else {
        let before = difference(logs1.drop_last(), logs2);
        if last_with_id(logs2, logs1.last().change_id) == Some(logs1.last()) {
            before
        } else {
            before.push(logs1.last())
        }
    }
}

/// The entries for a table that the first log has and the second has not, or
/// has otherwise.
pub open spec fn log_difference(
    logs1: Seq<EntryView>,
    logs2: Seq<EntryView>,
    table: Text,
) -> Seq<EntryView> {
    difference(
        change_logging::entries_for_table(logs1, table),
        change_logging::entries_for_table(logs2, table),
    )
}

proof fn lemma_last_with_id(logs: Seq<EntryView>, id: Text, n: int)
    requires
        0 <= n < logs.len(),
        logs[n].change_id == id,
        forall|k: int| n < k < logs.len() ==> (#[trigger] logs[k]).change_id != id,
    ensures
        last_with_id(logs, id) == Some(logs[n]),
    decreases logs.len(),
{
    if n < logs.len() - 1 {
        assert(logs[logs.len() - 1].change_id != id);
        let d = logs.drop_last();
        assert(forall|k: int| 0 <= k < d.len() ==> d[k] == logs[k]);
        lemma_last_with_id(d, id, n);
    }
}

proof fn lemma_no_id(logs: Seq<EntryView>, id: Text)
    requires
        forall|k: int| 0 <= k < logs.len() ==> (#[trigger] logs[k]).change_id != id,
    ensures
        last_with_id(logs, id) is None,
    decreases logs.len(),
{
    if logs.len() > 0 {
        assert(logs[logs.len() - 1].change_id != id);
        let d = logs.drop_last();
        assert(forall|k: int| 0 <= k < d.len() ==> d[k] == logs[k]);
        lemma_no_id(d, id);
    }
}

fn has_entry(logs: &Vec<ChangeLogEntry>, entry: &ChangeLogEntry) -> (r: bool)
    ensures
        r == (last_with_id(logs.deep_view(), entry.deep_view().change_id) == Some(
            entry.deep_view(),
        )),
{
    let ghost ls = logs.deep_view();
    let ghost id = entry.change_id@;
    let mut i: usize = logs.len();
    while i > 0
        invariant
            i <= logs@.len(),
            ls == logs.deep_view(),
            id == entry.change_id@,
            forall|k: int| i <= k < logs@.len() ==> (#[trigger] ls[k]).change_id != id,
        decreases i,
    {
        i = i - 1;
        assert(ls[i as int] == logs@[i as int].deep_view());
        if str_eq(logs[i].change_id.as_str(), entry.change_id.as_str()) {
            proof {
                lemma_last_with_id(ls, id, i as int);
            }
            return entries_equal(&logs[i], entry);
        }
    }
    proof {
        lemma_no_id(ls, id);
    }
    false
}

/// The entries for a table that the first log has and the second has not, or
/// has otherwise.
pub fn compare_logs(
    logs1: &Vec<ChangeLogEntry>,
    logs2: &Vec<ChangeLogEntry>,
    table_name: &str,
) -> (r: Vec<ChangeLogEntry>)
    ensures
        r.deep_view() == log_difference(logs1.deep_view(), logs2.deep_view(), table_name@),
{
    let own = select_entries(logs1, table_name);
    let others = select_entries(logs2, table_name);
    let ghost es = own.deep_view();
    let mut r: Vec<ChangeLogEntry> = Vec::new();
    let mut i: usize = 0;
    assert(es.take(0) =~= Seq::<EntryView>::empty());
    assert(r.deep_view() =~= Seq::<EntryView>::empty());
    while i < own.len()
        invariant
            i <= own@.len(),
            es == own.deep_view(),
            r.deep_view() == difference(es.take(i as int), others.deep_view()),
        decreases own@.len() - i,
    {
        let ghost before = r.deep_view();
        assert(es.take(i as int + 1).drop_last() =~= es.take(i as int));
        assert(es.take(i as int + 1).last() == own@[i as int].deep_view());
        if !has_entry(&others, &own[i]) {
            r.push(own[i].duplicate());
            assert(r.deep_view() =~= before.push(es[i as int]));
        }
        i = i + 1;
    }
    assert(es.take(i as int) =~= es);
    r
}

/// Sending the difference completes a log: each entry of the first log for the
/// table is in the difference, or is in the second log already. And nothing
/// else is in the difference.
pub proof fn law_difference_completes(
    logs1: Seq<EntryView>,
    logs2: Seq<EntryView>,
    table: Text,
    entry: EntryView,
)
    ensures
        log_difference(logs1, logs2, table).contains(entry) ==> logs1.contains(entry)
            && entry.table_name == table,
        logs1.contains(entry) && entry.table_name == table ==> log_difference(
            logs1,
            logs2,
            table,
        ).contains(entry) || logs2.contains(entry),
{
    let own = change_logging::entries_for_table(logs1, table);
    let others = change_logging::entries_for_table(logs2, table);
    lemma_selected(logs1, table, entry);
    lemma_selected(logs2, table, entry);
    lemma_difference(own, others, entry);
}

proof fn lemma_selected(logs: Seq<EntryView>, table: Text, entry: EntryView)
    ensures
        change_logging::entries_for_table(logs, table).contains(entry) <==> logs.contains(entry)
            && entry.table_name == table,
    decreases logs.len(),
{
    if logs.len() > 0 {
        let d = logs.drop_last();
        let before = change_logging::entries_for_table(d, table);
        lemma_selected(d, table, entry);
        lemma_push_contains(d, logs.last(), entry);
        assert(d.push(logs.last()) =~= logs);
        lemma_push_contains(before, logs.last(), entry);
    }
}

proof fn lemma_push_contains(s: Seq<EntryView>, x: EntryView, y: EntryView)
    ensures
        s.push(x).contains(y) <==> s.contains(y) || x == y,
{
    if s.contains(y) {
        let i = choose|i: int| 0 <= i < s.len() && s[i] == y;
        assert(s.push(x)[i] == y);
    }
    if x == y {
        assert(s.push(x)[s.len() as int] == y);
    }
    if s.push(x).contains(y) {
        let i = choose|i: int| 0 <= i < s.push(x).len() && s.push(x)[i] == y;
        if i < s.len() {
            assert(s[i] == y);
        }
    }
}

proof fn lemma_last_is_there(logs: Seq<EntryView>, id: Text)
    ensures
        last_with_id(logs, id) matches Some(e) ==> logs.contains(e),
    decreases logs.len(),
{
    if logs.len() > 0 {
        let d = logs.drop_last();
        lemma_last_is_there(d, id);
        assert(logs[logs.len() - 1] == logs.last());
        match last_with_id(d, id) {
            Some(e) => {
                lemma_push_contains(d, logs.last(), e);
                assert(d.push(logs.last()) =~= logs);
            },
            None => {},
        }
    }
}

proof fn lemma_difference(logs1: Seq<EntryView>, logs2: Seq<EntryView>, entry: EntryView)
    ensures
        difference(logs1, logs2).contains(entry) ==> logs1.contains(entry),
        logs1.contains(entry) ==> difference(logs1, logs2).contains(entry) || logs2.contains(
            entry,
        ),
    decreases logs1.len(),
{
    if logs1.len() > 0 {
        let d = logs1.drop_last();
        lemma_difference(d, logs2, entry);
        lemma_push_contains(d, logs1.last(), entry);
        assert(d.push(logs1.last()) =~= logs1);
        lemma_push_contains(difference(d, logs2), logs1.last(), entry);
        lemma_last_is_there(logs2, logs1.last().change_id);
    }
}

/// Equal logs have no difference, where no identifier occurs twice.
pub proof fn law_equal_logs_have_no_difference(logs: Seq<EntryView>, table: Text)
    requires
        forall|i: int, j: int|
            0 <= i < j < logs.len() ==> (#[trigger] logs[i]).change_id != (#[trigger] logs[j]).change_id,
    ensures
        log_difference(logs, logs, table) == Seq::<EntryView>::empty(),
{
    let own = change_logging::entries_for_table(logs, table);
    lemma_distinct(logs, table);
    assert(own.take(own.len() as int) =~= own);
    lemma_no_difference(own, own.len() as int);
}

proof fn lemma_distinct(logs: Seq<EntryView>, table: Text)
    requires
        forall|i: int, j: int|
            0 <= i < j < logs.len() ==> (#[trigger] logs[i]).change_id != (#[trigger] logs[j]).change_id,
    ensures
        forall|i: int, j: int|
            0 <= i < j < change_logging::entries_for_table(logs, table).len()
                ==> (#[trigger] change_logging::entries_for_table(logs, table)[i]).change_id != (
            #[trigger] change_logging::entries_for_table(logs, table)[j]).change_id,
    decreases logs.len(),
{
    if logs.len() > 0 {
        let d = logs.drop_last();
        let before = change_logging::entries_for_table(d, table);
        let own = change_logging::entries_for_table(logs, table);
        assert(forall|k: int| 0 <= k < d.len() ==> d[k] == logs[k]);
        lemma_distinct(d, table);
        assert forall|i: int, j: int| 0 <= i < j < own.len() implies (#[trigger] own[i]).change_id
            != (#[trigger] own[j]).change_id by {
            if j < before.len() {
                assert(before[i].change_id != before[j].change_id);
            } else {
                let e = own[i];
                assert(before[i] == e);
                assert(before.contains(e));
                lemma_selected(d, table, e);
                let k = choose|k: int| 0 <= k < d.len() && d[k] == e;
                assert(logs[k] == e);
                assert(logs[k].change_id != logs[logs.len() - 1].change_id);
            }
        }
    }
}

proof fn lemma_no_difference(own: Seq<EntryView>, n: int)
    requires
        0 <= n <= own.len(),
        forall|i: int, j: int|
            0 <= i < j < own.len() ==> (#[trigger] own[i]).change_id != (#[trigger] own[j]).change_id,
    ensures
        difference(own.take(n), own) == Seq::<EntryView>::empty(),
    decreases n,
{
    if n > 0 {
        lemma_no_difference(own, n - 1);
        assert(own.take(n).drop_last() =~= own.take(n - 1));
        assert(own.take(n).last() == own[n - 1]);
        assert forall|k: int| n - 1 < k < own.len() implies (#[trigger] own[k]).change_id
            != own[n - 1].change_id by {
            assert(own[n - 1].change_id != own[k].change_id);
        }
        lemma_last_with_id(own, own[n - 1].change_id, n - 1);
    }
}

/// Whether changes go to the other node: where this node has more entries for
/// the table. Else the other node is asked for its own.
pub fn should_replicate_to_node(
    logs1: &Vec<ChangeLogEntry>,
    logs2: &Vec<ChangeLogEntry>,
) -> (r: bool)
    ensures
        r == pushes(logs1.deep_view(), logs2.deep_view()),
{
    logs1.len() > logs2.len()
}

/// Whether changes go to the other node.
pub open spec fn pushes(logs1: Seq<EntryView>, logs2: Seq<EntryView>) -> bool {
    logs1.len() > logs2.len()
}

/// Of two nodes at most one sends its changes to the other; and where one has
/// more entries than the other, one does.
pub proof fn law_one_node_pushes(logs1: Seq<EntryView>, logs2: Seq<EntryView>)
    ensures
        !(pushes(logs1, logs2) && pushes(logs2, logs1)),
        logs1.len() != logs2.len() ==> pushes(logs1, logs2) || pushes(logs2, logs1),
{
}

// ---------------------------------------------------------------------------
// Comparing nodes
// ---------------------------------------------------------------------------

/// How a table of this node compares with that of another node.
#[derive(Debug, Clone, Copy, PartialEq, Eq, Structural)]
pub enum Comparison {
    Same,
    Differs,
    OnlyHere,
    OnlyThere,
    Nowhere,
}

impl DeepView for Comparison {
    type V = Comparison;

    open spec fn deep_view(&self) -> Comparison {
        *self
    }
}

/// How a table of this node compares with that of another node.
pub open spec fn compared(current: DataView, other: DataView, table: Text) -> Comparison {
    if current.contains_key(table) && other.contains_key(table) {
        if current[table] == other[table] {
            Comparison::Same
        } else {
            Comparison::Differs
        }
    } else if current.contains_key(table) {
        Comparison::OnlyHere
    } else if other.contains_key(table) {
        Comparison::OnlyThere
    } else {
        Comparison::Nowhere
    }
}

fn values_equal(a: &Vec<Json>, b: &Vec<Json>) -> (r: bool)
    ensures
        r == (a.deep_view() == b.deep_view()),
{
    let ghost x = a.deep_view();
    let ghost y = b.deep_view();
    if a.len() != b.len() {
        assert(x.len() != y.len());
        return false;
    }
    let mut i: usize = 0;
    while i < a.len()
        invariant
            i <= a@.len() == b@.len(),
            x == a.deep_view(),
            y == b.deep_view(),
            forall|k: int| 0 <= k < i ==> x[k] == y[k],
        decreases a@.len() - i,
    {
        if !json_eq(&a[i], &b[i]) {
            assert(x[i as int] != y[i as int]);
            return false;
        }
        assert(x[i as int] == y[i as int]);
        i = i + 1;
    }
    assert(x =~= y);
    true
}

/// How a table of this node compares with that of another node.
pub fn compare_table(
    current_node_data: &TableData,
    other_node_data: &TableData,
    table_name: &str,
) -> (r: Comparison)
    ensures
        r == compared(current_node_data.deep_view(), other_node_data.deep_view(), table_name@),
{
    match (current_node_data.get(table_name), other_node_data.get(table_name)) {
        (Some(a), Some(b)) => if values_equal(a, b) {
            Comparison::Same
        } else {
            Comparison::Differs
        },
        (Some(_), None) => Comparison::OnlyHere,
        (None, Some(_)) => Comparison::OnlyThere,
        (None, None) => Comparison::Nowhere,
    }
}

/// The keys of a map, in their order.
fn keys_of(data: &TableData) -> (r: Vec<String>)
    ensures
        r.deep_view() == data.keys(),
{
    let n: usize = data.len();
    let mut r: Vec<String> = Vec::new();
    let mut i: usize = 0;
    while i < n
        invariant
            i <= n == data.keys().len(),
            r@.len() == i,
            forall|k: int| 0 <= k < i ==> (#[trigger] r@[k])@ == data.keys()[k],
        decreases n - i,
    {
        r.push(data.key_at(i).clone());
        i = i + 1;
    }
    assert(r.deep_view() =~= data.keys());
    r
}

/// The tables on which this node is compared with another one, given the names
/// of the tables on either: its own tables where the node has some, else all of
/// this node's, or all of the other's where there are more of them.
pub open spec fn tables_to_compare(
    mode: ModeView,
    current: Seq<Text>,
    other: Seq<Text>,
) -> Seq<Text> {
    match mode {
        ModeView::All => if current.len() < other.len() {
            other
        } else {
            current
        },
        ModeView::Specific(tables) => tables,
    }
}

/// The comparison of two nodes, table by table.
#[derive(Debug)]
pub struct SyncRun {
    all: bool,
    tables: Vec<String>,
    comparisons: Vec<Comparison>,
    at: usize,
    stage: SyncStage,
}

/// What a [`SyncRun`] waits for.
#[derive(Debug, Clone, Copy, PartialEq, Eq, Structural)]
pub enum SyncStage {
    Logs,
    Push,
    Pull,
    Finished,
}

/// A [`SyncRun`] as a mathematical value.
pub struct SyncView {
    /// Whether the node takes all tables.
    pub all: bool,
    pub tables: Seq<Text>,
    pub comparisons: Seq<Comparison>,
    /// The table that is being brought in step.
    pub at: int,
    pub stage: SyncStage,
}

impl DeepView for SyncRun {
    type V = SyncView;

    closed spec fn deep_view(&self) -> SyncView {
        SyncView {
            all: self.all,
            tables: self.tables.deep_view(),
            comparisons: self.comparisons.deep_view(),
            at: self.at as int,
            stage: self.stage,
        }
    }
}

/// What is to be done to bring two nodes in step.
#[derive(Debug, PartialEq, Eq)]
pub enum SyncAction {
    /// The entries for a table are to be read, of this node and of the other.
    FetchLogs { table: String, here: bool, there: bool },
    /// Changes are to be sent to the other node.
    Push(Vec<ChangeLogEntry>),
    /// The other node is to be asked for its changes.
    Pull,
    /// There is nothing more to be done.
    Finish,
}

/// A [`SyncAction`] as a mathematical value.
pub enum SyncActionView {
    FetchLogs { table: Text, here: bool, there: bool },
    Push(Seq<EntryView>),
    Pull,
    Finish,
}

impl DeepView for SyncAction {
    type V = SyncActionView;

    open spec fn deep_view(&self) -> SyncActionView {
        match self {
            SyncAction::FetchLogs { table, here, there } => SyncActionView::FetchLogs {
                table: table@,
                here: *here,
                there: *there,
            },
            SyncAction::Push(entries) => SyncActionView::Push(entries.deep_view()),
            SyncAction::Pull => SyncActionView::Pull,
            SyncAction::Finish => SyncActionView::Finish,
        }
    }
}

/// Whether a table has to be brought in step.
pub open spec fn is_out_of_step(c: Comparison) -> bool {
    c == Comparison::Differs || c == Comparison::OnlyHere || c == Comparison::OnlyThere
}

/// The position of the first table from `i` on that has to be brought in step.
pub open spec fn next_out_of_step(comparisons: Seq<Comparison>, i: int) -> int
    decreases comparisons.len() - i,
{
    if i >= comparisons.len() {
        comparisons.len() as int
    } else if is_out_of_step(comparisons[i]) {
        i
    } else {
        next_out_of_step(comparisons, i + 1)
    }
}

/// The run at the next table from position `i` on that has to be brought in
/// step, and what is then to be done: to read the entries for the table of the
/// nodes that have it.
pub open spec fn turn_to_table(run: SyncView, i: int) -> (SyncView, SyncActionView) {
    let j = next_out_of_step(run.comparisons, i);
    if j < run.comparisons.len() {
        (
            SyncView { at: j, stage: SyncStage::Logs, ..run },
            SyncActionView::FetchLogs {
                table: run.tables[j],
                here: run.comparisons[j] != Comparison::OnlyThere,
                there: run.comparisons[j] != Comparison::OnlyHere,
            },
        )
    } else {
        (SyncView { at: j, stage: SyncStage::Finished, ..run }, SyncActionView::Finish)
    }
}

/// The entries that count: none where the node has not the table.
pub open spec fn counted(has_table: bool, logs: Seq<EntryView>) -> Seq<EntryView> {
    if has_table {
        logs
    } else {
        Seq::empty()
    }
}

/// What follows when the entries for a table were read: this node sends what
/// the other has not, where it has more entries, and else asks it.
pub open spec fn after_logs(
    run: SyncView,
    logs1: Seq<EntryView>,
    logs2: Seq<EntryView>,
) -> (SyncView, SyncActionView) {
    let own = counted(run.comparisons[run.at] != Comparison::OnlyThere, logs1);
    let others = counted(run.comparisons[run.at] != Comparison::OnlyHere, logs2);
    if pushes(own, others) {
        (
            SyncView { stage: SyncStage::Push, ..run },
            SyncActionView::Push(log_difference(own, others, run.tables[run.at])),
        )
    } else {
        (SyncView { stage: SyncStage::Pull, ..run }, SyncActionView::Pull)
    }
}

/// What follows when the other node was asked: it sends all its changes, so
/// that the run is at its end. Only of a node with tables of its own, where one
/// of the two has not the table, the tables after it are still looked at.
pub open spec fn after_pull(run: SyncView) -> (SyncView, SyncActionView) {
    if run.all || run.comparisons[run.at] == Comparison::Differs {
        (SyncView { stage: SyncStage::Finished, ..run }, SyncActionView::Finish)
    } else {
        turn_to_table(run, run.at + 1)
    }
}

/// Whether a run is at a table and waits for the given thing.
pub open spec fn waits_for(run: SyncView, stage: SyncStage) -> bool {
    run.stage == stage && 0 <= run.at < run.comparisons.len() && run.comparisons.len()
        == run.tables.len()
}

/// The run over the given tables before its first table.
pub open spec fn is_sync_run(
    run: SyncView,
    mode: ModeView,
    current: DataView,
    other: DataView,
    tables: Seq<Text>,
) -> bool {
    &&& run.all == (mode is All)
    &&& run.tables == tables
    &&& run.comparisons == Seq::new(tables.len(), |i: int| compared(current, other, tables[i]))
}

impl SyncRun {
    /// The comparison of this node with another one, and what is to be done
    /// first.
    pub fn begin(
        other_node: &ReplicationNode,
        current_node_data: &TableData,
        other_node_data: &TableData,
    ) -> (r: (SyncRun, SyncAction))
        ensures
            is_sync_run(
                r.0.deep_view(),
                other_node.deep_view().replication_mode,
                current_node_data.deep_view(),
                other_node_data.deep_view(),
                tables_to_compare(
                    other_node.deep_view().replication_mode,
                    current_node_data.keys(),
                    other_node_data.keys(),
                ),
            ),
            (r.0.deep_view(), r.1.deep_view()) == turn_to_table(r.0.deep_view(), 0),
    {
        let (all, tables) = match &other_node.replication_mode {
            ReplicationMode::All => {
                let ours = keys_of(current_node_data);
                let theirs = keys_of(other_node_data);
                if ours.len() < theirs.len() {
                    (true, theirs)
                } else {
                    (true, ours)
                }
            },
            ReplicationMode::Specific(tables) => (false, tables.duplicate()),
        };
        let ghost ts = tables.deep_view();
        let mut comparisons: Vec<Comparison> = Vec::new();
        let mut i: usize = 0;
        while i < tables.len()
            invariant
                i <= tables@.len(),
                ts == tables.deep_view(),
                comparisons@.len() == i,
                forall|k: int|
                    0 <= k < i ==> #[trigger] comparisons@[k] == compared(
                        current_node_data.deep_view(),
                        other_node_data.deep_view(),
                        ts[k],
                    ),
            decreases tables@.len() - i,
        {
            assert(ts[i as int] == tables@[i as int]@);
            comparisons.push(
                compare_table(current_node_data, other_node_data, tables[i].as_str()),
            );
            i = i + 1;
        }
        let mut run = SyncRun { all, tables, comparisons, at: 0, stage: SyncStage::Logs };
        let ghost v = run.deep_view();
        proof {
            assert(v.comparisons =~= Seq::new(
                ts.len(),
                |i: int|
                    compared(
                        current_node_data.deep_view(),
                        other_node_data.deep_view(),
                        ts[i],
                    ),
            ));
        }
        let action = run.turn(0);
        assert(turn_to_table(run.deep_view(), 0) == turn_to_table(v, 0));
        (run, action)
    }

    fn turn(&mut self, from: usize) -> (r: SyncAction)
        requires
            old(self).deep_view().comparisons.len() == old(self).deep_view().tables.len(),
        ensures
            (final(self).deep_view(), r.deep_view()) == turn_to_table(
                old(self).deep_view(),
                from as int,
            ),
    {
        let ghost before = self.deep_view();
        let n: usize = self.comparisons.len();
        let mut j: usize = from;
        if j > n {
            j = n;
        }
        while j < n
            invariant
                j <= n == self.comparisons@.len(),
                before == self.deep_view(),
                before.comparisons == self.comparisons.deep_view(),
                next_out_of_step(before.comparisons, from as int) == next_out_of_step(
                    before.comparisons,
                    j as int,
                ),
            ensures
                j <= n,
                next_out_of_step(before.comparisons, from as int) == j,
            decreases n - j,
        {
            let c = self.comparisons[j];
            assert(c == before.comparisons[j as int]);
            if c == Comparison::Differs || c == Comparison::OnlyHere || c
                == Comparison::OnlyThere {
                break ;
            }
            j = j + 1;
        }
        self.at = j;
        if j < n {
            self.stage = SyncStage::Logs;
            let c = self.comparisons[j];
            assert(c == before.comparisons[j as int]);
            assert(before.tables[j as int] == self.tables@[j as int]@);
            SyncAction::FetchLogs {
                table: self.tables[j].clone(),
                here: c != Comparison::OnlyThere,
                there: c != Comparison::OnlyHere,
            }
        } else {
            self.stage = SyncStage::Finished;
            SyncAction::Finish
        }
    }

    /// What is to be done when the entries for the table were read.
    pub fn logs_fetched(
        &mut self,
        logs1: &Vec<ChangeLogEntry>,
        logs2: &Vec<ChangeLogEntry>,
    ) -> (r: SyncAction)
        requires
            waits_for(old(self).deep_view(), SyncStage::Logs),
        ensures
            (final(self).deep_view(), r.deep_view()) == after_logs(
                old(self).deep_view(),
                logs1.deep_view(),
                logs2.deep_view(),
            ),
    {
        let c = self.comparisons[self.at];
        assert(c == self.deep_view().comparisons[self.deep_view().at]);
        assert(self.deep_view().tables[self.deep_view().at] == self.tables@[self.at as int]@);
        let none: Vec<ChangeLogEntry> = Vec::new();
        assert(none.deep_view() =~= Seq::<EntryView>::empty());
        let own = if c != Comparison::OnlyThere {
            logs1
        } else {
            &none
        };
        let others = if c != Comparison::OnlyHere {
            logs2
        } else {
            &none
        };
        if should_replicate_to_node(own, others) {
            self.stage = SyncStage::Push;
            SyncAction::Push(compare_logs(own, others, self.tables[self.at].as_str()))
        } else {
            self.stage = SyncStage::Pull;
            SyncAction::Pull
        }
    }

    /// What is to be done when changes were sent.
    pub fn pushed(&mut self) -> (r: SyncAction)
        requires
            waits_for(old(self).deep_view(), SyncStage::Push),
        ensures
            (final(self).deep_view(), r.deep_view()) == turn_to_table(
                old(self).deep_view(),
                old(self).deep_view().at + 1,
            ),
    {
        assert(self.at < self.comparisons.len());
        self.turn(self.at + 1)
    }

    /// What is to be done when the other node was asked.
    pub fn pulled(&mut self) -> (r: SyncAction)
        requires
            waits_for(old(self).deep_view(), SyncStage::Pull),
        ensures
            (final(self).deep_view(), r.deep_view()) == after_pull(old(self).deep_view()),
    {
        assert(self.at < self.comparisons.len());
        let c = self.comparisons[self.at];
        assert(c == self.deep_view().comparisons[self.deep_view().at]);
        if self.all || c == Comparison::Differs {
            self.stage = SyncStage::Finished;
            SyncAction::Finish
        } else {
            self.turn(self.at + 1)
        }
    }
}

proof fn lemma_all_in_step(comparisons: Seq<Comparison>, i: int)
    requires
        0 <= i <= comparisons.len(),
        forall|k: int|
            0 <= k < comparisons.len() ==> !is_out_of_step(#[trigger] comparisons[k]),
    ensures
        next_out_of_step(comparisons, i) == comparisons.len(),
    decreases comparisons.len() - i,
{
    if i < comparisons.len() {
        lemma_all_in_step(comparisons, i + 1);
    }
}

/// Nodes with the same data are in step: there is nothing to be done.
pub proof fn law_same_data_needs_nothing(
    run: SyncView,
    mode: ModeView,
    data: DataView,
    tables: Seq<Text>,
)
    requires
        is_sync_run(run, mode, data, data, tables),
    ensures
        turn_to_table(run, 0).1 == SyncActionView::Finish,
{
    assert forall|k: int| 0 <= k < run.comparisons.len() implies !is_out_of_step(
        #[trigger] run.comparisons[k],
    ) by {
        assert(run.comparisons[k] == compared(data, data, tables[k]));
    }
    lemma_all_in_step(run.comparisons, 0);
}

proof fn lemma_next_skips_nothing(comparisons: Seq<Comparison>, i: int)
    requires
        0 <= i <= comparisons.len(),
    ensures
        i <= next_out_of_step(comparisons, i) <= comparisons.len(),
        next_out_of_step(comparisons, i) < comparisons.len() ==> is_out_of_step(
            comparisons[next_out_of_step(comparisons, i)],
        ),
        forall|k: int|
            i <= k < next_out_of_step(comparisons, i) ==> !is_out_of_step(
                #[trigger] comparisons[k],
            ),
    decreases comparisons.len() - i,
{
    if i < comparisons.len() && !is_out_of_step(comparisons[i]) {
        lemma_next_skips_nothing(comparisons, i + 1);
    }
}

/// No table that is out of step is passed over: from one table the run goes to
/// the next one that is, and ends only where there is none.
pub proof fn law_no_table_is_passed_over(run: SyncView, i: int)
    requires
        0 <= i <= run.comparisons.len(),
    ensures
        ({
            let (next, action) = turn_to_table(run, i);
            &&& i <= next.at
            &&& forall|k: int|
                i <= k < next.at && k < run.comparisons.len() ==> !is_out_of_step(
                    #[trigger] run.comparisons[k],
                )
            &&& action is Finish <==> next.at == run.comparisons.len()
            &&& action is FetchLogs ==> waits_for(next, SyncStage::Logs)
                || run.comparisons.len() != run.tables.len()
        }),
{
    lemma_next_skips_nothing(run.comparisons, i);
}

// ---------------------------------------------------------------------------
// Sending and asking
// ---------------------------------------------------------------------------

/// The request that carries changes to a node.
pub fn changes_request(
    schema: &Schema,
    node: &ReplicationNode,
    diff_entries: Vec<ChangeLogEntry>,
) -> (r: ReplicationRequest)
    ensures
        r.deep_view() == (RequestView {
            schema: schema.deep_view(),
            entries: diff_entries.deep_view(),
            target_node: node.deep_view(),
        }),
{
    ReplicationRequest {
        schema: schema.duplicate(),
        entries: diff_entries,
        target_node: node.duplicate(),
    }
}

/// What came of sending changes to a node, given whether it took them.
pub fn replicate_changes_to_node(outcome: &Result<bool, String>) -> (r: Result<(), String>)
    ensures
        match (r, *outcome) {
            (Ok(_), Ok(taken)) => taken,
            (Err(e), Ok(taken)) => !taken && e@ == "Failed to replicate changes to node"@,
            (Err(e), Err(error)) => e@ == error@,
            (Ok(_), Err(_)) => false,
        },
{
    match outcome {
        Ok(true) => Ok(()),
        Ok(false) => Err("Failed to replicate changes to node".to_owned()),
        Err(e) => Err(e.clone()),
    }
}

/// What came of asking a node to compare itself with this one.
pub open spec fn sync_outcome(node_url: Text, url: Text, result: SendResult) -> Result<
    (),
    ReplicationErrorView,
> {
    match result {
        SendResult::Unresolved(e) => Err(ReplicationErrorView::NetworkError(e@)),
        SendResult::Answered(status, words) => if json::success(status) {
            Ok(())
        } else {
            Err(
                ReplicationErrorView::ReplicationFailure(
                    "Sync check failed for "@ + url + ": "@ + words@,
                ),
            )
        },
        SendResult::Unanswered(e) => Err(
            ReplicationErrorView::ReplicationFailure("Network error on "@ + node_url + ": "@ + e@),
        ),
    }
}

/// What came of asking a node at a URL to compare itself with this one.
pub fn outcome_of_sync(node: &ReplicationNode, url: &str, result: &SendResult) -> (r: Result<
    (),
    ReplicationError,
>)
    ensures
        match r {
            Ok(_) => sync_outcome(node.node_url@, url@, *result) is Ok,
            Err(e) => sync_outcome(node.node_url@, url@, *result) == Err::<(), _>(e.deep_view()),
        },
{
    match result {
        SendResult::Unresolved(e) => Err(ReplicationError::NetworkError(e.clone())),
        SendResult::Answered(status, words) => if is_success(*status) {
            Ok(())
        } else {
            Err(
                ReplicationError::ReplicationFailure(
                    concat4("Sync check failed for ", url, ": ", words.as_str()),
                ),
            )
        },
        SendResult::Unanswered(e) => Err(
            ReplicationError::ReplicationFailure(
                concat4("Network error on ", node.node_url.as_str(), ": ", e.as_str()),
            ),
        ),
    }
}

/// What is said of the errors among some results, in their order.
pub open spec fn error_texts(errors: Seq<Option<ReplicationErrorView>>) -> Seq<Text>
    decreases errors.len(),
{
    if errors.len() == 0 {
        Seq::empty()
    } else {
        let before = error_texts(errors.drop_last());
        match errors.last() {
            Some(e) => before.push(passive_replication::error_text(e)),
            None => before,
        }
    }
}

/// What came of asking all nodes: every error is told.
pub fn try_perform_replication_sync(errors: &Vec<Option<ReplicationError>>) -> (r: Result<
    (),
    String,
>)
    ensures
        match r {
            Ok(_) => error_texts(errors.deep_view()).len() == 0,
            Err(e) => error_texts(errors.deep_view()).len() > 0 && e@
                == "Replication sync failed: "@ + text::join(
                error_texts(errors.deep_view()),
                "; "@,
            ),
        },
{
    let ghost es = errors.deep_view();
    let mut texts: Vec<String> = Vec::new();
    let mut i: usize = 0;
    assert(es.take(0) =~= Seq::<Option<ReplicationErrorView>>::empty());
    assert(texts.deep_view() =~= Seq::<Text>::empty());
    while i < errors.len()
        invariant
            i <= errors@.len(),
            es == errors.deep_view(),
            texts.deep_view() == error_texts(es.take(i as int)),
        decreases errors@.len() - i,
    {
        let ghost before = texts.deep_view();
        assert(es.take(i as int + 1).drop_last() =~= es.take(i as int));
        assert(es.take(i as int + 1).last() == errors@[i as int].deep_view());
        match &errors[i] {
            Some(e) => {
                texts.push(e.to_text());
                assert(texts.deep_view() =~= before.push(
                    passive_replication::error_text(e.deep_view()),
                ));
            },
            None => {},
        }
        i = i + 1;
    }
    assert(es.take(i as int) =~= es);
    assert(texts.deep_view().len() == texts@.len());
    if texts.len() == 0 {
        Ok(())
    } else {
        Err(concat2("Replication sync failed: ", join_with(&texts, "; ").as_str()))
    }
}

/// The reply to a request to compare all nodes, given the error with which that
/// failed.
pub fn trigger_replication_sync(error: &Option<String>) -> (r: PlainReply)
    ensures
        r.deep_view() == match error {
            None => PlainView {
                status: 200,
                message: "Replication sync check completed successfully"@,
            },
            Some(e) => PlainView {
                status: 500,
                message: "Replication sync check failed: "@ + e@,
            },
        },
{
    match error {
        None => PlainReply::new(200, "Replication sync check completed successfully"),
        Some(e) => PlainReply::new(
            500,
            concat2("Replication sync check failed: ", e.as_str()).as_str(),
        ),
    }
}

} // verus!
