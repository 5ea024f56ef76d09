//! The entries of the log of changes, and what is read back of them.

use crate::config::database_config;
use crate::config::database_config::join_path;
use crate::json;
use crate::json::{Json, JsonView};
use crate::outside;
use crate::outside::{new_uuid, now_text};
use crate::schema::schema;
use crate::schema::schema::{initial_table_name, updates_table_name, Table, TableView};
use crate::schema::schema_json;
use crate::schema::schema_json::table_to_json;
use crate::string_map::Duplicate;
use crate::text::{str_eq, Text};
use vstd::prelude::*;

verus! {

/// The kinds of changes to a database.
#[derive(Debug, Clone, Copy, PartialEq, Eq, Structural)]
pub enum ChangeType {
    Create,
    Insert,
    Update,
    Delete,
    Drop,
}

impl ChangeType {
    /// The name of the kind of change.
    pub open spec fn name(self) -> Text {
        match self {
            ChangeType::Insert => "Insert"@,
            ChangeType::Update => "Update"@,
            ChangeType::Delete => "Delete"@,
            ChangeType::Create => "Create"@,
            ChangeType::Drop => "Drop"@,
        }
    }

    /// The name of the kind of change.
    pub fn to_name(&self) -> (r: String)
        ensures
            r@ == self.name(),
    {
        match self {
            ChangeType::Insert => "Insert".to_owned(),
            ChangeType::Update => "Update".to_owned(),
            ChangeType::Delete => "Delete".to_owned(),
            ChangeType::Create => "Create".to_owned(),
            ChangeType::Drop => "Drop".to_owned(),
        }
    }

    /// Whether the change is to the schema.
    pub open spec fn changes_schema(self) -> bool {
        self == ChangeType::Create || self == ChangeType::Drop
    }

    /// Whether the change is to the schema.
    pub fn is_schema_change(&self) -> (r: bool)
        ensures
            r == self.changes_schema(),
    {
        match self {
            ChangeType::Create => true,
            ChangeType::Drop => true,
            _ => false,
        }
    }
}

/// An entry of the log.
#[derive(Debug, PartialEq, Eq)]
pub struct ChangeLogEntry {
    /// A UUID in the hyphenated form.
    pub change_id: String,
    pub change_type: ChangeType,
    pub table_name: String,
    pub data: Json,
    pub user: Option<String>,
    pub origin_db: Option<String>,
}

/// A [`ChangeLogEntry`] as a mathematical value.
pub struct EntryView {
    pub change_id: Text,
    pub change_type: ChangeType,
    pub table_name: Text,
    pub data: JsonView,
    pub user: Option<Text>,
    pub origin_db: Option<Text>,
}

impl DeepView for ChangeLogEntry {
    type V = EntryView;

    open spec fn deep_view(&self) -> EntryView {
        EntryView {
            change_id: self.change_id@,
            change_type: self.change_type,
            table_name: self.table_name@,
            data: self.data.deep_view(),
            user: self.user.deep_view(),
            origin_db: self.origin_db.deep_view(),
        }
    }
}

impl Duplicate for ChangeLogEntry {
    fn duplicate(&self) -> (r: Self) {
        ChangeLogEntry {
            change_id: self.change_id.clone(),
            change_type: self.change_type,
            table_name: self.table_name.clone(),
            data: self.data.copy(),
            user: self.user.duplicate(),
            origin_db: self.origin_db.duplicate(),
        }
    }
}

fn options_equal(a: &Option<String>, b: &Option<String>) -> (r: bool)
    ensures
        r == (a.deep_view() == b.deep_view()),
{
    match (a, b) {
        (None, None) => true,
        (Some(x), Some(y)) => str_eq(x.as_str(), y.as_str()),
        _ => false,
    }
}

/// Whether two entries are the same.
pub fn entries_equal(a: &ChangeLogEntry, b: &ChangeLogEntry) -> (r: bool)
    ensures
        r == (a.deep_view() == b.deep_view()),
{
    str_eq(a.change_id.as_str(), b.change_id.as_str()) && a.change_type == b.change_type && str_eq(
        a.table_name.as_str(),
        b.table_name.as_str(),
    ) && json::json_eq(&a.data, &b.data) && options_equal(&a.user, &b.user) && options_equal(
        &a.origin_db,
        &b.origin_db,
    )
}

/// An optional text as a JSON value.
pub open spec fn optional_text(t: Option<Text>) -> JsonView {
    match t {
        Some(s) => JsonView::Str(s),
        None => JsonView::Null,
    }
}

/// An entry as a JSON value.
pub open spec fn entry_json(e: EntryView) -> JsonView {
    JsonView::Object(
        seq![
            ("change_id"@, JsonView::Str(e.change_id)),
            ("change_type"@, JsonView::Str(e.change_type.name())),
            ("data"@, e.data),
            ("origin_db"@, optional_text(e.origin_db)),
            ("table_name"@, JsonView::Str(e.table_name)),
            ("user"@, optional_text(e.user)),
        ],
    )
}

/// An optional text as a JSON value.
pub fn to_optional_text(t: &Option<String>) -> (r: Json)
    ensures
        r.deep_view() == optional_text(t.deep_view()),
{
    match t {
        Some(s) => Json::Str(s.clone()),
        None => Json::Null,
    }
}

/// An entry as a JSON value.
pub fn entry_to_json(e: &ChangeLogEntry) -> (r: Json)
    ensures
        r.deep_view() == entry_json(e.deep_view()),
{
    let mut fields: Vec<(String, Json)> = Vec::new();
    fields.push(("change_id".to_owned(), Json::Str(e.change_id.clone())));
    fields.push(("change_type".to_owned(), Json::Str(e.change_type.to_name())));
    fields.push(("data".to_owned(), e.data.copy()));
    fields.push(("origin_db".to_owned(), to_optional_text(&e.origin_db)));
    fields.push(("table_name".to_owned(), Json::Str(e.table_name.clone())));
    fields.push(("user".to_owned(), to_optional_text(&e.user)));
    proof {
        json::lemma_object_view(fields);
        assert(fields.deep_view() =~= entry_json(e.deep_view())->Object_0);
    }
    Json::Object(fields)
}

/// The data of an entry for a row.
pub open spec fn row_data(cells: Seq<Text>) -> JsonView {
    JsonView::Object(seq![("row_data"@, json::text_array(cells))])
}

/// The data of an entry for a row.
pub fn row_data_json(cells: &Vec<String>) -> (r: Json)
    ensures
        r.deep_view() == row_data(cells.deep_view()),
{
    json::object1("row_data", json::string_array(cells))
}

/// The data of an entry for a table that was created.
pub open spec fn created_data(table: TableView) -> JsonView {
    JsonView::Object(seq![("table_definition"@, schema_json::table_json(table))])
}

/// The data of an entry for a table that was created.
pub fn created_data_json(table: &Table) -> (r: Json)
    ensures
        r.deep_view() == created_data(table.deep_view()),
{
    json::object1("table_definition", table_to_json(table))
}

/// The data of an entry for a table that was dropped at a time.
pub open spec fn dropped_data(table: Text, now: Text) -> JsonView {
    JsonView::Object(
        seq![
            (
                "dropped_tables"@,
                json::text_array(seq![schema::initial_name(table), schema::updates_name(table)]),
            ),
            ("timestamp"@, JsonView::Str(now)),
        ],
    )
}

/// The data of an entry for a table that was dropped at a given time.
pub fn dropped_data_at(table_name: &str, now: &str) -> (r: Json)
    ensures
        r.deep_view() == dropped_data(table_name@, now@),
{
    let mut names: Vec<String> = Vec::new();
    names.push(initial_table_name(table_name));
    names.push(updates_table_name(table_name));
    assert(names.deep_view() =~= seq![
        schema::initial_name(table_name@),
        schema::updates_name(table_name@),
    ]);
    json::object2(
        "dropped_tables",
        json::string_array(&names),
        "timestamp",
        Json::Str(now.to_owned()),
    )
}

/// The data of an entry for a table that is dropped now.
pub fn dropped_data_json(table_name: &str) -> (r: Json)
    ensures
        exists|now: Text|
            outside::is_time_text(now) && r.deep_view()
                == #[trigger] dropped_data(table_name@, now),
{
    let now = now_text();
    dropped_data_at(table_name, now.as_str())
}

// ---------------------------------------------------------------------------
// Writing
// ---------------------------------------------------------------------------

/// Where the log of changes is.
#[derive(Debug, PartialEq, Eq)]
pub struct ChangeLogger {
    log_directory: String,
    log_file: String,
}

/// A [`ChangeLogger`] as a mathematical value.
pub struct LoggerView {
    pub log_directory: Text,
    pub log_file: Text,
}

impl DeepView for ChangeLogger {
    type V = LoggerView;

    closed spec fn deep_view(&self) -> LoggerView {
        LoggerView { log_directory: self.log_directory@, log_file: self.log_file@ }
    }
}

impl Clone for ChangeLogger {
    fn clone(&self) -> (r: Self)
        ensures
            r.deep_view() == self.deep_view(),
    {
        ChangeLogger { log_directory: self.log_directory.clone(), log_file: self.log_file.clone() }
    }
}

/// The entry for a change.
pub open spec fn change_entry(
    change_id: Text,
    change_type: ChangeType,
    table_name: Text,
    data: JsonView,
    user: Option<Text>,
    origin_db: Option<Text>,
) -> EntryView {
    EntryView { change_id, change_type, table_name, data, user, origin_db }
}

impl ChangeLogger {
    /// The logger that writes to a file in a directory.
    pub fn new(log_directory: &str, log_file: String) -> (r: Self)
        ensures
            r.deep_view() == (LoggerView {
                log_directory: log_directory@,
                log_file: log_file@,
            }),
    {
        ChangeLogger { log_directory: log_directory.to_owned(), log_file }
    }

    /// The path of the log.
    pub fn log_file_path(&self) -> (r: String)
        ensures
            r@ == database_config::joined(
                self.deep_view().log_directory,
                self.deep_view().log_file,
            ),
    {
        join_path(self.log_directory.as_str(), self.log_file.as_str())
    }

    /// The entry for a change, with the given id, or with a random one where
    /// none is given.
    pub fn log_change(
        &self,
        change_id: Option<String>,
        change_type: ChangeType,
        table_name: String,
        data: Json,
        user: Option<String>,
        origin_db: Option<String>,
    ) -> (r: ChangeLogEntry)
        ensures
            r.deep_view() == change_entry(
                r.change_id@,
                change_type,
                table_name@,
                data.deep_view(),
                user.deep_view(),
                origin_db.deep_view(),
            ),
            match change_id {
                Some(id) => r.change_id@ == id@,
                None => outside::is_hyphenated_uuid(r.change_id@),
            },
    {
        let change_id = match change_id {
            Some(id) => id,
            None => new_uuid(),
        };
        ChangeLogEntry { change_id, change_type, table_name, data, user, origin_db }
    }

    /// The last entries of the log, the most recent first.
    pub fn read_recent_logs(&self, entries: &Vec<ChangeLogEntry>, limit: usize) -> (r: Vec<
        ChangeLogEntry,
    >)
        ensures
            r.deep_view() == recent(entries.deep_view(), limit as int),
    {
        let ghost es = entries.deep_view();
        let n: usize = entries.len();
        let mut r: Vec<ChangeLogEntry> = Vec::new();
        let mut i: usize = 0;
        while i < n && i < limit
            invariant
                i <= n == entries@.len(),
                i <= limit,
                es == entries.deep_view(),
                r@.len() == i,
                forall|k: int|
                    0 <= k < i ==> (#[trigger] r@[k]).deep_view() == es[es.len() - 1 - k],
            decreases n - i,
        {
            r.push(entries[n - 1 - i].duplicate());
            i = i + 1;
        }
        assert(r.deep_view() =~= recent(es, limit as int));
        r
    }

    /// The last entries of the log for a table, the most recent first.
    pub fn read_logs_for_table(
        &self,
        entries: &Vec<ChangeLogEntry>,
        table_name: &str,
        limit: usize,
    ) -> (r: Vec<ChangeLogEntry>)
        ensures
            r.deep_view() == recent(
                entries_for_table(entries.deep_view(), table_name@),
                limit as int,
            ),
    {
        let own = select_entries(entries, table_name);
        self.read_recent_logs(&own, limit)
    }
}

// ---------------------------------------------------------------------------
// Reading
// ---------------------------------------------------------------------------

/// The last `limit` entries, the last one first.
pub open spec fn recent(entries: Seq<EntryView>, limit: int) -> Seq<EntryView> {
    let n = if entries.len() < limit {
        entries.len() as int
    } else {
        limit
    };
    Seq::new(n as nat, |i: int| entries[entries.len() - 1 - i])
}

/// The entries for a table, in their order.
pub open spec fn entries_for_table(entries: Seq<EntryView>, table: Text) -> Seq<EntryView>
    decreases entries.len(),
{
    if entries.len() == 0 {
        Seq::empty()
    } else {
        let before = entries_for_table(entries.drop_last(), table);
        if entries.last().table_name == table {
            before.push(entries.last())
        } else {
            before
        }
    }
}

/// The entries for a table, in their order.
pub fn select_entries(entries: &Vec<ChangeLogEntry>, table_name: &str) -> (r: Vec<ChangeLogEntry>)
    ensures
        r.deep_view() == entries_for_table(entries.deep_view(), table_name@),
{
    let ghost es = entries.deep_view();
    let mut r: Vec<ChangeLogEntry> = Vec::new();
    let mut i: usize = 0;
    assert(es.take(0) =~= Seq::<EntryView>::empty());
    assert(r.deep_view() =~= Seq::<EntryView>::empty());
    while i < entries.len()
        invariant
            i <= entries@.len(),
            es == entries.deep_view(),
            r.deep_view() == entries_for_table(es.take(i as int), table_name@),
        decreases entries@.len() - i,
    {
        let ghost before = r.deep_view();
        assert(es.take(i as int + 1).drop_last() =~= es.take(i as int));
        assert(es.take(i as int + 1).last() == entries@[i as int].deep_view());
        if str_eq(entries[i].table_name.as_str(), table_name) {
            r.push(entries[i].duplicate());
            assert(r.deep_view() =~= before.push(es[i as int]));
        }
        i = i + 1;
    }
    assert(es.take(i as int) =~= es);
    r
}

/// The entry that was logged last is the first that is read back.
pub proof fn law_last_entry_is_first_read(entries: Seq<EntryView>, entry: EntryView, limit: int)
    requires
        limit > 0,
    ensures
        recent(entries.push(entry), limit).len() > 0,
        recent(entries.push(entry), limit)[0] == entry,
{
}

/// A table's entries are read back by its own name alone: an entry for another
/// table changes nothing.
pub proof fn law_entries_of_other_tables_do_not_show(
    entries: Seq<EntryView>,
    entry: EntryView,
    table: Text,
)
    requires
        entry.table_name != table,
    ensures
        entries_for_table(entries.push(entry), table) == entries_for_table(entries, table),
{
    assert(entries.push(entry).drop_last() =~= entries);
}

} // verus!
