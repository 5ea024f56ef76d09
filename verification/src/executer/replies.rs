//! The replies to the queries that change something, and to the requests that
//! read tables.

use crate::errors;
use crate::errors::{DbError, ErrorKind, ErrorView};
use crate::executer::executer;
use crate::executer::executer::{evaluate_where_clause, USERS_TABLE};
use crate::executer::select;
use crate::executer::select::to_array_of_arrays;
use crate::json;
use crate::json::{object2, reply_error, reply_message, string_array, Json, JsonView, Reply, ReplyView};
use crate::numbers;
use crate::numbers::u64_to_string;
use crate::outside;
use crate::outside::json_number_parses;
use crate::query::parser::{is_numeric_literal, Expression, ExpressionView};
use crate::records::rows::{Row, Rows};
use crate::schema::schema;
use crate::schema::schema::{get_column_names_from_schema, Schema, SchemaView};
use crate::string_map::Duplicate;
use crate::text;
use crate::text::{
    concat2, concat3, str_contains, str_eq, str_lt, strip_suffix, trim_matches, Strip, Text,
};
use vstd::prelude::*;

verus! {

// ---------------------------------------------------------------------------
// Queries
// ---------------------------------------------------------------------------

/// The reply to a query that mentions the table of the users; nothing for any
/// other query.
pub open spec fn reserved_words_reply(sql_query: Text) -> Option<ReplyView> {
    if text::contains_text(outside::lowercase(sql_query), USERS_TABLE@) {
        Some(
            json::error_reply(403, "Query contains reserved keyword: "@ + USERS_TABLE@),
        )
    } else {
        None
    }
}

/// Refuses a query that mentions the table of the users.
pub fn check_for_reserved_words(sql_query: &str) -> (r: Result<(), Reply>)
    ensures
        match r {
            Ok(_) => reserved_words_reply(sql_query@) is None,
            Err(reply) => reserved_words_reply(sql_query@) == Some(reply.deep_view()),
        },
{
    let lower = sql_query.to_lowercase();
    if str_contains(lower.as_str(), USERS_TABLE) {
        Err(reply_error(403, concat2("Query contains reserved keyword: ", USERS_TABLE)))
    } else {
        Ok(())
    }
}

/// The reply to a query that does not parse.
pub fn parse_error_reply(error: &str) -> (r: Reply)
    ensures
        r.deep_view() == json::error_reply(400, "Failed to parse query: "@ + error@),
{
    reply_error(400, concat2("Failed to parse query: ", error))
}

/// The rows that meet a condition, in their order.
pub open spec fn matching(rows: Rows, condition: ExpressionView, names: Seq<Text>) -> Rows
    decreases rows.len(),
{
    if rows.len() == 0 {
        Seq::empty()
    } else {
        let before = matching(rows.drop_last(), condition, names);
        if executer::row_meets(condition, rows.last(), names) {
            before.push(rows.last())
        } else {
            before
        }
    }
}

/// The column names of a table, and none where the schema does not have it.
pub open spec fn names_or_none(schema: SchemaView, table: Text) -> Seq<Text> {
    match schema::schema_column_names(schema, table) {
        Ok(names) => names,
        Err(e) => Seq::empty(),
    }
}

/// The initial rows that an `UPDATE` or a `DELETE` is about, or the reply where
/// there are none.
pub open spec fn rows_concerned(
    schema: SchemaView,
    table: Text,
    initial: Result<Rows, ErrorView>,
    condition: ExpressionView,
) -> Result<Rows, ReplyView> {
    match initial {
        Err(e) => Err(json::error_reply(500, "Error loading initial data: "@ + e.message)),
        Ok(rows) => {
            let found = matching(rows, condition, names_or_none(schema, table));
            if found.len() == 0 {
                Err(json::error_reply(404, "No rows matched the specified condition"@))
            } else {
                Ok(found)
            }
        },
    }
}

fn select_matching(rows: &Vec<Vec<String>>, condition: &Expression, names: &Vec<String>) -> (r: Vec<
    Vec<String>,
>)
    ensures
        r.deep_view() == matching(rows.deep_view(), condition.deep_view(), names.deep_view()),
{
    let ghost rs = rows.deep_view();
    let ghost cv = condition.deep_view();
    let ghost ns = names.deep_view();
    let mut r: Vec<Vec<String>> = Vec::new();
    let mut i: usize = 0;
    assert(rs.take(0) =~= Seq::<Row>::empty());
    assert(r.deep_view() =~= Seq::<Row>::empty());
    while i < rows.len()
        invariant
            i <= rows@.len(),
            rs == rows.deep_view(),
            cv == condition.deep_view(),
            ns == names.deep_view(),
            r.deep_view() == matching(rs.take(i as int), cv, ns),
        decreases rows@.len() - i,
    {
        let ghost before = r.deep_view();
        assert(rs.take(i as int + 1).drop_last() =~= rs.take(i as int));
        assert(rs.take(i as int + 1).last() == rows@[i as int].deep_view());
        if evaluate_where_clause(condition, &rows[i], names) {
            r.push(rows[i].duplicate());
            assert(r.deep_view() =~= before.push(rs[i as int]));
        }
        i = i + 1;
    }
    assert(rs.take(i as int) =~= rs);
    r
}

/// The initial rows that an `UPDATE` or a `DELETE` is about, or the reply where
/// there are none.
pub fn find_rows_concerned(
    schema: &Schema,
    table_name: &str,
    initial: &Result<Vec<Vec<String>>, DbError>,
    condition: &Expression,
) -> (r: Result<Vec<Vec<String>>, Reply>)
    ensures
        match r {
            Ok(rows) => rows_concerned(
                schema.deep_view(),
                table_name@,
                errors::result_view(*initial),
                condition.deep_view(),
            ) == Ok::<_, ReplyView>(rows.deep_view()),
            Err(reply) => rows_concerned(
                schema.deep_view(),
                table_name@,
                errors::result_view(*initial),
                condition.deep_view(),
            ) == Err::<Rows, _>(reply.deep_view()),
        },
{
    match initial {
        Err(e) => Err(
            reply_error(500, concat2("Error loading initial data: ", e.message.as_str())),
        ),
        Ok(rows) => {
            let names = match get_column_names_from_schema(schema, table_name) {
                Ok(names) => names,
                Err(_) => {
                    let none: Vec<String> = Vec::new();
                    assert(none.deep_view() =~= Seq::<Text>::empty());
                    none
                },
            };
            let found = select_matching(rows, condition, &names);
            if found.len() == 0 {
                Err(reply_error(404, "No rows matched the specified condition".to_owned()))
            } else {
                Ok(found)
            }
        },
    }
}

/// What a query that changes something was to do.
#[derive(Clone, Copy, PartialEq, Eq, Debug)]
pub enum Change {
    Create,
    Insert,
    Update,
    Recalculate,
    Delete,
    Drop,
}

/// The reply to a query that failed.
pub open spec fn failure(change: Change, e: ErrorView) -> ReplyView {
    let prefix = match change {
        Change::Create => "Error creating table: "@,
        Change::Insert => "Error inserting row: "@,
        Change::Update => "Error updating row: "@,
        Change::Recalculate => "Error recalculating data: "@,
        Change::Delete => "Error deleting row: "@,
        Change::Drop => "Failed to drop table: "@,
    };
    json::error_reply(500, prefix + e.message)
}

/// The reply to a query that failed.
pub fn failure_reply(change: Change, e: &DbError) -> (r: Reply)
    ensures
        r.deep_view() == failure(change, e.deep_view()),
{
    let prefix = match change {
        Change::Create => "Error creating table: ",
        Change::Insert => "Error inserting row: ",
        Change::Update => "Error updating row: ",
        Change::Recalculate => "Error recalculating data: ",
        Change::Delete => "Error deleting row: ",
        Change::Drop => "Failed to drop table: ",
    };
    reply_error(500, concat2(prefix, e.message.as_str()))
}

/// The reply to a `CREATE` that succeeded.
pub fn created_reply() -> (r: Reply)
    ensures
        r.deep_view() == json::message_reply(200, "Table Created"@),
{
    reply_message(200, "Table Created".to_owned())
}

/// The reply to an `INSERT` that succeeded.
pub open spec fn inserted_row(uuid: Text) -> ReplyView {
    ReplyView {
        status: 200,
        body: JsonView::Object(
            seq![
                ("message"@, JsonView::Str("Row inserted"@)),
                ("uuid"@, JsonView::Str(uuid)),
            ],
        ),
    }
}

/// The reply to an `INSERT` that succeeded.
pub fn inserted_reply(uuid: &str) -> (r: Reply)
    ensures
        r.deep_view() == inserted_row(uuid@),
{
    Reply {
        status: 200,
        body: object2(
            "message",
            Json::Str("Row inserted".to_owned()),
            "uuid",
            Json::Str(uuid.to_owned()),
        ),
    }
}

/// The reply to an `UPDATE` that succeeded.
pub fn updated_reply() -> (r: Reply)
    ensures
        r.deep_view() == json::message_reply(200, "Rows updated"@),
{
    reply_message(200, "Rows updated".to_owned())
}

/// The reply to a `DELETE` of `n` rows that succeeded.
pub fn deleted_reply(n: u64) -> (r: Reply)
    ensures
        r.deep_view() == json::message_reply(
            200,
            "Deleted "@ + numbers::decimal(n as nat) + " rows"@,
        ),
{
    reply_message(200, concat3("Deleted ", u64_to_string(n).as_str(), " rows"))
}

/// The reply to a `DROP` that succeeded.
pub fn dropped_reply(table_name: &str) -> (r: Reply)
    ensures
        r.deep_view() == json::message_reply(
            200,
            "Table "@ + table_name@ + " dropped successfully"@,
        ),
{
    reply_message(200, concat3("Table ", table_name, " dropped successfully"))
}

// ---------------------------------------------------------------------------
// Tables
// ---------------------------------------------------------------------------

/// A stored cell as a JSON value: a number where it is one, else a text without
/// the double quotes around it.
pub open spec fn table_value(cell: Text) -> JsonView {
    if outside::is_json_number(cell) {
        JsonView::Number(cell)
    } else {
        JsonView::Str(text::trimmed(cell, Strip::Quote))
    }
}

/// The rows of a table as JSON values.
pub open spec fn table_values(rows: Rows) -> Seq<Seq<JsonView>> {
    rows.map_values(|row: Row| row.map_values(|cell: Text| table_value(cell)))
}

/// The reply where a table could not be read.
pub open spec fn unreadable(e: ErrorView) -> ReplyView {
    if e.kind == ErrorKind::NotFound {
        json::error_reply(404, "Table data file not found"@)
    } else {
        json::error_reply(500, "Error retrieving table data: "@ + e.message)
    }
}

/// The reply to a request for a table: its rows without the header.
pub open spec fn table_outcome(data: Result<Rows, ErrorView>) -> ReplyView {
    match data {
        Err(e) => unreadable(e),
        Ok(rows) => if rows.len() <= 1 {
            json::error_reply(404, "Table not found or table data is empty"@)
        } else {
            ReplyView { status: 200, body: select::array_of_arrays(table_values(rows.skip(1))) }
        },
    }
}

/// A stored cell as a JSON value, where there is one: a cell that is a number
/// in decimal notation, but not in JSON, has none.
pub open spec fn past_value(cell: Text) -> Option<JsonView> {
    if numbers::is_number_text(cell) {
        if outside::is_json_number(cell) {
            Some(JsonView::Number(cell))
        } else {
            None
        }
    } else {
        Some(JsonView::Str(text::trimmed(cell, Strip::Quote)))
    }
}

/// Whether every cell of a table has a JSON value.
pub open spec fn all_past_values(rows: Rows) -> bool {
    forall|i: int, j: int|
        0 <= i < rows.len() && 0 <= j < (#[trigger] rows[i]).len() ==> past_value(
            #[trigger] rows[i][j],
        ) is Some
}

/// The rows of a table as JSON values.
pub open spec fn past_values(rows: Rows) -> Seq<Seq<JsonView>> {
    rows.map_values(|row: Row| row.map_values(|cell: Text| past_value(cell)->0))
}

/// The reply to a request for a table at a time, where every cell has a JSON
/// value.
pub open spec fn past_outcome(data: Result<Rows, ErrorView>) -> ReplyView {
    match data {
        Err(e) => unreadable(e),
        Ok(rows) => ReplyView { status: 200, body: select::array_of_arrays(past_values(rows)) },
    }
}

fn reply_unreadable(e: &DbError) -> (r: Reply)
    ensures
        r.deep_view() == unreadable(e.deep_view()),
{
    if e.kind == ErrorKind::NotFound {
        reply_error(404, "Table data file not found".to_owned())
    } else {
        reply_error(500, concat2("Error retrieving table data: ", e.message.as_str()))
    }
}

fn to_table_values(row: &Vec<String>) -> (r: Vec<Json>)
    ensures
        r.deep_view() == row.deep_view().map_values(|cell: Text| table_value(cell)),
{
    let mut r: Vec<Json> = Vec::new();
    let mut i: usize = 0;
    while i < row.len()
        invariant
            i <= row@.len(),
            r@.len() == i,
            forall|k: int| 0 <= k < i ==> (#[trigger] r@[k]).deep_view() == table_value(row@[k]@),
        decreases row@.len() - i,
    {
        let cell = row[i].as_str();
        if json_number_parses(cell) {
            r.push(Json::Number(row[i].clone()));
        } else {
            r.push(Json::Str(trim_matches(cell, Strip::Quote)));
        }
        i = i + 1;
    }
    assert(r.deep_view() =~= row.deep_view().map_values(|cell: Text| table_value(cell)));
    r
}

/// The reply to a request for a table, given its rows with the header.
pub fn table_reply(table_data: &Result<Vec<Vec<String>>, DbError>) -> (r: Reply)
    ensures
        r.deep_view() == table_outcome(errors::result_view(*table_data)),
{
    match table_data {
        Err(e) => reply_unreadable(e),
        Ok(rows) => {
            if rows.len() <= 1 {
                return reply_error(404, "Table not found or table data is empty".to_owned());
            }
            let ghost rs = rows.deep_view();
            let mut out: Vec<Vec<Json>> = Vec::new();
            let mut i: usize = 1;
            while i < rows.len()
                invariant
                    1 <= i <= rows@.len(),
                    rs == rows.deep_view(),
                    out@.len() == i - 1,
                    forall|k: int|
                        0 <= k < i - 1 ==> (#[trigger] out@[k]).deep_view() == rs[k + 1].map_values(
                            |cell: Text| table_value(cell),
                        ),
                decreases rows@.len() - i,
            {
                out.push(to_table_values(&rows[i]));
                i = i + 1;
            }
            assert(out.deep_view() =~= table_values(rs.skip(1)));
            Reply { status: 200, body: to_array_of_arrays(out) }
        },
    }
}

fn to_past_values(row: &Vec<String>) -> (r: Option<Vec<Json>>)
    ensures
        match r {
            Some(v) => (forall|j: int|
                0 <= j < row@.len() ==> past_value(#[trigger] row.deep_view()[j]) is Some)
                && v.deep_view() == row.deep_view().map_values(
                |cell: Text| past_value(cell)->0,
            ),
            None => exists|j: int|
                0 <= j < row@.len() && past_value(#[trigger] row.deep_view()[j]) is None,
        },
{
    let ghost rv = row.deep_view();
    let mut r: Vec<Json> = Vec::new();
    let mut i: usize = 0;
    while i < row.len()
        invariant
            i <= row@.len(),
            rv == row.deep_view(),
            r@.len() == i,
            forall|k: int| 0 <= k < i ==> past_value(#[trigger] rv[k]) is Some,
            forall|k: int| 0 <= k < i ==> (#[trigger] r@[k]).deep_view() == past_value(rv[k])->0,
        decreases row@.len() - i,
    {
        let cell = row[i].as_str();
        assert(rv[i as int] == cell@);
        if is_numeric_literal(cell) {
            if json_number_parses(cell) {
                r.push(Json::Number(row[i].clone()));
            } else {
                assert(past_value(rv[i as int]) is None);
                return None;
            }
        } else {
            r.push(Json::Str(trim_matches(cell, Strip::Quote)));
        }
        i = i + 1;
    }
    assert(r.deep_view() =~= rv.map_values(|cell: Text| past_value(cell)->0));
    Some(r)
}

/// The reply to a request for a table at a time, given its rows. Gives nothing
/// where a cell is a number in decimal notation, but not in JSON.
pub fn past_table_reply(table_data: &Result<Vec<Vec<String>>, DbError>) -> (r: Option<Reply>)
    ensures
        match errors::result_view(*table_data) {
            Ok(rows) => r is Some == all_past_values(rows),
            Err(e) => r is Some,
        },
        r matches Some(reply) ==> reply.deep_view() == past_outcome(
            errors::result_view(*table_data),
        ),
{
    match table_data {
        Err(e) => Some(reply_unreadable(e)),
        Ok(rows) => {
            let ghost rs = rows.deep_view();
            let mut out: Vec<Vec<Json>> = Vec::new();
            let mut i: usize = 0;
            while i < rows.len()
                invariant
                    i <= rows@.len(),
                    rs == rows.deep_view(),
                    errors::result_view(*table_data) == Ok::<Rows, ErrorView>(rs),
                    out@.len() == i,
                    forall|k: int, j: int|
                        0 <= k < i && 0 <= j < (#[trigger] rs[k]).len() ==> past_value(
                            #[trigger] rs[k][j],
                        ) is Some,
                    forall|k: int|
                        0 <= k < i ==> (#[trigger] out@[k]).deep_view() == rs[k].map_values(
                            |cell: Text| past_value(cell)->0,
                        ),
                decreases rows@.len() - i,
            {
                assert(rs[i as int] == rows@[i as int].deep_view());
                match to_past_values(&rows[i]) {
                    Some(v) => {
                        out.push(v);
                    },
                    None => {
                        proof {
                            let j = choose|j: int|
                                0 <= j < rs[i as int].len() && past_value(
                                    #[trigger] rs[i as int][j],
                                ) is None;
                            assert(past_value(rs[i as int][j]) is None);
                        }
                        return None;
                    },
                }
                i = i + 1;
            }
            assert(out.deep_view() =~= past_values(rs));
            Some(Reply { status: 200, body: to_array_of_arrays(out) })
        },
    }
}

/// The name of a logical table, given the name under which the schema holds it.
pub open spec fn base_name(name: Text) -> Text {
    match text::without_suffix(name, "_initial"@) {
        Some(base) => base,
        None => match text::without_suffix(name, "_updates"@) {
            Some(base) => base,
            None => name,
        },
    }
}

/// Whether texts are in order, without repetition.
pub open spec fn strictly_sorted(names: Seq<Text>) -> bool {
    forall|i: int, j: int|
        0 <= i < j < names.len() ==> text::text_lt(#[trigger] names[i], #[trigger] names[j])
}

fn to_base_name(name: &str) -> (r: String)
    ensures
        r@ == base_name(name@),
{
    match strip_suffix(name, "_initial") {
        Some(base) => base,
        None => match strip_suffix(name, "_updates") {
            Some(base) => base,
            None => name.to_owned(),
        },
    }
}

fn insert_sorted(names: &mut Vec<String>, name: String)
    requires
        strictly_sorted(old(names).deep_view()),
    ensures
        strictly_sorted(final(names).deep_view()),
        forall|x: Text|
            #[trigger] final(names).deep_view().contains(x) <==> old(names).deep_view().contains(x)
                || x == name@,
{
    let ghost ns = names.deep_view();
    let ghost x = name@;
    let mut i: usize = 0;
    while i < names.len() && str_lt(names[i].as_str(), name.as_str())
        invariant
            i <= names@.len(),
            ns == names.deep_view(),
            x == name@,
            forall|k: int| 0 <= k < i ==> text::text_lt(#[trigger] ns[k], x),
        decreases names@.len() - i,
    {
        assert(ns[i as int] == names@[i as int]@);
        i = i + 1;
    }
    if i < names.len() {
        assert(ns[i as int] == names@[i as int]@);
        if str_eq(names[i].as_str(), name.as_str()) {
            assert(ns.contains(x)) by {
                assert(ns[i as int] == x);
            }
            return;
        }
        proof {
            text::lemma_text_lt_total(ns[i as int], x);
        }
    }
    names.insert(i, name);
    proof {
        let after = names.deep_view();
        assert(after =~= ns.insert(i as int, x));
        assert forall|a: int, b: int| 0 <= a < b < after.len() implies text::text_lt(
            #[trigger] after[a],
            #[trigger] after[b],
        ) by {
            if b < i {
                assert(after[a] == ns[a] && after[b] == ns[b]);
            } else if b == i {
                assert(after[a] == ns[a]);
            } else if a < i {
                assert(after[a] == ns[a] && after[b] == ns[b - 1]);
            } else if a == i {
                assert(after[b] == ns[b - 1]);
                if b - 1 > i {
                    assert(text::text_lt(ns[i as int], ns[b - 1]));
                    text::lemma_text_lt_transitive(x, ns[i as int], ns[b - 1]);
                }
            } else {
                assert(after[a] == ns[a - 1] && after[b] == ns[b - 1]);
            }
        }
        assert forall|y: Text| #[trigger] after.contains(y) <==> ns.contains(y) || y == x by {
            if ns.contains(y) {
                let k = choose|k: int| 0 <= k < ns.len() && ns[k] == y;
                assert(after[if k < i { k } else { k + 1 }] == y);
            }
            if y == x {
                assert(after[i as int] == x);
            }
            if after.contains(y) {
                let k = choose|k: int| 0 <= k < after.len() && after[k] == y;
                if k < i {
                    assert(ns[k] == y);
                } else if k > i {
                    assert(ns[k - 1] == y);
                }
            }
        }
    }
}

/// The names of the logical tables, in order, each once.
pub fn list_tables(schema: &Schema) -> (r: Vec<String>)
    ensures
        strictly_sorted(r.deep_view()),
        forall|x: Text|
            #[trigger] r.deep_view().contains(x) <==> exists|name: Text|
                #[trigger] schema.deep_view().contains_key(name) && base_name(name) == x,
{
    let mut names: Vec<String> = Vec::new();
    let n: usize = schema.tables.len();
    let ghost keys = schema.tables.keys();
    let mut i: usize = 0;
    while i < n
        invariant
            i <= n == keys.len(),
            keys == schema.tables.keys(),
            strictly_sorted(names.deep_view()),
            forall|x: Text|
                #[trigger] names.deep_view().contains(x) <==> exists|k: int|
                    0 <= k < i && base_name(#[trigger] keys[k]) == x,
        decreases n - i,
    {
        let ghost before = names.deep_view();
        let base = to_base_name(schema.tables.key_at(i).as_str());
        let ghost b = base@;
        assert(b == base_name(keys[i as int]));
        insert_sorted(&mut names, base);
        assert forall|x: Text|
            #[trigger] names.deep_view().contains(x) <==> exists|k: int|
                0 <= k < i + 1 && base_name(#[trigger] keys[k]) == x by {
            if x == b {
                assert(base_name(keys[i as int]) == x);
            }
            if before.contains(x) {
                let k = choose|k: int| 0 <= k < i && base_name(#[trigger] keys[k]) == x;
                assert(0 <= k < i + 1);
            }
        }
        i = i + 1;
    }
    assert forall|x: Text|
        #[trigger] names.deep_view().contains(x) <==> exists|name: Text|
            #[trigger] schema.deep_view().contains_key(name) && base_name(name) == x by {
        if names.deep_view().contains(x) {
            let k = choose|k: int| 0 <= k < n && base_name(#[trigger] keys[k]) == x;
            assert(keys.contains(keys[k]));
            assert(schema.deep_view().contains_key(keys[k]));
        }
        if exists|name: Text|
            #[trigger] schema.deep_view().contains_key(name) && base_name(name) == x {
            let name = choose|name: Text|
                #[trigger] schema.deep_view().contains_key(name) && base_name(name) == x;
            assert(keys.contains(name));
            let k = choose|k: int| 0 <= k < keys.len() && keys[k] == name;
            assert(base_name(keys[k]) == x);
        }
    }
    names
}

/// The reply to a request for the column names of a table.
pub open spec fn columns_outcome(names: Result<Row, ErrorView>) -> ReplyView {
    match names {
        Ok(names) => ReplyView { status: 200, body: json::text_array(names) },
        Err(e) => json::error_reply(
            if e.kind == ErrorKind::NotFound {
                404
            } else {
                500
            },
            e.message,
        ),
    }
}

/// The reply to a request for the column names of a table.
pub fn columns_reply(names: &Result<Vec<String>, DbError>) -> (r: Reply)
    ensures
        r.deep_view() == columns_outcome(errors::result_view(*names)),
{
    match names {
        Ok(names) => Reply { status: 200, body: string_array(names) },
        Err(e) => {
            let status: u16 = if e.kind == ErrorKind::NotFound {
                404
            } else {
                500
            };
            reply_error(status, e.message.clone())
        },
    }
}

} // verus!
