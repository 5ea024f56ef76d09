//! The execution of `SELECT`.

use crate::errors;
use crate::errors::{DbError, ErrorKind, ErrorView};
use crate::executer::executer;
use crate::executer::executer::{evaluate_where_clause, find_column_index, rows_equal};
use crate::json;
use crate::json::{reply_error, reply_message, Json, JsonView, Reply, ReplyView};
use crate::numbers;
use crate::numbers::{is_float_literal, parse_i64};
use crate::query::parser::{Expression, ExpressionView, Identifier, IdentifierView};
use crate::records::rows::{Row, Rows};
use crate::records::table;
use crate::records::table::{
    get_table_at_timestamp, get_table_data, Cache, CacheView, FilesView, TableFiles,
};
use crate::schema::schema;
use crate::schema::schema::{get_column_names_from_schema, Schema, SchemaView};
use crate::string_map::Duplicate;
use crate::text;
use crate::text::{concat2, concat3, trim_matches, Strip, Text};
use vstd::prelude::*;

verus! {

/// A stored cell as a JSON value: an integer, a floating-point number, or a
/// text without the double quotes around it.
pub open spec fn cell_value(cell: Text) -> JsonView {
    match numbers::i64_text(cell) {
        Some(n) => JsonView::Int(n),
        None => if numbers::is_float_text(cell) {
            JsonView::Float(cell)
        } else {
            JsonView::Str(text::trimmed(cell, Strip::Quote))
        },
    }
}

/// All cells of a row as JSON values.
pub open spec fn all_values(row: Row) -> Seq<JsonView> {
    row.map_values(|cell: Text| cell_value(cell))
}

/// The cells of a row that some columns name, in the order of the columns. A
/// column that the table does not have, or the row has no cell for, is passed
/// over; so is the star where it is not the only column.
pub open spec fn named_values(
    columns: Seq<IdentifierView>,
    names: Seq<Text>,
    row: Row,
) -> Seq<JsonView>
    decreases columns.len(),
{
    if columns.len() == 0 {
        Seq::empty()
    } else {
        let before = named_values(columns.drop_last(), names, row);
        match columns.last() {
            IdentifierView::Name(name) => match executer::column_index(names, name) {
                Some(i) if i < row.len() => before.push(cell_value(row[i])),
                _ => before,
            },
            _ => before,
        }
    }
}

/// Whether the columns of a `SELECT` are the star alone.
pub open spec fn is_star(columns: Seq<IdentifierView>) -> bool {
    columns.len() == 1 && columns[0] is Star
}

/// What a `SELECT` gives of a row.
pub open spec fn selected_values(
    columns: Seq<IdentifierView>,
    names: Seq<Text>,
    row: Row,
) -> Seq<JsonView> {
    if is_star(columns) {
        all_values(row)
    } else {
        named_values(columns, names, row)
    }
}

/// What a `SELECT` gives of a table, whose first row is the header: nothing
/// where there is no other row, or the schema does not have the table.
pub open spec fn selected(
    schema: SchemaView,
    table: Text,
    columns: Seq<IdentifierView>,
    rows: Rows,
) -> Seq<Seq<JsonView>> {
    if rows.len() <= 1 {
        Seq::empty()
    } else {
        match schema::schema_column_names(schema, table) {
            Ok(names) => rows.map_values(|row: Row| selected_values(columns, names, row)),
            Err(e) => Seq::empty(),
        }
    }
}

/// The rows that are the header or meet a condition, in their order.
pub open spec fn kept_rows(rows: Rows, condition: ExpressionView, names: Seq<Text>) -> Rows
    decreases rows.len(),
{
    if rows.len() == 0 {
        Seq::empty()
    } else {
        let before = kept_rows(rows.drop_last(), condition, names);
        if rows.last() == names || executer::row_meets(condition, rows.last(), names) {
            before.push(rows.last())
        } else {
            before
        }
    }
}

/// The array of some arrays.
pub open spec fn array_of_arrays(rows: Seq<Seq<JsonView>>) -> JsonView {
    JsonView::Array(rows.map_values(|row: Seq<JsonView>| JsonView::Array(row)))
}

/// What is said where a `SELECT` finds no row.
pub const NO_ROWS: &'static str = "No matching rows found";

/// The reply to a `SELECT` on a table whose rows were found.
pub open spec fn select_found(
    schema: SchemaView,
    table: Text,
    columns: Seq<IdentifierView>,
    rows: Rows,
) -> ReplyView {
    let result = selected(schema, table, columns, rows);
    if result.len() <= 1 {
        json::message_reply(200, NO_ROWS@)
    } else {
        ReplyView { status: 200, body: array_of_arrays(result) }
    }
}

/// The reply to a `SELECT`, given what reading the table gave.
pub open spec fn select_outcome(
    schema: SchemaView,
    table: Text,
    columns: Seq<IdentifierView>,
    condition: Option<ExpressionView>,
    data: Result<Rows, ErrorView>,
) -> ReplyView {
    match data {
        Err(e) => if e.kind == ErrorKind::NotFound {
            json::error_reply(404, "Table '"@ + table + "' not found"@)
        } else {
            json::error_reply(500, "Error retrieving table data: "@ + e.message)
        },
        Ok(rows) => match condition {
            None => select_found(schema, table, columns, rows),
            Some(condition) => match schema::schema_column_names(schema, table) {
                Err(e) => json::error_reply(500, "Error fetching column names: "@ + e.message),
                Ok(names) => select_found(
                    schema,
                    table,
                    columns,
                    kept_rows(rows, condition, names),
                ),
            },
        },
    }
}

/// The cache after a table was read for a `SELECT`, and what that gave: the
/// table as it was at a time, where one is given, else as it is.
pub open spec fn select_data(
    schema: SchemaView,
    cache: CacheView,
    files: FilesView,
    table: Text,
    timestamp: Option<Text>,
) -> (CacheView, Result<Rows, ErrorView>) {
    match timestamp {
        Some(t) => (cache, table::table_at(schema, files, table, t)),
        None => table::table_data(schema, cache, files, table),
    }
}

fn to_cell_value(cell: &str) -> (r: Json)
    ensures
        r.deep_view() == cell_value(cell@),
{
    match parse_i64(cell) {
        Some(n) => Json::Int(n),
        None => if is_float_literal(cell) {
            Json::Float(cell.to_owned())
        } else {
            Json::Str(trim_matches(cell, Strip::Quote))
        },
    }
}

fn select_all(row: &Vec<String>) -> (r: Vec<Json>)
    ensures
        r.deep_view() == all_values(row.deep_view()),
{
    let mut r: Vec<Json> = Vec::new();
    let mut i: usize = 0;
    while i < row.len()
        invariant
            i <= row@.len(),
            r@.len() == i,
            forall|k: int| 0 <= k < i ==> (#[trigger] r@[k]).deep_view() == cell_value(row@[k]@),
        decreases row@.len() - i,
    {
        r.push(to_cell_value(row[i].as_str()));
        i = i + 1;
    }
    assert(r.deep_view() =~= all_values(row.deep_view()));
    r
}

fn select_named(columns: &Vec<Identifier>, names: &Vec<String>, row: &Vec<String>) -> (r: Vec<Json>)
    ensures
        r.deep_view() == named_values(columns.deep_view(), names.deep_view(), row.deep_view()),
{
    let ghost cs = columns.deep_view();
    let ghost ns = names.deep_view();
    let ghost rv = row.deep_view();
    let mut r: Vec<Json> = Vec::new();
    let mut i: usize = 0;
    assert(cs.take(0) =~= Seq::<IdentifierView>::empty());
    assert(r.deep_view() =~= Seq::<JsonView>::empty());
    while i < columns.len()
        invariant
            i <= columns@.len(),
            cs == columns.deep_view(),
            ns == names.deep_view(),
            rv == row.deep_view(),
            r.deep_view() == named_values(cs.take(i as int), ns, rv),
        decreases columns@.len() - i,
    {
        let ghost before = r.deep_view();
        assert(cs.take(i as int + 1).drop_last() =~= cs.take(i as int));
        assert(cs.take(i as int + 1).last() == columns@[i as int].deep_view());
        if let Identifier::Name(name) = &columns[i] {
            if let Some(k) = find_column_index(names, name.as_str()) {
                if k < row.len() {
                    assert(rv[k as int] == row@[k as int]@);
                    let v = to_cell_value(row[k].as_str());
                    let ghost vv = v.deep_view();
                    r.push(v);
                    assert(r.deep_view() =~= before.push(vv));
                }
            }
        }
        i = i + 1;
    }
    assert(cs.take(i as int) =~= cs);
    r
}

/// What a `SELECT` gives of a table, whose first row is the header.
pub fn process_select(
    schema: &Schema,
    table_name: &str,
    columns: &Vec<Identifier>,
    table_data: &Vec<Vec<String>>,
) -> (r: Vec<Vec<Json>>)
    ensures
        r.deep_view() == selected(
            schema.deep_view(),
            table_name@,
            columns.deep_view(),
            table_data.deep_view(),
        ),
{
    let mut r: Vec<Vec<Json>> = Vec::new();
    assert(r.deep_view() =~= Seq::<Seq<JsonView>>::empty());
    if table_data.len() <= 1 {
        return r;
    }
    let names = match get_column_names_from_schema(schema, table_name) {
        Ok(names) => names,
        Err(_) => {
            return r;
        },
    };
    let ghost cs = columns.deep_view();
    let ghost ns = names.deep_view();
    let star = columns.len() == 1 && match &columns[0] {
        Identifier::Star => true,
        _ => false,
    };
    assert(star == is_star(cs)) by {
        if cs.len() == 1 {
            assert(cs[0] == columns@[0].deep_view());
        }
    }
    let mut i: usize = 0;
    while i < table_data.len()
        invariant
            i <= table_data@.len(),
            cs == columns.deep_view(),
            ns == names.deep_view(),
            star == is_star(cs),
            r@.len() == i,
            forall|k: int|
                0 <= k < i ==> (#[trigger] r@[k]).deep_view() == selected_values(
                    cs,
                    ns,
                    table_data@[k].deep_view(),
                ),
        decreases table_data@.len() - i,
    {
        if star {
            r.push(select_all(&table_data[i]));
        } else {
            r.push(select_named(columns, &names, &table_data[i]));
        }
        i = i + 1;
    }
    assert(r.deep_view() =~= table_data.deep_view().map_values(
        |row: Row| selected_values(cs, ns, row),
    ));
    r
}

fn keep_rows(rows: &Vec<Vec<String>>, condition: &Expression, names: &Vec<String>) -> (r: Vec<
    Vec<String>,
>)
    ensures
        r.deep_view() == kept_rows(rows.deep_view(), condition.deep_view(), names.deep_view()),
{
    let ghost rs = rows.deep_view();
    let ghost cv = condition.deep_view();
    let ghost ns = names.deep_view();
    let mut r: Vec<Vec<String>> = Vec::new();
    let mut i: usize = 0;
    assert(rs.take(0) =~= Seq::<Row>::empty());
    assert(r.deep_view() =~= Seq::<Row>::empty());
    while i < rows.len()
        invariant
            i <= rows@.len(),
            rs == rows.deep_view(),
            cv == condition.deep_view(),
            ns == names.deep_view(),
            r.deep_view() == kept_rows(rs.take(i as int), cv, ns),
        decreases rows@.len() - i,
    {
        let ghost before = r.deep_view();
        assert(rs.take(i as int + 1).drop_last() =~= rs.take(i as int));
        assert(rs.take(i as int + 1).last() == rows@[i as int].deep_view());
        if rows_equal(&rows[i], names) || evaluate_where_clause(condition, &rows[i], names) {
            r.push(rows[i].duplicate());
            assert(r.deep_view() =~= before.push(rs[i as int]));
        }
        i = i + 1;
    }
    assert(rs.take(i as int) =~= rs);
    r
}

/// The JSON array of some arrays.
pub fn to_array_of_arrays(rows: Vec<Vec<Json>>) -> (r: Json)
    ensures
        r.deep_view() == array_of_arrays(rows.deep_view()),
{
    let ghost rs = rows.deep_view();
    let mut out: Vec<Json> = Vec::new();
    let mut i: usize = 0;
    while i < rows.len()
        invariant
            i <= rows@.len(),
            rs == rows.deep_view(),
            out@.len() == i,
            forall|k: int|
                0 <= k < i ==> (#[trigger] out@[k]).deep_view() == JsonView::Array(rs[k]),
        decreases rows@.len() - i,
    {
        let row = rows[i].duplicate();
        proof {
            json::lemma_array_view(row);
        }
        out.push(Json::Array(row));
        i = i + 1;
    }
    proof {
        json::lemma_array_view(out);
        assert(out.deep_view() =~= rs.map_values(|row: Seq<JsonView>| JsonView::Array(row)));
    }
    Json::Array(out)
}

fn reply_found(
    schema: &Schema,
    table_name: &str,
    columns: &Vec<Identifier>,
    rows: &Vec<Vec<String>>,
) -> (r: Reply)
    ensures
        r.deep_view() == select_found(
            schema.deep_view(),
            table_name@,
            columns.deep_view(),
            rows.deep_view(),
        ),
{
    let result = process_select(schema, table_name, columns, rows);
    if result.len() <= 1 {
        reply_message(200, NO_ROWS.to_owned())
    } else {
        Reply { status: 200, body: to_array_of_arrays(result) }
    }
}

/// The reply to a `SELECT`, given what reading the table gave.
pub fn select_reply(
    schema: &Schema,
    table_name: &str,
    columns: &Vec<Identifier>,
    where_clause: &Option<Expression>,
    table_data: &Result<Vec<Vec<String>>, DbError>,
) -> (r: Reply)
    ensures
        r.deep_view() == select_outcome(
            schema.deep_view(),
            table_name@,
            columns.deep_view(),
            where_clause.deep_view(),
            errors::result_view(*table_data),
        ),
{
    match table_data {
        Err(e) => if e.kind == ErrorKind::NotFound {
            reply_error(404, concat3("Table '", table_name, "' not found"))
        } else {
            reply_error(500, concat2("Error retrieving table data: ", e.message.as_str()))
        },
        Ok(rows) => match where_clause {
            None => reply_found(schema, table_name, columns, rows),
            Some(condition) => match get_column_names_from_schema(schema, table_name) {
                Err(e) => reply_error(
                    500,
                    concat2("Error fetching column names: ", e.message.as_str()),
                ),
                Ok(names) => {
                    let kept = keep_rows(rows, condition, &names);
                    reply_found(schema, table_name, columns, &kept)
                },
            },
        },
    }
}

/// Executes a `SELECT`.
pub fn handle_select(
    schema: &Schema,
    cache: &mut Cache,
    files: &TableFiles,
    table_name: &str,
    columns: &Vec<Identifier>,
    timestamp: &Option<String>,
    where_clause: &Option<Expression>,
) -> (r: Reply)
    ensures
        final(cache).deep_view() == select_data(
            schema.deep_view(),
            old(cache).deep_view(),
            files.deep_view(),
            table_name@,
            timestamp.deep_view(),
        ).0,
        r.deep_view() == select_outcome(
            schema.deep_view(),
            table_name@,
            columns.deep_view(),
            where_clause.deep_view(),
            select_data(
                schema.deep_view(),
                old(cache).deep_view(),
                files.deep_view(),
                table_name@,
                timestamp.deep_view(),
            ).1,
        ),
{
    let data = match timestamp {
        Some(t) => get_table_at_timestamp(schema, files, table_name, t.as_str()),
        None => get_table_data(schema, cache, files, table_name),
    };
    select_reply(schema, table_name, columns, where_clause, &data)
}

/// A `SELECT` with a condition gives the header and just the rows that meet the
/// condition, in the order of the table.
pub proof fn law_select_keeps_matching_rows(
    rows: Rows,
    condition: ExpressionView,
    names: Seq<Text>,
    row: Row,
)
    ensures
        kept_rows(rows, condition, names).contains(row) <==> rows.contains(row) && (row == names
            || executer::row_meets(condition, row, names)),
        kept_rows(rows, condition, names).len() <= rows.len(),
    decreases rows.len(),
{
    let all = kept_rows(rows, condition, names);
    if rows.len() > 0 {
        let d = rows.drop_last();
        law_select_keeps_matching_rows(d, condition, names, row);
        let before = kept_rows(d, condition, names);
        assert(rows =~= d.push(rows.last()));
        assert(rows.contains(row) <==> d.contains(row) || rows.last() == row) by {
            if d.contains(row) {
                let k = choose|k: int| 0 <= k < d.len() && d[k] == row;
                assert(rows[k] == row);
            }
            if rows.last() == row {
                assert(rows[rows.len() - 1] == row);
            }
            if rows.contains(row) {
                let k = choose|k: int| 0 <= k < rows.len() && rows[k] == row;
                if k < d.len() {
                    assert(d[k] == row);
                }
            }
        }
        if rows.last() == names || executer::row_meets(condition, rows.last(), names) {
            assert(all.contains(row) <==> before.contains(row) || rows.last() == row) by {
                if before.contains(row) {
                    let k = choose|k: int| 0 <= k < before.len() && before[k] == row;
                    assert(all[k] == row);
                }
                if rows.last() == row {
                    assert(all[before.len() as int] == row);
                }
                if all.contains(row) {
                    let k = choose|k: int| 0 <= k < all.len() && all[k] == row;
                    if k < before.len() {
                        assert(before[k] == row);
                    }
                }
            }
        }
    }
}

} // verus!
