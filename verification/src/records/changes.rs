//! Inserting, updating and deleting rows.
//!
//! Each function makes the stored form of a row. The caller appends its line to
//! a file of the table, and brings the cache up to date after that.

use crate::errors;
use crate::errors::{DbError, ErrorKind, ErrorView};
use crate::outside;
use crate::outside::{new_uuid, now_text, uuid_parses};
use crate::records::rows;
use crate::records::rows::{quote_row, Row, Rows};
use crate::records::table;
use crate::records::table::{get_table_data, Cache, CacheView, FilesView, TableFiles};
use crate::records::validation;
use crate::records::validation::{validate_and_process_row, RowData};
use crate::schema::schema;
use crate::schema::schema::{
    initial_table_name, Column, ColumnView, DataType, Schema, SchemaView,
};
use crate::string_map::{Duplicate, StringMap};
use crate::text;
use crate::text::{
    chars_of, concat3, str_eq, trim_matches, Strip, Text,
};
use vstd::prelude::*;

verus! {

// ---------------------------------------------------------------------------
// Inserting
// ---------------------------------------------------------------------------

/// Whether a column has the given name.
pub open spec fn has_column(columns: Seq<ColumnView>, name: Text) -> bool {
    exists|i: int| 0 <= i < columns.len() && (#[trigger] columns[i]).name == name
}

/// The first of the names that is not the name of a column.
pub open spec fn first_unknown(columns: Seq<ColumnView>, names: Seq<Text>) -> Option<Text>
    decreases names.len(),
{
    if names.len() == 0 {
        None
    } else if !has_column(columns, names[0]) {
        Some(names[0])
    } else {
        first_unknown(columns, names.skip(1))
    }
}

/// The values by the given names, where the first `n` names were given.
pub open spec fn paired(names: Seq<Text>, values: Row, n: int) -> RowData
    decreases n,
{
    if n <= 0 {
        Map::empty()
    } else if n - 1 < values.len() {
        paired(names, values, n - 1).insert(names[n - 1], values[n - 1])
    } else {
        paired(names, values, n - 1)
    }
}

/// The values by the names of the first `n` columns, in the order of the
/// columns, and how many of the values were used. A UUID that is not among the
/// values is `fresh`; any other missing value is the empty text.
pub open spec fn aligned(
    columns: Seq<ColumnView>,
    values: Row,
    fresh: Text,
    n: int,
) -> (RowData, int)
    decreases n,
{
    if n <= 0 {
        (Map::empty(), 0)
    } else {
        let (data, used) = aligned(columns, values, fresh, n - 1);
        let name = columns[n - 1].name;
        if name == "UUID"@ {
            if used < values.len() && outside::is_uuid_text(values[used]) {
                (data.insert(name, values[used]), used + 1)
            } else {
                (data.insert(name, fresh), used)
            }
        } else {
            (
                data.insert(
                    name,
                    if used < values.len() {
                        values[used]
                    } else {
                        Seq::empty()
                    },
                ),
                used + 1,
            )
        }
    }
}

/// The values with one for each of the first `n` columns: `fresh` for a UUID
/// that is missing, the empty text for any other.
pub open spec fn completed(
    columns: Seq<ColumnView>,
    data: RowData,
    fresh: Text,
    n: int,
) -> RowData
    decreases n,
{
    if n <= 0 {
        data
    } else {
        let before = completed(columns, data, fresh, n - 1);
        let name = columns[n - 1].name;
        if before.contains_key(name) {
            before
        } else if name == "UUID"@ {
            before.insert(name, fresh)
        } else {
            before.insert(name, Seq::empty())
        }
    }
}

/// The values of a new row by the names of their columns.
pub open spec fn insert_data(
    columns: Seq<ColumnView>,
    values: Row,
    names: Option<Seq<Text>>,
    fresh: Text,
) -> RowData {
    let given = match names {
        Some(names) => paired(names, values, names.len() as int),
        None => aligned(columns, values, fresh, columns.len() as int).0,
    };
    completed(columns, given, fresh, columns.len() as int)
}

/// A new row in the form in which it is stored.
#[derive(Debug, PartialEq, Eq)]
pub struct NewRow {
    /// The UUID of the row.
    pub uuid: String,
    /// The stored cells.
    pub cells: Vec<String>,
}

/// A [`NewRow`] as a mathematical value.
pub struct NewRowView {
    pub uuid: Text,
    pub cells: Row,
}

impl DeepView for NewRow {
    type V = NewRowView;

    open spec fn deep_view(&self) -> NewRowView {
        NewRowView { uuid: self.uuid@, cells: self.cells.deep_view() }
    }
}

/// The new row that is made of some values, and the cache after that.
pub open spec fn inserted(
    schema: SchemaView,
    cache: CacheView,
    files: FilesView,
    table: Text,
    values: Row,
    names: Option<Seq<Text>>,
    fresh: Text,
    now: Text,
) -> (CacheView, Result<NewRowView, ErrorView>) {
    if !schema.contains_key(schema::initial_name(table)) {
        (cache, Err(table::no_such_table(table, "' does not exist in schema"@)))
    } else {
        let columns = schema[schema::initial_name(table)].columns;
        let unknown = match names {
            Some(names) => first_unknown(columns, names),
            None => None,
        };
        match unknown {
            Some(name) => (
                cache,
                Err(
                    ErrorView {
                        kind: ErrorKind::InvalidInput,
                        message: "Invalid column name: '"@ + name + "'"@,
                    },
                ),
            ),
            None => {
                let data = insert_data(columns, values, names, fresh);
                match validation::validated_row(schema, cache, files, table, data, now) {
                    (after, Err(e)) => (after, Err(e)),
                    (after, Ok(row)) => (
                        after,
                        Ok(NewRowView { uuid: data["UUID"@], cells: rows::quoted_row(row) }),
                    ),
                }
            },
        }
    }
}

fn column_exists(columns: &Vec<Column>, name: &str) -> (r: bool)
    ensures
        r == has_column(columns.deep_view(), name@),
{
    let ghost cs = columns.deep_view();
    let mut i: usize = 0;
    while i < columns.len()
        invariant
            i <= columns@.len(),
            cs == columns.deep_view(),
            forall|k: int| 0 <= k < i ==> (#[trigger] cs[k]).name != name@,
        decreases columns@.len() - i,
    {
        assert(cs[i as int] == columns@[i as int].deep_view());
        if str_eq(columns[i].name.as_str(), name) {
            return true;
        }
        i = i + 1;
    }
    false
}

fn find_unknown(columns: &Vec<Column>, names: &Vec<String>) -> (r: Option<String>)
    ensures
        r.deep_view() == first_unknown(columns.deep_view(), names.deep_view()),
{
    let ghost cs = columns.deep_view();
    let ghost ns = names.deep_view();
    let mut i: usize = 0;
    assert(ns.skip(0) =~= ns);
    while i < names.len()
        invariant
            i <= names@.len(),
            cs == columns.deep_view(),
            ns == names.deep_view(),
            first_unknown(cs, ns) == first_unknown(cs, ns.skip(i as int)),
        decreases names@.len() - i,
    {
        assert(ns.skip(i as int)[0] == names@[i as int]@);
        assert(ns.skip(i as int).skip(1) =~= ns.skip(i as int + 1));
        if !column_exists(columns, names[i].as_str()) {
            return Some(names[i].clone());
        }
        i = i + 1;
    }
    None
}

fn pair_values(names: &Vec<String>, values: &Vec<String>) -> (r: StringMap<String>)
    ensures
        r.deep_view() == paired(names.deep_view(), values.deep_view(), names@.len() as int),
{
    let ghost ns = names.deep_view();
    let ghost vs = values.deep_view();
    let mut data: StringMap<String> = StringMap::new();
    let mut i: usize = 0;
    while i < names.len()
        invariant
            i <= names@.len(),
            ns == names.deep_view(),
            vs == values.deep_view(),
            data.deep_view() == paired(ns, vs, i as int),
        decreases names@.len() - i,
    {
        assert(ns[i as int] == names@[i as int]@);
        if i < values.len() {
            assert(vs[i as int] == values@[i as int]@);
            data.insert(names[i].clone(), values[i].clone());
        }
        i = i + 1;
    }
    data
}

fn align_values(columns: &Vec<Column>, values: &Vec<String>, fresh: &str) -> (r: StringMap<String>)
    ensures
        r.deep_view() == aligned(
            columns.deep_view(),
            values.deep_view(),
            fresh@,
            columns@.len() as int,
        ).0,
{
    let ghost cs = columns.deep_view();
    let ghost vs = values.deep_view();
    let mut data: StringMap<String> = StringMap::new();
    let mut used: usize = 0;
    let mut i: usize = 0;
    while i < columns.len()
        invariant
            used <= i <= columns@.len(),
            cs == columns.deep_view(),
            vs == values.deep_view(),
            (data.deep_view(), used as int) == aligned(cs, vs, fresh@, i as int),
        decreases columns@.len() - i,
    {
        let name = columns[i].name.clone();
        assert(cs[i as int].name == name@);
        if used < values.len() {
            assert(vs[used as int] == values@[used as int]@);
        }
        if str_eq(name.as_str(), "UUID") {
            if used < values.len() && uuid_parses(values[used].as_str()) {
                data.insert(name, values[used].clone());
                used = used + 1;
            } else {
                data.insert(name, fresh.to_owned());
            }
        } else {
            if used < values.len() {
                data.insert(name, values[used].clone());
            } else {
                data.insert(name, String::new());
            }
            used = used + 1;
        }
        i = i + 1;
    }
    data
}

fn complete_values(columns: &Vec<Column>, data: &mut StringMap<String>, fresh: &str)
    ensures
        final(data).deep_view() == completed(
            columns.deep_view(),
            old(data).deep_view(),
            fresh@,
            columns@.len() as int,
        ),
{
    let ghost cs = columns.deep_view();
    let ghost d0 = data.deep_view();
    let mut i: usize = 0;
    while i < columns.len()
        invariant
            i <= columns@.len(),
            cs == columns.deep_view(),
            data.deep_view() == completed(cs, d0, fresh@, i as int),
        decreases columns@.len() - i,
    {
        let name = columns[i].name.clone();
        assert(cs[i as int].name == name@);
        if !data.contains_key(name.as_str()) {
            if str_eq(name.as_str(), "UUID") {
                data.insert(name, fresh.to_owned());
            } else {
                data.insert(name, String::new());
            }
        }
        i = i + 1;
    }
}

/// Makes a new row of some values. The values are those of the columns with the
/// given names; without names they are in the order of the columns. `fresh` is
/// the UUID of the row where the values hold none; `now` is the present time.
pub fn insert_row_with(
    schema: &Schema,
    cache: &mut Cache,
    files: &TableFiles,
    table_name: &str,
    row_data: &Vec<String>,
    column_names: &Option<Vec<String>>,
    fresh: &str,
    now: &str,
) -> (r: Result<NewRow, DbError>)
    ensures
        (final(cache).deep_view(), errors::result_view(r)) == inserted(
            schema.deep_view(),
            old(cache).deep_view(),
            files.deep_view(),
            table_name@,
            row_data.deep_view(),
            column_names.deep_view(),
            fresh@,
            now@,
        ),
{
    let initial = initial_table_name(table_name);
    let columns = match schema.tables.get(initial.as_str()) {
        Some(t) => &t.columns,
        None => {
            return Err(
                DbError::new(
                    ErrorKind::NotFound,
                    concat3("Table '", initial.as_str(), "' does not exist in schema"),
                ),
            );
        },
    };
    let mut data = match column_names {
        Some(names) => {
            match find_unknown(columns, names) {
                Some(name) => {
                    return Err(
                        DbError::new(
                            ErrorKind::InvalidInput,
                            concat3("Invalid column name: '", name.as_str(), "'"),
                        ),
                    );
                },
                None => {},
            }
            pair_values(names, row_data)
        },
        None => align_values(columns, row_data, fresh),
    };
    complete_values(columns, &mut data, fresh);
    let uuid = match data.get("UUID") {
        Some(u) => u.clone(),
        None => String::new(),
    };
    match validate_and_process_row(schema, cache, files, table_name, data, now) {
        Ok(row) => Ok(NewRow { uuid, cells: quote_row(&row) }),
        Err(e) => Err(e),
    }
}

/// Makes a new row of some values, at the present time, and with a random UUID
/// where the values hold none.
pub fn insert_row(
    schema: &Schema,
    cache: &mut Cache,
    files: &TableFiles,
    table_name: &str,
    row_data: &Vec<String>,
    column_names: &Option<Vec<String>>,
) -> (r: Result<NewRow, DbError>)
    ensures
        exists|fresh: Text, now: Text|
            outside::is_hyphenated_uuid(fresh) && outside::is_time_text(now) && (final(cache).deep_view(), errors::result_view(r)) == #[trigger] inserted(
                schema.deep_view(),
                old(cache).deep_view(),
                files.deep_view(),
                table_name@,
                row_data.deep_view(),
                column_names.deep_view(),
                fresh,
                now,
            ),
{
    let fresh = new_uuid();
    let now = now_text();
    insert_row_with(
        schema,
        cache,
        files,
        table_name,
        row_data,
        column_names,
        fresh.as_str(),
        now.as_str(),
    )
}

// ---------------------------------------------------------------------------
// Updating
// ---------------------------------------------------------------------------

/// The position of the first row whose first cell is exactly `uuid`.
pub open spec fn row_position(rows: Rows, uuid: Text) -> Option<int>
    decreases rows.len(),
{
    if rows.len() == 0 {
        None
    } else {
        match row_position(rows.drop_last(), uuid) {
            Some(i) => Some(i),
            None => if rows.last().len() > 0 && rows.last()[0] == uuid {
                Some(rows.len() - 1)
            } else {
                None
            },
        }
    }
}

/// A stored cell without the double quotes around it.
pub open spec fn unquoted(cell: Text) -> Text {
    if cell.len() > 0 && cell[0] == '"' && cell.last() == '"' {
        text::trimmed(cell, Strip::Quote)
    } else {
        cell
    }
}

/// The merge of the values of a stored row and new values for it.
pub struct MergeView {
    /// The merged values, by the names of the columns.
    pub data: RowData,
    /// The new values that no column has taken yet.
    pub left: RowData,
    /// Whether the row had a cell wherever one was needed.
    pub covered: bool,
}

/// The merge over the first `n` columns: a new value where there is one by the
/// lower-case name of the column, else the value of the row. The UUID and the
/// timestamp are left out.
pub open spec fn merge_run(
    columns: Seq<ColumnView>,
    row: Row,
    new_values: RowData,
    n: int,
) -> MergeView
    decreases n,
{
    if n <= 0 {
        MergeView { data: Map::empty(), left: new_values, covered: true }
    } else {
        let before = merge_run(columns, row, new_values, n - 1);
        let name = outside::lowercase(columns[n - 1].name);
        if name == "timestamp"@ || name == "uuid"@ {
            before
        } else if before.left.contains_key(name) {
            MergeView {
                data: before.data.insert(columns[n - 1].name, before.left[name]),
                left: before.left.remove(name),
                covered: before.covered,
            }
        } else if n - 1 < row.len() {
            MergeView {
                data: before.data.insert(columns[n - 1].name, unquoted(row[n - 1])),
                ..before
            }
        } else {
            MergeView { covered: false, ..before }
        }
    }
}

/// The values of an updated row, by the names of their columns.
pub open spec fn update_data(
    columns: Seq<ColumnView>,
    row: Row,
    new_values: RowData,
    uuid: Text,
) -> RowData {
    merge_run(columns, row, new_values, columns.len() as int).data.insert(
        "UUID"@,
        text::trimmed(uuid, Strip::Quote),
    )
}

/// Whether the row that is to be updated has a cell for every column that gets
/// no new value.
pub open spec fn update_covered(
    schema: SchemaView,
    cache: CacheView,
    files: FilesView,
    table: Text,
    uuid: Text,
    new_values: RowData,
) -> bool {
    schema.contains_key(schema::initial_name(table)) ==> match table::table_data(
        schema,
        cache,
        files,
        table,
    ).1 {
        Err(e) => true,
        Ok(rows) => match row_position(rows, uuid) {
            None => true,
            Some(i) => {
                let columns = schema[schema::initial_name(table)].columns;
                merge_run(columns, rows[i], new_values, columns.len() as int).covered
            },
        },
    }
}

/// The updated row in its stored form, and the cache after that.
pub open spec fn updated(
    schema: SchemaView,
    cache: CacheView,
    files: FilesView,
    table: Text,
    uuid: Text,
    new_values: RowData,
    now: Text,
) -> (CacheView, Result<Row, ErrorView>) {
    if !schema.contains_key(schema::initial_name(table)) {
        (cache, Err(table::no_such_table(table, "' does not exist in schema"@)))
    } else {
        let columns = schema[schema::initial_name(table)].columns;
        match table::table_data(schema, cache, files, table) {
            (after, Err(e)) => (after, Err(e)),
            (after, Ok(rows)) => match row_position(rows, uuid) {
                None => (
                    after,
                    Err(
                        ErrorView {
                            kind: ErrorKind::NotFound,
                            message: "Row with UUID '"@ + uuid + "' not found"@,
                        },
                    ),
                ),
                Some(i) => match validation::validated_row(
                    schema,
                    after,
                    files,
                    table,
                    update_data(columns, rows[i], new_values, uuid),
                    now,
                ) {
                    (end, Err(e)) => (end, Err(e)),
                    (end, Ok(row)) => (end, Ok(rows::quoted_row(row))),
                },
            },
        }
    }
}

fn find_row(rows: &Vec<Vec<String>>, uuid: &str) -> (r: Option<usize>)
    ensures
        match r {
            Some(i) => i < rows@.len() && row_position(rows.deep_view(), uuid@) == Some(i as int),
            None => row_position(rows.deep_view(), uuid@) is None,
        },
{
    let ghost rs = rows.deep_view();
    let mut found: Option<usize> = None;
    let mut i: usize = 0;
    assert(rs.take(0) =~= Seq::<Row>::empty());
    while i < rows.len()
        invariant
            i <= rows@.len(),
            rs == rows.deep_view(),
            match found {
                Some(k) => k < i && row_position(rs.take(i as int), uuid@) == Some(k as int),
                None => row_position(rs.take(i as int), uuid@) is None,
            },
        decreases rows@.len() - i,
    {
        assert(rs.take(i as int + 1).drop_last() =~= rs.take(i as int));
        assert(rs.take(i as int + 1).last() == rows@[i as int].deep_view());
        if found.is_none() && rows[i].len() > 0 {
            assert(rows@[i as int].deep_view()[0] == rows@[i as int]@[0]@);
            if str_eq(rows[i][0].as_str(), uuid) {
                found = Some(i);
            }
        }
        i = i + 1;
    }
    assert(rs.take(i as int) =~= rs);
    found
}

fn unquote(cell: &str) -> (r: String)
    ensures
        r@ == unquoted(cell@),
{
    let cs = chars_of(cell);
    if cs.len() > 0 && cs[0] == '"' && cs[cs.len() - 1] == '"' {
        trim_matches(cell, Strip::Quote)
    } else {
        cell.to_owned()
    }
}

fn merge_values(
    columns: &Vec<Column>,
    row: &Vec<String>,
    new_values: StringMap<String>,
) -> (r: (StringMap<String>, bool))
    ensures
        r.0.deep_view() == merge_run(
            columns.deep_view(),
            row.deep_view(),
            new_values.deep_view(),
            columns@.len() as int,
        ).data,
        r.1 == merge_run(
            columns.deep_view(),
            row.deep_view(),
            new_values.deep_view(),
            columns@.len() as int,
        ).covered,
{
    let ghost cs = columns.deep_view();
    let ghost rv = row.deep_view();
    let ghost nv = new_values.deep_view();
    let mut left = new_values;
    let mut data: StringMap<String> = StringMap::new();
    let mut covered = true;
    let mut i: usize = 0;
    while i < columns.len()
        invariant
            i <= columns@.len(),
            cs == columns.deep_view(),
            rv == row.deep_view(),
            merge_run(cs, rv, nv, i as int) == (MergeView {
                data: data.deep_view(),
                left: left.deep_view(),
                covered,
            }),
        decreases columns@.len() - i,
    {
        let ghost left0 = left.deep_view();
        let name = columns[i].name.as_str().to_lowercase();
        assert(cs[i as int].name == columns@[i as int].name@);
        if !str_eq(name.as_str(), "timestamp") && !str_eq(name.as_str(), "uuid") {
            match left.remove(name.as_str()) {
                Some(v) => {
                    data.insert(columns[i].name.clone(), v);
                },
                None => {
                    assert(left.deep_view() =~= left0);
                    if i < row.len() {
                        assert(rv[i as int] == row@[i as int]@);
                        data.insert(columns[i].name.clone(), unquote(row[i].as_str()));
                    } else {
                        covered = false;
                    }
                },
            }
        }
        i = i + 1;
    }
    (data, covered)
}

/// Makes the updated form of the row whose first cell is exactly `uuid`. A
/// column whose lower-case name is among the new values gets that value; every
/// other column keeps the value that it has. `now` is the present time.
///
/// Gives nothing where the row has no cell for a column that gets no new value.
pub fn try_update_row_with(
    schema: &Schema,
    cache: &mut Cache,
    files: &TableFiles,
    table_name: &str,
    uuid: &str,
    updated_values: StringMap<String>,
    now: &str,
) -> (r: Option<Result<Vec<String>, DbError>>)
    ensures
        r is Some == update_covered(
            schema.deep_view(),
            old(cache).deep_view(),
            files.deep_view(),
            table_name@,
            uuid@,
            updated_values.deep_view(),
        ),
        r matches Some(result) ==> (final(cache).deep_view(), errors::result_view(result))
            == updated(
            schema.deep_view(),
            old(cache).deep_view(),
            files.deep_view(),
            table_name@,
            uuid@,
            updated_values.deep_view(),
            now@,
        ),
        r is None ==> final(cache).deep_view() == table::table_data(
            schema.deep_view(),
            old(cache).deep_view(),
            files.deep_view(),
            table_name@,
        ).0,
{
    let initial = initial_table_name(table_name);
    let columns = match schema.tables.get(initial.as_str()) {
        Some(t) => &t.columns,
        None => {
            return Some(
                Err(
                    DbError::new(
                        ErrorKind::NotFound,
                        concat3("Table '", initial.as_str(), "' does not exist in schema"),
                    ),
                ),
            );
        },
    };
    let rows = match get_table_data(schema, cache, files, table_name) {
        Ok(rows) => rows,
        Err(e) => {
            return Some(Err(e));
        },
    };
    let at = match find_row(&rows, uuid) {
        Some(i) => i,
        None => {
            return Some(
                Err(
                    DbError::new(
                        ErrorKind::NotFound,
                        concat3("Row with UUID '", uuid, "' not found"),
                    ),
                ),
            );
        },
    };
    assert(rows.deep_view()[at as int] == rows@[at as int].deep_view());
    let (mut data, covered) = merge_values(columns, &rows[at], updated_values);
    if !covered {
        return None;
    }
    data.insert("UUID".to_owned(), trim_matches(uuid, Strip::Quote));
    match validate_and_process_row(schema, cache, files, table_name, data, now) {
        Ok(row) => Some(Ok(quote_row(&row))),
        Err(e) => Some(Err(e)),
    }
}

/// Makes the updated form of the row whose first cell is exactly `uuid`, at the
/// present time. The row has a cell for every column that gets no new value.
pub fn update_row(
    schema: &Schema,
    cache: &mut Cache,
    files: &TableFiles,
    table_name: &str,
    uuid: &str,
    updated_values: StringMap<String>,
) -> (r: Result<Vec<String>, DbError>)
    requires
        update_covered(
            schema.deep_view(),
            old(cache).deep_view(),
            files.deep_view(),
            table_name@,
            uuid@,
            updated_values.deep_view(),
        ),
    ensures
        exists|now: Text|
            outside::is_time_text(now) && (
                final(cache).deep_view(),
                errors::result_view(r),
            ) == #[trigger] updated(
                schema.deep_view(),
                old(cache).deep_view(),
                files.deep_view(),
                table_name@,
                uuid@,
                updated_values.deep_view(),
                now,
            ),
{
    let now = now_text();
    match try_update_row_with(schema, cache, files, table_name, uuid, updated_values, now.as_str()) {
        Some(result) => result,
        None => Err(DbError::new(ErrorKind::Other, String::new())),
    }
}

/// Makes the updated form of the row whose first cell is exactly `uuid`, at the
/// present time. Gives nothing, and leaves the cache as it is, where the row has
/// no cell for a column that gets no new value.
pub fn try_update_row(
    schema: &Schema,
    cache: &mut Cache,
    files: &TableFiles,
    table_name: &str,
    uuid: &str,
    updated_values: StringMap<String>,
) -> (r: Option<Result<Vec<String>, DbError>>)
    ensures
        r is Some == update_covered(
            schema.deep_view(),
            old(cache).deep_view(),
            files.deep_view(),
            table_name@,
            uuid@,
            updated_values.deep_view(),
        ),
        r matches Some(result) ==> exists|now: Text|
            outside::is_time_text(now) && (
                final(cache).deep_view(),
                errors::result_view(result),
            ) == #[trigger] updated(
                schema.deep_view(),
                old(cache).deep_view(),
                files.deep_view(),
                table_name@,
                uuid@,
                updated_values.deep_view(),
                now,
            ),
        r is None ==> final(cache).deep_view() == old(cache).deep_view(),
{
    let mut probe = cache.duplicate();
    let covered = covers_update(schema, &mut probe, files, table_name, uuid, updated_values.duplicate());
    if covered {
        Some(update_row(schema, cache, files, table_name, uuid, updated_values))
    } else {
        None
    }
}

fn covers_update(
    schema: &Schema,
    cache: &mut Cache,
    files: &TableFiles,
    table_name: &str,
    uuid: &str,
    updated_values: StringMap<String>,
) -> (r: bool)
    ensures
        r == update_covered(
            schema.deep_view(),
            old(cache).deep_view(),
            files.deep_view(),
            table_name@,
            uuid@,
            updated_values.deep_view(),
        ),
{
    let initial = initial_table_name(table_name);
    let columns = match schema.tables.get(initial.as_str()) {
        Some(t) => &t.columns,
        None => {
            return true;
        },
    };
    match get_table_data(schema, cache, files, table_name) {
        Err(_) => true,
        Ok(rows) => match find_row(&rows, uuid) {
            None => true,
            Some(at) => {
                assert(rows.deep_view()[at as int] == rows@[at as int].deep_view());
                let (_, covered) = merge_values(columns, &rows[at], updated_values);
                covered
            },
        },
    }
}

// ---------------------------------------------------------------------------
// Deleting
// ---------------------------------------------------------------------------

/// What a deletion leaves in a column: the UUID, the time of the deletion, zero
/// for an integer, and a mark for anything else.
pub open spec fn deleted_value(data_type: DataType, uuid: Text, now: Text) -> Text {
    match data_type {
        DataType::UUID => text::trimmed(uuid, Strip::Quote),
        DataType::DateTime => now,
        DataType::Int => "0"@,
        DataType::String => "ROW_REMOVED"@,
    }
}

/// What a deletion leaves of a row, in its stored form.
pub open spec fn deleted_cells(columns: Seq<ColumnView>, uuid: Text, now: Text) -> Row {
    columns.map_values(|c: ColumnView| rows::quoted(deleted_value(c.data_type, uuid, now)))
}

/// The deleted form of a row, as it is stored.
pub open spec fn deleted(schema: SchemaView, table: Text, uuid: Text, now: Text) -> Result<
    Row,
    ErrorView,
> {
    if schema.contains_key(schema::initial_name(table)) {
        Ok(deleted_cells(schema[schema::initial_name(table)].columns, uuid, now))
    } else {
        Err(table::no_such_table(table, "' does not exist in schema"@))
    }
}

/// Makes the deleted form of a row: integers are 0, timestamps are `now`, and
/// strings are `ROW_REMOVED`.
pub fn delete_row_with(schema: &Schema, table_name: &str, uuid: &str, now: &str) -> (r: Result<
    Vec<String>,
    DbError,
>)
    ensures
        errors::result_view(r) == deleted(schema.deep_view(), table_name@, uuid@, now@),
{
    let initial = initial_table_name(table_name);
    let columns = match schema.tables.get(initial.as_str()) {
        Some(t) => &t.columns,
        None => {
            return Err(
                DbError::new(
                    ErrorKind::NotFound,
                    concat3("Table '", initial.as_str(), "' does not exist in schema"),
                ),
            );
        },
    };
    let mut row: Vec<String> = Vec::new();
    let mut i: usize = 0;
    while i < columns.len()
        invariant
            i <= columns@.len(),
            row@.len() == i,
            forall|k: int|
                0 <= k < i ==> (#[trigger] row@[k])@ == deleted_value(
                    columns@[k].data_type,
                    uuid@,
                    now@,
                ),
        decreases columns@.len() - i,
    {
        let value = match columns[i].data_type {
            DataType::UUID => trim_matches(uuid, Strip::Quote),
            DataType::DateTime => now.to_owned(),
            DataType::Int => "0".to_owned(),
            DataType::String => "ROW_REMOVED".to_owned(),
        };
        row.push(value);
        i = i + 1;
    }
    let cells = quote_row(&row);
    assert(cells.deep_view() =~= deleted_cells(columns.deep_view(), uuid@, now@));
    Ok(cells)
}

/// Makes the deleted form of a row, at the present time.
pub fn delete_row(schema: &Schema, table_name: &str, uuid: &str) -> (r: Result<
    Vec<String>,
    DbError,
>)
    ensures
        exists|now: Text|
            outside::is_time_text(now) && errors::result_view(r)
                == #[trigger] deleted(schema.deep_view(), table_name@, uuid@, now),
{
    let now = now_text();
    delete_row_with(schema, table_name, uuid, now.as_str())
}

} // verus!
