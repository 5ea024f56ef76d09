//! Operations on tables: reading them, and adding, changing and removing rows.
//!
//! A table is stored in two files, to which lines are only ever appended: one
//! holds the rows as they were inserted, the other the changes to them. What
//! the files hold is handed to the functions here. The current rows of the
//! tables in use are kept in a cache.

use crate::errors;
use crate::errors::{DbError, ErrorKind, ErrorView};
use crate::outside;
use crate::outside::parse_datetime;
use crate::records::rows;
use crate::records::rows::{
    merge_row_with_updates, merge_table_and_update, row_timestamp_is_before, sort_earliest_first, Row,
    Rows,
};
use crate::schema::schema;
use crate::schema::schema::{initial_table_name, names_of_columns, Schema, SchemaView};
use crate::string_map::{Duplicate, StringMap};
use crate::text;
use crate::text::{concat2, concat3, str_eq, trim_matches, Strip, Text};
use vstd::prelude::*;

verus! {

/// The current rows of the tables in use.
pub type Cache = StringMap<Vec<Vec<String>>>;

/// A [`Cache`] as a mathematical value.
pub type CacheView = Map<Text, Rows>;

/// What reading the two files of a table gave.
#[derive(Debug)]
pub struct TableFiles {
    pub initial: Result<Vec<Vec<String>>, DbError>,
    pub updates: Result<Vec<Vec<String>>, DbError>,
}

/// A [`TableFiles`] as a mathematical value.
pub struct FilesView {
    pub initial: Result<Rows, ErrorView>,
    pub updates: Result<Rows, ErrorView>,
}

impl DeepView for TableFiles {
    type V = FilesView;

    open spec fn deep_view(&self) -> FilesView {
        FilesView {
            initial: errors::result_view(self.initial),
            updates: errors::result_view(self.updates),
        }
    }
}

// ---------------------------------------------------------------------------
// Reading tables
// ---------------------------------------------------------------------------

/// The error for a table that the schema does not have.
pub open spec fn no_such_table(table: Text, tail: Text) -> ErrorView {
    ErrorView {
        kind: ErrorKind::NotFound,
        message: "Table '"@ + schema::initial_name(table) + tail,
    }
}

/// The column names of a table.
pub open spec fn table_column_names(schema: SchemaView, table: Text) -> Result<Row, ErrorView> {
    if schema.contains_key(schema::initial_name(table)) {
        Ok(schema::column_names(schema[schema::initial_name(table)].columns))
    } else {
        Err(no_such_table(table, "' does not exist in the schema"@))
    }
}

/// The column names of a table.
pub fn get_column_names(schema: &Schema, table_name: &str) -> (r: Result<Vec<String>, DbError>)
    ensures
        errors::result_view(r) == table_column_names(schema.deep_view(), table_name@),
{
    let initial = initial_table_name(table_name);
    match schema.tables.get(initial.as_str()) {
        Some(table) => Ok(names_of_columns(&table.columns)),
        None => Err(
            DbError::new(
                ErrorKind::NotFound,
                concat3("Table '", initial.as_str(), "' does not exist in the schema"),
            ),
        ),
    }
}

/// The rows of a table with its updates: of several updates of a row the most
/// recent one counts.
pub open spec fn current_rows(initial: Rows, updates: Rows) -> Rows {
    rows::merged_table(initial, rows::earliest_first(updates))
}

/// The cache after a table was computed anew, and whether that succeeded.
pub open spec fn recalculated(
    cache: CacheView,
    table: Text,
    initial: Rows,
    updates: Result<Rows, ErrorView>,
) -> (CacheView, Result<(), ErrorView>) {
    match updates {
        Err(e) => (cache, Err(e)),
        Ok(updates) => (cache.insert(table, current_rows(initial, updates)), Ok(())),
    }
}

/// Computes the current rows of a table anew, and keeps them in the cache.
pub fn recalculate_table(
    cache: &mut Cache,
    table_name: &str,
    initial_table_data: &Vec<Vec<String>>,
    updates_data: &Result<Vec<Vec<String>>, DbError>,
) -> (r: Result<(), DbError>)
    ensures
        (final(cache).deep_view(), errors::result_view(r)) == recalculated(
            old(cache).deep_view(),
            table_name@,
            initial_table_data.deep_view(),
            errors::result_view(*updates_data),
        ),
{
    match updates_data {
        Err(e) => Err(e.duplicate()),
        Ok(updates) => {
            let sorted = sort_earliest_first(updates);
            let merged = merge_table_and_update(initial_table_data, &sorted);
            cache.insert(table_name.to_owned(), merged);
            Ok(())
        },
    }
}

/// The cache after the rows of a table were read, and the rows with the column
/// names before them.
pub open spec fn table_data(
    schema: SchemaView,
    cache: CacheView,
    files: FilesView,
    table: Text,
) -> (CacheView, Result<Rows, ErrorView>) {
    match table_column_names(schema, table) {
        Err(e) => (cache, Err(e)),
        Ok(names) => if cache.contains_key(table) {
            (cache, Ok(seq![names] + cache[table]))
        } else {
            match files.initial {
                Err(e) => (cache, Err(e)),
                Ok(initial) => match recalculated(cache, table, initial, files.updates) {
                    (after, Err(e)) => (after, Err(e)),
                    (after, Ok(_)) => (after, Ok(seq![names] + after[table])),
                },
            }
        },
    }
}

fn with_header(names: Vec<String>, rows: &Vec<Vec<String>>) -> (r: Vec<Vec<String>>)
    ensures
        r.deep_view() == seq![names.deep_view()] + rows.deep_view(),
{
    let ghost header = names.deep_view();
    let mut r = rows.duplicate();
    let ghost before = r.deep_view();
    r.insert(0, names);
    assert(r.deep_view() =~= seq![header] + before);
    r
}

/// The rows of a table with the column names before them. The rows come from
/// the cache, which is filled where it does not have the table.
pub fn get_table_data(
    schema: &Schema,
    cache: &mut Cache,
    files: &TableFiles,
    table_name: &str,
) -> (r: Result<Vec<Vec<String>>, DbError>)
    ensures
        (final(cache).deep_view(), errors::result_view(r)) == table_data(
            schema.deep_view(),
            old(cache).deep_view(),
            files.deep_view(),
            table_name@,
        ),
{
    let names = match get_column_names(schema, table_name) {
        Ok(names) => names,
        Err(e) => {
            return Err(e);
        },
    };
    if let Some(rows) = cache.get(table_name) {
        return Ok(with_header(names, rows));
    }
    let initial = match &files.initial {
        Ok(rows) => rows,
        Err(e) => {
            return Err(e.duplicate());
        },
    };
    match recalculate_table(cache, table_name, initial, &files.updates) {
        Ok(()) => {},
        Err(e) => {
            return Err(e);
        },
    }
    match cache.get(table_name) {
        Some(rows) => Ok(with_header(names, rows)),
        None => Err(
            DbError::new(
                ErrorKind::Other,
                "Data not found in cache after recalculation".to_owned(),
            ),
        ),
    }
}

/// The rows that carry a time not after `target`, in their order.
pub open spec fn rows_until(rows: Rows, target: outside::Instant) -> Rows
    decreases rows.len(),
{
    if rows.len() == 0 {
        Seq::empty()
    } else if rows::not_after(rows.last(), target) {
        rows_until(rows.drop_last(), target).push(rows.last())
    } else {
        rows_until(rows.drop_last(), target)
    }
}

/// What a file held at a time: a file that is not there held nothing.
pub open spec fn file_until(file: Result<Rows, ErrorView>, target: outside::Instant) -> Result<
    Rows,
    ErrorView,
> {
    match file {
        Ok(rows) => Ok(rows_until(rows, target)),
        Err(e) => if e.kind == ErrorKind::NotFound {
            Ok(Seq::empty())
        } else {
            Err(e)
        },
    }
}

/// A table as it was at a time, given as a text: the column names and the rows,
/// or nothing where there were no rows.
pub open spec fn table_at(
    schema: SchemaView,
    files: FilesView,
    table: Text,
    timestamp: Text,
) -> Result<Rows, ErrorView> {
    match table_column_names(schema, table) {
        Err(e) => Err(e),
        Ok(names) => match outside::datetime_of(timestamp, "%Y-%m-%d %H:%M:%S"@) {
            None => Err(
                ErrorView {
                    kind: ErrorKind::InvalidInput,
                    message: "Invalid timestamp format: "@ + timestamp,
                },
            ),
            Some(target) => table_until(names, files, target),
        },
    }
}

/// A table as it was at a time.
pub open spec fn table_until(names: Row, files: FilesView, target: outside::Instant) -> Result<
    Rows,
    ErrorView,
> {
    match file_until(files.initial, target) {
        Err(e) => Err(e),
        Ok(initial) => match file_until(files.updates, target) {
            Err(e) => Err(e),
            Ok(updates) => {
                let merged = rows::merged_table(initial, updates);
                Ok(
                    if merged.len() == 0 {
                        merged
                    } else {
                        seq![names] + merged
                    },
                )
            },
        },
    }
}

fn keep_until(rows: &Vec<Vec<String>>, target: outside::Instant) -> (r: Vec<Vec<String>>)
    ensures
        r.deep_view() == rows_until(rows.deep_view(), target),
{
    let ghost rs = rows.deep_view();
    let mut r: Vec<Vec<String>> = Vec::new();
    let mut i: usize = 0;
    assert(rs.take(0) =~= Seq::<Row>::empty());
    assert(r.deep_view() =~= Seq::<Row>::empty());
    while i < rows.len()
        invariant
            i <= rows@.len(),
            rs == rows.deep_view(),
            r.deep_view() == rows_until(rs.take(i as int), target),
        decreases rows@.len() - i,
    {
        let ghost before = r.deep_view();
        assert(rs.take(i as int + 1).drop_last() =~= rs.take(i as int));
        assert(rs.take(i as int + 1).last() == rows@[i as int].deep_view());
        if row_timestamp_is_before(&rows[i], target) {
            r.push(rows[i].duplicate());
            assert(r.deep_view() =~= before.push(rs[i as int]));
        }
        i = i + 1;
    }
    assert(rs.take(i as int) =~= rs);
    r
}

fn read_until(file: &Result<Vec<Vec<String>>, DbError>, target: outside::Instant) -> (r: Result<
    Vec<Vec<String>>,
    DbError,
>)
    ensures
        errors::result_view(r) == file_until(errors::result_view(*file), target),
{
    match file {
        Ok(rows) => Ok(keep_until(rows, target)),
        Err(e) => if e.kind == ErrorKind::NotFound {
            let none: Vec<Vec<String>> = Vec::new();
            assert(none.deep_view() =~= Seq::<Row>::empty());
            Ok(none)
        } else {
            Err(e.duplicate())
        },
    }
}

/// A table as it was at a given point in time.
pub fn get_table_until(
    names: Vec<String>,
    files: &TableFiles,
    target: outside::Instant,
) -> (r: Result<Vec<Vec<String>>, DbError>)
    ensures
        errors::result_view(r) == table_until(names.deep_view(), files.deep_view(), target),
{
    let initial = match read_until(&files.initial, target) {
        Ok(rows) => rows,
        Err(e) => {
            return Err(e);
        },
    };
    let updates = match read_until(&files.updates, target) {
        Ok(rows) => rows,
        Err(e) => {
            return Err(e);
        },
    };
    let merged = merge_table_and_update(&initial, &updates);
    if merged.len() == 0 {
        Ok(merged)
    } else {
        Ok(with_header(names, &merged))
    }
}

/// A table as it was at the time that `timestamp` denotes.
pub fn get_table_at_timestamp(
    schema: &Schema,
    files: &TableFiles,
    table_name: &str,
    timestamp: &str,
) -> (r: Result<Vec<Vec<String>>, DbError>)
    ensures
        errors::result_view(r) == table_at(
            schema.deep_view(),
            files.deep_view(),
            table_name@,
            timestamp@,
        ),
{
    let names = match get_column_names(schema, table_name) {
        Ok(names) => names,
        Err(e) => {
            return Err(e);
        },
    };
    match parse_datetime(timestamp, "%Y-%m-%d %H:%M:%S") {
        None => Err(
            DbError::new(
                ErrorKind::InvalidInput,
                concat2("Invalid timestamp format: ", timestamp),
            ),
        ),
        Some(target) => get_table_until(names, files, target),
    }
}

// ---------------------------------------------------------------------------
// Keeping the cache up to date
// ---------------------------------------------------------------------------

/// Whether the first cell of a row, without double quotes around it, is `id`.
pub open spec fn has_id(row: Row, id: Text) -> bool {
    row.len() > 0 && text::trimmed(row[0], Strip::Quote) == id
}

fn row_has_id(row: &Vec<String>, id: &str) -> (r: bool)
    ensures
        r == has_id(row.deep_view(), id@),
{
    if row.len() > 0 {
        assert(row.deep_view()[0] == row@[0]@);
        let clean = trim_matches(row[0].as_str(), Strip::Quote);
        str_eq(clean.as_str(), id)
    } else {
        false
    }
}

/// The position of the first row with the given id.
pub open spec fn first_with_id(rows: Rows, id: Text) -> Option<int>
    decreases rows.len(),
{
    if rows.len() == 0 {
        None
    } else {
        match first_with_id(rows.drop_last(), id) {
            Some(i) => Some(i),
            None => if has_id(rows.last(), id) {
                Some(rows.len() - 1)
            } else {
                None
            },
        }
    }
}

pub proof fn lemma_first_with_id(rows: Rows, id: Text)
    ensures
        match first_with_id(rows, id) {
            Some(i) => 0 <= i < rows.len() && has_id(rows[i], id) && forall|k: int|
                0 <= k < i ==> !has_id(#[trigger] rows[k], id),
            None => forall|k: int| 0 <= k < rows.len() ==> !has_id(#[trigger] rows[k], id),
        },
    decreases rows.len(),
{
    if rows.len() > 0 {
        let d = rows.drop_last();
        lemma_first_with_id(d, id);
        assert(forall|k: int| 0 <= k < d.len() ==> d[k] == rows[k]);
    }
}

/// The rows with the given id, in their order.
pub open spec fn rows_with_id(rows: Rows, id: Text) -> Rows
    decreases rows.len(),
{
    if rows.len() == 0 {
        Seq::empty()
    } else if has_id(rows.last(), id) {
        rows_with_id(rows.drop_last(), id).push(rows.last())
    } else {
        rows_with_id(rows.drop_last(), id)
    }
}

/// The rows with `row` in the place of the first row with the given id, and at
/// the end where there is none.
pub open spec fn put_row(rows: Rows, id: Text, row: Row) -> Rows {
    match first_with_id(rows, id) {
        Some(i) => rows.update(i, row),
        None => rows.push(row),
    }
}

/// A row of a table with its updates: they are applied one after the other,
/// from the earliest to the latest.
pub open spec fn current_row(initial_row: Row, updates: Rows, id: Text) -> Row {
    rows::apply_updates(initial_row, rows::earliest_first(rows_with_id(updates, id)))
}

/// The error for a row that is not among the initial rows.
pub open spec fn no_such_row(uuid: Text) -> ErrorView {
    ErrorView {
        kind: ErrorKind::NotFound,
        message: "Row with UUID '"@ + uuid + "' not found in the initial table"@,
    }
}

/// The cache after one row of a table was computed anew, and whether that
/// succeeded.
pub open spec fn row_recalculated(
    cache: CacheView,
    files: FilesView,
    table: Text,
    uuid: Text,
) -> (CacheView, Result<(), ErrorView>) {
    let id = text::trimmed(uuid, Strip::Quote);
    match files.initial {
        Err(e) => (cache, Err(e)),
        Ok(initial) => if !cache.contains_key(table) {
            recalculated(cache, table, initial, files.updates)
        } else {
            match first_with_id(initial, id) {
                None => (cache, Err(no_such_row(uuid))),
                Some(i) => match files.updates {
                    Err(e) => (cache, Err(e)),
                    Ok(updates) => (
                        cache.insert(
                            table,
                            put_row(cache[table], id, current_row(initial[i], updates, id)),
                        ),
                        Ok(()),
                    ),
                },
            }
        },
    }
}

/// Whether the updates of a row of a table in the cache have no cell that
/// counts where the row among the initial rows has none.
pub open spec fn row_updates_fit(
    cache: CacheView,
    files: FilesView,
    table: Text,
    uuid: Text,
) -> bool {
    let id = text::trimmed(uuid, Strip::Quote);
    match (files.initial, files.updates) {
        (Ok(initial), Ok(updates)) if cache.contains_key(table) => match first_with_id(
            initial,
            id,
        ) {
            Some(i) => rows::updates_fit(initial[i], rows_with_id(updates, id)),
            None => true,
        },
        _ => true,
    }
}

fn find_with_id(rows: &Vec<Vec<String>>, id: &str) -> (r: Option<usize>)
    ensures
        match r {
            Some(i) => i < rows@.len() && first_with_id(rows.deep_view(), id@) == Some(i as int),
            None => first_with_id(rows.deep_view(), id@) is None,
        },
{
    let ghost rs = rows.deep_view();
    let mut i: usize = 0;
    while i < rows.len()
        invariant
            i <= rows@.len(),
            rs == rows.deep_view(),
            forall|k: int| 0 <= k < i ==> !has_id(#[trigger] rs[k], id@),
        decreases rows@.len() - i,
    {
        assert(rs[i as int] == rows@[i as int].deep_view());
        if row_has_id(&rows[i], id) {
            proof {
                lemma_first_with_id(rs, id@);
            }
            return Some(i);
        }
        i = i + 1;
    }
    proof {
        lemma_first_with_id(rs, id@);
    }
    None
}

fn select_with_id(rows: &Vec<Vec<String>>, id: &str) -> (r: Vec<Vec<String>>)
    ensures
        r.deep_view() == rows_with_id(rows.deep_view(), id@),
{
    let ghost rs = rows.deep_view();
    let mut r: Vec<Vec<String>> = Vec::new();
    let mut i: usize = 0;
    assert(rs.take(0) =~= Seq::<Row>::empty());
    assert(r.deep_view() =~= Seq::<Row>::empty());
    while i < rows.len()
        invariant
            i <= rows@.len(),
            rs == rows.deep_view(),
            r.deep_view() == rows_with_id(rs.take(i as int), id@),
        decreases rows@.len() - i,
    {
        let ghost before = r.deep_view();
        assert(rs.take(i as int + 1).drop_last() =~= rs.take(i as int));
        assert(rs.take(i as int + 1).last() == rows@[i as int].deep_view());
        if row_has_id(&rows[i], id) {
            r.push(rows[i].duplicate());
            assert(r.deep_view() =~= before.push(rs[i as int]));
        }
        i = i + 1;
    }
    assert(rs.take(i as int) =~= rs);
    r
}

/// Whether the updates of a row of a table in the cache have no cell that
/// counts where the row among the initial rows has none.
pub fn check_row_updates_fit(
    cache: &Cache,
    files: &TableFiles,
    table_name: &str,
    uuid: &str,
) -> (r: bool)
    ensures
        r == row_updates_fit(cache.deep_view(), files.deep_view(), table_name@, uuid@),
{
    if !cache.contains_key(table_name) {
        return true;
    }
    let id = trim_matches(uuid, Strip::Quote);
    match (&files.initial, &files.updates) {
        (Ok(initial), Ok(updates)) => match find_with_id(initial, id.as_str()) {
            Some(i) => {
                let own = select_with_id(updates, id.as_str());
                all_updates_fit(&initial[i], &own)
            },
            None => true,
        },
        _ => true,
    }
}

fn all_updates_fit(row: &Vec<String>, updates: &Vec<Vec<String>>) -> (r: bool)
    ensures
        r == rows::updates_fit(row.deep_view(), updates.deep_view()),
{
    let ghost us = updates.deep_view();
    let ghost row0 = row.deep_view();
    let mut u: usize = 0;
    while u < updates.len()
        invariant
            u <= updates@.len(),
            us == updates.deep_view(),
            row0 == row.deep_view(),
            forall|a: int, i: int|
                0 <= a < u && row0.len() <= i < (#[trigger] us[a]).len() ==> !rows::cell_counts(
                    #[trigger] us[a][i],
                ),
        decreases updates@.len() - u,
    {
        let update = &updates[u];
        assert(us[u as int] == update.deep_view());
        let mut i: usize = row.len();
        while i < update.len()
            invariant
                row@.len() <= i,
                us == updates.deep_view(),
                row0 == row.deep_view(),
                u < us.len(),
                us[u as int] == update.deep_view(),
                forall|k: int|
                    row0.len() <= k < i && k < us[u as int].len() ==> !rows::cell_counts(
                        #[trigger] us[u as int][k],
                    ),
            decreases update@.len() - i,
        {
            assert(us[u as int][i as int] == update@[i as int]@);
            if !update[i].as_str().is_empty() && !str_eq(update[i].as_str(), "ROW_REMOVED") {
                assert(rows::cell_counts(us[u as int][i as int]));
                return false;
            }
            i = i + 1;
        }
        u = u + 1;
    }
    true
}

/// Computes one row of a table anew, and keeps it in the cache. Where the cache
/// does not have the table, the whole table is computed.
pub fn recalculate_row(
    cache: &mut Cache,
    files: &TableFiles,
    table_name: &str,
    uuid: &str,
) -> (r: Result<(), DbError>)
    requires
        row_updates_fit(old(cache).deep_view(), files.deep_view(), table_name@, uuid@),
    ensures
        (final(cache).deep_view(), errors::result_view(r)) == row_recalculated(
            old(cache).deep_view(),
            files.deep_view(),
            table_name@,
            uuid@,
        ),
{
    let initial = match &files.initial {
        Ok(rows) => rows,
        Err(e) => {
            return Err(e.duplicate());
        },
    };
    if !cache.contains_key(table_name) {
        return recalculate_table(cache, table_name, initial, &files.updates);
    }
    let id = trim_matches(uuid, Strip::Quote);
    let at = match find_with_id(initial, id.as_str()) {
        Some(i) => i,
        None => {
            return Err(
                DbError::new(
                    ErrorKind::NotFound,
                    concat3("Row with UUID '", uuid, "' not found in the initial table"),
                ),
            );
        },
    };
    let updates = match &files.updates {
        Ok(rows) => rows,
        Err(e) => {
            return Err(e.duplicate());
        },
    };
    let own = select_with_id(updates, id.as_str());
    let sorted = sort_earliest_first(&own);
    proof {
        rows::lemma_sorted_updates_fit(initial@[at as int].deep_view(), own.deep_view());
    }
    let final_row = merge_row_with_updates(&initial[at], &sorted);
    let ghost before = cache.deep_view();
    let ghost row = final_row.deep_view();
    match cache.remove(table_name) {
        Some(mut table) => {
            let ghost rows0 = table.deep_view();
            match find_with_id(&table, id.as_str()) {
                Some(i) => {
                    table.set(i, final_row);
                    assert(table.deep_view() =~= rows0.update(i as int, row));
                },
                None => {
                    table.push(final_row);
                    assert(table.deep_view() =~= rows0.push(row));
                },
            }
            cache.insert(table_name.to_owned(), table);
            assert(cache.deep_view() =~= before.insert(table_name@, put_row(rows0, id@, row)));
        },
        None => {},
    }
    Ok(())
}

/// The cache after a row was added to a table, and whether that succeeded. The
/// files are those after the row was appended.
pub open spec fn row_added(
    cache: CacheView,
    files: FilesView,
    table: Text,
    row: Row,
) -> (CacheView, Result<(), ErrorView>) {
    if cache.contains_key(table) {
        (cache.insert(table, cache[table].push(row)), Ok(()))
    } else {
        match files.initial {
            Err(e) => (cache, Err(e)),
            Ok(initial) => recalculated(cache, table, initial, files.updates),
        }
    }
}

/// Adds a row to a table in the cache. Where the cache does not have the table,
/// the whole table is computed from its files, to which the row was appended
/// before.
pub fn add_row_to_cache(
    cache: &mut Cache,
    files: &TableFiles,
    table_name: &str,
    new_row: Vec<String>,
) -> (r: Result<(), DbError>)
    ensures
        (final(cache).deep_view(), errors::result_view(r)) == row_added(
            old(cache).deep_view(),
            files.deep_view(),
            table_name@,
            new_row.deep_view(),
        ),
{
    let ghost before = cache.deep_view();
    let ghost row = new_row.deep_view();
    match cache.remove(table_name) {
        Some(mut table) => {
            let ghost rows0 = table.deep_view();
            table.push(new_row);
            assert(table.deep_view() =~= rows0.push(row));
            cache.insert(table_name.to_owned(), table);
            assert(cache.deep_view() =~= before.insert(table_name@, rows0.push(row)));
            Ok(())
        },
        None => {
            assert(cache.deep_view() =~= before);
            match &files.initial {
                Err(e) => Err(e.duplicate()),
                Ok(initial) => recalculate_table(cache, table_name, initial, &files.updates),
            }
        },
    }
}

} // verus!
