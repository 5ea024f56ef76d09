//! What reading a table gives back of the changes to it.

use crate::errors::ErrorView;
use crate::numbers;
use crate::outside;
use crate::records::changes;
use crate::records::rows;
use crate::records::rows::{Row, Rows};
use crate::records::table;
use crate::records::table::{CacheView, FilesView};
use crate::records::validation;
use crate::records::validation::RowData;
use crate::schema::schema;
use crate::schema::schema::{ColumnView, DataType, SchemaView};
use crate::text;
use crate::text::{Strip, Text};
use vstd::prelude::*;

verus! {

/// A row that was added to a table in the cache is read after the rows that
/// were there, which are unchanged.
pub proof fn law_added_row_is_read(
    schema: SchemaView,
    cache: CacheView,
    files: FilesView,
    table: Text,
    row: Row,
)
    requires
        schema.contains_key(schema::initial_name(table)),
        cache.contains_key(table),
    ensures
        table::row_added(cache, files, table, row).1 is Ok,
        table::table_data(schema, cache, files, table).1 is Ok,
        table::table_data(
            schema,
            table::row_added(cache, files, table, row).0,
            files,
            table,
        ).1 == Ok::<Rows, ErrorView>(
            table::table_data(schema, cache, files, table).1->Ok_0.push(row),
        ),
{
    let names = table::table_column_names(schema, table)->Ok_0;
    assert(seq![names] + cache[table].push(row) =~= (seq![names] + cache[table]).push(row));
}

/// Adding a row to one table leaves what is read of every other table as it
/// was.
pub proof fn law_added_row_leaves_others(
    schema: SchemaView,
    cache: CacheView,
    files: FilesView,
    table: Text,
    row: Row,
    other: Text,
    other_files: FilesView,
)
    requires
        other != table,
    ensures
        table::table_data(
            schema,
            table::row_added(cache, files, table, row).0,
            other_files,
            other,
        ).1 == table::table_data(schema, cache, other_files, other).1,
{
}

/// The cache stays what the files say: where it held the current rows of a
/// table, it holds them after a row was inserted, in the file and in the cache.
/// The cells of the row can be read back, and there is no update of it yet.
pub proof fn law_insert_keeps_cache_current(
    cache: CacheView,
    table: Text,
    initial: Rows,
    updates: Rows,
    cells: Row,
    files: FilesView,
)
    requires
        cache.contains_key(table),
        cache[table] == table::current_rows(initial, updates),
        cells.len() >= 1,
        forall|i: int| 0 <= i < cells.len() ==> rows::plain_cell(#[trigger] cells[i]),
        forall|u: int|
            0 <= u < updates.len() && (#[trigger] updates[u]).len() > 0 ==> updates[u][0]
                != cells[0],
    ensures
        table::row_added(cache, files, table, cells).0[table] == table::current_rows(
            initial.push(rows::line_cells(rows::cells_line(cells))),
            updates,
        ),
{
    rows::law_line_reads_back(cells);
    let sorted = rows::earliest_first(updates);
    assert forall|u: int| 0 <= u < sorted.len() && (#[trigger] sorted[u]).len() > 0 implies sorted[u][0]
        != cells[0] by {
        rows::lemma_sorted_from(updates, u);
        let m = choose|m: int| 0 <= m < updates.len() && sorted[u] == #[trigger] updates[m];
        assert(updates[m][0] != cells[0]);
    }
    lemma_no_update(sorted, cells[0]);
    assert(rows::merged_table(initial.push(cells), sorted) =~= rows::merged_table(
        initial,
        sorted,
    ).push(cells));
}

pub proof fn lemma_no_update(updates: Rows, id: Text)
    requires
        forall|u: int|
            0 <= u < updates.len() && (#[trigger] updates[u]).len() > 0 ==> updates[u][0] != id,
    ensures
        rows::last_update(updates, id) is None,
    decreases updates.len(),
{
    if updates.len() > 0 {
        let d = updates.drop_last();
        assert(forall|u: int| 0 <= u < d.len() ==> d[u] == updates[u]);
        assert(updates[updates.len() - 1] == updates.last());
        lemma_no_update(d, id);
    }
}

// ---------------------------------------------------------------------------
// Updates
// ---------------------------------------------------------------------------

/// Whether no update of the row with the given id was written after `row`.
pub open spec fn none_later(updates: Rows, id: Text, row: Row) -> bool {
    forall|u: int|
        0 <= u < updates.len() && table::has_id(#[trigger] updates[u], id)
            ==> !rows::earlier_or_none(rows::written_at(row), rows::written_at(updates[u]))
}

/// Whether no update under the given first cell was written after `row`.
pub open spec fn none_later_under(updates: Rows, cell: Text, row: Row) -> bool {
    forall|u: int|
        0 <= u < updates.len() && (#[trigger] updates[u]).len() > 0 && updates[u][0] == cell
            ==> !rows::earlier_or_none(rows::written_at(row), rows::written_at(updates[u]))
}

/// Every stored value is one that counts in an update.
pub proof fn lemma_stored_value_counts(value: Text)
    ensures
        rows::cell_counts(rows::quoted(value)),
{
    let q = rows::quoted(value);
    reveal_strlit("\"");
    reveal_strlit("ROW_REMOVED");
    if numbers::is_number_text(value) {
        if value.len() == 0 {
            assert(!numbers::is_digits(value));
            assert(numbers::digits_end(value, 0) == 0);
            lemma_words_are_longer(value);
        }
        if value == "ROW_REMOVED"@ {
            assert(!text::is_digit(value[0]));
            assert(numbers::digits_end(value, 0) == 0);
            lemma_words_are_longer(value);
        }
    } else {
        assert(q[0] == '"');
        assert("ROW_REMOVED"@[0] == 'R');
    }
}

proof fn lemma_words_are_longer(value: Text)
    requires
        value.len() != 3,
        value.len() != 8,
    ensures
        !text::eq_ignore_case(value, "inf"@),
        !text::eq_ignore_case(value, "infinity"@),
        !text::eq_ignore_case(value, "nan"@),
{
    reveal_strlit("inf");
    reveal_strlit("infinity");
    reveal_strlit("nan");
    let f = |c: char| text::ascii_lower(c);
    assert(value.map_values(f).len() == value.len());
    assert("inf"@.map_values(f).len() == 3);
    assert("infinity"@.map_values(f).len() == 8);
    assert("nan"@.map_values(f).len() == 3);
}

proof fn lemma_rows_with_id_from(updates: Rows, id: Text, k: int)
    requires
        0 <= k < table::rows_with_id(updates, id).len(),
    ensures
        exists|m: int|
            0 <= m < updates.len() && table::rows_with_id(updates, id)[k] == #[trigger] updates[m],
        table::has_id(table::rows_with_id(updates, id)[k], id),
    decreases updates.len(),
{
    let d = updates.drop_last();
    let before = table::rows_with_id(d, id);
    if k < before.len() {
        assert(table::rows_with_id(updates, id)[k] == before[k]);
        lemma_rows_with_id_from(d, id, k);
        let m = choose|m: int| 0 <= m < d.len() && before[k] == #[trigger] d[m];
        assert(updates[m] == before[k]);
    } else {
        assert(table::rows_with_id(updates, id)[k] == updates[updates.len() - 1]);
    }
}

proof fn lemma_latest_is_applied(row: Row, own: Rows, last: Row)
    requires
        last.len() == row.len(),
        forall|k: int| 0 <= k < last.len() ==> rows::cell_counts(#[trigger] last[k]),
        forall|u: int|
            0 <= u < own.len() ==> !rows::earlier_or_none(
                rows::written_at(last),
                rows::written_at(#[trigger] own[u]),
            ),
    ensures
        rows::apply_updates(row, rows::earliest_first(own.push(last))) == last,
{
    let sorted = rows::earliest_first(own);
    assert(own.push(last).drop_last() =~= own);
    rows::law_sort_is_stable(own, None);
    if sorted.len() > 0 {
        rows::lemma_sorted_from(own, sorted.len() - 1);
    }
    let all = rows::earliest_first(own.push(last));
    assert(all == sorted.push(last));
    assert(all.drop_last() =~= sorted);
    rows::lemma_apply_updates_len(row, sorted);
    assert(rows::apply_update(rows::apply_updates(row, sorted), last) =~= last);
}

/// The most recent update of a row is what is read of it: after the row was
/// computed anew, the cache holds the cells of the update in its place,
/// whatever updates there were before.
///
/// The row is among the initial rows, the update is stored under its UUID and
/// has a cell for each of its cells, and no other update of the row was written
/// later.
pub proof fn law_update_is_read(
    cache: CacheView,
    table: Text,
    initial: Rows,
    updates: Rows,
    uuid: Text,
    values: Row,
)
    requires
        cache.contains_key(table),
        table::first_with_id(initial, text::trimmed(uuid, Strip::Quote)) is Some,
        initial[table::first_with_id(initial, text::trimmed(uuid, Strip::Quote))->0].len()
            == values.len(),
        table::has_id(rows::quoted_row(values), text::trimmed(uuid, Strip::Quote)),
        none_later(updates, text::trimmed(uuid, Strip::Quote), rows::quoted_row(values)),
    ensures
        ({
            let cells = rows::quoted_row(values);
            let files = FilesView { initial: Ok(initial), updates: Ok(updates.push(cells)) };
            let id = text::trimmed(uuid, Strip::Quote);
            let (after, result) = table::row_recalculated(cache, files, table, uuid);
            result is Ok && after == cache.insert(table, table::put_row(cache[table], id, cells))
        }),
{
    let cells = rows::quoted_row(values);
    let id = text::trimmed(uuid, Strip::Quote);
    let i = table::first_with_id(initial, id)->0;
    let own = table::rows_with_id(updates, id);
    assert(updates.push(cells).drop_last() =~= updates);
    assert(table::rows_with_id(updates.push(cells), id) == own.push(cells));
    assert forall|k: int| 0 <= k < cells.len() implies rows::cell_counts(#[trigger] cells[k]) by {
        lemma_stored_value_counts(values[k]);
    }
    assert forall|u: int| 0 <= u < own.len() implies !rows::earlier_or_none(
        rows::written_at(cells),
        rows::written_at(#[trigger] own[u]),
    ) by {
        lemma_rows_with_id_from(updates, id, u);
        let m = choose|m: int| 0 <= m < updates.len() && own[u] == #[trigger] updates[m];
        assert(table::has_id(updates[m], id));
    }
    lemma_latest_is_applied(initial[i], own, cells);
}

proof fn lemma_first_with_id_bounds(rows: Rows, id: Text)
    ensures
        table::first_with_id(rows, id) matches Some(i) ==> 0 <= i < rows.len(),
    decreases rows.len(),
{
    if rows.len() > 0 {
        lemma_first_with_id_bounds(rows.drop_last(), id);
    }
}

/// What is put in the place of a row is what is found there.
pub proof fn law_put_row_is_found(rows: Rows, id: Text, row: Row)
    requires
        table::has_id(row, id),
    ensures
        table::first_with_id(table::put_row(rows, id, row), id) matches Some(i) && table::put_row(
            rows,
            id,
            row,
        )[i] == row && (table::first_with_id(rows, id) matches Some(j) ==> i == j),
    decreases rows.len(),
{
    let put = table::put_row(rows, id, row);
    match table::first_with_id(rows, id) {
        None => {
            assert(put.drop_last() =~= rows);
        },
        Some(i) => {
            let d = rows.drop_last();
            lemma_first_with_id_bounds(rows, id);
            lemma_first_with_id_bounds(d, id);
            if table::first_with_id(d, id) is Some {
                law_put_row_is_found(d, id, row);
                lemma_first_with_id_bounds(table::put_row(d, id, row), id);
                assert(put.drop_last() =~= table::put_row(d, id, row));
            } else {
                assert(put.drop_last() =~= d);
            }
        },
    }
}

/// The most recent update of a row is what is read of it after the whole table
/// was computed anew, whatever updates there were before.
pub proof fn law_update_is_read_from_files(initial: Rows, updates: Rows, update: Row, i: int)
    requires
        0 <= i < initial.len(),
        initial[i].len() > 0,
        update.len() > 0,
        update[0] == initial[i][0],
        none_later_under(updates, update[0], update),
    ensures
        table::current_rows(initial, updates.push(update))[i] == update,
{
    let all = updates.push(update);
    assert(all.drop_last() =~= updates);
    let sorted = rows::earliest_first(updates);
    assert forall|u: int|
        0 <= u < sorted.len() && (#[trigger] sorted[u]).len() > 0 && sorted[u][0]
            == update[0] implies !rows::earlier_or_none(
        rows::written_at(update),
        rows::written_at(sorted[u]),
    ) by {
        rows::lemma_sorted_from(updates, u);
        let m = choose|m: int| 0 <= m < updates.len() && sorted[u] == #[trigger] updates[m];
        assert(updates[m][0] == update[0]);
    }
    lemma_inserted_is_last(sorted, update);
}

proof fn lemma_inserted_is_last(sorted: Rows, update: Row)
    requires
        update.len() > 0,
        none_later_under(sorted, update[0], update),
    ensures
        rows::last_update(rows::insert_by_time(sorted, update), update[0]) == Some(update),
    decreases sorted.len(),
{
    let result = rows::insert_by_time(sorted, update);
    if sorted.len() == 0 || !rows::earlier_or_none(
        rows::written_at(update),
        rows::written_at(sorted.last()),
    ) {
        assert(result.last() == update);
    } else {
        let d = sorted.drop_last();
        assert(sorted[sorted.len() - 1] == sorted.last());
        assert(forall|u: int| 0 <= u < d.len() ==> d[u] == sorted[u]);
        lemma_inserted_is_last(d, update);
        assert(result.drop_last() =~= rows::insert_by_time(d, update));
        assert(result.last() == sorted.last());
    }
}

/// The timestamp of a stored row is the time at which it was written.
pub proof fn law_timestamp_is_time_of_writing(values: Row)
    requires
        values.len() > 0,
        outside::is_time_text(values.last()),
    ensures
        rows::written_at(rows::quoted_row(values)) == outside::datetime_of(
            values.last(),
            "%Y-%m-%d %H:%M:%S"@,
        ),
{
    rows::law_unquote_undoes_quote(values.last());
    assert(rows::quoted_row(values).last() == rows::quoted(values.last()));
}

/// Whether no two columns have the same name in lower case.
pub open spec fn distinct_names(columns: Seq<ColumnView>) -> bool {
    forall|i: int, j: int|
        0 <= i < j < columns.len() ==> outside::lowercase((#[trigger] columns[i]).name)
            != outside::lowercase((#[trigger] columns[j]).name)
}

/// Whether every rule of a column rejects the values that break it.
pub open spec fn only_rejects(column: ColumnView) -> bool {
    forall|i: int| 0 <= i < column.rules.len() ==> (#[trigger] column.rules[i]).action is Reject
}

/// The value that an update gives to the column at position `k`: a new value
/// where there is one, else the value that the row has.
pub open spec fn value_after(
    columns: Seq<ColumnView>,
    row: Row,
    new_values: RowData,
    k: int,
) -> Text {
    let name = outside::lowercase(columns[k].name);
    if new_values.contains_key(name) {
        new_values[name]
    } else {
        changes::unquoted(row[k])
    }
}

proof fn lemma_merge_left(
    columns: Seq<ColumnView>,
    row: Row,
    new_values: RowData,
    n: int,
    k: int,
)
    requires
        distinct_names(columns),
        0 <= n <= k < columns.len(),
    ensures
        ({
            let left = changes::merge_run(columns, row, new_values, n).left;
            let name = outside::lowercase(columns[k].name);
            left.contains_key(name) == new_values.contains_key(name) && (new_values.contains_key(
                name,
            ) ==> left[name] == new_values[name])
        }),
    decreases n,
{
    if n > 0 {
        lemma_merge_left(columns, row, new_values, n - 1, k);
        assert(outside::lowercase(columns[n - 1].name) != outside::lowercase(columns[k].name));
    }
}

proof fn lemma_merged_value(
    columns: Seq<ColumnView>,
    row: Row,
    new_values: RowData,
    n: int,
    k: int,
)
    requires
        distinct_names(columns),
        0 <= k < n <= columns.len(),
        outside::lowercase(columns[k].name) != "timestamp"@,
        outside::lowercase(columns[k].name) != "uuid"@,
        changes::merge_run(columns, row, new_values, n).covered,
    ensures
        changes::merge_run(columns, row, new_values, n).data.contains_key(columns[k].name),
        changes::merge_run(columns, row, new_values, n).data[columns[k].name] == value_after(
            columns,
            row,
            new_values,
            k,
        ),
    decreases n,
{
    if n == k + 1 {
        lemma_merge_left(columns, row, new_values, k, k);
    } else {
        assert(outside::lowercase(columns[k].name) != outside::lowercase(columns[n - 1].name));
        lemma_merged_value(columns, row, new_values, n - 1, k);
    }
}

proof fn lemma_rules_keep_value(
    schema: SchemaView,
    cache: CacheView,
    files: FilesView,
    table: Text,
    column: ColumnView,
    value: Text,
    uuid: Option<Text>,
    n: int,
)
    requires
        only_rejects(column),
        0 <= n <= column.rules.len(),
    ensures
        validation::rules_run(schema, cache, files, table, column, value, uuid, n).1 matches Ok(v)
            ==> v == Some(value),
    decreases n,
{
    if n > 0 {
        lemma_rules_keep_value(schema, cache, files, table, column, value, uuid, n - 1);
        assert(column.rules[n - 1].action is Reject);
    }
}

proof fn lemma_rules_keep_cache(
    schema: SchemaView,
    cache: CacheView,
    files: FilesView,
    table: Text,
    column: ColumnView,
    value: Text,
    uuid: Option<Text>,
    n: int,
)
    requires
        cache.contains_key(table),
    ensures
        validation::rules_run(schema, cache, files, table, column, value, uuid, n).0 == cache,
    decreases n,
{
    if n > 0 {
        lemma_rules_keep_cache(schema, cache, files, table, column, value, uuid, n - 1);
    }
}

proof fn lemma_validation_keeps_cache(
    schema: SchemaView,
    files: FilesView,
    table: Text,
    columns: Seq<ColumnView>,
    uuid: Text,
    now: Text,
    start: validation::ValidationView,
    n: int,
)
    requires
        start.cache.contains_key(table),
    ensures
        validation::validation_run(
            schema,
            files,
            table,
            columns,
            uuid,
            now,
            start,
            n,
        ).cache == start.cache,
    decreases n,
{
    if n > 0 {
        lemma_validation_keeps_cache(schema, files, table, columns, uuid, now, start, n - 1);
        let before = validation::validation_run(
            schema,
            files,
            table,
            columns,
            uuid,
            now,
            start,
            n - 1,
        );
        lemma_rules_keep_cache(
            schema,
            before.cache,
            files,
            table,
            columns[n - 1],
            validation::column_value(columns[n - 1].name, before.data, now),
            Some(uuid),
            columns[n - 1].rules.len() as int,
        );
    }
}

proof fn lemma_validated_value(
    schema: SchemaView,
    files: FilesView,
    table: Text,
    columns: Seq<ColumnView>,
    uuid: Text,
    now: Text,
    start: validation::ValidationView,
    n: int,
    k: int,
)
    requires
        distinct_names(columns),
        0 <= n <= columns.len(),
        0 <= k < columns.len(),
        columns[k].name != "timestamp"@,
        start.cache.contains_key(table),
        start.row == Ok::<Row, ErrorView>(Seq::empty()),
        start.data.contains_key(columns[k].name),
    ensures
        ({
            let end = validation::validation_run(
                schema,
                files,
                table,
                columns,
                uuid,
                now,
                start,
                n,
            );
            end.row matches Ok(row) ==> row.len() == n && (n > k ==> validation::rules_outcome(
                schema,
                start.cache,
                files,
                table,
                columns[k],
                start.data[columns[k].name],
                Some(uuid),
            ).1 == Ok::<Option<Text>, ErrorView>(Some(row[k]))) && (n <= k
                ==> end.data.contains_key(columns[k].name) && end.data[columns[k].name]
                == start.data[columns[k].name])
        }),
    decreases n,
{
    if n > 0 {
        lemma_validated_value(schema, files, table, columns, uuid, now, start, n - 1, k);
        lemma_validation_keeps_cache(schema, files, table, columns, uuid, now, start, n - 1);
        if n - 1 < k {
            assert(outside::lowercase(columns[n - 1].name) != outside::lowercase(columns[k].name));
        }
    }
}

/// Whether a rule of a column replaces the value that it is held against.
pub open spec fn is_replaced(
    schema: SchemaView,
    cache: CacheView,
    files: FilesView,
    table: Text,
    uuid: Text,
    column: ColumnView,
    value: Text,
) -> bool {
    validation::rules_outcome(
        schema,
        cache,
        files,
        table,
        column,
        value,
        Some(text::trimmed(uuid, Strip::Quote)),
    ).1 matches Ok(Some(v)) && v != value
}

/// Rules that reject the values that break them replace none.
pub proof fn law_rejecting_rules_replace_nothing(
    schema: SchemaView,
    cache: CacheView,
    files: FilesView,
    table: Text,
    uuid: Text,
    column: ColumnView,
    value: Text,
)
    requires
        only_rejects(column),
    ensures
        !is_replaced(schema, cache, files, table, uuid, column, value),
{
    lemma_rules_keep_value(
        schema,
        cache,
        files,
        table,
        column,
        value,
        Some(text::trimmed(uuid, Strip::Quote)),
        column.rules.len() as int,
    );
}

/// An update gives each of its columns its value, and leaves every other column
/// as it was, the timestamp apart. No rule of the column replaces the value, and
/// no two columns have the same name.
pub proof fn law_update_sets_its_columns(
    schema: SchemaView,
    cache: CacheView,
    files: FilesView,
    table: Text,
    uuid: Text,
    new_values: RowData,
    now: Text,
    k: int,
)
    requires
        schema.contains_key(schema::initial_name(table)),
        distinct_names(schema[schema::initial_name(table)].columns),
        0 <= k < schema[schema::initial_name(table)].columns.len(),
        ({
            let (loaded, data) = table::table_data(schema, cache, files, table);
            let columns = schema[schema::initial_name(table)].columns;
            let row = data->Ok_0[changes::row_position(data->Ok_0, uuid)->0];
            let value = value_after(columns, row, new_values, k);
            !is_replaced(schema, loaded, files, table, uuid, columns[k], value)
        }),
        ({
            let name = schema[schema::initial_name(table)].columns[k].name;
            name != "timestamp"@ && name != "UUID"@ && outside::lowercase(name) != "timestamp"@
                && outside::lowercase(name) != "uuid"@
        }),
        changes::update_covered(schema, cache, files, table, uuid, new_values),
        changes::updated(schema, cache, files, table, uuid, new_values, now).1 is Ok,
    ensures
        ({
            let columns = schema[schema::initial_name(table)].columns;
            let rows = table::table_data(schema, cache, files, table).1->Ok_0;
            let cells = changes::updated(
                schema,
                cache,
                files,
                table,
                uuid,
                new_values,
                now,
            ).1->Ok_0;
            changes::row_position(rows, uuid) matches Some(i) && cells.len() == columns.len()
                && cells[k] == rows::quoted(value_after(columns, rows[i], new_values, k))
        }),
{
    let columns = schema[schema::initial_name(table)].columns;
    let (after, data) = table::table_data(schema, cache, files, table);
    let rows = data->Ok_0;
    let i = changes::row_position(rows, uuid)->0;
    lemma_merged_value(columns, rows[i], new_values, columns.len() as int, k);
    let values = changes::update_data(columns, rows[i], new_values, uuid);
    lemma_validated_value(
        schema,
        files,
        table,
        columns,
        values["UUID"@],
        now,
        (validation::ValidationView { cache: after, data: values, row: Ok(Seq::empty()) }),
        columns.len() as int,
        k,
    );
}

proof fn lemma_no_timestamp_merged(
    columns: Seq<ColumnView>,
    row: Row,
    new_values: RowData,
    n: int,
    k: int,
)
    requires
        distinct_names(columns),
        0 <= n <= columns.len(),
        0 <= k < columns.len(),
        outside::lowercase(columns[k].name) == "timestamp"@,
    ensures
        !changes::merge_run(columns, row, new_values, n).data.contains_key(columns[k].name),
    decreases n,
{
    if n > 0 {
        lemma_no_timestamp_merged(columns, row, new_values, n - 1, k);
        if n - 1 < k {
            assert(outside::lowercase(columns[n - 1].name) != outside::lowercase(columns[k].name));
        } else if k < n - 1 {
            assert(outside::lowercase(columns[k].name) != outside::lowercase(columns[n - 1].name));
        }
    }
}

proof fn lemma_missing_timestamp(
    schema: SchemaView,
    files: FilesView,
    table: Text,
    columns: Seq<ColumnView>,
    uuid: Text,
    now: Text,
    start: validation::ValidationView,
    n: int,
    k: int,
)
    requires
        0 <= n <= columns.len(),
        0 <= k < columns.len(),
        only_rejects(columns[k]),
        columns[k].name == "timestamp"@,
        start.row == Ok::<Row, ErrorView>(Seq::empty()),
        !start.data.contains_key(columns[k].name),
    ensures
        ({
            let end = validation::validation_run(
                schema,
                files,
                table,
                columns,
                uuid,
                now,
                start,
                n,
            );
            end.row matches Ok(row) ==> row.len() == n && (n > k ==> row[k] == now)
                && !end.data.contains_key(columns[k].name)
        }),
    decreases n,
{
    if n > 0 {
        lemma_missing_timestamp(schema, files, table, columns, uuid, now, start, n - 1, k);
        if n - 1 == k {
            let before = validation::validation_run(
                schema,
                files,
                table,
                columns,
                uuid,
                now,
                start,
                n - 1,
            );
            lemma_rules_keep_value(
                schema,
                before.cache,
                files,
                table,
                columns[k],
                validation::column_value(columns[k].name, before.data, now),
                Some(uuid),
                columns[k].rules.len() as int,
            );
        }
    }
}

/// An update is written at the time at which it is made: its last cell, which
/// is that of the timestamp, holds that time. No two columns have the same name,
/// and the rules of the timestamp reject the values that break them.
pub proof fn law_update_carries_its_time(
    schema: SchemaView,
    cache: CacheView,
    files: FilesView,
    table: Text,
    uuid: Text,
    new_values: RowData,
    now: Text,
)
    requires
        schema.contains_key(schema::initial_name(table)),
        distinct_names(schema[schema::initial_name(table)].columns),
        schema[schema::initial_name(table)].columns.len() > 0,
        only_rejects(schema[schema::initial_name(table)].columns.last()),
        schema[schema::initial_name(table)].columns.last().name == "timestamp"@,
        outside::lowercase("timestamp"@) == "timestamp"@,
        outside::is_time_text(now),
        changes::updated(schema, cache, files, table, uuid, new_values, now).1 is Ok,
    ensures
        ({
            let cells = changes::updated(
                schema,
                cache,
                files,
                table,
                uuid,
                new_values,
                now,
            ).1->Ok_0;
            cells.len() > 0 && cells.last() == rows::quoted(now) && rows::written_at(cells)
                == outside::datetime_of(now, "%Y-%m-%d %H:%M:%S"@)
        }),
{
    let columns = schema[schema::initial_name(table)].columns;
    let k = columns.len() - 1;
    let (after, data) = table::table_data(schema, cache, files, table);
    let rows = data->Ok_0;
    let i = changes::row_position(rows, uuid)->0;
    lemma_no_timestamp_merged(columns, rows[i], new_values, columns.len() as int, k);
    let values = changes::update_data(columns, rows[i], new_values, uuid);
    reveal_strlit("timestamp");
    reveal_strlit("UUID");
    assert("timestamp"@.len() != "UUID"@.len());
    let start = validation::ValidationView { cache: after, data: values, row: Ok(Seq::empty()) };
    lemma_missing_timestamp(
        schema,
        files,
        table,
        columns,
        values["UUID"@],
        now,
        start,
        columns.len() as int,
        k,
    );
    let end = validation::validation_run(
        schema,
        files,
        table,
        columns,
        values["UUID"@],
        now,
        start,
        columns.len() as int,
    );
    law_timestamp_is_time_of_writing(end.row->Ok_0);
}

// ---------------------------------------------------------------------------
// Updates of rows in the cache
// ---------------------------------------------------------------------------

/// What an update does: the updated row is made, its line is written after the
/// other updates, and the row is computed anew. The cache and the updates after
/// that, and whether it succeeded.
pub open spec fn row_update(
    schema: SchemaView,
    cache: CacheView,
    initial: Rows,
    updates: Rows,
    table: Text,
    uuid: Text,
    new_values: RowData,
    now: Text,
) -> (CacheView, Rows, Result<(), ErrorView>) {
    let files = FilesView { initial: Ok(initial), updates: Ok(updates) };
    match changes::updated(schema, cache, files, table, uuid, new_values, now) {
        (after, Err(e)) => (after, updates, Err(e)),
        (after, Ok(cells)) => {
            let all = updates.push(rows::line_cells(rows::cells_line(cells)));
            let (end, result) = table::row_recalculated(
                after,
                FilesView { initial: Ok(initial), updates: Ok(all) },
                table,
                uuid,
            );
            (end, all, result)
        },
    }
}

/// Whether an update can be made at `now` and its line read back: the row is
/// there and has a cell for every column that gets no new value, the new row
/// keeps the rules, and none of its cells holds a comma.
pub open spec fn update_succeeds(
    schema: SchemaView,
    cache: CacheView,
    initial: Rows,
    updates: Rows,
    table: Text,
    uuid: Text,
    new_values: RowData,
    now: Text,
) -> bool {
    let files = FilesView { initial: Ok(initial), updates: Ok(updates) };
    &&& changes::update_covered(schema, cache, files, table, uuid, new_values)
    &&& changes::updated(schema, cache, files, table, uuid, new_values, now).1 matches Ok(cells)
    &&& forall|k: int| 0 <= k < cells.len() ==> !(#[trigger] cells[k]).contains(',')
}

/// Whether the columns are those of a table: the UUID first, the timestamp last,
/// no two of the same name, and no rule of the two that replaces a value.
pub open spec fn is_table_form(columns: Seq<ColumnView>) -> bool {
    &&& columns.len() >= 2
    &&& columns[0].name == "UUID"@
    &&& outside::lowercase(columns[0].name) == "uuid"@
    &&& columns.last().name == "timestamp"@
    &&& outside::lowercase(columns.last().name) == "timestamp"@
    &&& distinct_names(columns)
    &&& only_rejects(columns[0])
    &&& only_rejects(columns.last())
}

/// Whether the row at position `j` is the first with its id, and stored under
/// `uuid`.
pub open spec fn is_stored_under(rows: Rows, uuid: Text, j: int) -> bool {
    let id = text::trimmed(uuid, Strip::Quote);
    &&& table::first_with_id(rows, id) == Some(j)
    &&& rows[j][0] == uuid
    &&& uuid == rows::quoted(id)
    &&& !id.contains('"')
}

/// Whether no update of the row with the given id was written after `now`.
pub open spec fn none_after(updates: Rows, id: Text, now: Text) -> bool {
    forall|u: int|
        0 <= u < updates.len() && table::has_id(#[trigger] updates[u], id)
            ==> !rows::earlier_or_none(
            outside::datetime_of(now, "%Y-%m-%d %H:%M:%S"@),
            rows::written_at(updates[u]),
        )
}

/// Whether a cell is the stored form of a value without double quotes in it.
pub open spec fn holds_plain_value(cell: Text) -> bool {
    exists|value: Text| !value.contains('"') && cell == #[trigger] rows::quoted(value)
}

/// Whether a rule of the column at position `k` replaces the value that an
/// update of the row at position `j` of the table leaves there.
pub open spec fn is_overruled(
    schema: SchemaView,
    cache: CacheView,
    initial: Rows,
    updates: Rows,
    table: Text,
    uuid: Text,
    new_values: RowData,
    j: int,
    k: int,
) -> bool {
    let files = FilesView { initial: Ok(initial), updates: Ok(updates) };
    let columns = schema[schema::initial_name(table)].columns;
    let loaded = table::table_data(schema, cache, files, table).0;
    let value = value_after(columns, loaded[table][j], new_values, k);
    is_replaced(schema, loaded, files, table, uuid, columns[k], value)
}

/// Whether an update gives a new value to the column at position `k`.
pub open spec fn is_given(columns: Seq<ColumnView>, new_values: RowData, k: int) -> bool {
    new_values.contains_key(outside::lowercase(columns[k].name))
}

/// The new value of the column at position `k`, as it is stored.
pub open spec fn given_cell(columns: Seq<ColumnView>, new_values: RowData, k: int) -> Text {
    rows::quoted(new_values[outside::lowercase(columns[k].name)])
}

/// Whether the column at position `k` of an updated row holds its new value,
/// and where it has none, what it held before. A value with a double quote in it
/// need not be kept.
pub open spec fn is_cell_updated(
    columns: Seq<ColumnView>,
    before: Row,
    new_values: RowData,
    row: Row,
    k: int,
) -> bool {
    if is_given(columns, new_values, k) {
        row[k] == given_cell(columns, new_values, k)
    } else {
        holds_plain_value(before[k]) ==> row[k] == before[k]
    }
}

/// Whether the column at position `k` of a row that was updated twice holds the
/// value of the second update, where there is none that of the first, and where
/// there is neither, what it held before. A value with a double quote in it need
/// not be kept.
pub open spec fn is_cell_updated_twice(
    columns: Seq<ColumnView>,
    before: Row,
    first_values: RowData,
    second_values: RowData,
    row: Row,
    k: int,
) -> bool {
    if is_given(columns, second_values, k) {
        row[k] == given_cell(columns, second_values, k)
    } else if is_given(columns, first_values, k) {
        !first_values[outside::lowercase(columns[k].name)].contains('"') ==> row[k] == given_cell(
            columns,
            first_values,
            k,
        )
    } else {
        holds_plain_value(before[k]) ==> row[k] == before[k]
    }
}

proof fn lemma_plain_value_is_kept(cell: Text)
    requires
        holds_plain_value(cell),
    ensures
        rows::quoted(changes::unquoted(cell)) == cell,
{
    let value = choose|value: Text| !value.contains('"') && cell == #[trigger] rows::quoted(value);
    rows::law_unquote_undoes_quote(value);
    if numbers::is_number_text(value) {
        if value.len() > 0 && value[0] == '"' {
            assert(value.contains('"'));
        }
    } else {
        reveal_strlit("\"");
        assert(cell[0] == '"');
        assert(cell.last() == '"');
    }
}

/// The name of the first column is not the stored form of a value.
proof fn lemma_name_is_not_stored(value: Text)
    ensures
        rows::quoted(value) != "UUID"@,
{
    reveal_strlit("UUID");
    reveal_strlit("\"");
    if numbers::is_number_text(value) {
        if value == "UUID"@ {
            assert(!text::is_digit(value[0]));
            assert(numbers::digits_end(value, 0) == 0);
            lemma_words_are_longer(value);
        }
    } else {
        assert(rows::quoted(value)[0] == '"');
        assert("UUID"@[0] == 'U');
    }
}

proof fn lemma_position_after_names(names: Row, rows: Rows, uuid: Text)
    requires
        names.len() > 0 ==> names[0] != uuid,
    ensures
        ({
            let id = text::trimmed(uuid, Strip::Quote);
            match table::first_with_id(rows, id) {
                None => changes::row_position(seq![names] + rows, uuid) is None,
                Some(j) => rows[j][0] == uuid ==> changes::row_position(seq![names] + rows, uuid)
                    == Some(j + 1),
            }
        }),
    decreases rows.len(),
{
    let id = text::trimmed(uuid, Strip::Quote);
    let all = seq![names] + rows;
    if rows.len() == 0 {
        assert(all.drop_last() =~= Seq::<Row>::empty());
        assert(changes::row_position(all.drop_last(), uuid) is None);
        assert(all.last() == names);
    } else {
        let d = rows.drop_last();
        lemma_position_after_names(names, d, uuid);
        lemma_first_with_id_bounds(d, id);
        assert(all.drop_last() =~= seq![names] + d);
        assert(all.last() == rows.last());
    }
}

/// The updated row, before it is written: its UUID, its time, and the cells of
/// the columns whose rules replace nothing.
proof fn lemma_updated_cells(
    schema: SchemaView,
    cache: CacheView,
    initial: Rows,
    updates: Rows,
    table: Text,
    uuid: Text,
    new_values: RowData,
    now: Text,
    j: int,
) -> (values: Row)
    requires
        schema.contains_key(schema::initial_name(table)),
        is_table_form(schema[schema::initial_name(table)].columns),
        outside::is_time_text(now),
        update_succeeds(schema, cache, initial, updates, table, uuid, new_values, now),
        ({
            let files = FilesView { initial: Ok(initial), updates: Ok(updates) };
            is_stored_under(table::table_data(schema, cache, files, table).0[table], uuid, j)
        }),
    ensures
        ({
            let files = FilesView { initial: Ok(initial), updates: Ok(updates) };
            let columns = schema[schema::initial_name(table)].columns;
            let loaded = table::table_data(schema, cache, files, table).0;
            let cells = rows::quoted_row(values);
            &&& loaded.contains_key(table)
            &&& changes::updated(schema, cache, files, table, uuid, new_values, now) == (
                loaded,
                Ok::<Row, ErrorView>(cells),
            )
            &&& cells.len() == columns.len()
            &&& cells[0] == uuid
            &&& cells.last() == rows::quoted(now)
            &&& rows::written_at(cells) == outside::datetime_of(now, "%Y-%m-%d %H:%M:%S"@)
            &&& forall|k: int|
                0 < k < columns.len() - 1 && !is_overruled(
                    schema,
                    cache,
                    initial,
                    updates,
                    table,
                    uuid,
                    new_values,
                    j,
                    k,
                ) ==> #[trigger] cells[k] == rows::quoted(
                    value_after(columns, loaded[table][j], new_values, k),
                )
        }),
{
    let files = FilesView { initial: Ok(initial), updates: Ok(updates) };
    let columns = schema[schema::initial_name(table)].columns;
    let id = text::trimmed(uuid, Strip::Quote);
    let (loaded, data) = table::table_data(schema, cache, files, table);
    let rows = data->Ok_0;
    let names = schema::column_names(columns);
    assert(rows == seq![names] + loaded[table]);
    assert(names[0] == "UUID"@);
    lemma_name_is_not_stored(id);
    lemma_position_after_names(names, loaded[table], uuid);
    lemma_first_with_id_bounds(loaded[table], id);
    assert(changes::row_position(rows, uuid) == Some(j + 1));
    assert(rows[j + 1] == loaded[table][j]);
    let given = changes::update_data(columns, rows[j + 1], new_values, uuid);
    let start = validation::ValidationView { cache: loaded, data: given, row: Ok(Seq::empty()) };
    let n = columns.len() as int;
    lemma_validation_keeps_cache(schema, files, table, columns, id, now, start, n);
    reveal_strlit("timestamp");
    reveal_strlit("UUID");
    assert("timestamp"@.len() != "UUID"@.len());
    lemma_validated_value(schema, files, table, columns, id, now, start, n, 0);
    lemma_rules_keep_value(
        schema,
        loaded,
        files,
        table,
        columns[0],
        id,
        Some(id),
        columns[0].rules.len() as int,
    );
    law_update_carries_its_time(schema, cache, files, table, uuid, new_values, now);
    let values = validation::validation_run(
        schema,
        files,
        table,
        columns,
        id,
        now,
        start,
        n,
    ).row->Ok_0;
    let cells = rows::quoted_row(values);
    assert forall|k: int| 0 < k < columns.len() - 1 && !is_overruled(
        schema,
        cache,
        initial,
        updates,
        table,
        uuid,
        new_values,
        j,
        k,
    ) implies #[trigger] cells[k] == rows::quoted(value_after(columns, loaded[table][j], new_values, k)) by {
        assert(outside::lowercase(columns[0].name) != outside::lowercase(columns[k].name));
        assert(outside::lowercase(columns[k].name) != outside::lowercase(columns[n - 1].name));
        law_update_sets_its_columns(schema, cache, files, table, uuid, new_values, now, k);
    }
    values
}

/// After an update the cache holds the updated row in the place of the row, and
/// every other row as it was: the columns that the update names hold their new
/// values, the others what they held before, and the timestamp the time of the
/// update.
///
/// The row is among the initial rows, with a cell for each column, and none of
/// its updates was written after this one. A column is left out where a rule of
/// it replaces the value, and one that is not named where its value holds a
/// double quote.
pub proof fn law_update_is_cached(
    schema: SchemaView,
    cache: CacheView,
    initial: Rows,
    updates: Rows,
    table: Text,
    uuid: Text,
    new_values: RowData,
    now: Text,
    i: int,
    j: int,
)
    requires
        schema.contains_key(schema::initial_name(table)),
        is_table_form(schema[schema::initial_name(table)].columns),
        outside::is_time_text(now),
        table::first_with_id(initial, text::trimmed(uuid, Strip::Quote)) == Some(i),
        initial[i].len() == schema[schema::initial_name(table)].columns.len(),
        none_after(updates, text::trimmed(uuid, Strip::Quote), now),
        update_succeeds(schema, cache, initial, updates, table, uuid, new_values, now),
        ({
            let files = FilesView { initial: Ok(initial), updates: Ok(updates) };
            is_stored_under(table::table_data(schema, cache, files, table).0[table], uuid, j)
        }),
    ensures
        ({
            let files = FilesView { initial: Ok(initial), updates: Ok(updates) };
            let columns = schema[schema::initial_name(table)].columns;
            let loaded = table::table_data(schema, cache, files, table).0;
            let before = loaded[table][j];
            let (after, all, result) = row_update(
                schema,
                cache,
                initial,
                updates,
                table,
                uuid,
                new_values,
                now,
            );
            let row = after[table][j];
            &&& result is Ok
            &&& after == loaded.insert(table, loaded[table].update(j, row))
            &&& is_stored_under(after[table], uuid, j)
            &&& all == updates.push(row)
            &&& row.len() == columns.len()
            &&& row.last() == rows::quoted(now)
            &&& rows::written_at(row) == outside::datetime_of(now, "%Y-%m-%d %H:%M:%S"@)
            &&& forall|k: int|
                0 < k < columns.len() - 1 && !is_overruled(
                    schema,
                    cache,
                    initial,
                    updates,
                    table,
                    uuid,
                    new_values,
                    j,
                    k,
                ) ==> #[trigger] is_cell_updated(columns, before, new_values, row, k)
        }),
{
    let files = FilesView { initial: Ok(initial), updates: Ok(updates) };
    let columns = schema[schema::initial_name(table)].columns;
    let id = text::trimmed(uuid, Strip::Quote);
    let loaded = table::table_data(schema, cache, files, table).0;
    let before = loaded[table][j];
    let values = lemma_updated_cells(
        schema,
        cache,
        initial,
        updates,
        table,
        uuid,
        new_values,
        now,
        j,
    );
    let cells = rows::quoted_row(values);
    assert forall|k: int| 0 <= k < cells.len() implies rows::plain_cell(#[trigger] cells[k]) by {
        rows::lemma_stored_value_is_trimmed(values[k]);
    }
    rows::law_line_reads_back(cells);
    rows::law_unquote_undoes_quote(id);
    law_update_is_read(loaded, table, initial, updates, uuid, values);
    law_put_row_is_found(loaded[table], id, cells);
    lemma_first_with_id_bounds(loaded[table], id);
    assert forall|k: int|
        0 < k < columns.len() - 1 && !is_overruled(
            schema,
            cache,
            initial,
            updates,
            table,
            uuid,
            new_values,
            j,
            k,
        ) implies #[trigger] is_cell_updated(columns, before, new_values, cells, k) by {
        assert(cells[k] == rows::quoted(value_after(columns, before, new_values, k)));
        if holds_plain_value(before[k]) {
            lemma_plain_value_is_kept(before[k]);
        }
    }
}

/// Of two updates of a row, one after the other, the second is what the cache
/// then holds: the columns that it names hold its values, the others what they
/// held before it, which is what the first gave them or the row had.
///
/// The row is among the initial rows, with a cell for each column, none of its
/// updates was written after the first of the two, and the second was not
/// written before the first. A column is left out where a rule of it replaces
/// the value, and one that the second does not name where its value holds a
/// double quote.
pub proof fn law_second_update_is_cached(
    schema: SchemaView,
    cache: CacheView,
    initial: Rows,
    updates: Rows,
    table: Text,
    uuid: Text,
    first_values: RowData,
    first_time: Text,
    second_values: RowData,
    second_time: Text,
    i: int,
    j: int,
)
    requires
        schema.contains_key(schema::initial_name(table)),
        is_table_form(schema[schema::initial_name(table)].columns),
        outside::is_time_text(first_time),
        outside::is_time_text(second_time),
        !rows::earlier_or_none(
            outside::datetime_of(second_time, "%Y-%m-%d %H:%M:%S"@),
            outside::datetime_of(first_time, "%Y-%m-%d %H:%M:%S"@),
        ),
        table::first_with_id(initial, text::trimmed(uuid, Strip::Quote)) == Some(i),
        initial[i].len() == schema[schema::initial_name(table)].columns.len(),
        none_after(updates, text::trimmed(uuid, Strip::Quote), first_time),
        update_succeeds(schema, cache, initial, updates, table, uuid, first_values, first_time),
        ({
            let files = FilesView { initial: Ok(initial), updates: Ok(updates) };
            is_stored_under(table::table_data(schema, cache, files, table).0[table], uuid, j)
        }),
        ({
            let (cache1, updates1, _) = row_update(
                schema,
                cache,
                initial,
                updates,
                table,
                uuid,
                first_values,
                first_time,
            );
            update_succeeds(
                schema,
                cache1,
                initial,
                updates1,
                table,
                uuid,
                second_values,
                second_time,
            )
        }),
    ensures
        ({
            let files = FilesView { initial: Ok(initial), updates: Ok(updates) };
            let columns = schema[schema::initial_name(table)].columns;
            let before = table::table_data(schema, cache, files, table).0[table][j];
            let (cache1, updates1, result1) = row_update(
                schema,
                cache,
                initial,
                updates,
                table,
                uuid,
                first_values,
                first_time,
            );
            let (cache2, updates2, result2) = row_update(
                schema,
                cache1,
                initial,
                updates1,
                table,
                uuid,
                second_values,
                second_time,
            );
            let row = cache2[table][j];
            &&& result1 is Ok
            &&& result2 is Ok
            &&& cache2 == cache1.insert(table, cache1[table].update(j, row))
            &&& is_stored_under(cache2[table], uuid, j)
            &&& row.len() == columns.len()
            &&& row.last() == rows::quoted(second_time)
            &&& forall|k: int|
                0 < k < columns.len() - 1 && !is_overruled(
                    schema,
                    cache1,
                    initial,
                    updates1,
                    table,
                    uuid,
                    second_values,
                    j,
                    k,
                ) ==> #[trigger] is_cell_updated(columns, cache1[table][j], second_values, row, k)
            &&& forall|k: int|
                0 < k < columns.len() - 1 && !is_overruled(
                    schema,
                    cache,
                    initial,
                    updates,
                    table,
                    uuid,
                    first_values,
                    j,
                    k,
                ) && !is_overruled(
                    schema,
                    cache1,
                    initial,
                    updates1,
                    table,
                    uuid,
                    second_values,
                    j,
                    k,
                ) ==> #[trigger] is_cell_updated_twice(
                    columns,
                    before,
                    first_values,
                    second_values,
                    row,
                    k,
                )
        }),
{
    let columns = schema[schema::initial_name(table)].columns;
    let id = text::trimmed(uuid, Strip::Quote);
    let files = FilesView { initial: Ok(initial), updates: Ok(updates) };
    let before = table::table_data(schema, cache, files, table).0[table][j];
    let (cache1, updates1, _) = row_update(
        schema,
        cache,
        initial,
        updates,
        table,
        uuid,
        first_values,
        first_time,
    );
    law_update_is_cached(
        schema,
        cache,
        initial,
        updates,
        table,
        uuid,
        first_values,
        first_time,
        i,
        j,
    );
    let row1 = cache1[table][j];
    assert forall|u: int|
        0 <= u < updates1.len() && table::has_id(
            #[trigger] updates1[u],
            id,
        ) implies !rows::earlier_or_none(
        outside::datetime_of(second_time, "%Y-%m-%d %H:%M:%S"@),
        rows::written_at(updates1[u]),
    ) by {
        if u < updates.len() {
            assert(updates1[u] == updates[u]);
        } else {
            assert(updates1[u] == row1);
        }
    }
    law_update_is_cached(
        schema,
        cache1,
        initial,
        updates1,
        table,
        uuid,
        second_values,
        second_time,
        i,
        j,
    );
    let row2 = row_update(
        schema,
        cache1,
        initial,
        updates1,
        table,
        uuid,
        second_values,
        second_time,
    ).0[table][j];
    assert forall|k: int|
        0 < k < columns.len() - 1 && !is_overruled(
            schema,
            cache,
            initial,
            updates,
            table,
            uuid,
            first_values,
            j,
            k,
        ) && !is_overruled(
            schema,
            cache1,
            initial,
            updates1,
            table,
            uuid,
            second_values,
            j,
            k,
        ) implies #[trigger] is_cell_updated_twice(
        columns,
        before,
        first_values,
        second_values,
        row2,
        k,
    ) by {
        assert(is_cell_updated(columns, before, first_values, row1, k));
        assert(is_cell_updated(columns, row1, second_values, row2, k));
    }
}

// ---------------------------------------------------------------------------
// Deletion
// ---------------------------------------------------------------------------

/// The values that a deletion leaves of a row.
pub open spec fn deleted_values(columns: Seq<ColumnView>, uuid: Text, now: Text) -> Row {
    columns.map_values(|c: ColumnView| changes::deleted_value(c.data_type, uuid, now))
}

proof fn lemma_deleted_cells(columns: Seq<ColumnView>, uuid: Text, now: Text)
    requires
        columns.len() > 0,
        columns[0].data_type == DataType::UUID,
        !text::trimmed(uuid, Strip::Quote).contains('"'),
    ensures
        changes::deleted_cells(columns, uuid, now) == rows::quoted_row(
            deleted_values(columns, uuid, now),
        ),
        table::has_id(
            changes::deleted_cells(columns, uuid, now),
            text::trimmed(uuid, Strip::Quote),
        ),
{
    let id = text::trimmed(uuid, Strip::Quote);
    assert(changes::deleted_cells(columns, uuid, now) =~= rows::quoted_row(
        deleted_values(columns, uuid, now),
    ));
    rows::law_unquote_undoes_quote(id);
    assert(changes::deleted_cells(columns, uuid, now)[0] == rows::quoted(id));
}

/// A deletion is written at the time at which it is made, where the last column
/// is the timestamp.
pub proof fn law_deletion_carries_its_time(columns: Seq<ColumnView>, uuid: Text, now: Text)
    requires
        columns.len() > 0,
        columns.last().data_type == DataType::DateTime,
        outside::is_time_text(now),
    ensures
        rows::written_at(changes::deleted_cells(columns, uuid, now)) == outside::datetime_of(
            now,
            "%Y-%m-%d %H:%M:%S"@,
        ),
{
    let values = deleted_values(columns, uuid, now);
    assert(changes::deleted_cells(columns, uuid, now) =~= rows::quoted_row(values));
    assert(values.last() == now);
    law_timestamp_is_time_of_writing(values);
}

/// A deleted row reads as deleted, whatever updates there were before: its
/// integers are 0, its timestamps are the time of the deletion, and its strings
/// are `ROW_REMOVED`.
///
/// The row is among the initial rows, its first column holds the UUID, it has a
/// cell for each column, and no update of it was written after the deletion.
pub proof fn law_deleted_row_reads_as_deleted(
    cache: CacheView,
    table: Text,
    columns: Seq<ColumnView>,
    initial: Rows,
    updates: Rows,
    uuid: Text,
    now: Text,
)
    requires
        cache.contains_key(table),
        columns.len() > 0,
        columns[0].data_type == DataType::UUID,
        !text::trimmed(uuid, Strip::Quote).contains('"'),
        table::first_with_id(initial, text::trimmed(uuid, Strip::Quote)) is Some,
        initial[table::first_with_id(initial, text::trimmed(uuid, Strip::Quote))->0].len()
            == columns.len(),
        none_later(
            updates,
            text::trimmed(uuid, Strip::Quote),
            changes::deleted_cells(columns, uuid, now),
        ),
    ensures
        ({
            let cells = changes::deleted_cells(columns, uuid, now);
            let files = FilesView { initial: Ok(initial), updates: Ok(updates.push(cells)) };
            let id = text::trimmed(uuid, Strip::Quote);
            let (after, result) = table::row_recalculated(cache, files, table, uuid);
            result is Ok && after == cache.insert(table, table::put_row(cache[table], id, cells))
        }),
{
    lemma_deleted_cells(columns, uuid, now);
    law_update_is_read(
        cache,
        table,
        initial,
        updates,
        uuid,
        deleted_values(columns, uuid, now),
    );
}

/// A deleted row reads as deleted after its table was computed anew, whatever
/// updates there were before.
///
/// The row is stored under the UUID, and no update of it was written after the
/// deletion.
pub proof fn law_deletion_is_read_from_files(
    columns: Seq<ColumnView>,
    initial: Rows,
    updates: Rows,
    uuid: Text,
    now: Text,
    i: int,
)
    requires
        columns.len() > 0,
        columns[0].data_type == DataType::UUID,
        0 <= i < initial.len(),
        initial[i].len() > 0,
        initial[i][0] == rows::quoted(text::trimmed(uuid, Strip::Quote)),
        none_later_under(updates, initial[i][0], changes::deleted_cells(columns, uuid, now)),
    ensures
        table::current_rows(initial, updates.push(changes::deleted_cells(columns, uuid, now)))[i]
            == changes::deleted_cells(columns, uuid, now),
{
    law_update_is_read_from_files(
        initial,
        updates,
        changes::deleted_cells(columns, uuid, now),
        i,
    );
}

// ---------------------------------------------------------------------------
// The past
// ---------------------------------------------------------------------------

/// A row that carries a time after `target`, or none, changes nothing of what a
/// table was at that time: the past does not change.
pub proof fn law_past_does_not_change(
    names: Row,
    initial: Rows,
    updates: Rows,
    later: Row,
    target: outside::Instant,
)
    requires
        !rows::not_after(later, target),
    ensures
        table::table_until(
            names,
            (FilesView { initial: Ok(initial.push(later)), updates: Ok(updates) }),
            target,
        ) == table::table_until(
            names,
            (FilesView { initial: Ok(initial), updates: Ok(updates) }),
            target,
        ),
        table::table_until(
            names,
            (FilesView { initial: Ok(initial), updates: Ok(updates.push(later)) }),
            target,
        ) == table::table_until(
            names,
            (FilesView { initial: Ok(initial), updates: Ok(updates) }),
            target,
        ),
{
    assert(initial.push(later).drop_last() =~= initial);
    assert(updates.push(later).drop_last() =~= updates);
}

} // verus!
