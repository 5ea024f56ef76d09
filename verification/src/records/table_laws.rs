//! What the files and the cache of a table promise of each other.

use crate::errors::{ErrorKind, ErrorView};
use crate::numbers;
use crate::outside;
use crate::outside::Instant;
use crate::records::changes;
use crate::records::rows;
use crate::records::rows::{Row, Rows};
use crate::records::table;
use crate::records::table::{CacheView, FilesView};
use crate::records::validation::RowData;
use crate::schema::schema;
use crate::schema::schema::SchemaView;
use crate::text;
use crate::text::{Strip, Text};
use vstd::prelude::*;

verus! {

// ---------------------------------------------------------------------------
// Lines and cells
// ---------------------------------------------------------------------------

/// The cells of a line are what stands between its commas, in their order,
/// without white space around them.
pub proof fn law_cells_stand_between_commas(parts: Row)
    requires
        parts.len() > 0,
        forall|i: int| 0 <= i < parts.len() ==> !(#[trigger] parts[i]).contains(','),
    ensures
        ({
            let cells = rows::line_cells(text::join(parts, seq![',']));
            &&& cells.len() == parts.len()
            &&& forall|i: int|
                0 <= i < parts.len() ==> #[trigger] cells[i] == text::trimmed(
                    parts[i],
                    Strip::Space,
                )
        }),
{
    text::law_split_of_join(parts, ',');
}

/// Every line of a file is a row of the table, in their order.
pub proof fn law_every_line_is_a_row(lines: Seq<Text>)
    ensures
        rows::file_rows(lines).len() == lines.len(),
        forall|i: int|
            0 <= i < lines.len() ==> #[trigger] rows::file_rows(lines)[i] == rows::line_cells(
                lines[i],
            ),
{
}

/// A row is written with a comma between each two cells.
pub proof fn law_row_is_written_with_commas(first: Text, cells: Row)
    requires
        cells.len() > 0,
    ensures
        rows::cells_line(seq![first] + cells) == first + seq![','] + rows::cells_line(cells),
        rows::cells_line(seq![first]) == first,
{
    reveal_strlit(",");
    assert(","@ =~= seq![',']);
    crate::text_laws::law_join_from_the_front(first, cells, ","@);
    crate::text_laws::law_join_from_the_front(first, Seq::empty(), ","@);
    assert(seq![first] + Seq::<Text>::empty() =~= seq![first]);
}

/// In the stored form of a value that is no number a backslash stands before each
/// double quote, and double quotes around all.
pub proof fn law_quotes_are_escaped(value: Text)
    requires
        !numbers::is_number_text(value),
    ensures
        rows::quoted(value) == seq!['"'] + value.map_values(
            |c: char|
                if c == '"' {
                    seq!['\\', '"']
                } else {
                    seq![c]
                },
        ).flatten() + seq!['"'],
{
    reveal_strlit("\"");
    assert("\""@ =~= seq!['"']);
    lemma_escaped(value);
}

proof fn lemma_escaped(s: Text)
    ensures
        text::replaced(s, "\""@, "\\\""@) == s.map_values(
            |c: char|
                if c == '"' {
                    seq!['\\', '"']
                } else {
                    seq![c]
                },
        ).flatten(),
    decreases s.len(),
{
    let f = |c: char|
        if c == '"' {
            seq!['\\', '"']
        } else {
            seq![c]
        };
    reveal_strlit("\"");
    reveal_strlit("\\\"");
    assert("\""@ =~= seq!['"']);
    assert("\\\""@ =~= seq!['\\', '"']);
    if s.len() == 0 {
        assert(s.map_values(f) =~= Seq::<Text>::empty());
        assert(text::replaced(s, "\""@, "\\\""@) =~= Seq::empty());
    } else {
        let rest = s.skip(1);
        lemma_escaped(rest);
        let m = s.map_values(f);
        assert(m.drop_first() =~= rest.map_values(f));
        assert(m.first() == f(s[0]));
        assert(s.subrange(0, 1) =~= seq![s[0]]);
        assert(seq![s[0]][0] == s[0] && seq!['"'][0] == '"');
        if s[0] == '"' {
            assert(text::occurs_at(s, "\""@, 0));
        } else {
            assert(!text::occurs_at(s, "\""@, 0));
        }
    }
}

/// The time at which a row was written is its last cell where that is a time, and
/// else the time that the row carries.
pub proof fn law_time_of_writing(row: Row)
    requires
        row.len() > 0,
    ensures
        match outside::datetime_of(text::trimmed(row.last(), Strip::Quote), "%Y-%m-%d %H:%M:%S"@) {
            Some(t) => rows::written_at(row) == Some(t),
            None => rows::written_at(row) == rows::time_of(row),
        },
{
}

/// Of two times the one with fewer seconds is earlier, and of two with as many
/// the one with the smaller fraction; no time is before every time.
pub proof fn law_earlier_times(a: Instant, b: Instant)
    ensures
        a.0 < b.0 ==> rows::earlier(a, b) && !rows::earlier(b, a),
        a.0 == b.0 ==> rows::earlier(a, b) == (a.1 < b.1),
        rows::earlier_or_none(Some(a), Some(b)) == rows::earlier(a, b),
        rows::earlier_or_none(None, Some(b)),
        !rows::earlier_or_none(Some(a), None),
        !rows::earlier_or_none(None, None),
{
}

// ---------------------------------------------------------------------------
// Applying updates
// ---------------------------------------------------------------------------

/// A cell of a row that is read with its updates is that of the last update with
/// one that says something there, and where no update has one, that of the row.
pub proof fn law_last_word_on_a_cell_counts(row: Row, updates: Rows, i: int)
    requires
        0 <= i < row.len(),
    ensures
        rows::apply_updates(row, updates).len() == row.len(),
        ({
            let says = |update: Row|
                i < update.len() && update[i].len() > 0 && update[i] != "ROW_REMOVED"@;
            let found = updates.filter(says);
            rows::apply_updates(row, updates)[i] == if found.len() > 0 {
                found.last()[i]
            } else {
                row[i]
            }
        }),
    decreases updates.len(),
{
    reveal(Seq::filter);
    if updates.len() > 0 {
        law_last_word_on_a_cell_counts(row, updates.drop_last(), i);
    }
}

/// The updates of a row are those whose first cell, without double quotes, is its
/// identifier, in their order.
pub proof fn law_updates_of_a_row(updates: Rows, id: Text)
    ensures
        table::rows_with_id(updates, id) == updates.filter(
            |row: Row| row.len() > 0 && text::trimmed(row[0], Strip::Quote) == id,
        ),
    decreases updates.len(),
{
    reveal(Seq::filter);
    if updates.len() > 0 {
        law_updates_of_a_row(updates.drop_last(), id);
    }
}

/// Computing a row anew puts it, with its updates from the earliest to the
/// latest, in the place of the row with its identifier in the cache, or at the
/// end, and leaves everything else in the cache. A row that is not among the
/// initial rows is an error and changes nothing.
pub proof fn law_row_is_computed_anew(
    cache: CacheView,
    initial: Rows,
    updates: Rows,
    table: Text,
    uuid: Text,
)
    requires
        cache.contains_key(table),
    ensures
        ({
            let id = text::trimmed(uuid, Strip::Quote);
            let is_it = |row: Row| row.len() > 0 && text::trimmed(row[0], Strip::Quote) == id;
            let files = FilesView { initial: Ok(initial), updates: Ok(updates) };
            let (after, result) = table::row_recalculated(cache, files, table, uuid);
            let there = initial.filter(is_it);
            if there.len() == 0 {
                after == cache && result is Err
            } else {
                let row = rows::apply_updates(
                    there[0],
                    rows::earliest_first(updates.filter(is_it)),
                );
                &&& result is Ok
                &&& forall|j: int|
                    0 <= j < cache[table].len() && is_it(#[trigger] cache[table][j]) && (forall|
                        k: int,
                    |
                        0 <= k < j ==> !is_it(#[trigger] cache[table][k])) ==> after
                        == cache.insert(table, cache[table].update(j, row))
                &&& (forall|k: int|
                    0 <= k < cache[table].len() ==> !is_it(#[trigger] cache[table][k])) ==> after
                    == cache.insert(table, cache[table].push(row))
            }
        }),
{
    let id = text::trimmed(uuid, Strip::Quote);
    let is_it = |row: Row| row.len() > 0 && text::trimmed(row[0], Strip::Quote) == id;
    law_updates_of_a_row(updates, id);
    law_updates_of_a_row(initial, id);
    let p = |row: Row| row.len() > 0 && text::trimmed(row[0], Strip::Quote) == id;
    assert(is_it =~= p);
    table::lemma_first_with_id(initial, id);
    let there = initial.filter(is_it);
    match table::first_with_id(initial, id) {
        None => {
            if there.len() > 0 {
                initial.lemma_filter_pred(is_it, 0);
                assert(there.contains(there[0]));
                initial.lemma_filter_contains_rev(is_it, there[0]);
                let k = choose|k: int| 0 <= k < initial.len() && initial[k] == there[0];
                assert(table::has_id(initial[k], id));
            }
        },
        Some(i) => {
            assert(table::has_id(initial[i], id));
            lemma_first_filtered(initial, is_it, i);
        },
    }
    table::lemma_first_with_id(cache[table], id);
    let held = cache[table];
    assert forall|j: int|
        0 <= j < held.len() && is_it(#[trigger] held[j]) && (forall|k: int|
            0 <= k < j ==> !is_it(#[trigger] held[k])) implies table::first_with_id(held, id) == Some(
        j,
    ) by {
        assert(table::has_id(held[j], id));
        match table::first_with_id(held, id) {
            Some(m) => {
                if m < j {
                    assert(!is_it(held[m]));
                } else if j < m {
                    assert(!table::has_id(held[j], id));
                }
            },
            None => {},
        }
    }
    if forall|k: int| 0 <= k < held.len() ==> !is_it(#[trigger] held[k]) {
        if let Some(m) = table::first_with_id(held, id) {
            assert(is_it(held[m]));
        }
    }
}

proof fn lemma_first_filtered(s: Rows, p: spec_fn(Row) -> bool, i: int)
    requires
        0 <= i < s.len(),
        p(s[i]),
        forall|k: int| 0 <= k < i ==> !p(#[trigger] s[k]),
    ensures
        s.filter(p).len() > 0,
        s.filter(p)[0] == s[i],
    decreases s.len(),
{
    reveal(Seq::filter);
    let d = s.drop_last();
    if i < d.len() {
        assert(forall|k: int| 0 <= k < d.len() ==> d[k] == s[k]);
        lemma_first_filtered(d, p, i);
    } else {
        lemma_none_filtered(d, p);
    }
}

proof fn lemma_none_filtered(s: Rows, p: spec_fn(Row) -> bool)
    requires
        forall|k: int| 0 <= k < s.len() ==> !p(#[trigger] s[k]),
    ensures
        s.filter(p) == Seq::<Row>::empty(),
    decreases s.len(),
{
    reveal(Seq::filter);
    if s.len() > 0 {
        let d = s.drop_last();
        assert(forall|k: int| 0 <= k < d.len() ==> d[k] == s[k]);
        lemma_none_filtered(d, p);
        assert(!p(s[s.len() - 1]));
    } else {
        assert(s =~= Seq::empty());
    }
}

/// Computing a table anew puts its present rows in the cache, and leaves every
/// other table; updates that cannot be read are an error and change nothing.
pub proof fn law_table_is_computed_anew(
    cache: CacheView,
    table: Text,
    initial: Rows,
    updates: Rows,
    e: ErrorView,
)
    ensures
        table::recalculated(cache, table, initial, Ok(updates)) == (
            cache.insert(table, table::current_rows(initial, updates)),
            Ok::<(), ErrorView>(()),
        ),
        table::recalculated(cache, table, initial, Err(e)) == (cache, Err::<(), ErrorView>(e)),
        !cache.contains_key(table) ==> table::row_recalculated(
            cache,
            (FilesView { initial: Ok(initial), updates: Ok(updates) }),
            table,
            Seq::empty(),
        ).0 == cache.insert(table, table::current_rows(initial, updates)),
        !cache.contains_key(table) ==> table::row_added(
            cache,
            (FilesView { initial: Ok(initial), updates: Ok(updates) }),
            table,
            Seq::empty(),
        ).0 == cache.insert(table, table::current_rows(initial, updates)),
{
}

/// An update of a row changes nothing but what is asked: where no row has the
/// UUID, or there is no such table, it is an error.
pub proof fn law_update_of_no_row_is_refused(
    schema: SchemaView,
    cache: CacheView,
    files: FilesView,
    table: Text,
    uuid: Text,
    new_values: RowData,
    now: Text,
)
    requires
        !schema.contains_key(table + "_initial"@) || (table::table_data(
            schema,
            cache,
            files,
            table,
        ).1 matches Ok(all) && forall|i: int|
            0 <= i < all.len() && (#[trigger] all[i]).len() > 0 ==> all[i][0] != uuid),
    ensures
        changes::updated(schema, cache, files, table, uuid, new_values, now).1 matches Err(e)
            && e.kind == ErrorKind::NotFound,
{
    if schema.contains_key(table + "_initial"@) {
        let all = table::table_data(schema, cache, files, table).1->Ok_0;
        lemma_no_position(all, uuid);
    }
}

proof fn lemma_no_position(all: Rows, uuid: Text)
    requires
        forall|i: int| 0 <= i < all.len() && (#[trigger] all[i]).len() > 0 ==> all[i][0] != uuid,
    ensures
        changes::row_position(all, uuid) is None,
    decreases all.len(),
{
    if all.len() > 0 {
        let d = all.drop_last();
        assert(forall|i: int| 0 <= i < d.len() ==> d[i] == all[i]);
        assert(all[all.len() - 1] == all.last());
        lemma_no_position(d, uuid);
    }
}

/// There is nothing to be read of, inserted into or deleted from a table that the
/// schema does not have.
pub proof fn law_unknown_table_is_refused(
    schema: SchemaView,
    cache: CacheView,
    files: FilesView,
    table: Text,
    values: Row,
    names: Option<Seq<Text>>,
    uuid: Text,
    now: Text,
)
    requires
        !schema.contains_key(table + "_initial"@),
    ensures
        table::table_data(schema, cache, files, table) == (
            cache,
            table::table_data(schema, cache, files, table).1,
        ),
        table::table_data(schema, cache, files, table).1 matches Err(e) && e.kind
            == ErrorKind::NotFound,
        changes::inserted(schema, cache, files, table, values, names, uuid, now).1 matches Err(e)
            && e.kind == ErrorKind::NotFound,
        changes::deleted(schema, table, uuid, now) matches Err(e) && e.kind == ErrorKind::NotFound,
        table::table_at(schema, files, table, now) is Err,
{
}

/// A table is read as it was at the time that the request gives; a text that is
/// no time is an error.
pub proof fn law_past_is_read_at_the_given_time(
    schema: SchemaView,
    files: FilesView,
    table: Text,
    timestamp: Text,
)
    requires
        schema.contains_key(table + "_initial"@),
    ensures
        match outside::datetime_of(timestamp, "%Y-%m-%d %H:%M:%S"@) {
            Some(target) => table::table_at(schema, files, table, timestamp) == table::table_until(
                schema[table + "_initial"@].columns.map_values(
                    |c: crate::schema::schema::ColumnView| c.name,
                ),
                files,
                target,
            ),
            None => table::table_at(schema, files, table, timestamp) matches Err(e) && e.kind
                == ErrorKind::InvalidInput,
        },
{
    assert(schema::initial_name(table) == table + "_initial"@);
}

/// A file that is not there yet held nothing at a past time; any other error of a
/// file is that of the request.
pub proof fn law_missing_file_held_nothing(
    names: Row,
    initial: Rows,
    updates: Rows,
    e: ErrorView,
    target: Instant,
)
    ensures
        e.kind == ErrorKind::NotFound ==> table::table_until(
            names,
            (FilesView { initial: Ok(initial), updates: Err(e) }),
            target,
        ) == table::table_until(
            names,
            (FilesView { initial: Ok(initial), updates: Ok(Seq::empty()) }),
            target,
        ),
        e.kind == ErrorKind::NotFound ==> table::table_until(
            names,
            (FilesView { initial: Err(e), updates: Ok(updates) }),
            target,
        ) == Ok::<Rows, ErrorView>(Seq::empty()),
        e.kind != ErrorKind::NotFound ==> table::table_until(
            names,
            (FilesView { initial: Err(e), updates: Ok(updates) }),
            target,
        ) == Err::<Rows, ErrorView>(e),
        e.kind != ErrorKind::NotFound ==> table::table_until(
            names,
            (FilesView { initial: Ok(initial), updates: Err(e) }),
            target,
        ) == Err::<Rows, ErrorView>(e),
{
    assert(table::rows_until(Seq::empty(), target) =~= Seq::empty());
    assert(rows::merged_table(Seq::empty(), table::rows_until(updates, target)) =~= Seq::empty());
}

} // verus!
