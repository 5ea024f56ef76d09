//! What the rows that are inserted and deleted hold.

use crate::errors::ErrorView;
use crate::numbers;
use crate::outside;
use crate::records::changes;
use crate::records::rows;
use crate::records::rows::{Row, Rows};
use crate::records::table;
use crate::records::table::{CacheView, FilesView};
use crate::records::validation;
use crate::records::validation::RowData;
use crate::schema::schema;
use crate::schema::schema::{ColumnView, DataType, SchemaView};
use crate::text;
use crate::text::{Strip, Text};
use vstd::prelude::*;

verus! {

/// Whether no two columns have the same name.
pub open spec fn names_differ(columns: Seq<ColumnView>) -> bool {
    forall|i: int, j: int|
        0 <= i < j < columns.len() ==> (#[trigger] columns[i]).name != (#[trigger] columns[j]).name
}

proof fn lemma_aligned(columns: Seq<ColumnView>, values: Row, fresh: Text, n: int)
    requires
        names_differ(columns),
        columns.len() > 0,
        columns[0].name == "UUID"@,
        0 <= n <= columns.len(),
    ensures
        ({
            let (data, used) = changes::aligned(columns, values, fresh, n);
            let shift = if values.len() > 0 && outside::is_uuid_text(values[0]) {
                0int
            } else {
                1int
            };
            &&& n > 0 ==> used == n - shift
            &&& n == 0 ==> used == 0
            &&& forall|k: int|
                0 <= k < n ==> data.contains_key((#[trigger] columns[k]).name)
                    && data[columns[k].name] == (if k < shift {
                    fresh
                } else if k - shift < values.len() {
                    values[k - shift]
                } else {
                    Seq::empty()
                })
        }),
    decreases n,
{
    if n > 0 {
        lemma_aligned(columns, values, fresh, n - 1);
        let (before, _) = changes::aligned(columns, values, fresh, n - 1);
        let (data, _) = changes::aligned(columns, values, fresh, n);
        if n > 1 {
            assert(columns[0].name != columns[n - 1].name);
        }
        assert forall|k: int| 0 <= k < n - 1 implies data.contains_key((#[trigger] columns[k]).name)
            && data[columns[k].name] == before[columns[k].name] by {
            assert(columns[k].name != columns[n - 1].name);
        }
    }
}

proof fn lemma_completed(columns: Seq<ColumnView>, data: RowData, fresh: Text, n: int, name: Text)
    requires
        0 <= n <= columns.len(),
    ensures
        ({
            let all = changes::completed(columns, data, fresh, n);
            &&& data.contains_key(name) ==> all.contains_key(name) && all[name] == data[name]
            &&& !data.contains_key(name) && (exists|k: int|
                0 <= k < n && (#[trigger] columns[k]).name == name) ==> all.contains_key(name)
                && all[name] == (if name == "UUID"@ {
                fresh
            } else {
                Seq::empty()
            })
            &&& !data.contains_key(name) && (forall|k: int|
                0 <= k < n ==> (#[trigger] columns[k]).name != name) ==> !all.contains_key(name)
        }),
    decreases n,
{
    if n > 0 {
        lemma_completed(columns, data, fresh, n - 1, name);
        if !data.contains_key(name) && columns[n - 1].name != name {
            if exists|k: int| 0 <= k < n && (#[trigger] columns[k]).name == name {
                let k = choose|k: int| 0 <= k < n && (#[trigger] columns[k]).name == name;
                assert(k < n - 1);
            }
        } else if !data.contains_key(name) {
            if !(exists|k: int| 0 <= k < n - 1 && (#[trigger] columns[k]).name == name) {
                assert(forall|k: int| 0 <= k < n - 1 ==> (#[trigger] columns[k]).name != name);
            }
        }
    }
}

/// The values of a new row go to the columns in their order. A UUID need not be
/// among them: where the first value is none, a fresh one comes first. A column
/// for which no value is left gets the empty text.
pub proof fn law_values_go_to_columns_in_order(
    columns: Seq<ColumnView>,
    values: Row,
    fresh: Text,
    k: int,
)
    requires
        names_differ(columns),
        0 <= k < columns.len(),
        columns[0].name == "UUID"@,
    ensures
        ({
            let data = changes::insert_data(columns, values, None, fresh);
            let given = if values.len() > 0 && outside::is_uuid_text(values[0]) {
                values
            } else {
                seq![fresh] + values
            };
            data.contains_key(columns[k].name) && data[columns[k].name] == (if k < given.len() {
                given[k]
            } else {
                Seq::empty()
            })
        }),
{
    let n = columns.len() as int;
    lemma_aligned(columns, values, fresh, n);
    let data = changes::aligned(columns, values, fresh, n).0;
    assert(data.contains_key(columns[k].name));
    lemma_completed(columns, data, fresh, n, columns[k].name);
}

/// Whether the name at position `p` has a value, and is the last of its kind that
/// has one.
pub open spec fn is_last_value(names: Seq<Text>, values: Row, p: int) -> bool {
    &&& 0 <= p < names.len()
    &&& p < values.len()
    &&& forall|q: int| p < q < names.len() && q < values.len() ==> #[trigger] names[q] != names[p]
}

proof fn lemma_paired(names: Seq<Text>, values: Row, n: int, p: int)
    requires
        0 <= p < n <= names.len(),
        p < values.len(),
        forall|q: int| p < q < n && q < values.len() ==> #[trigger] names[q] != names[p],
    ensures
        changes::paired(names, values, n).contains_key(names[p]),
        changes::paired(names, values, n)[names[p]] == values[p],
    decreases n,
{
    if p < n - 1 {
        lemma_paired(names, values, n - 1, p);
        if n - 1 < values.len() {
            assert(names[n - 1] != names[p]);
        }
    }
}

proof fn lemma_unpaired(names: Seq<Text>, values: Row, n: int, name: Text)
    requires
        0 <= n <= names.len(),
        forall|p: int| 0 <= p < n && p < values.len() ==> #[trigger] names[p] != name,
    ensures
        !changes::paired(names, values, n).contains_key(name),
    decreases n,
{
    if n > 0 {
        lemma_unpaired(names, values, n - 1, name);
        if n - 1 < values.len() {
            assert(names[n - 1] != name);
        }
    }
}

/// The values of a new row that come with names go to the columns of those
/// names, of several for one column the last; of the other columns the UUID gets
/// a fresh one, and any other the empty text.
pub proof fn law_values_go_to_named_columns(
    columns: Seq<ColumnView>,
    names: Seq<Text>,
    values: Row,
    fresh: Text,
    k: int,
)
    requires
        0 <= k < columns.len(),
    ensures
        ({
            let data = changes::insert_data(columns, values, Some(names), fresh);
            let name = columns[k].name;
            &&& data.contains_key(name)
            &&& forall|p: int|
                is_last_value(names, values, p) && #[trigger] names[p] == name ==> data[name]
                    == values[p]
            &&& (forall|p: int|
                0 <= p < names.len() && p < values.len() ==> #[trigger] names[p] != name)
                ==> data[name] == (if name == "UUID"@ {
                fresh
            } else {
                Seq::empty()
            })
        }),
{
    let n = columns.len() as int;
    let m = names.len() as int;
    let name = columns[k].name;
    let given = changes::paired(names, values, m);
    lemma_completed(columns, given, fresh, n, name);
    assert forall|p: int| is_last_value(names, values, p) && #[trigger] names[p] == name implies given.contains_key(
        name,
    ) && given[name] == values[p] by {
        lemma_paired(names, values, m, p);
    }
    if forall|p: int| 0 <= p < names.len() && p < values.len() ==> #[trigger] names[p] != name {
        lemma_unpaired(names, values, m, name);
    }
}

/// An insertion that succeeds gives a row with a cell for each column, each the
/// stored form of what the rules of the column leave of its value, under the
/// UUID among its values; it fails where a name is that of no column.
pub proof fn law_inserted_row_holds_its_values(
    schema: SchemaView,
    cache: CacheView,
    files: FilesView,
    table: Text,
    values: Row,
    names: Option<Seq<Text>>,
    fresh: Text,
    now: Text,
)
    requires
        schema.contains_key(schema::initial_name(table)),
    ensures
        ({
            let columns = schema[schema::initial_name(table)].columns;
            let data = changes::insert_data(columns, values, names, fresh);
            let result = changes::inserted(
                schema,
                cache,
                files,
                table,
                values,
                names,
                fresh,
                now,
            ).1;
            let unknown = names matches Some(ns) && exists|p: int|
                #![trigger ns[p]]
                0 <= p < ns.len() && forall|k: int|
                    0 <= k < columns.len() ==> (#[trigger] columns[k]).name != ns[p];
            &&& unknown ==> result is Err
            &&& !unknown ==> match validation::validated_row(
                schema,
                cache,
                files,
                table,
                data,
                now,
            ).1 {
                Err(e) => result is Err,
                Ok(row) => {
                    &&& result matches Ok(new)
                    &&& new.uuid == data["UUID"@]
                    &&& new.cells.len() == row.len()
                    &&& forall|k: int|
                        0 <= k < row.len() ==> #[trigger] new.cells[k] == rows::quoted(row[k])
                },
            }
        }),
{
    let columns = schema[schema::initial_name(table)].columns;
    if let Some(ns) = names {
        lemma_first_unknown(columns, ns);
    }
}

proof fn lemma_first_unknown(columns: Seq<ColumnView>, names: Seq<Text>)
    ensures
        changes::first_unknown(columns, names) is Some <==> exists|p: int|
            #![trigger names[p]]
            0 <= p < names.len() && forall|k: int|
                0 <= k < columns.len() ==> (#[trigger] columns[k]).name != names[p],
    decreases names.len(),
{
    if names.len() > 0 {
        let rest = names.skip(1);
        lemma_first_unknown(columns, rest);
        if !changes::has_column(columns, names[0]) {
            assert(forall|k: int|
                0 <= k < columns.len() ==> (#[trigger] columns[k]).name != names[0]);
        } else {
            let c = choose|c: int| 0 <= c < columns.len() && (#[trigger] columns[c]).name == names[0];
            if changes::first_unknown(columns, rest) is Some {
                let p = choose|p: int|
                    #![trigger rest[p]]
                    0 <= p < rest.len() && forall|k: int|
                        0 <= k < columns.len() ==> (#[trigger] columns[k]).name != rest[p];
                assert(names[p + 1] == rest[p]);
            }
            if exists|p: int|
                #![trigger names[p]]
                0 <= p < names.len() && forall|k: int|
                    0 <= k < columns.len() ==> (#[trigger] columns[k]).name != names[p] {
                let p = choose|p: int|
                    #![trigger names[p]]
                    0 <= p < names.len() && forall|k: int|
                        0 <= k < columns.len() ==> (#[trigger] columns[k]).name != names[p];
                assert(columns[c].name == names[0]);
                assert(p > 0);
                assert(rest[p - 1] == names[p]);
            }
        }
    }
}

/// A value is stored as it is where it is a number, and between double quotes
/// where it is not.
pub proof fn law_stored_form_of_a_value(value: Text)
    requires
        !value.contains('"'),
    ensures
        rows::quoted(value) == if numbers::is_number_text(value) {
            value
        } else {
            seq!['"'] + value + seq!['"']
        },
{
    reveal_strlit("\"");
    assert("\""@ =~= seq!['"']);
    if text::contains_text(value, "\""@) {
        let i = choose|i: int| text::occurs_at(value, "\""@, i);
        assert(value.subrange(i, i + 1)[0] == value[i]);
        assert(value.contains('"'));
    }
    text::lemma_replaced_absent(value, "\""@, "\\\""@);
}

/// A deleted row keeps its UUID; its integers are 0, its times are the time of
/// the deletion, and its texts are the mark of a removed row.
pub proof fn law_deleted_row_holds_marks(
    schema: SchemaView,
    table: Text,
    uuid: Text,
    now: Text,
)
    requires
        schema.contains_key(schema::initial_name(table)),
    ensures
        ({
            let columns = schema[schema::initial_name(table)].columns;
            &&& changes::deleted(schema, table, uuid, now) matches Ok(cells)
            &&& cells.len() == columns.len()
            &&& forall|k: int|
                0 <= k < columns.len() ==> #[trigger] cells[k] == rows::quoted(
                    match columns[k].data_type {
                        DataType::UUID => text::trimmed(uuid, Strip::Quote),
                        DataType::Int => "0"@,
                        DataType::DateTime => now,
                        DataType::String => "ROW_REMOVED"@,
                    },
                )
        }),
{
}

/// The rows of a table carry the updates of each of them: where a row has no
/// update, it is as it was inserted, and the number and the order of the rows
/// stay.
pub proof fn law_present_has_every_row(initial: Rows, updates: Rows, i: int)
    requires
        0 <= i < initial.len(),
        initial[i].len() > 0,
    ensures
        table::current_rows(initial, updates).len() == initial.len(),
        table::current_rows(initial, updates)[i].len() > 0,
        table::current_rows(initial, updates)[i][0] == initial[i][0],
        (forall|u: int|
            0 <= u < updates.len() && (#[trigger] updates[u]).len() > 0 ==> updates[u][0]
                != initial[i][0]) ==> table::current_rows(initial, updates)[i] == initial[i],
{
    let sorted = rows::earliest_first(updates);
    rows::law_merge_keeps_rows(initial, sorted, i);
    if forall|u: int|
        0 <= u < updates.len() && (#[trigger] updates[u]).len() > 0 ==> updates[u][0]
            != initial[i][0] {
        assert forall|u: int| 0 <= u < sorted.len() && (#[trigger] sorted[u]).len() > 0 implies sorted[u][0]
            != initial[i][0] by {
            rows::law_sort_is_stable(updates, None);
            rows::lemma_sorted_from(updates, u);
            let m = choose|m: int| 0 <= m < updates.len() && sorted[u] == #[trigger] updates[m];
            assert(updates[m].len() > 0);
        }
        crate::records::laws::lemma_no_update(sorted, initial[i][0]);
    }
}

/// Reading a table gives its column names before the rows in the cache, and
/// where it is not in the cache, before its present rows, which are then there.
pub proof fn law_reading_a_table(
    schema: SchemaView,
    cache: CacheView,
    initial: Rows,
    updates: Rows,
    table: Text,
)
    requires
        schema.contains_key(schema::initial_name(table)),
    ensures
        ({
            let files = FilesView { initial: Ok(initial), updates: Ok(updates) };
            let columns = schema[schema::initial_name(table)].columns;
            let rows = if cache.contains_key(table) {
                cache[table]
            } else {
                table::current_rows(initial, updates)
            };
            let (after, result) = table::table_data(schema, cache, files, table);
            &&& after == cache.insert(table, rows)
            &&& result matches Ok(all)
            &&& all.len() == rows.len() + 1
            &&& all[0].len() == columns.len()
            &&& forall|k: int| 0 <= k < columns.len() ==> #[trigger] all[0][k] == columns[k].name
            &&& forall|i: int| 0 <= i < rows.len() ==> #[trigger] all[i + 1] == rows[i]
        }),
{
    if cache.contains_key(table) {
        assert(cache.insert(table, cache[table]) =~= cache);
    }
}

} // verus!
