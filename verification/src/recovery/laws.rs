//! What recovery gives back of what was logged.

use crate::change_logging::change_logging;
use crate::change_logging::change_logging::EntryView;
use crate::json;
use crate::json::JsonView;
use crate::outside;
use crate::records::rows;
use crate::records::rows::Row;
use crate::recovery::recovery;
use crate::recovery::recovery::RowChange;
use crate::schema::schema;
use crate::schema::schema::TableView;
use crate::schema::schema_json;
use crate::text::Text;
use vstd::prelude::*;

verus! {

proof fn lemma_entry_data(entry: EntryView)
    ensures
        json::at(change_logging::entry_json(entry), "data"@) == entry.data,
{
    let e = change_logging::entry_json(entry);
    let fields = e->Object_0;
    reveal_strlit("change_id");
    reveal_strlit("change_type");
    reveal_strlit("data");
    assert("change_id"@.len() != "data"@.len());
    assert("change_type"@.len() != "data"@.len());
    assert(fields.skip(1)[0] == fields[1]);
    assert(fields.skip(1).skip(1)[0] == fields[2]);
    reveal_with_fuel(json::field_of, 3);
}

proof fn lemma_only_field(key: Text, value: JsonView)
    ensures
        json::at(JsonView::Object(seq![(key, value)]), key) == value,
{
    assert(seq![(key, value)][0].0 == key);
}

/// A logged row is recovered as it was written: where the file does not have
/// it, the line of its entry is the line that the change itself wrote. The
/// cells of a deletion are neither empty nor the mark of a removed row in other
/// letters.
pub proof fn law_logged_row_is_recovered(
    entry: EntryView,
    cells: Row,
    lines: Seq<Text>,
    change: RowChange,
)
    requires
        entry.data == change_logging::row_data(cells),
        cells.len() > 0,
        change is Deletion ==> forall|i: int|
            0 <= i < cells.len() ==> (#[trigger] cells[i]).len() > 0 && (outside::uppercase(
                cells[i],
            ) == "ROW_REMOVED"@ ==> cells[i] == "ROW_REMOVED"@),
        !recovery::file_says(
            change,
            lines,
            cells[0],
            if change is Insertion {
                Seq::empty()
            } else {
                cells.last()
            },
        ),
    ensures
        recovery::line_to_append(change, change_logging::entry_json(entry), lines) == Ok::<_, Text>(
            Some(rows::cells_line(cells)),
        ),
{
    let log = change_logging::entry_json(entry);
    let values = json::text_array(cells)->Array_0;
    lemma_entry_data(entry);
    lemma_only_field("row_data"@, json::text_array(cells));
    assert(recovery::entry_row(log) == Some(values));
    assert(values[0] == JsonView::Str(cells[0]));
    assert(values.last() == JsonView::Str(cells.last()));
    assert(recovery::entry_cells(values, change is Deletion) =~= cells) by {
        assert forall|i: int| 0 <= i < cells.len() implies #[trigger] recovery::entry_cells(
            values,
            change is Deletion,
        )[i] == cells[i] by {
            assert(values[i] == JsonView::Str(cells[i]));
        }
    }
}

/// A logged creation is recovered with the columns with which the table was
/// created.
pub proof fn law_logged_table_is_recovered(
    entry: EntryView,
    table: TableView,
    schema: JsonView,
)
    requires
        entry.data == change_logging::created_data(table),
        recovery::can_recover(
            schema,
            schema::initial_name(table.name),
            schema::updates_name(table.name),
        ),
    ensures
        ({
            let columns = JsonView::Array(
                schema_json::columns_json(schema::stored_columns(table.columns)),
            );
            let after = json::at(
                recovery::recovered_schema(
                    schema,
                    schema::initial_name(table.name),
                    schema::updates_name(table.name),
                    change_logging::entry_json(entry),
                ),
                "tables"@,
            );
            &&& json::at(json::at(after, schema::initial_name(table.name)), "columns"@) == columns
            &&& json::at(json::at(after, schema::updates_name(table.name)), "columns"@) == columns
        }),
{
    let log = change_logging::entry_json(entry);
    let initial = schema::initial_name(table.name);
    let updates = schema::updates_name(table.name);
    lemma_entry_data(entry);
    lemma_only_field("table_definition"@, schema_json::table_json(table));
    assert(json::at(schema_json::table_json(table), "columns"@) == JsonView::Array(
        schema_json::columns_json(table.columns),
    ));
    let stored = schema::stored_columns(table.columns);
    lemma_required("UUID"@, schema::DataType::UUID);
    lemma_required("timestamp"@, schema::DataType::DateTime);
    assert(recovery::recovered_columns(log)->Array_0 =~= schema_json::columns_json(stored)) by {
        let recovered = recovery::recovered_columns(log)->Array_0;
        assert(recovered.len() == stored.len());
        assert forall|i: int| 0 <= i < stored.len() implies #[trigger] recovered[i]
            == schema_json::columns_json(stored)[i] by {
            if 0 < i < stored.len() - 1 {
                assert(stored[i] == table.columns[i - 1]);
                assert(recovered[i] == recovery::defined_columns(log)[i - 1]);
            }
        }
    }
    let columns = recovery::recovered_columns(log);
    let t0 = recovery::tables_of(schema);
    let t1 = recovery::put_table(t0, initial, columns);
    let v1 = recovery::table_with_columns(json::field_of(t0, initial), initial, columns);
    let v2 = recovery::table_with_columns(json::field_of(t1, updates), updates, columns);
    schema::lemma_names_differ(table.name);
    json::lemma_with_field(t0, initial, v1, initial);
    json::lemma_with_field(t1, updates, v2, initial);
    json::lemma_with_field(t1, updates, v2, updates);
    let t2 = recovery::put_table(t1, updates, columns);
    json::lemma_with_field(
        recovery::fields_of(schema),
        "tables"@,
        JsonView::Object(t2),
        "tables"@,
    );
    lemma_columns_of_table(json::field_of(t0, initial), initial, columns);
    lemma_columns_of_table(json::field_of(t1, updates), updates, columns);
}

proof fn lemma_required(name: Text, data_type: schema::DataType)
    ensures
        schema_json::column_json(schema::required_column(name, data_type))
            == recovery::required_json(name, data_type.name()),
{
    let c = schema::required_column(name, data_type);
    assert(Seq::new(c.rules.len(), |i: int| schema_json::rule_json(c.rules[i])) =~= seq![
        JsonView::Object(
            seq![
                ("action"@, JsonView::Str("Reject"@)),
                ("constraint_type"@, JsonView::Str("NotNull"@)),
            ],
        ),
    ]);
}

proof fn lemma_columns_of_table(there: Option<JsonView>, name: Text, columns: JsonView)
    ensures
        json::at(recovery::table_with_columns(there, name, columns), "columns"@) == columns,
{
    match there {
        Some(JsonView::Object(fields)) => {
            json::lemma_with_field(fields, "columns"@, columns, "columns"@);
        },
        _ => {
            let t = recovery::table_with_columns(there, name, columns);
            assert(t->Object_0[0].0 == "columns"@);
        },
    }
}

} // verus!
