//! What the log tells of changes.

use crate::change_logging::change_logging;
use crate::change_logging::change_logging::{ChangeType, EntryView};
use crate::json;
use crate::json::{Fields, JsonView};
use crate::text::Text;
use vstd::prelude::*;

verus! {

proof fn lemma_first_field(key: Text, value: JsonView, rest: Fields)
    ensures
        json::get(JsonView::Object(seq![(key, value)] + rest), key) == Some(value),
{
    let fields = seq![(key, value)] + rest;
    assert(fields[0] == (key, value));
}

/// The entry for a change to a row tells all of its cells, in their order.
pub proof fn law_entry_tells_the_row(cells: Seq<Text>)
    ensures
        json::get(change_logging::row_data(cells), "row_data"@) matches Some(JsonView::Array(told))
            && told.len() == cells.len() && forall|i: int|
            0 <= i < cells.len() ==> #[trigger] told[i] == JsonView::Str(cells[i]),
{
    lemma_first_field("row_data"@, json::text_array(cells), Seq::empty());
    assert(seq![("row_data"@, json::text_array(cells))] + Seq::<(Text, JsonView)>::empty() =~= seq![
        ("row_data"@, json::text_array(cells)),
    ]);
}

/// The entry for a table that was dropped tells both parts of it, and when.
pub proof fn law_entry_tells_the_dropped_table(table: Text, now: Text)
    ensures
        json::get(change_logging::dropped_data(table, now), "timestamp"@) == Some(
            JsonView::Str(now),
        ),
        json::get(change_logging::dropped_data(table, now), "dropped_tables"@) == Some(
            JsonView::Array(
                seq![JsonView::Str(table + "_initial"@), JsonView::Str(table + "_updates"@)],
            ),
        ),
{
    let fields = change_logging::dropped_data(table, now)->Object_0;
    reveal_strlit("timestamp");
    reveal_strlit("dropped_tables");
    assert("timestamp"@.len() == 9 && "dropped_tables"@.len() == 14);
    reveal_with_fuel(json::field_of, 3);
    assert(fields.skip(1)[0] == fields[1]);
    let names = seq![
        crate::schema::schema::initial_name(table),
        crate::schema::schema::updates_name(table),
    ];
    assert(json::text_array(names)->Array_0 =~= seq![
        JsonView::Str(table + "_initial"@),
        JsonView::Str(table + "_updates"@),
    ]);
}

/// The entry for a change tells what was changed, and by whom, as it was given.
pub proof fn law_entry_is_what_was_given(
    change_id: Text,
    change_type: ChangeType,
    table_name: Text,
    data: JsonView,
    user: Option<Text>,
    origin_db: Option<Text>,
)
    ensures
        change_logging::change_entry(change_id, change_type, table_name, data, user, origin_db) == (
        EntryView { change_id, change_type, table_name, data, user, origin_db }),
{
}

/// A change is one to the schema where a table was created or dropped.
pub proof fn law_changes_to_the_schema(change_type: ChangeType, entries: Seq<EntryView>)
    ensures
        change_type.changes_schema() <==> change_type == ChangeType::Create || change_type
            == ChangeType::Drop,
        crate::replication::replication::changes_schema(entries) <==> exists|i: int|
            0 <= i < entries.len() && ((#[trigger] entries[i]).change_type == ChangeType::Create
                || entries[i].change_type == ChangeType::Drop),
{
    if crate::replication::replication::changes_schema(entries) {
        let i = choose|i: int|
            0 <= i < entries.len() && (#[trigger] entries[i]).change_type.changes_schema();
        assert(entries[i].change_type == ChangeType::Create || entries[i].change_type
            == ChangeType::Drop);
    }
    if exists|i: int|
        0 <= i < entries.len() && ((#[trigger] entries[i]).change_type == ChangeType::Create
            || entries[i].change_type == ChangeType::Drop) {
        let i = choose|i: int|
            0 <= i < entries.len() && ((#[trigger] entries[i]).change_type == ChangeType::Create
                || entries[i].change_type == ChangeType::Drop);
        assert(entries[i].change_type.changes_schema());
    }
}

// ---------------------------------------------------------------------------
// JSON
// ---------------------------------------------------------------------------

/// A field of an object is the first with its key.
pub proof fn law_first_field_of_a_key_counts(
    before: Fields,
    key: Text,
    value: JsonView,
    after: Fields,
)
    requires
        forall|i: int| 0 <= i < before.len() ==> (#[trigger] before[i]).0 != key,
    ensures
        json::get(JsonView::Object(before + seq![(key, value)] + after), key) == Some(value),
        json::get(JsonView::Object(before), key) is None,
        json::get(JsonView::Str(key), key) is None,
    decreases before.len(),
{
    let fields = before + seq![(key, value)] + after;
    if before.len() == 0 {
        assert(fields[0] == (key, value));
    } else {
        let rest = before.skip(1);
        assert(forall|i: int| 0 <= i < rest.len() ==> rest[i] == before[i + 1]);
        assert(before[0].0 != key);
        law_first_field_of_a_key_counts(rest, key, value, after);
        assert(fields.skip(1) =~= rest + seq![(key, value)] + after);
        assert(fields[0] == before[0]);
    }
}

/// Setting a field changes that field alone.
pub proof fn law_only_the_field_is_set(fields: Fields, key: Text, value: JsonView, other: Text)
    ensures
        json::field_of(json::with_field(fields, key, value), other) == if other == key {
            Some(value)
        } else {
            json::field_of(fields, other)
        },
{
    json::lemma_with_field(fields, key, value, other);
}

/// A reply has the status that it is given, and says what it is given: an error
/// under the one key, a message under the other.
pub proof fn law_replies_say_what_they_are_given(status: u16, message: Text)
    ensures
        json::error_reply(status, message).status == status,
        json::get(json::error_reply(status, message).body, "error"@) == Some(JsonView::Str(message)),
        json::message_reply(status, message).status == status,
        json::get(json::message_reply(status, message).body, "message"@) == Some(
            JsonView::Str(message),
        ),
        json::text_reply(status, message).status == status,
        json::text_reply(status, message).body == JsonView::Str(message),
        json::success(status) <==> 200 <= status <= 299,
{
    assert(seq![("error"@, JsonView::Str(message))][0].0 == "error"@);
    assert(seq![("message"@, JsonView::Str(message))][0].0 == "message"@);
}

} // verus!
