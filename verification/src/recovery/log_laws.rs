//! Which entries of the log a recovery goes through, in which order, and what
//! it does with them.

use crate::change_logging::change_logging;
use crate::change_logging::change_logging::{ChangeType, EntryView};
use crate::config::database_config::ConfigView;
use crate::json;
use crate::json::JsonView;
use crate::outside;
use crate::outside::Instant;
use crate::records::rows;
use crate::recovery::recovery;
use crate::recovery::recovery::{RowChange, Since, TableRecovery};
use crate::recovery::recovery_run;
use crate::recovery::recovery_run::{EntryActionView, RecoveryStepView};
use crate::text;
use crate::text::{Strip, Text};
use vstd::prelude::*;

verus! {

// ---------------------------------------------------------------------------
// The entries of a table
// ---------------------------------------------------------------------------

/// Whether an entry of the log is of a table.
pub open spec fn is_of_table(entry: JsonView, table: Text) -> bool {
    json::get(entry, "table_name"@) == Some(JsonView::Str(table))
}

/// The recovery of a table goes through just the entries of that table, each of
/// them once and in the order of the log.
pub proof fn law_entries_of_a_table(entries: Seq<JsonView>, table: Text)
    ensures
        recovery::logs_for_table(entries, table) == entries.filter(
            |entry: JsonView| is_of_table(entry, table),
        ),
    decreases entries.len(),
{
    reveal(Seq::filter);
    if entries.len() > 0 {
        law_entries_of_a_table(entries.drop_last(), table);
    }
}

/// Entries that were grouped by their tables are all there: a table has a group
/// just where an entry is of it, and its group has just its entries, in the
/// order of the log.
pub proof fn law_groups_hold_every_entry(
    groups: Map<Text, Seq<JsonView>>,
    entries: Seq<JsonView>,
    table: Text,
)
    requires
        recovery::is_grouped(groups, entries),
    ensures
        groups.contains_key(table) <==> entries.filter(
            |entry: JsonView| is_of_table(entry, table),
        ).len() > 0,
        groups.contains_key(table) ==> groups[table] == entries.filter(
            |entry: JsonView| is_of_table(entry, table),
        ),
{
    let p = |entry: JsonView| is_of_table(entry, table);
    law_entries_of_a_table(entries, table);
    if recovery::mentions_table(entries, table) {
        let i = choose|i: int|
            0 <= i < entries.len() && json::str_field(#[trigger] entries[i], "table_name"@) == Some(
                table,
            );
        assert(p(entries[i]));
        entries.lemma_filter_contains(p, i);
    } else if entries.filter(p).len() > 0 {
        let f = entries.filter(p);
        entries.lemma_filter_pred(p, 0);
        assert(f.contains(f[0]));
        entries.lemma_filter_contains_rev(p, f[0]);
        let i = choose|i: int| 0 <= i < entries.len() && entries[i] == f[0];
        assert(json::str_field(entries[i], "table_name"@) == Some(table));
    }
}

// ---------------------------------------------------------------------------
// Times
// ---------------------------------------------------------------------------

/// Whether a JSON value is a text that denotes a time, in one of three formats,
/// without double quotes and white space around it.
pub open spec fn denotes(value: JsonView, time: Instant) -> bool {
    value matches JsonView::Str(t) && {
        let clean = text::trimmed(text::trimmed(t, Strip::Quote), Strip::Space);
        let plain = outside::datetime_of(clean, "%Y-%m-%d %H:%M:%S"@);
        let with_t = outside::datetime_of(clean, "%Y-%m-%dT%H:%M:%S"@);
        ||| plain == Some(time)
        ||| plain is None && with_t == Some(time)
        ||| plain is None && with_t is None && outside::datetime_of(clean, "%Y-%m-%d %H:%M:%S%.f"@)
            == Some(time)
    }
}

/// Whether a JSON value, where there is one, denotes no time.
pub open spec fn denotes_nothing(value: Option<JsonView>) -> bool {
    value matches Some(v) ==> forall|time: Instant| !denotes(v, time)
}

/// The timestamp in the data of an entry.
pub open spec fn data_timestamp(entry: JsonView) -> Option<JsonView> {
    match json::get(entry, "data"@) {
        Some(data) => json::get(data, "timestamp"@),
        None => None,
    }
}

/// The last value of the row in the data of an entry.
pub open spec fn row_timestamp(entry: JsonView) -> Option<JsonView> {
    match json::get(entry, "data"@) {
        Some(data) => match json::get(data, "row_data"@) {
            Some(JsonView::Array(values)) => if values.len() > 0 {
                Some(values[values.len() - 1])
            } else {
                None
            },
            _ => None,
        },
        None => None,
    }
}

proof fn lemma_candidate(value: Option<JsonView>)
    ensures
        match recovery::candidate_time(value) {
            Some(t) => value matches Some(v) && denotes(v, t) && forall|x: Instant|
                denotes(v, x) ==> x == t,
            None => denotes_nothing(value),
        },
{
}

/// The time of an entry is that of its data, else that of the last value of its
/// row, else its own.
pub proof fn law_time_of_an_entry(entry: JsonView, time: Instant)
    ensures
        recovery::entry_time(entry) == Some(time) <==> {
            let own = json::get(entry, "timestamp"@);
            ||| data_timestamp(entry) matches Some(v) && denotes(v, time)
            ||| denotes_nothing(data_timestamp(entry)) && (row_timestamp(entry) matches Some(v)
                && denotes(v, time))
            ||| denotes_nothing(data_timestamp(entry)) && denotes_nothing(row_timestamp(entry))
                && (own matches Some(v) && denotes(v, time))
        },
{
    lemma_candidate(data_timestamp(entry));
    lemma_candidate(row_timestamp(entry));
    lemma_candidate(json::get(entry, "timestamp"@));
    assert(recovery::time_candidate(entry, 0) == data_timestamp(entry));
    assert(recovery::time_candidate(entry, 1) == row_timestamp(entry));
    assert(recovery::time_candidate(entry, 2) == json::get(entry, "timestamp"@));
}

/// Whether an entry is later than a time.
pub open spec fn is_after(entry: JsonView, since: Instant) -> bool {
    recovery::entry_time(entry) matches Some(t) && (since.0 < t.0 || (since.0 == t.0 && since.1
        < t.1))
}

/// The recovery since a time goes through just the entries that are later than
/// it, each of them once and in the order of the log.
pub proof fn law_entries_since_a_time(entries: Seq<JsonView>, since: Instant)
    ensures
        recovery::logs_since(entries, since) == entries.filter(
            |entry: JsonView| is_after(entry, since),
        ),
    decreases entries.len(),
{
    reveal(Seq::filter);
    if entries.len() > 0 {
        law_entries_since_a_time(entries.drop_last(), since);
    }
}

// ---------------------------------------------------------------------------
// Order
// ---------------------------------------------------------------------------

proof fn lemma_insert_multiset(sorted: Seq<JsonView>, entry: JsonView)
    ensures
        recovery::insert_by_entry_time(sorted, entry).to_multiset() == sorted.to_multiset().insert(
            entry,
        ),
    decreases sorted.len(),
{
    broadcast use vstd::seq_lib::group_to_multiset_ensures;

    if sorted.len() > 0 && rows::earlier(
        recovery::sort_time(entry),
        recovery::sort_time(sorted.last()),
    ) {
        let d = sorted.drop_last();
        lemma_insert_multiset(d, entry);
        assert(sorted =~= d.push(sorted.last()));
        assert(d.to_multiset().insert(entry).insert(sorted.last())
            =~= d.to_multiset().insert(sorted.last()).insert(entry));
    }
}

spec fn in_time_order(entries: Seq<JsonView>) -> bool {
    forall|i: int, j: int|
        0 <= i < j < entries.len() ==> !rows::earlier(
            recovery::sort_time(#[trigger] entries[j]),
            recovery::sort_time(#[trigger] entries[i]),
        )
}

proof fn lemma_insert_in_order(sorted: Seq<JsonView>, entry: JsonView, time: Instant)
    requires
        in_time_order(sorted),
    ensures
        in_time_order(recovery::insert_by_entry_time(sorted, entry)),
        recovery::insert_by_entry_time(sorted, entry).len() == sorted.len() + 1,
        forall|k: int|
            0 <= k <= sorted.len() ==> (#[trigger] recovery::insert_by_entry_time(sorted, entry)[k]
                == entry || sorted.contains(recovery::insert_by_entry_time(sorted, entry)[k])),
        recovery::insert_by_entry_time(sorted, entry).filter(
            |e: JsonView| recovery::sort_time(e) == time,
        ) == sorted.push(entry).filter(|e: JsonView| recovery::sort_time(e) == time),
    decreases sorted.len(),
{
    reveal(Seq::filter);
    let p = |e: JsonView| recovery::sort_time(e) == time;
    let result = recovery::insert_by_entry_time(sorted, entry);
    let t = recovery::sort_time(entry);
    if sorted.len() == 0 || !rows::earlier(t, recovery::sort_time(sorted.last())) {
        assert forall|i: int, j: int| 0 <= i < j < result.len() implies !rows::earlier(
            recovery::sort_time(#[trigger] result[j]),
            recovery::sort_time(#[trigger] result[i]),
        ) by {
            if j == sorted.len() {
                assert(result[i] == sorted[i]);
                assert(sorted[sorted.len() - 1] == sorted.last());
            } else {
                assert(result[i] == sorted[i] && result[j] == sorted[j]);
            }
        }
        assert forall|k: int| 0 <= k <= sorted.len() implies (#[trigger] result[k] == entry
            || sorted.contains(result[k])) by {
            if k < sorted.len() {
                assert(result[k] == sorted[k]);
            }
        }
    } else {
        let d = sorted.drop_last();
        assert(forall|i: int| 0 <= i < d.len() ==> d[i] == sorted[i]);
        lemma_insert_in_order(d, entry, time);
        let inner = recovery::insert_by_entry_time(d, entry);
        let last = sorted.last();
        assert(sorted[sorted.len() - 1] == last);
        assert forall|i: int, j: int| 0 <= i < j < result.len() implies !rows::earlier(
            recovery::sort_time(#[trigger] result[j]),
            recovery::sort_time(#[trigger] result[i]),
        ) by {
            assert(result[i] == inner[i]);
            if j == inner.len() {
                if inner[i] != entry {
                    assert(d.contains(inner[i]));
                    let m = choose|m: int| 0 <= m < d.len() && d[m] == inner[i];
                    assert(sorted[m] == d[m]);
                }
            } else {
                assert(result[j] == inner[j]);
            }
        }
        assert forall|k: int| 0 <= k <= sorted.len() implies (#[trigger] result[k] == entry
            || sorted.contains(result[k])) by {
            if k == sorted.len() {
                assert(result[k] == sorted[sorted.len() - 1]);
            } else {
                assert(result[k] == inner[k]);
                if inner[k] != entry {
                    let m = choose|m: int| 0 <= m < d.len() && d[m] == inner[k];
                    assert(sorted[m] == d[m]);
                }
            }
        }
        assert(result.drop_last() =~= inner);
        assert(sorted.push(entry).drop_last() =~= sorted);
        assert(d.push(entry).drop_last() =~= d);
        assert(t != recovery::sort_time(last));
        let kept = d.filter(p);
        assert(d.push(entry).filter(p) == if p(entry) {
            kept.push(entry)
        } else {
            kept
        });
        assert(sorted.filter(p) == if p(last) {
            kept.push(last)
        } else {
            kept
        });
        assert(sorted.push(entry).filter(p) == if p(entry) {
            sorted.filter(p).push(entry)
        } else {
            sorted.filter(p)
        });
        assert(result.filter(p) == if p(last) {
            inner.filter(p).push(last)
        } else {
            inner.filter(p)
        });
    }
}

/// The entries that a recovery since a time goes through are in the order of
/// their times, none is lost or doubled, and those of one time keep the order
/// of the log.
pub proof fn law_recovery_since_is_in_order(entries: Seq<JsonView>, time: Instant)
    ensures
        ({
            let sorted = recovery::sorted_by_entry_time(entries);
            &&& forall|i: int, j: int|
                0 <= i < j < sorted.len() ==> {
                    let a = recovery::sort_time(#[trigger] sorted[i]);
                    let b = recovery::sort_time(#[trigger] sorted[j]);
                    a.0 < b.0 || (a.0 == b.0 && a.1 <= b.1)
                }
            &&& sorted.to_multiset() == entries.to_multiset()
            &&& sorted.filter(|e: JsonView| recovery::sort_time(e) == time) == entries.filter(
                |e: JsonView| recovery::sort_time(e) == time,
            )
        }),
    decreases entries.len(),
{
    broadcast use vstd::seq_lib::group_to_multiset_ensures;

    lemma_in_order(entries, time);
}

proof fn lemma_in_order(entries: Seq<JsonView>, time: Instant)
    ensures
        ({
            let sorted = recovery::sorted_by_entry_time(entries);
            &&& in_time_order(sorted)
            &&& sorted.to_multiset() == entries.to_multiset()
            &&& sorted.filter(|e: JsonView| recovery::sort_time(e) == time) == entries.filter(
                |e: JsonView| recovery::sort_time(e) == time,
            )
        }),
    decreases entries.len(),
{
    broadcast use vstd::seq_lib::group_to_multiset_ensures;

    if entries.len() > 0 {
        let d = entries.drop_last();
        lemma_in_order(d, time);
        let before = recovery::sorted_by_entry_time(d);
        lemma_insert_in_order(before, entries.last(), time);
        lemma_insert_multiset(before, entries.last());
        assert(entries =~= d.push(entries.last()));
        reveal(Seq::filter);
        assert(before.push(entries.last()).drop_last() =~= before);
        assert(d.push(entries.last()).drop_last() =~= d);
    } else {
        assert(entries =~= Seq::empty());
    }
}

/// The time by which an entry is sorted is its time.
pub proof fn law_entries_are_sorted_by_their_time(entry: JsonView, time: Instant)
    requires
        recovery::entry_time(entry) == Some(time),
    ensures
        recovery::sort_time(entry) == time,
{
}

/// Reading the log puts its entries in the order of the timestamps in their
/// data, those without one first, and loses and doubles none.
pub proof fn law_log_is_read_in_order(entries: Seq<JsonView>)
    ensures
        ({
            let sorted = recovery::sorted_by_text(entries);
            &&& sorted.to_multiset() == entries.to_multiset()
            &&& forall|i: int, j: int|
                0 <= i < j < sorted.len() ==> {
                    data_timestamp(#[trigger] sorted[i]) matches Some(JsonView::Str(a)) ==> (
                    a.len() > 0 ==> (data_timestamp(#[trigger] sorted[j]) matches Some(
                        JsonView::Str(b),
                    ) && !text::text_lt(b, a)))
                }
        }),
    decreases entries.len(),
{
    let sorted = recovery::sorted_by_text(entries);
    recovery::law_log_order_is_stable(entries, Seq::empty());
    assert forall|i: int, j: int| 0 <= i < j < sorted.len() implies {
        data_timestamp(#[trigger] sorted[i]) matches Some(JsonView::Str(a)) ==> (a.len() > 0 ==> (
        data_timestamp(#[trigger] sorted[j]) matches Some(JsonView::Str(b)) && !text::text_lt(
            b,
            a,
        )))
    } by {
        assert(!text::text_lt(recovery::sort_text(sorted[j]), recovery::sort_text(sorted[i])));
    }
    lemma_text_multiset(entries);
}

proof fn lemma_text_multiset(entries: Seq<JsonView>)
    ensures
        recovery::sorted_by_text(entries).to_multiset() == entries.to_multiset(),
    decreases entries.len(),
{
    broadcast use vstd::seq_lib::group_to_multiset_ensures;

    if entries.len() > 0 {
        let d = entries.drop_last();
        lemma_text_multiset(d);
        lemma_insert_text_multiset(recovery::sorted_by_text(d), entries.last());
        assert(entries =~= d.push(entries.last()));
    } else {
        assert(entries =~= Seq::empty());
    }
}

proof fn lemma_insert_text_multiset(sorted: Seq<JsonView>, entry: JsonView)
    ensures
        recovery::insert_by_text(sorted, entry).to_multiset() == sorted.to_multiset().insert(
            entry,
        ),
    decreases sorted.len(),
{
    broadcast use vstd::seq_lib::group_to_multiset_ensures;

    if sorted.len() > 0 && text::text_lt(
        recovery::sort_text(entry),
        recovery::sort_text(sorted.last()),
    ) {
        let d = sorted.drop_last();
        lemma_insert_text_multiset(d, entry);
        assert(sorted =~= d.push(sorted.last()));
        assert(d.to_multiset().insert(entry).insert(sorted.last())
            =~= d.to_multiset().insert(sorted.last()).insert(entry));
    }
}

// ---------------------------------------------------------------------------
// Actions
// ---------------------------------------------------------------------------

proof fn lemma_entry_fields(entry: EntryView)
    ensures
        json::get(change_logging::entry_json(entry), "change_type"@) == Some(
            JsonView::Str(entry.change_type.name()),
        ),
        json::get(change_logging::entry_json(entry), "data"@) == Some(entry.data),
        json::get(change_logging::entry_json(entry), "table_name"@) == Some(
            JsonView::Str(entry.table_name),
        ),
        json::get(change_logging::entry_json(entry), "change_id"@) == Some(
            JsonView::Str(entry.change_id),
        ),
{
    let fields = change_logging::entry_json(entry)->Object_0;
    reveal_strlit("change_id");
    reveal_strlit("change_type");
    reveal_strlit("data");
    reveal_strlit("origin_db");
    reveal_strlit("table_name");
    assert("change_id"@[7] == 'i');
    assert("origin_db"@[0] == 'o' && "change_id"@[0] == 'c' && "table_name"@[0] == 't');
    assert("change_id"@.len() == 9 && "change_type"@.len() == 11 && "data"@.len() == 4
        && "origin_db"@.len() == 9 && "table_name"@.len() == 10);
    assert(fields.skip(1)[0] == fields[1]);
    assert(fields.skip(1).skip(1)[0] == fields[2]);
    assert(fields.skip(1).skip(1).skip(1)[0] == fields[3]);
    assert(fields.skip(1).skip(1).skip(1).skip(1)[0] == fields[4]);
    reveal_with_fuel(json::field_of, 6);
}

/// An entry in JSON tells what it tells: its identifier, its kind, its table and
/// its data.
pub proof fn law_entry_tells_its_change(entry: EntryView)
    ensures
        json::get(change_logging::entry_json(entry), "change_id"@) == Some(
            JsonView::Str(entry.change_id),
        ),
        json::get(change_logging::entry_json(entry), "change_type"@) == Some(
            JsonView::Str(
                match entry.change_type {
                    ChangeType::Insert => "Insert"@,
                    ChangeType::Update => "Update"@,
                    ChangeType::Delete => "Delete"@,
                    ChangeType::Create => "Create"@,
                    ChangeType::Drop => "Drop"@,
                },
            ),
        ),
        json::get(change_logging::entry_json(entry), "table_name"@) == Some(
            JsonView::Str(entry.table_name),
        ),
        json::get(change_logging::entry_json(entry), "data"@) == Some(entry.data),
{
    lemma_entry_fields(entry);
}

/// What a logged change asks of a recovery: a new row goes to the file of the
/// initial rows of the table, an update and a deletion to that of its updates,
/// and a creation and a drop are about both.
pub proof fn law_logged_change_goes_to_its_file(config: ConfigView, table: Text, entry: EntryView)
    ensures
        ({
            let initial = config.db_dir + "/"@ + config.table_dir + "/"@ + table + "_initial"@;
            let updates = config.db_dir + "/"@ + config.table_dir + "/"@ + table + "_updates"@;
            recovery_run::step_for(config, table, change_logging::entry_json(entry))
                == RecoveryStepView::Apply(
                match entry.change_type {
                    ChangeType::Insert => EntryActionView::Row {
                        change: RowChange::Insertion,
                        path: initial,
                    },
                    ChangeType::Update => EntryActionView::Row {
                        change: RowChange::Update,
                        path: updates,
                    },
                    ChangeType::Delete => EntryActionView::Row {
                        change: RowChange::Deletion,
                        path: updates,
                    },
                    ChangeType::Create => EntryActionView::Create { initial, updates },
                    ChangeType::Drop => EntryActionView::Drop { initial, updates },
                },
            )
        }),
{
    lemma_entry_fields(entry);
    reveal_strlit("Insert");
    reveal_strlit("Update");
    reveal_strlit("Delete");
    reveal_strlit("Create");
    reveal_strlit("Drop");
    assert("Insert"@[0] == 'I' && "Update"@[0] == 'U' && "Delete"@[0] == 'D' && "Create"@[0] == 'C'
        && "Drop"@[0] == 'D' && "Drop"@.len() == 4 && "Delete"@.len() == 6);
    let front = config.db_dir + "/"@ + config.table_dir + "/"@;
    assert(front + (table + "_initial"@) =~= front + table + "_initial"@);
    assert(front + (table + "_updates"@) =~= front + table + "_updates"@);
}

/// An entry of a kind that there is not is passed over, and one without a kind
/// ends the recovery.
pub proof fn law_other_entries_are_passed_over(config: ConfigView, table: Text, log: JsonView)
    ensures
        match json::get(log, "change_type"@) {
            Some(JsonView::Str(kind)) => !seq![
                "Insert"@,
                "Update"@,
                "Delete"@,
                "Create"@,
                "Drop"@,
            ].contains(kind) ==> recovery_run::step_for(config, table, log)
                == RecoveryStepView::Skip(kind),
            _ => recovery_run::step_for(config, table, log) is Fail,
        },
{
    let kinds = seq!["Insert"@, "Update"@, "Delete"@, "Create"@, "Drop"@];
    assert(kinds[0] == "Insert"@ && kinds[1] == "Update"@ && kinds[2] == "Delete"@ && kinds[3]
        == "Create"@ && kinds[4] == "Drop"@);
}

proof fn lemma_replaced_end(name: Text, suffix: Text)
    requires
        suffix.len() > 0,
        forall|i: int| 0 <= i < name.len() ==> !text::occurs_at(name + suffix, suffix, i),
    ensures
        text::replaced(name + suffix, suffix, Seq::empty()) == name,
    decreases name.len(),
{
    let s = name + suffix;
    if name.len() == 0 {
        assert(s =~= suffix);
        assert(s.subrange(0, suffix.len() as int) =~= suffix);
        assert(s.skip(suffix.len() as int) =~= Seq::empty());
        assert(text::replaced(Seq::empty(), suffix, Seq::empty()) =~= Seq::empty());
        assert(Seq::<char>::empty() + Seq::<char>::empty() =~= name);
    } else {
        let rest = name.skip(1);
        assert(!text::occurs_at(s, suffix, 0));
        assert(s.skip(1) =~= rest + suffix);
        assert forall|i: int| 0 <= i < rest.len() implies !text::occurs_at(
            rest + suffix,
            suffix,
            i,
        ) by {
            assert(!text::occurs_at(s, suffix, i + 1));
            assert((rest + suffix).subrange(i, i + suffix.len()) =~= s.subrange(
                i + 1,
                i + 1 + suffix.len(),
            ));
        }
        lemma_replaced_end(rest, suffix);
        assert(seq![s[0]] + rest =~= name);
    }
}

/// The table to which a file belongs is read off the path of the file: of a file
/// with the name of the table and a suffix, in whatever directory, it is the
/// name. The name holds no slash, and the suffix begins nowhere in it.
pub proof fn law_table_is_read_off_its_file(directory: Text, name: Text, suffix: Text)
    requires
        suffix.len() > 0,
        !name.contains('/'),
        !suffix.contains('/'),
        forall|i: int| 0 <= i < name.len() ==> !text::occurs_at(name + suffix, suffix, i),
    ensures
        recovery::table_of_path(directory + seq!['/'] + (name + suffix), suffix) == name,
{
    let file = name + suffix;
    assert(!file.contains('/')) by {
        if file.contains('/') {
            let k = choose|k: int| 0 <= k < file.len() && file[k] == '/';
            if k < name.len() {
                assert(name[k] == '/');
            } else {
                assert(suffix[k - name.len()] == '/');
            }
        }
    }
    text::lemma_split_last(directory, file, '/');
    lemma_replaced_end(name, suffix);
}

// ---------------------------------------------------------------------------
// The schema and requests
// ---------------------------------------------------------------------------

/// Recovering the creation of a table leaves every other table of the schema, and
/// every other field of it, as it was.
pub proof fn law_recovered_table_leaves_others(
    schema: JsonView,
    initial: Text,
    updates: Text,
    log: JsonView,
    other: Text,
    field: Text,
)
    requires
        schema is Object,
        other != initial,
        other != updates,
        field != "tables"@,
    ensures
        ({
            let after = recovery::recovered_schema(schema, initial, updates, log);
            &&& json::get(after, field) == json::get(schema, field)
            &&& json::get(after, "tables"@) matches Some(tables) && json::get(tables, other)
                == json::field_of(recovery::tables_of(schema), other)
        }),
{
    let columns = recovery::recovered_columns(log);
    let t0 = recovery::tables_of(schema);
    let t1 = recovery::put_table(t0, initial, columns);
    let t2 = recovery::put_table(t1, updates, columns);
    json::lemma_with_field(
        t0,
        initial,
        recovery::table_with_columns(json::field_of(t0, initial), initial, columns),
        other,
    );
    json::lemma_with_field(
        t1,
        updates,
        recovery::table_with_columns(json::field_of(t1, updates), updates, columns),
        other,
    );
    json::lemma_with_field(recovery::fields_of(schema), "tables"@, JsonView::Object(t2), field);
    json::lemma_with_field(
        recovery::fields_of(schema),
        "tables"@,
        JsonView::Object(t2),
        "tables"@,
    );
}

/// A request for a recovery since a time gives a time or a number of hours, and
/// not both: else, and where the time is none, it is refused.
pub proof fn law_recovery_since_one_time(timestamp: Option<Text>, hours: Option<i64>)
    ensures
        match (timestamp, hours) {
            (Some(t), None) => match outside::rfc3339_of(t) {
                Some(x) => recovery::since_of(timestamp, hours) == Ok::<_, json::ReplyView>(
                    Since::Time(x),
                ),
                None => recovery::since_of(timestamp, hours) matches Err(reply) && reply.status
                    == 400,
            },
            (None, Some(h)) => recovery::since_of(timestamp, hours) == Ok::<_, json::ReplyView>(
                Since::Hours(h),
            ),
            _ => recovery::since_of(timestamp, hours) matches Err(reply) && reply.status == 400,
        },
{
}

/// A recovery is a success just where neither it nor the refresh of the tables
/// after it failed.
pub proof fn law_recovery_succeeds_as_a_whole(
    recovery_error: Option<Text>,
    refresh_error: Option<Text>,
    failed: Text,
    table: Text,
    end: TableRecovery,
)
    ensures
        recovery::recovery_outcome(recovery_error, refresh_error, failed).status == if recovery_error
            is None && refresh_error is None {
            200u16
        } else {
            500u16
        },
        recovery::table_recovery_outcome(table, end).status == if end is Done {
            200u16
        } else {
            500u16
        },
{
}

/// A table that is recovered for the first time has its name and its columns, and
/// nothing else.
pub proof fn law_recovered_table_has_its_name(
    schema: JsonView,
    initial: Text,
    updates: Text,
    log: JsonView,
)
    requires
        schema is Object,
        initial != updates,
        json::field_of(recovery::tables_of(schema), initial) is None,
        json::field_of(recovery::tables_of(schema), updates) is None,
    ensures
        ({
            let after = recovery::recovered_schema(schema, initial, updates, log);
            let columns = recovery::recovered_columns(log);
            &&& json::get(after, "tables"@) matches Some(tables)
            &&& json::get(tables, initial) == Some(
                JsonView::Object(seq![("columns"@, columns), ("name"@, JsonView::Str(initial))]),
            )
            &&& json::get(tables, updates) == Some(
                JsonView::Object(seq![("columns"@, columns), ("name"@, JsonView::Str(updates))]),
            )
        }),
{
    let columns = recovery::recovered_columns(log);
    let t0 = recovery::tables_of(schema);
    let v1 = recovery::table_with_columns(json::field_of(t0, initial), initial, columns);
    let t1 = recovery::put_table(t0, initial, columns);
    let v2 = recovery::table_with_columns(json::field_of(t1, updates), updates, columns);
    let t2 = recovery::put_table(t1, updates, columns);
    json::lemma_with_field(t0, initial, v1, updates);
    json::lemma_with_field(t1, updates, v2, initial);
    json::lemma_with_field(
        recovery::fields_of(schema),
        "tables"@,
        JsonView::Object(t2),
        "tables"@,
    );
}

/// The plan of a recovery since a time has for each table just its entries that
/// are later than that time, in the order of their times, and no table without
/// one.
pub proof fn law_plan_since_a_time(
    plan: Map<Text, Seq<JsonView>>,
    entries: Seq<JsonView>,
    since: Instant,
    table: Text,
)
    requires
        recovery::is_plan_since(plan, entries, since),
    ensures
        ({
            let own = entries.filter(|e: JsonView| is_after(e, since)).filter(
                |e: JsonView| is_of_table(e, table),
            );
            &&& plan.contains_key(table) <==> own.len() > 0
            &&& plan.contains_key(table) ==> plan[table].to_multiset() == own.to_multiset()
            &&& plan.contains_key(table) ==> forall|i: int, j: int|
                0 <= i < j < plan[table].len() ==> {
                    let a = recovery::sort_time(#[trigger] plan[table][i]);
                    let b = recovery::sort_time(#[trigger] plan[table][j]);
                    a.0 < b.0 || (a.0 == b.0 && a.1 <= b.1)
                }
        }),
{
    let later = recovery::logs_since(entries, since);
    law_entries_since_a_time(entries, since);
    law_entries_of_a_table(later, table);
    let groups = Map::<Text, Seq<JsonView>>::new(
        |t: Text| recovery::mentions_table(later, t),
        |t: Text| recovery::logs_for_table(later, t),
    );
    assert(recovery::is_grouped(groups, later));
    law_groups_hold_every_entry(groups, later, table);
    law_recovery_since_is_in_order(recovery::logs_for_table(later, table), (0, 0));
    assert(plan.contains_key(table) == groups.contains_key(table));
}

/// A log in which an entry does not name its table cannot be grouped where that is
/// asked for.
pub proof fn law_every_entry_names_its_table(entries: Seq<JsonView>)
    ensures
        recovery::all_name_tables(entries) <==> forall|i: int|
            0 <= i < entries.len() ==> (json::get(#[trigger] entries[i], "table_name"@) matches Some(
                JsonView::Str(_),
            )),
{
}

} // verus!
