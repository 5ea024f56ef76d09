//! What the entries of the log do when they are applied again.

use crate::config::database_config::{ConfigView, DatabaseConfig};
use crate::json;
use crate::json::{object2, object3, set_field, Fields, Json, JsonView, Reply, ReplyView};
use crate::outside;
use crate::outside::{parse_datetime, parse_rfc3339, Instant};
use crate::records::rows;
use crate::records::rows::{is_earlier, plain_cell, Row};
use crate::schema::schema;
use crate::schema::schema::{drop_table, Schema};
use crate::string_map::{Duplicate, StringMap};
use crate::text;
use crate::text::{
    concat2, concat3, concat4, join_with, replace_all, split_on, str_eq, str_lt, trim_matches,
    Strip, Text,
};
use vstd::prelude::*;

verus! {

/// Recovers a database from its log.
#[derive(Debug, PartialEq, Eq)]
pub struct LogRecoveryManager {
    pub config: DatabaseConfig,
}

impl DeepView for LogRecoveryManager {
    type V = ConfigView;

    open spec fn deep_view(&self) -> ConfigView {
        self.config.deep_view()
    }
}

impl LogRecoveryManager {
    /// The manager for a configuration.
    pub fn new(config: DatabaseConfig) -> (r: Self)
        ensures
            r.config == config,
    {
        LogRecoveryManager { config }
    }
}

impl Clone for LogRecoveryManager {
    fn clone(&self) -> (r: Self)
        ensures
            r.deep_view() == self.deep_view(),
    {
        LogRecoveryManager { config: self.config.clone() }
    }
}

// ---------------------------------------------------------------------------
// The order of entries
// ---------------------------------------------------------------------------

/// The text by which entries are sorted when they are read: the timestamp of
/// their data, and nothing where they have none.
pub open spec fn sort_text(entry: JsonView) -> Text {
    match json::get(entry, "data"@) {
        Some(data) => match json::str_field(data, "timestamp"@) {
            Some(t) => t,
            None => Seq::empty(),
        },
        None => Seq::empty(),
    }
}

/// `entry` among entries that are sorted by text: after the last that does not
/// come after it.
pub open spec fn insert_by_text(sorted: Seq<JsonView>, entry: JsonView) -> Seq<JsonView>
    decreases sorted.len(),
{
    if sorted.len() == 0 || !text::text_lt(sort_text(entry), sort_text(sorted.last())) {
        sorted.push(entry)
    } else {
        insert_by_text(sorted.drop_last(), entry).push(sorted.last())
    }
}

/// The entries sorted by text. Entries of one text keep their order.
pub open spec fn sorted_by_text(entries: Seq<JsonView>) -> Seq<JsonView>
    decreases entries.len(),
{
    if entries.len() == 0 {
        Seq::empty()
    } else {
        insert_by_text(sorted_by_text(entries.drop_last()), entries.last())
    }
}

proof fn lemma_insert_by_text_splits(sorted: Seq<JsonView>, entry: JsonView, i: int)
    requires
        0 <= i <= sorted.len(),
        i > 0 ==> !text::text_lt(sort_text(entry), sort_text(sorted[i - 1])),
        forall|k: int|
            i <= k < sorted.len() ==> text::text_lt(
                sort_text(entry),
                sort_text(#[trigger] sorted[k]),
            ),
    ensures
        insert_by_text(sorted, entry) == sorted.insert(i, entry),
    decreases sorted.len(),
{
    if i == sorted.len() {
        assert(sorted.insert(i, entry) =~= sorted.push(entry));
    } else {
        let d = sorted.drop_last();
        assert(forall|k: int| 0 <= k < d.len() ==> d[k] == sorted[k]);
        lemma_insert_by_text_splits(d, entry, i);
        assert(sorted.insert(i, entry) =~= d.insert(i, entry).push(sorted.last()));
    }
}

fn text_of_entry(entry: &Json) -> (r: String)
    ensures
        r@ == sort_text(entry.deep_view()),
{
    match entry.get("data") {
        Some(data) => match data.str_field("timestamp") {
            Some(t) => t.clone(),
            None => String::new(),
        },
        None => String::new(),
    }
}

/// The entries of the log in the order in which they are read.
pub fn sort_log_entries(entries: &Vec<Json>) -> (r: Vec<Json>)
    ensures
        r.deep_view() == sorted_by_text(entries.deep_view()),
{
    let ghost es = entries.deep_view();
    let mut sorted: Vec<Json> = Vec::new();
    let mut i: usize = 0;
    assert(es.take(0) =~= Seq::<JsonView>::empty());
    assert(sorted.deep_view() =~= Seq::<JsonView>::empty());
    while i < entries.len()
        invariant
            i <= entries@.len(),
            es == entries.deep_view(),
            sorted.deep_view() == sorted_by_text(es.take(i as int)),
        decreases entries@.len() - i,
    {
        let key = text_of_entry(&entries[i]);
        let ghost before = sorted.deep_view();
        let ghost entry = es[i as int];
        let mut j: usize = sorted.len();
        while j > 0 && str_lt(key.as_str(), text_of_entry(&sorted[j - 1]).as_str())
            invariant
                j <= sorted@.len(),
                before == sorted.deep_view(),
                key@ == sort_text(entry),
                forall|k: int|
                    j <= k < sorted@.len() ==> text::text_lt(
                        sort_text(entry),
                        sort_text(#[trigger] before[k]),
                    ),
            decreases j,
        {
            assert(before[j - 1] == sorted@[j - 1].deep_view());
            j = j - 1;
        }
        proof {
            if j > 0 {
                assert(before[j - 1] == sorted@[j - 1].deep_view());
            }
            lemma_insert_by_text_splits(before, entry, j as int);
        }
        sorted.insert(j, entries[i].copy());
        proof {
            assert(sorted.deep_view() =~= before.insert(j as int, entry));
            assert(es.take(i as int + 1).drop_last() =~= es.take(i as int));
        }
        i = i + 1;
    }
    assert(es.take(i as int) =~= es);
    sorted
}

/// Whether entries are sorted by text.
pub open spec fn is_sorted_by_text(entries: Seq<JsonView>) -> bool {
    forall|i: int, j: int|
        0 <= i < j < entries.len() ==> !text::text_lt(
            sort_text(#[trigger] entries[j]),
            sort_text(#[trigger] entries[i]),
        )
}

/// The entries of one text, in their order.
pub open spec fn entries_with_text(entries: Seq<JsonView>, t: Text) -> Seq<JsonView>
    decreases entries.len(),
{
    if entries.len() == 0 {
        Seq::empty()
    } else if sort_text(entries.last()) == t {
        entries_with_text(entries.drop_last(), t).push(entries.last())
    } else {
        entries_with_text(entries.drop_last(), t)
    }
}

/// Reading the log puts its entries in the order of their timestamps, and keeps
/// all of them; those of one timestamp keep their order.
pub proof fn law_log_order_is_stable(entries: Seq<JsonView>, t: Text)
    ensures
        is_sorted_by_text(sorted_by_text(entries)),
        sorted_by_text(entries).len() == entries.len(),
        entries_with_text(sorted_by_text(entries), t) == entries_with_text(entries, t),
    decreases entries.len(),
{
    if entries.len() > 0 {
        law_log_order_is_stable(entries.drop_last(), t);
        lemma_insert_by_text_keeps(sorted_by_text(entries.drop_last()), entries.last(), t);
    }
}

proof fn lemma_insert_by_text_keeps(sorted: Seq<JsonView>, entry: JsonView, t: Text)
    requires
        is_sorted_by_text(sorted),
    ensures
        is_sorted_by_text(insert_by_text(sorted, entry)),
        insert_by_text(sorted, entry).len() == sorted.len() + 1,
        forall|k: int|
            0 <= k <= sorted.len() ==> #[trigger] insert_by_text(sorted, entry)[k] == entry
                || exists|m: int|
                0 <= m < sorted.len() && insert_by_text(sorted, entry)[k] == #[trigger] sorted[m],
        entries_with_text(insert_by_text(sorted, entry), t) == if sort_text(entry) == t {
            entries_with_text(sorted, t).push(entry)
        } else {
            entries_with_text(sorted, t)
        },
    decreases sorted.len(),
{
    let result = insert_by_text(sorted, entry);
    if sorted.len() == 0 || !text::text_lt(sort_text(entry), sort_text(sorted.last())) {
        assert(result.drop_last() =~= sorted);
        assert forall|i: int, j: int| 0 <= i < j < result.len() implies !text::text_lt(
            sort_text(#[trigger] result[j]),
            sort_text(#[trigger] result[i]),
        ) by {
            if j == sorted.len() {
                assert(result[j] == entry);
                assert(result[i] == sorted[i]);
                if i < sorted.len() - 1 {
                    assert(sorted[sorted.len() - 1] == sorted.last());
                    assert(!text::text_lt(sort_text(sorted.last()), sort_text(sorted[i])));
                    lemma_not_less_transitive(
                        sort_text(entry),
                        sort_text(sorted.last()),
                        sort_text(sorted[i]),
                    );
                }
            } else {
                assert(result[i] == sorted[i] && result[j] == sorted[j]);
            }
        }
        assert forall|k: int| 0 <= k <= sorted.len() implies #[trigger] result[k] == entry
            || exists|m: int| 0 <= m < sorted.len() && result[k] == #[trigger] sorted[m] by {
            if k < sorted.len() {
                assert(result[k] == sorted[k]);
            }
        }
    } else {
        let d = sorted.drop_last();
        assert forall|i: int, j: int| 0 <= i < j < d.len() implies !text::text_lt(
            sort_text(#[trigger] d[j]),
            sort_text(#[trigger] d[i]),
        ) by {
            assert(d[i] == sorted[i] && d[j] == sorted[j]);
        }
        lemma_insert_by_text_keeps(d, entry, t);
        let inner = insert_by_text(d, entry);
        assert(result.drop_last() =~= inner);
        assert forall|i: int, j: int| 0 <= i < j < result.len() implies !text::text_lt(
            sort_text(#[trigger] result[j]),
            sort_text(#[trigger] result[i]),
        ) by {
            if j == inner.len() {
                assert(result[j] == sorted.last());
                assert(result[i] == inner[i]);
                if inner[i] == entry {
                    text::lemma_text_lt_total(sort_text(entry), sort_text(sorted.last()));
                } else {
                    let m = choose|m: int| 0 <= m < d.len() && inner[i] == #[trigger] d[m];
                    assert(d[m] == sorted[m]);
                    assert(sorted[sorted.len() - 1] == sorted.last());
                }
            } else {
                assert(result[i] == inner[i] && result[j] == inner[j]);
            }
        }
        assert forall|k: int| 0 <= k <= sorted.len() implies #[trigger] result[k] == entry
            || exists|m: int| 0 <= m < sorted.len() && result[k] == #[trigger] sorted[m] by {
            if k == sorted.len() {
                assert(result[k] == sorted[sorted.len() - 1]);
            } else {
                assert(result[k] == inner[k]);
                if inner[k] != entry {
                    let m = choose|m: int| 0 <= m < d.len() && inner[k] == #[trigger] d[m];
                    assert(sorted[m] == d[m]);
                }
            }
        }
        if sort_text(entry) == t {
            text::lemma_text_lt_total(t, t);
            assert(sort_text(sorted.last()) != t);
        }
    }
}

proof fn lemma_not_less_transitive(a: Text, b: Text, c: Text)
    requires
        !text::text_lt(a, b),
        !text::text_lt(b, c),
    ensures
        !text::text_lt(a, c),
{
    text::lemma_text_lt_total(a, b);
    text::lemma_text_lt_total(b, c);
    if text::text_lt(a, c) {
        if b == c {
        } else {
            assert(text::text_lt(c, b));
            text::lemma_text_lt_transitive(a, c, b);
        }
    }
}

// ---------------------------------------------------------------------------
// The time of an entry
// ---------------------------------------------------------------------------

/// The last element of the row of an entry.
pub open spec fn last_of_row(entry: JsonView) -> Option<JsonView> {
    match json::get(entry, "data"@) {
        Some(data) => match json::get(data, "row_data"@) {
            Some(JsonView::Array(v)) => if v.len() > 0 {
                Some(v.last())
            } else {
                None
            },
            _ => None,
        },
        None => None,
    }
}

/// The value of an entry that may give its time: the timestamp of its data, the
/// last element of its row, or its own timestamp.
pub open spec fn time_candidate(entry: JsonView, i: int) -> Option<JsonView> {
    if i == 0 {
        match json::get(entry, "data"@) {
            Some(data) => json::get(data, "timestamp"@),
            None => None,
        }
    } else if i == 1 {
        last_of_row(entry)
    } else {
        json::get(entry, "timestamp"@)
    }
}

/// The time that a text denotes, in one of three formats, without double quotes
/// and white space around it.
pub open spec fn any_time(t: Text) -> Option<Instant> {
    let clean = text::trimmed(text::trimmed(t, Strip::Quote), Strip::Space);
    match outside::datetime_of(clean, "%Y-%m-%d %H:%M:%S"@) {
        Some(x) => Some(x),
        None => match outside::datetime_of(clean, "%Y-%m-%dT%H:%M:%S"@) {
            Some(x) => Some(x),
            None => outside::datetime_of(clean, "%Y-%m-%d %H:%M:%S%.f"@),
        },
    }
}

/// The time that a value gives.
pub open spec fn candidate_time(v: Option<JsonView>) -> Option<Instant> {
    match v {
        Some(JsonView::Str(t)) => any_time(t),
        _ => None,
    }
}

/// The time of an entry: the first that one of its candidates gives.
pub open spec fn entry_time(entry: JsonView) -> Option<Instant> {
    match candidate_time(time_candidate(entry, 0)) {
        Some(x) => Some(x),
        None => match candidate_time(time_candidate(entry, 1)) {
            Some(x) => Some(x),
            None => candidate_time(time_candidate(entry, 2)),
        },
    }
}

fn read_any_time(t: &str) -> (r: Option<Instant>)
    ensures
        r == any_time(t@),
{
    let unquoted = trim_matches(t, Strip::Quote);
    let clean = trim_matches(unquoted.as_str(), Strip::Space);
    match parse_datetime(clean.as_str(), "%Y-%m-%d %H:%M:%S") {
        Some(x) => Some(x),
        None => match parse_datetime(clean.as_str(), "%Y-%m-%dT%H:%M:%S") {
            Some(x) => Some(x),
            None => parse_datetime(clean.as_str(), "%Y-%m-%d %H:%M:%S%.f"),
        },
    }
}

fn read_candidate(v: Option<&Json>) -> (r: Option<Instant>)
    ensures
        r == candidate_time(v.deep_view()),
{
    match v {
        Some(j) => match j.as_str() {
            Some(t) => read_any_time(t.as_str()),
            None => None,
        },
        None => None,
    }
}

/// The time of an entry.
pub fn get_log_timestamp(log: &Json) -> (r: Option<Instant>)
    ensures
        r == entry_time(log.deep_view()),
{
    let data = log.get("data");
    let direct = match data {
        Some(d) => d.get("timestamp"),
        None => None,
    };
    assert(direct.deep_view() == time_candidate(log.deep_view(), 0));
    if let Some(x) = read_candidate(direct) {
        return Some(x);
    }
    let row = match data {
        Some(d) => match d.get("row_data") {
            Some(v) => v.as_array(),
            None => None,
        },
        None => None,
    };
    let last = match row {
        Some(v) => if v.len() > 0 {
            assert(v.deep_view().last() == v@[v@.len() - 1].deep_view());
            Some(&v[v.len() - 1])
        } else {
            None
        },
        None => None,
    };
    assert(last.deep_view() == time_candidate(log.deep_view(), 1));
    if let Some(x) = read_candidate(last) {
        return Some(x);
    }
    let own = log.get("timestamp");
    assert(own.deep_view() == time_candidate(log.deep_view(), 2));
    read_candidate(own)
}

// ---------------------------------------------------------------------------
// Entries by table
// ---------------------------------------------------------------------------

/// The entries of a table, in their order.
pub open spec fn logs_for_table(entries: Seq<JsonView>, table: Text) -> Seq<JsonView>
    decreases entries.len(),
{
    if entries.len() == 0 {
        Seq::empty()
    } else {
        let before = logs_for_table(entries.drop_last(), table);
        if json::str_field(entries.last(), "table_name"@) == Some(table) {
            before.push(entries.last())
        } else {
            before
        }
    }
}

/// Whether any entry is of a table.
pub open spec fn mentions_table(entries: Seq<JsonView>, table: Text) -> bool {
    exists|i: int|
        0 <= i < entries.len() && json::str_field(#[trigger] entries[i], "table_name"@) == Some(
            table,
        )
}

/// Whether every entry names its table.
pub open spec fn all_name_tables(entries: Seq<JsonView>) -> bool {
    forall|i: int|
        0 <= i < entries.len() ==> json::str_field(#[trigger] entries[i], "table_name"@) is Some
}

/// The entries of a table, in their order.
pub fn select_logs(entries: &Vec<Json>, table_name: &str) -> (r: Vec<Json>)
    ensures
        r.deep_view() == logs_for_table(entries.deep_view(), table_name@),
{
    let ghost es = entries.deep_view();
    let mut r: Vec<Json> = Vec::new();
    let mut i: usize = 0;
    assert(es.take(0) =~= Seq::<JsonView>::empty());
    assert(r.deep_view() =~= Seq::<JsonView>::empty());
    while i < entries.len()
        invariant
            i <= entries@.len(),
            es == entries.deep_view(),
            r.deep_view() == logs_for_table(es.take(i as int), table_name@),
        decreases entries@.len() - i,
    {
        let ghost before = r.deep_view();
        assert(es.take(i as int + 1).drop_last() =~= es.take(i as int));
        assert(es.take(i as int + 1).last() == entries@[i as int].deep_view());
        let own = match entries[i].str_field("table_name") {
            Some(name) => str_eq(name.as_str(), table_name),
            None => false,
        };
        if own {
            r.push(entries[i].copy());
            assert(r.deep_view() =~= before.push(es[i as int]));
        }
        i = i + 1;
    }
    assert(es.take(i as int) =~= es);
    r
}

/// Whether a map holds just the entries of each table, in their order.
pub open spec fn is_grouped(groups: Map<Text, Seq<JsonView>>, entries: Seq<JsonView>) -> bool {
    forall|table: Text|
        #![trigger groups.contains_key(table)]
        groups.contains_key(table) == mentions_table(entries, table) && (groups.contains_key(table)
            ==> groups[table] == logs_for_table(entries, table))
}

proof fn lemma_group_step(
    before: Map<Text, Seq<JsonView>>,
    entries: Seq<JsonView>,
    entry: JsonView,
    table: Text,
)
    requires
        is_grouped(before, entries),
        json::str_field(entry, "table_name"@) == Some(table),
    ensures
        is_grouped(
            before.insert(
                table,
                if before.contains_key(table) {
                    before[table].push(entry)
                } else {
                    seq![entry]
                },
            ),
            entries.push(entry),
        ),
{
    let all = entries.push(entry);
    let after = before.insert(
        table,
        if before.contains_key(table) {
            before[table].push(entry)
        } else {
            seq![entry]
        },
    );
    assert(all.drop_last() =~= entries);
    assert(all.last() == entry);
    assert forall|t: Text|
        #![trigger after.contains_key(t)]
        after.contains_key(t) == mentions_table(all, t) && (after.contains_key(t) ==> after[t]
            == logs_for_table(all, t)) by {
        assert(before.contains_key(t) == mentions_table(entries, t));
        if mentions_table(entries, t) {
            let i = choose|i: int|
                0 <= i < entries.len() && json::str_field(#[trigger] entries[i], "table_name"@)
                    == Some(t);
            assert(json::str_field(all[i], "table_name"@) == Some(t));
        }
        if t == table {
            assert(json::str_field(all[entries.len() as int], "table_name"@) == Some(t));
            if !before.contains_key(t) {
                lemma_no_logs(entries, t);
                assert(Seq::<JsonView>::empty().push(entry) =~= seq![entry]);
            }
        } else if mentions_table(all, t) {
            let i = choose|i: int|
                0 <= i < all.len() && json::str_field(#[trigger] all[i], "table_name"@) == Some(t);
            assert(i < entries.len());
            assert(json::str_field(entries[i], "table_name"@) == Some(t));
        }
    }
}

proof fn lemma_group_skip(
    groups: Map<Text, Seq<JsonView>>,
    entries: Seq<JsonView>,
    entry: JsonView,
)
    requires
        is_grouped(groups, entries),
        json::str_field(entry, "table_name"@) is None,
    ensures
        is_grouped(groups, entries.push(entry)),
{
    let all = entries.push(entry);
    assert(all.drop_last() =~= entries);
    assert forall|t: Text|
        #![trigger groups.contains_key(t)]
        groups.contains_key(t) == mentions_table(all, t) && (groups.contains_key(t) ==> groups[t]
            == logs_for_table(all, t)) by {
        if mentions_table(entries, t) {
            let i = choose|i: int|
                0 <= i < entries.len() && json::str_field(#[trigger] entries[i], "table_name"@)
                    == Some(t);
            assert(json::str_field(all[i], "table_name"@) == Some(t));
        }
        if mentions_table(all, t) {
            let i = choose|i: int|
                0 <= i < all.len() && json::str_field(#[trigger] all[i], "table_name"@) == Some(t);
            assert(i < entries.len());
            assert(json::str_field(entries[i], "table_name"@) == Some(t));
        }
    }
}

proof fn lemma_no_logs(entries: Seq<JsonView>, table: Text)
    requires
        !mentions_table(entries, table),
    ensures
        logs_for_table(entries, table) == Seq::<JsonView>::empty(),
    decreases entries.len(),
{
    if entries.len() > 0 {
        let d = entries.drop_last();
        assert(!mentions_table(d, table)) by {
            if mentions_table(d, table) {
                let i = choose|i: int|
                    0 <= i < d.len() && json::str_field(#[trigger] d[i], "table_name"@) == Some(
                        table,
                    );
                assert(json::str_field(entries[i], "table_name"@) == Some(table));
            }
        }
        lemma_no_logs(d, table);
        assert(json::str_field(entries[entries.len() - 1], "table_name"@) != Some(table));
    }
}

fn add_to_group(groups: &mut StringMap<Vec<Json>>, table: String, entry: Json)
    ensures
        final(groups).deep_view() == old(groups).deep_view().insert(
            table@,
            if old(groups).deep_view().contains_key(table@) {
                old(groups).deep_view()[table@].push(entry.deep_view())
            } else {
                seq![entry.deep_view()]
            },
        ),
{
    let ghost g0 = groups.deep_view();
    let ghost e = entry.deep_view();
    match groups.remove(table.as_str()) {
        Some(mut logs) => {
            let ghost l0 = logs.deep_view();
            logs.push(entry);
            assert(logs.deep_view() =~= l0.push(e));
            groups.insert(table, logs);
            assert(groups.deep_view() =~= g0.insert(table@, l0.push(e)));
        },
        None => {
            let mut logs: Vec<Json> = Vec::new();
            logs.push(entry);
            assert(logs.deep_view() =~= seq![e]);
            groups.insert(table, logs);
            assert(groups.deep_view() =~= g0.insert(table@, seq![e]));
        },
    }
}

/// The entries of each table, in their order. With `strict` an entry that does
/// not name its table is an error, else it is passed over.
pub fn group_logs(entries: &Vec<Json>, strict: bool) -> (r: Result<StringMap<Vec<Json>>, String>)
    ensures
        match r {
            Ok(groups) => (strict ==> all_name_tables(entries.deep_view())) && is_grouped(
                groups.deep_view(),
                entries.deep_view(),
            ),
            Err(e) => strict && !all_name_tables(entries.deep_view()) && e@
                == "Invalid table name in log entry"@,
        },
{
    let ghost es = entries.deep_view();
    let mut groups: StringMap<Vec<Json>> = StringMap::new();
    let mut i: usize = 0;
    assert(es.take(0) =~= Seq::<JsonView>::empty());
    while i < entries.len()
        invariant
            i <= entries@.len(),
            es == entries.deep_view(),
            strict ==> forall|k: int|
                0 <= k < i ==> json::str_field(#[trigger] es[k], "table_name"@) is Some,
            is_grouped(groups.deep_view(), es.take(i as int)),
        decreases entries@.len() - i,
    {
        let ghost before = groups.deep_view();
        assert(es.take(i as int + 1) =~= es.take(i as int).push(es[i as int]));
        assert(es[i as int] == entries@[i as int].deep_view());
        match entries[i].str_field("table_name") {
            Some(name) => {
                proof {
                    lemma_group_step(before, es.take(i as int), es[i as int], name@);
                }
                add_to_group(&mut groups, name.clone(), entries[i].copy());
            },
            None => {
                if strict {
                    assert(json::str_field(es[i as int], "table_name"@) is None);
                    return Err("Invalid table name in log entry".to_owned());
                }
                proof {
                    lemma_group_skip(before, es.take(i as int), es[i as int]);
                }
            },
        }
        i = i + 1;
    }
    assert(es.take(i as int) =~= es);
    Ok(groups)
}

/// The entries that are later than a time, in their order.
pub open spec fn logs_since(entries: Seq<JsonView>, since: Instant) -> Seq<JsonView>
    decreases entries.len(),
{
    if entries.len() == 0 {
        Seq::empty()
    } else {
        let before = logs_since(entries.drop_last(), since);
        match entry_time(entries.last()) {
            Some(t) if rows::earlier(since, t) => before.push(entries.last()),
            _ => before,
        }
    }
}

/// The entries that are later than a time, in their order. An entry without a
/// time is not among them.
pub fn select_logs_since(entries: &Vec<Json>, since: Instant) -> (r: Vec<Json>)
    ensures
        r.deep_view() == logs_since(entries.deep_view(), since),
{
    let ghost es = entries.deep_view();
    let mut r: Vec<Json> = Vec::new();
    let mut i: usize = 0;
    assert(es.take(0) =~= Seq::<JsonView>::empty());
    assert(r.deep_view() =~= Seq::<JsonView>::empty());
    while i < entries.len()
        invariant
            i <= entries@.len(),
            es == entries.deep_view(),
            r.deep_view() == logs_since(es.take(i as int), since),
        decreases entries@.len() - i,
    {
        let ghost before = r.deep_view();
        assert(es.take(i as int + 1).drop_last() =~= es.take(i as int));
        assert(es.take(i as int + 1).last() == entries@[i as int].deep_view());
        if let Some(t) = get_log_timestamp(&entries[i]) {
            if is_earlier(since, t) {
                r.push(entries[i].copy());
                assert(r.deep_view() =~= before.push(es[i as int]));
            }
        }
        i = i + 1;
    }
    assert(es.take(i as int) =~= es);
    r
}

/// The time by which an entry is sorted. Those that are sorted have one.
pub open spec fn sort_time(entry: JsonView) -> Instant {
    match entry_time(entry) {
        Some(t) => t,
        None => (0, 0),
    }
}

/// `entry` among entries that are sorted by time: after the last that is not
/// later.
pub open spec fn insert_by_entry_time(sorted: Seq<JsonView>, entry: JsonView) -> Seq<JsonView>
    decreases sorted.len(),
{
    if sorted.len() == 0 || !rows::earlier(sort_time(entry), sort_time(sorted.last())) {
        sorted.push(entry)
    } else {
        insert_by_entry_time(sorted.drop_last(), entry).push(sorted.last())
    }
}

/// The entries sorted by time. Entries of one time keep their order.
pub open spec fn sorted_by_entry_time(entries: Seq<JsonView>) -> Seq<JsonView>
    decreases entries.len(),
{
    if entries.len() == 0 {
        Seq::empty()
    } else {
        insert_by_entry_time(sorted_by_entry_time(entries.drop_last()), entries.last())
    }
}

proof fn lemma_insert_by_entry_time_splits(sorted: Seq<JsonView>, entry: JsonView, i: int)
    requires
        0 <= i <= sorted.len(),
        i > 0 ==> !rows::earlier(sort_time(entry), sort_time(sorted[i - 1])),
        forall|k: int|
            i <= k < sorted.len() ==> rows::earlier(
                sort_time(entry),
                sort_time(#[trigger] sorted[k]),
            ),
    ensures
        insert_by_entry_time(sorted, entry) == sorted.insert(i, entry),
    decreases sorted.len(),
{
    if i == sorted.len() {
        assert(sorted.insert(i, entry) =~= sorted.push(entry));
    } else {
        let d = sorted.drop_last();
        assert(forall|k: int| 0 <= k < d.len() ==> d[k] == sorted[k]);
        lemma_insert_by_entry_time_splits(d, entry, i);
        assert(sorted.insert(i, entry) =~= d.insert(i, entry).push(sorted.last()));
    }
}

fn time_of_entry(entry: &Json) -> (r: Instant)
    ensures
        r == sort_time(entry.deep_view()),
{
    match get_log_timestamp(entry) {
        Some(t) => t,
        None => (0, 0),
    }
}

fn sort_logs_by_time(entries: &Vec<Json>) -> (r: Vec<Json>)
    ensures
        r.deep_view() == sorted_by_entry_time(entries.deep_view()),
{
    let ghost es = entries.deep_view();
    let mut sorted: Vec<Json> = Vec::new();
    let mut i: usize = 0;
    assert(es.take(0) =~= Seq::<JsonView>::empty());
    assert(sorted.deep_view() =~= Seq::<JsonView>::empty());
    while i < entries.len()
        invariant
            i <= entries@.len(),
            es == entries.deep_view(),
            sorted.deep_view() == sorted_by_entry_time(es.take(i as int)),
        decreases entries@.len() - i,
    {
        let t = time_of_entry(&entries[i]);
        let ghost before = sorted.deep_view();
        let ghost entry = es[i as int];
        let mut j: usize = sorted.len();
        while j > 0 && is_earlier(t, time_of_entry(&sorted[j - 1]))
            invariant
                j <= sorted@.len(),
                before == sorted.deep_view(),
                t == sort_time(entry),
                forall|k: int|
                    j <= k < sorted@.len() ==> rows::earlier(
                        sort_time(entry),
                        sort_time(#[trigger] before[k]),
                    ),
            decreases j,
        {
            assert(before[j - 1] == sorted@[j - 1].deep_view());
            j = j - 1;
        }
        proof {
            if j > 0 {
                assert(before[j - 1] == sorted@[j - 1].deep_view());
            }
            lemma_insert_by_entry_time_splits(before, entry, j as int);
        }
        sorted.insert(j, entries[i].copy());
        proof {
            assert(sorted.deep_view() =~= before.insert(j as int, entry));
            assert(es.take(i as int + 1).drop_last() =~= es.take(i as int));
        }
        i = i + 1;
    }
    assert(es.take(i as int) =~= es);
    sorted
}

/// Whether a map holds just the entries of each table that are later than a
/// time, in the order of their times.
pub open spec fn is_plan_since(
    plan: Map<Text, Seq<JsonView>>,
    entries: Seq<JsonView>,
    since: Instant,
) -> bool {
    forall|table: Text|
        #![trigger plan.contains_key(table)]
        plan.contains_key(table) == mentions_table(logs_since(entries, since), table) && (
        plan.contains_key(table) ==> plan[table] == sorted_by_entry_time(
            logs_for_table(logs_since(entries, since), table),
        ))
}

/// The entries of each table that are later than a time, in the order of their
/// times.
pub fn plan_recovery_since(entries: &Vec<Json>, since: Instant) -> (r: StringMap<Vec<Json>>)
    ensures
        is_plan_since(r.deep_view(), entries.deep_view(), since),
{
    let later = select_logs_since(entries, since);
    let ghost ls = later.deep_view();
    let mut out: StringMap<Vec<Json>> = StringMap::new();
    let groups = match group_logs(&later, false) {
        Ok(groups) => groups,
        Err(_) => StringMap::new(),
    };
    let n: usize = groups.len();
    let ghost keys = groups.keys();
    let mut i: usize = 0;
    while i < n
        invariant
            i <= n == keys.len(),
            keys == groups.keys(),
            keys.no_duplicates(),
            is_grouped(groups.deep_view(), ls),
            forall|table: Text|
                #![trigger out.deep_view().contains_key(table)]
                out.deep_view().contains_key(table) == keys.take(i as int).contains(table) && (
                out.deep_view().contains_key(table) ==> out.deep_view()[table]
                    == sorted_by_entry_time(logs_for_table(ls, table))),
        decreases n - i,
    {
        let ghost before = out.deep_view();
        let key = groups.key_at(i).clone();
        let ghost k = key@;
        let sorted = sort_logs_by_time(groups.value_at(i));
        assert(groups.deep_view()[k] == logs_for_table(ls, k));
        out.insert(key, sorted);
        assert(keys.take(i as int + 1) =~= keys.take(i as int).push(k));
        assert forall|table: Text|
            #![trigger out.deep_view().contains_key(table)]
            out.deep_view().contains_key(table) == keys.take(i as int + 1).contains(table) && (
            out.deep_view().contains_key(table) ==> out.deep_view()[table] == sorted_by_entry_time(
                logs_for_table(ls, table),
            )) by {
            let t0 = keys.take(i as int);
            let t1 = keys.take(i as int + 1);
            assert(before.contains_key(table) == t0.contains(table));
            if t0.contains(table) {
                let m = choose|m: int| 0 <= m < t0.len() && t0[m] == table;
                assert(t1[m] == table);
            }
            if table == k {
                assert(t1[i as int] == k);
            } else if t1.contains(table) {
                let m = choose|m: int| 0 <= m < t1.len() && t1[m] == table;
                assert(t0[m] == table);
            }
        }
        i = i + 1;
    }
    assert(keys.take(i as int) =~= keys);
    assert forall|table: Text|
        #![trigger out.deep_view().contains_key(table)]
        out.deep_view().contains_key(table) == mentions_table(ls, table) by {
        assert(groups.deep_view().contains_key(table) == keys.contains(table));
    }
    assert(is_plan_since(out.deep_view(), entries.deep_view(), since));
    out
}

// ---------------------------------------------------------------------------
// Applying an entry
// ---------------------------------------------------------------------------

/// What an entry of the log asks for.
#[derive(Debug, PartialEq, Eq)]
pub enum RecoveryAction {
    Create,
    Insert,
    Update,
    Delete,
    Drop,
    /// A kind of change that there is not.
    Unknown(String),
}

/// A [`RecoveryAction`] as a mathematical value.
pub enum ActionView {
    Create,
    Insert,
    Update,
    Delete,
    Drop,
    Unknown(Text),
}

impl DeepView for RecoveryAction {
    type V = ActionView;

    open spec fn deep_view(&self) -> ActionView {
        match self {
            RecoveryAction::Create => ActionView::Create,
            RecoveryAction::Insert => ActionView::Insert,
            RecoveryAction::Update => ActionView::Update,
            RecoveryAction::Delete => ActionView::Delete,
            RecoveryAction::Drop => ActionView::Drop,
            RecoveryAction::Unknown(t) => ActionView::Unknown(t@),
        }
    }
}

/// What an entry of the log asks for.
pub open spec fn action_of(log: JsonView) -> Result<ActionView, Text> {
    match json::str_field(log, "change_type"@) {
        None => Err("Invalid change type"@),
        Some(t) => Ok(
            if t == "Create"@ {
                ActionView::Create
            } else if t == "Insert"@ {
                ActionView::Insert
            } else if t == "Update"@ {
                ActionView::Update
            } else if t == "Delete"@ {
                ActionView::Delete
            } else if t == "Drop"@ {
                ActionView::Drop
            } else {
                ActionView::Unknown(t)
            },
        ),
    }
}

/// What an entry of the log asks for.
pub fn recovery_action(log: &Json) -> (r: Result<RecoveryAction, String>)
    ensures
        match r {
            Ok(a) => action_of(log.deep_view()) == Ok::<_, Text>(a.deep_view()),
            Err(e) => action_of(log.deep_view()) == Err::<ActionView, _>(e@),
        },
{
    match log.str_field("change_type") {
        None => Err("Invalid change type".to_owned()),
        Some(t) => {
            let w = t.as_str();
            if str_eq(w, "Create") {
                Ok(RecoveryAction::Create)
            } else if str_eq(w, "Insert") {
                Ok(RecoveryAction::Insert)
            } else if str_eq(w, "Update") {
                Ok(RecoveryAction::Update)
            } else if str_eq(w, "Delete") {
                Ok(RecoveryAction::Delete)
            } else if str_eq(w, "Drop") {
                Ok(RecoveryAction::Drop)
            } else {
                Ok(RecoveryAction::Unknown(t.clone()))
            }
        },
    }
}

/// The row of an entry.
pub open spec fn entry_row(log: JsonView) -> Option<Seq<JsonView>> {
    json::as_array(json::at(json::at(log, "data"@), "row_data"@))
}

/// The text of a value, and nothing for a value that is no text.
pub open spec fn text_or_empty(v: JsonView) -> Text {
    match v {
        JsonView::Str(t) => t,
        _ => Seq::empty(),
    }
}

/// The cells that an entry writes: its texts, and the empty text for anything
/// else. In the cells of a deletion the empty text stands as 0, and the mark of
/// a removed row in upper case.
pub open spec fn entry_cells(values: Seq<JsonView>, deletion: bool) -> Row {
    values.map_values(
        |v: JsonView|
            if deletion {
                deletion_cell(text_or_empty(v))
            } else {
                text_or_empty(v)
            },
    )
}

/// A cell of a deletion.
pub open spec fn deletion_cell(t: Text) -> Text {
    if t.len() == 0 || t == "0"@ {
        "0"@
    } else if outside::uppercase(t) == "ROW_REMOVED"@ {
        "ROW_REMOVED"@
    } else {
        t
    }
}

/// The line that an entry writes.
pub open spec fn entry_line(values: Seq<JsonView>, deletion: bool) -> Text {
    text::join(entry_cells(values, deletion), ","@)
}

/// The piece of a line at a position, without white space around it.
pub open spec fn piece(line: Text, i: int) -> Text {
    text::trimmed(text::split(line, ',')[i], Strip::Space)
}

/// Whether a line is of the row with the given UUID.
pub open spec fn line_has_uuid(line: Text, uuid: Text) -> bool {
    piece(line, 0) == uuid
}

/// Whether a line is of a row at a time: its first piece is the UUID and its last
/// the time.
pub open spec fn line_has_time(line: Text, uuid: Text, time: Text) -> bool {
    text::split(line, ',').len() >= 2 && piece(line, 0) == uuid && piece(
        line,
        text::split(line, ',').len() - 1,
    ) == time
}

/// Which lines of a file say already what an entry says.
#[derive(Clone, Copy, PartialEq, Eq, Debug)]
pub enum RowChange {
    Insertion,
    Update,
    Deletion,
}

/// Whether a line says already what an entry says.
pub open spec fn line_says(change: RowChange, line: Text, uuid: Text, time: Text) -> bool {
    match change {
        RowChange::Insertion => line_has_uuid(line, uuid),
        RowChange::Update => line_has_time(line, uuid, time),
        RowChange::Deletion => line_has_time(line, uuid, time),
    }
}

/// Whether any line of a file says already what an entry says.
pub open spec fn file_says(
    change: RowChange,
    lines: Seq<Text>,
    uuid: Text,
    time: Text,
) -> bool {
    exists|i: int| 0 <= i < lines.len() && line_says(change, #[trigger] lines[i], uuid, time)
}

/// The text of the first value of a row.
pub open spec fn first_text(values: Seq<JsonView>) -> Option<Text> {
    if values.len() > 0 {
        json::as_str(values[0])
    } else {
        None
    }
}

/// The text of the last value of a row.
pub open spec fn last_text(values: Seq<JsonView>) -> Option<Text> {
    if values.len() > 0 {
        json::as_str(values.last())
    } else {
        None
    }
}

/// The line that an entry for a row appends to a file: nothing where the file
/// says already what the entry says.
pub open spec fn line_to_append(change: RowChange, log: JsonView, lines: Seq<Text>) -> Result<
    Option<Text>,
    Text,
> {
    match entry_row(log) {
        None => Err("Invalid row data"@),
        Some(values) => match first_text(values) {
            None => Err("No UUID found in row data"@),
            Some(uuid) => if !(change is Insertion) && last_text(values) is None {
                Err("No timestamp found in row data"@)
            } else {
                let time = if change is Insertion {
                    Seq::empty()
                } else {
                    last_text(values)->0
                };
                if file_says(change, lines, uuid, time) {
                    Ok(None)
                } else {
                    Ok(Some(entry_line(values, change is Deletion)))
                }
            },
        },
    }
}

fn check_line(change: RowChange, line: &str, uuid: &str, time: &str) -> (r: bool)
    ensures
        r == line_says(change, line@, uuid@, time@),
{
    let pieces = split_on(line, ',');
    proof {
        text::lemma_split_nonempty(line@, ',');
        assert(pieces.deep_view().len() == pieces@.len());
        assert(pieces.deep_view()[0] == pieces@[0]@);
    }
    let first = trim_matches(pieces[0].as_str(), Strip::Space);
    if !str_eq(first.as_str(), uuid) {
        return false;
    }
    match change {
        RowChange::Insertion => true,
        RowChange::Update | RowChange::Deletion => {
            if pieces.len() < 2 {
                return false;
            }
            assert(pieces.deep_view()[pieces@.len() - 1] == pieces@[pieces@.len() - 1]@);
            let last = trim_matches(pieces[pieces.len() - 1].as_str(), Strip::Space);
            str_eq(last.as_str(), time)
        },
    }
}

fn check_lines(change: RowChange, lines: &Vec<String>, uuid: &str, time: &str) -> (r: bool)
    ensures
        r == file_says(change, lines.deep_view(), uuid@, time@),
{
    let ghost ls = lines.deep_view();
    let mut i: usize = 0;
    while i < lines.len()
        invariant
            i <= lines@.len(),
            ls == lines.deep_view(),
            forall|k: int| 0 <= k < i ==> !line_says(change, #[trigger] ls[k], uuid@, time@),
        decreases lines@.len() - i,
    {
        assert(ls[i as int] == lines@[i as int]@);
        if check_line(change, lines[i].as_str(), uuid, time) {
            return true;
        }
        i = i + 1;
    }
    false
}

fn make_cells(values: &Vec<Json>, deletion: bool) -> (r: Vec<String>)
    ensures
        r.deep_view() == entry_cells(values.deep_view(), deletion),
{
    let mut r: Vec<String> = Vec::new();
    let mut i: usize = 0;
    while i < values.len()
        invariant
            i <= values@.len(),
            r@.len() == i,
            forall|k: int|
                0 <= k < i ==> (#[trigger] r@[k])@ == if deletion {
                    deletion_cell(text_or_empty(values@[k].deep_view()))
                } else {
                    text_or_empty(values@[k].deep_view())
                },
        decreases values@.len() - i,
    {
        let t = match values[i].as_str() {
            Some(t) => t.clone(),
            None => String::new(),
        };
        assert(t@ == text_or_empty(values@[i as int].deep_view()));
        if deletion {
            if t.as_str().is_empty() || str_eq(t.as_str(), "0") {
                r.push("0".to_owned());
            } else {
                let upper = t.as_str().to_uppercase();
                if str_eq(upper.as_str(), "ROW_REMOVED") {
                    r.push("ROW_REMOVED".to_owned());
                } else {
                    r.push(t);
                }
            }
        } else {
            r.push(t);
        }
        i = i + 1;
    }
    assert(r.deep_view() =~= entry_cells(values.deep_view(), deletion));
    r
}

/// The row of an entry.
fn find_entry_row(log: &Json) -> (r: Option<&Vec<Json>>)
    ensures
        match r {
            Some(v) => entry_row(log.deep_view()) == Some(v.deep_view()),
            None => entry_row(log.deep_view()) is None,
        },
{
    match log.get("data") {
        Some(data) => match data.get("row_data") {
            Some(v) => v.as_array(),
            None => None,
        },
        None => None,
    }
}

/// The line that an entry for a row appends to a file, given the lines of the
/// file: nothing where the file says already what the entry says.
pub fn plan_row_change(change: RowChange, log: &Json, lines: &Vec<String>) -> (r: Result<
    Option<String>,
    String,
>)
    ensures
        match r {
            Ok(line) => line_to_append(change, log.deep_view(), lines.deep_view()) == Ok::<_, Text>(
                line.deep_view(),
            ),
            Err(e) => line_to_append(change, log.deep_view(), lines.deep_view()) == Err::<
                Option<Text>,
                _,
            >(e@),
        },
{
    let values = match find_entry_row(log) {
        Some(v) => v,
        None => {
            return Err("Invalid row data".to_owned());
        },
    };
    if values.len() == 0 {
        return Err("No UUID found in row data".to_owned());
    }
    proof {
        assert(values.deep_view()[0] == values@[0].deep_view());
        assert(values.deep_view().last() == values@[values@.len() - 1].deep_view());
    }
    let uuid = match values[0].as_str() {
        Some(t) => t,
        None => {
            return Err("No UUID found in row data".to_owned());
        },
    };
    let time = match change {
        RowChange::Insertion => String::new(),
        _ => match values[values.len() - 1].as_str() {
            Some(t) => t.clone(),
            None => {
                return Err("No timestamp found in row data".to_owned());
            },
        },
    };
    if check_lines(change, lines, uuid.as_str(), time.as_str()) {
        return Ok(None);
    }
    let deletion = match change {
        RowChange::Deletion => true,
        _ => false,
    };
    let cells = make_cells(values, deletion);
    Ok(Some(join_with(&cells, ",")))
}

/// The line that an entry for an insertion appends to the file of the initial
/// rows.
pub fn handle_row_insertion(log: &Json, lines: &Vec<String>) -> (r: Result<Option<String>, String>)
    ensures
        match r {
            Ok(line) => line_to_append(RowChange::Insertion, log.deep_view(), lines.deep_view())
                == Ok::<_, Text>(line.deep_view()),
            Err(e) => line_to_append(RowChange::Insertion, log.deep_view(), lines.deep_view())
                == Err::<Option<Text>, _>(e@),
        },
{
    plan_row_change(RowChange::Insertion, log, lines)
}

/// The line that an entry for an update appends to the file of the updates.
pub fn handle_row_update(log: &Json, lines: &Vec<String>) -> (r: Result<Option<String>, String>)
    ensures
        match r {
            Ok(line) => line_to_append(RowChange::Update, log.deep_view(), lines.deep_view())
                == Ok::<_, Text>(line.deep_view()),
            Err(e) => line_to_append(RowChange::Update, log.deep_view(), lines.deep_view()) == Err::<
                Option<Text>,
                _,
            >(e@),
        },
{
    plan_row_change(RowChange::Update, log, lines)
}

/// The line that an entry for a deletion appends to the file of the updates.
pub fn handle_row_deletion(log: &Json, lines: &Vec<String>) -> (r: Result<Option<String>, String>)
    ensures
        match r {
            Ok(line) => line_to_append(RowChange::Deletion, log.deep_view(), lines.deep_view())
                == Ok::<_, Text>(line.deep_view()),
            Err(e) => line_to_append(RowChange::Deletion, log.deep_view(), lines.deep_view())
                == Err::<Option<Text>, _>(e@),
        },
{
    plan_row_change(RowChange::Deletion, log, lines)
}

/// An insertion is applied once: after its line was appended, the same entry
/// appends nothing more. The UUID can be read back.
pub proof fn law_insertion_is_applied_once(log: JsonView, lines: Seq<Text>)
    requires
        line_to_append(RowChange::Insertion, log, lines) matches Ok(Some(_)),
        plain_cell(first_text(entry_row(log)->0)->0),
    ensures
        line_to_append(
            RowChange::Insertion,
            log,
            lines.push(line_to_append(RowChange::Insertion, log, lines)->Ok_0->0),
        ) == Ok::<Option<Text>, Text>(None),
{
    let values = entry_row(log)->0;
    let uuid = first_text(values)->0;
    let line = entry_line(values, false);
    lemma_line_begins_with_uuid(values, false, uuid);
    let after = lines.push(line);
    assert(line_says(RowChange::Insertion, after[lines.len() as int], uuid, Seq::empty()));
}

/// An update is applied once: after its line was appended, the same entry
/// appends nothing more. The row has at least two values, and its UUID and its
/// time can be read back.
pub proof fn law_update_is_applied_once(log: JsonView, lines: Seq<Text>)
    requires
        line_to_append(RowChange::Update, log, lines) matches Ok(Some(_)),
        entry_row(log)->0.len() >= 2,
        plain_cell(first_text(entry_row(log)->0)->0),
        plain_cell(last_text(entry_row(log)->0)->0),
    ensures
        line_to_append(
            RowChange::Update,
            log,
            lines.push(line_to_append(RowChange::Update, log, lines)->Ok_0->0),
        ) == Ok::<Option<Text>, Text>(None),
{
    let values = entry_row(log)->0;
    let uuid = first_text(values)->0;
    let time = last_text(values)->0;
    let line = entry_line(values, false);
    lemma_line_begins_with_uuid(values, false, uuid);
    lemma_line_ends_with_time(values, false, time);
    let after = lines.push(line);
    assert(line_says(RowChange::Update, after[lines.len() as int], uuid, time));
}

/// A deletion is applied once: after its line was appended, the same entry
/// appends nothing more. The row has at least two values, and its UUID and its
/// time are what is written for them and can be read back.
pub proof fn law_deletion_is_applied_once(log: JsonView, lines: Seq<Text>)
    requires
        line_to_append(RowChange::Deletion, log, lines) matches Ok(Some(_)),
        entry_row(log)->0.len() >= 2,
        plain_cell(first_text(entry_row(log)->0)->0),
        plain_cell(last_text(entry_row(log)->0)->0),
        deletion_cell(first_text(entry_row(log)->0)->0) == first_text(entry_row(log)->0)->0,
        deletion_cell(last_text(entry_row(log)->0)->0) == last_text(entry_row(log)->0)->0,
    ensures
        line_to_append(
            RowChange::Deletion,
            log,
            lines.push(line_to_append(RowChange::Deletion, log, lines)->Ok_0->0),
        ) == Ok::<Option<Text>, Text>(None),
{
    let values = entry_row(log)->0;
    let uuid = first_text(values)->0;
    let time = last_text(values)->0;
    let line = entry_line(values, true);
    lemma_line_begins_with_uuid(values, true, uuid);
    lemma_line_ends_with_time(values, true, time);
    let after = lines.push(line);
    assert(line_says(RowChange::Deletion, after[lines.len() as int], uuid, time));
}

proof fn lemma_line_ends_with_time(values: Seq<JsonView>, deletion: bool, time: Text)
    requires
        values.len() >= 2,
        last_text(values) == Some(time),
        deletion ==> deletion_cell(time) == time,
        plain_cell(time),
    ensures
        text::split(entry_line(values, deletion), ',').len() >= 2,
        piece(
            entry_line(values, deletion),
            text::split(entry_line(values, deletion), ',').len() - 1,
        ) == time,
{
    let cells = entry_cells(values, deletion);
    assert(cells.last() == time);
    reveal_strlit(",");
    assert(","@ =~= seq![',']);
    assert(entry_line(values, deletion) == text::join(cells.drop_last(), seq![',']) + seq![',']
        + time);
    text::lemma_split_last(text::join(cells.drop_last(), seq![',']), time, ',');
}

proof fn lemma_line_begins_with_uuid(values: Seq<JsonView>, deletion: bool, uuid: Text)
    requires
        first_text(values) == Some(uuid),
        deletion ==> deletion_cell(uuid) == uuid,
        plain_cell(uuid),
    ensures
        piece(entry_line(values, deletion), 0) == uuid,
{
    let cells = entry_cells(values, deletion);
    assert(cells[0] == uuid);
    reveal_strlit(",");
    assert(","@ =~= seq![',']);
    lemma_join_begins(cells, ',');
    let rest = choose|rest: Text|
        (rest.len() == 0 || rest[0] == ',') && text::join(cells, seq![',']) == #[trigger] (cells[0]
            + rest);
    text::lemma_split_first(uuid, rest, ',');
}

pub proof fn lemma_join_begins(cells: Row, sep: char)
    requires
        cells.len() > 0,
    ensures
        exists|rest: Text|
            (rest.len() == 0 || rest[0] == sep) && text::join(cells, seq![sep]) == #[trigger] (
            cells[0] + rest),
    decreases cells.len(),
{
    if cells.len() == 1 {
        assert(cells[0] + Seq::<char>::empty() =~= cells[0]);
    } else {
        let d = cells.drop_last();
        lemma_join_begins(d, sep);
        let r = choose|r: Text|
            (r.len() == 0 || r[0] == sep) && text::join(d, seq![sep]) == #[trigger] (d[0] + r);
        let rest = r + seq![sep] + cells.last();
        assert(text::join(cells, seq![sep]) =~= cells[0] + rest);
        assert(rest[0] == sep);
    }
}

// ---------------------------------------------------------------------------
// Recovering the schema
// ---------------------------------------------------------------------------

/// The JSON form of a column that no value may be missing from.
pub open spec fn required_json(name: Text, data_type: Text) -> JsonView {
    JsonView::Object(
        seq![
            ("data_type"@, JsonView::Str(data_type)),
            ("name"@, JsonView::Str(name)),
            (
                "rules"@,
                JsonView::Array(
                    seq![
                        JsonView::Object(
                            seq![
                                ("action"@, JsonView::Str("Reject"@)),
                                ("constraint_type"@, JsonView::Str("NotNull"@)),
                            ],
                        ),
                    ],
                ),
            ),
        ],
    )
}

/// The columns that an entry defines for a table.
pub open spec fn defined_columns(log: JsonView) -> Seq<JsonView> {
    match json::as_array(
        json::at(json::at(json::at(log, "data"@), "table_definition"@), "columns"@),
    ) {
        Some(columns) => columns,
        None => Seq::empty(),
    }
}

/// The columns of a recovered table: a UUID before, and a timestamp after,
/// those that the entry defines.
pub open spec fn recovered_columns(log: JsonView) -> JsonView {
    JsonView::Array(
        seq![required_json("UUID"@, "UUID"@)] + defined_columns(log) + seq![
            required_json("timestamp"@, "DateTime"@),
        ],
    )
}

/// The tables of a schema in JSON.
pub open spec fn tables_of(schema: JsonView) -> Fields {
    match json::get(schema, "tables"@) {
        Some(JsonView::Object(fields)) => fields,
        _ => Seq::empty(),
    }
}

/// The fields of a schema in JSON.
pub open spec fn fields_of(schema: JsonView) -> Fields {
    match schema {
        JsonView::Object(fields) => fields,
        _ => Seq::empty(),
    }
}

/// The JSON form of a table with the given columns: what there was, with these
/// columns, or a new table.
pub open spec fn table_with_columns(
    there: Option<JsonView>,
    name: Text,
    columns: JsonView,
) -> JsonView {
    match there {
        None => JsonView::Object(seq![("columns"@, columns), ("name"@, JsonView::Str(name))]),
        Some(JsonView::Object(fields)) => JsonView::Object(
            json::with_field(fields, "columns"@, columns),
        ),
        Some(_) => JsonView::Object(seq![("columns"@, columns)]),
    }
}

/// The tables with the given columns for one of them.
pub open spec fn put_table(tables: Fields, name: Text, columns: JsonView) -> Fields {
    json::with_field(
        tables,
        name,
        table_with_columns(json::field_of(tables, name), name, columns),
    )
}

/// The schema after an entry for a creation was applied to it.
pub open spec fn recovered_schema(
    schema: JsonView,
    initial: Text,
    updates: Text,
    log: JsonView,
) -> JsonView {
    let columns = recovered_columns(log);
    JsonView::Object(
        json::with_field(
            fields_of(schema),
            "tables"@,
            JsonView::Object(
                put_table(put_table(tables_of(schema), initial, columns), updates, columns),
            ),
        ),
    )
}

/// Whether a value is an object or nothing.
pub open spec fn object_or_null(v: JsonView) -> bool {
    v is Object || v is Null
}

/// Whether a creation can be applied to a schema: the schema is an object, and
/// so are the tables of the given names in it, as far as they are there.
pub open spec fn can_recover(schema: JsonView, initial: Text, updates: Text) -> bool {
    &&& object_or_null(schema)
    &&& json::field_of(tables_of(schema), initial) matches Some(v) ==> object_or_null(v)
    &&& json::field_of(tables_of(schema), updates) matches Some(v) ==> object_or_null(v)
}

fn make_required_json(name: &str, data_type: &str) -> (r: Json)
    ensures
        r.deep_view() == required_json(name@, data_type@),
{
    let mut rules: Vec<Json> = Vec::new();
    rules.push(
        object2(
            "action",
            Json::Str("Reject".to_owned()),
            "constraint_type",
            Json::Str("NotNull".to_owned()),
        ),
    );
    proof {
        json::lemma_array_view(rules);
        assert(rules.deep_view() =~= seq![
            JsonView::Object(
                seq![
                    ("action"@, JsonView::Str("Reject"@)),
                    ("constraint_type"@, JsonView::Str("NotNull"@)),
                ],
            ),
        ]);
    }
    object3(
        "data_type",
        Json::Str(data_type.to_owned()),
        "name",
        Json::Str(name.to_owned()),
        "rules",
        Json::Array(rules),
    )
}

fn make_recovered_columns(log: &Json) -> (r: Json)
    ensures
        r.deep_view() == recovered_columns(log.deep_view()),
{
    let defined: Option<&Vec<Json>> = match log.get("data") {
        Some(data) => match data.get("table_definition") {
            Some(definition) => match definition.get("columns") {
                Some(columns) => columns.as_array(),
                None => None,
            },
            None => None,
        },
        None => None,
    };
    let ghost dv = defined_columns(log.deep_view());
    let ghost first = required_json("UUID"@, "UUID"@);
    let mut columns: Vec<Json> = Vec::new();
    columns.push(make_required_json("UUID", "UUID"));
    assert(columns.deep_view() =~= seq![first] + dv.take(0));
    match defined {
        Some(list) => {
            assert(dv == list.deep_view());
            let mut i: usize = 0;
            while i < list.len()
                invariant
                    i <= list@.len(),
                    dv == list.deep_view(),
                    columns.deep_view() == seq![first] + dv.take(i as int),
                decreases list@.len() - i,
            {
                let ghost before = columns.deep_view();
                columns.push(list[i].copy());
                assert(columns.deep_view() =~= before.push(dv[i as int]));
                assert(columns.deep_view() =~= seq![first] + dv.take(i as int + 1));
                i = i + 1;
            }
        },
        None => {},
    }
    assert(dv.take(dv.len() as int) =~= dv);
    let ghost before = columns.deep_view();
    columns.push(make_required_json("timestamp", "DateTime"));
    proof {
        json::lemma_array_view(columns);
        assert(columns.deep_view() =~= before.push(required_json("timestamp"@, "DateTime"@)));
        assert(columns.deep_view() =~= recovered_columns(log.deep_view())->Array_0);
    }
    Json::Array(columns)
}

fn put_table_columns(tables: &mut Vec<(String, Json)>, name: &str, columns: &Json)
    requires
        json::field_of(old(tables).deep_view(), name@) matches Some(v) ==> object_or_null(v),
    ensures
        final(tables).deep_view() == put_table(
            old(tables).deep_view(),
            name@,
            columns.deep_view(),
        ),
{
    let table = match json::find_field(tables, name) {
        None => object2("columns", columns.copy(), "name", Json::Str(name.to_owned())),
        Some(i) => match &tables[i].1 {
            Json::Object(fields) => {
                proof {
                    json::lemma_object_view(*fields);
                }
                let mut own = fields.duplicate();
                set_field(&mut own, "columns", columns.copy());
                proof {
                    json::lemma_object_view(own);
                }
                Json::Object(own)
            },
            _ => json::object1("columns", columns.copy()),
        },
    };
    set_field(tables, name, table);
}

/// Whether a creation can be applied to a schema.
pub fn can_recover_table(schema: &Json, initial: &str, updates: &str) -> (r: bool)
    ensures
        r == can_recover(schema.deep_view(), initial@, updates@),
{
    let is_object = match schema {
        Json::Object(_) => true,
        Json::Null => true,
        _ => false,
    };
    if !is_object {
        return false;
    }
    match schema.get("tables") {
        Some(tables) => {
            proof {
                if let Json::Object(fields) = tables {
                    json::lemma_object_view(*fields);
                }
            }
            let first = match tables.get(initial) {
                Some(Json::Object(_)) => true,
                Some(Json::Null) => true,
                Some(_) => false,
                None => true,
            };
            let second = match tables.get(updates) {
                Some(Json::Object(_)) => true,
                Some(Json::Null) => true,
                Some(_) => false,
                None => true,
            };
            first && second
        },
        None => true,
    }
}

/// The schema after an entry for a creation was applied to it. The tables have
/// the names of the two files of the table.
pub fn handle_table_creation(schema: &Json, initial: &str, updates: &str, log: &Json) -> (r: Json)
    requires
        can_recover(schema.deep_view(), initial@, updates@),
        initial@ != updates@,
    ensures
        r.deep_view() == recovered_schema(
            schema.deep_view(),
            initial@,
            updates@,
            log.deep_view(),
        ),
{
    let columns = make_recovered_columns(log);
    let mut fields: Vec<(String, Json)> = match schema {
        Json::Object(fields) => {
            proof {
                json::lemma_object_view(*fields);
            }
            fields.duplicate()
        },
        _ => {
            let none: Vec<(String, Json)> = Vec::new();
            assert(none.deep_view() =~= fields_of(schema.deep_view()));
            none
        },
    };
    let mut tables: Vec<(String, Json)> = match schema.get("tables") {
        Some(Json::Object(tables)) => {
            proof {
                json::lemma_object_view(*tables);
            }
            tables.duplicate()
        },
        _ => {
            let none: Vec<(String, Json)> = Vec::new();
            assert(none.deep_view() =~= tables_of(schema.deep_view()));
            none
        },
    };
    proof {
        json::lemma_with_field(
            tables.deep_view(),
            initial@,
            table_with_columns(
                json::field_of(tables.deep_view(), initial@),
                initial@,
                columns.deep_view(),
            ),
            updates@,
        );
    }
    put_table_columns(&mut tables, initial, &columns);
    put_table_columns(&mut tables, updates, &columns);
    proof {
        json::lemma_object_view(tables);
    }
    set_field(&mut fields, "tables", Json::Object(tables));
    proof {
        json::lemma_object_view(fields);
    }
    Json::Object(fields)
}

/// A creation is applied once: applying the same entry again changes nothing.
/// The fields of the schema, of its tables and of the two tables are in order.
pub proof fn law_creation_is_applied_once(
    schema: JsonView,
    initial: Text,
    updates: Text,
    log: JsonView,
)
    requires
        can_recover(schema, initial, updates),
        initial != updates,
        json::sorted_fields(fields_of(schema)),
        json::sorted_fields(tables_of(schema)),
        json::field_of(tables_of(schema), initial) matches Some(JsonView::Object(f))
            ==> json::sorted_fields(f),
        json::field_of(tables_of(schema), updates) matches Some(JsonView::Object(f))
            ==> json::sorted_fields(f),
    ensures
        recovered_schema(recovered_schema(schema, initial, updates, log), initial, updates, log)
            == recovered_schema(schema, initial, updates, log),
{
    let columns = recovered_columns(log);
    let t0 = tables_of(schema);
    let t1 = put_table(t0, initial, columns);
    let t2 = put_table(t1, updates, columns);
    let v1 = table_with_columns(json::field_of(t0, initial), initial, columns);
    let v2 = table_with_columns(json::field_of(t1, updates), updates, columns);
    json::lemma_with_field(t0, initial, v1, updates);
    json::lemma_with_field_sorted(t0, initial, v1);
    json::lemma_with_field(t1, updates, v2, initial);
    json::lemma_with_field_sorted(t1, updates, v2);
    lemma_table_is_stable(json::field_of(t0, initial), initial, columns);
    lemma_table_is_stable(json::field_of(t1, updates), updates, columns);
    json::lemma_with_field_same(t2, initial, v1);
    json::lemma_with_field_same(t2, updates, v2);
    let f0 = fields_of(schema);
    json::lemma_with_field(f0, "tables"@, JsonView::Object(t2), "tables"@);
    json::lemma_with_field_sorted(f0, "tables"@, JsonView::Object(t2));
    let f1 = json::with_field(f0, "tables"@, JsonView::Object(t2));
    json::lemma_with_field_same(f1, "tables"@, JsonView::Object(t2));
    assert(tables_of(recovered_schema(schema, initial, updates, log)) == t2);
}

proof fn lemma_table_is_stable(there: Option<JsonView>, name: Text, columns: JsonView)
    requires
        there matches Some(JsonView::Object(f)) ==> json::sorted_fields(f),
    ensures
        table_with_columns(Some(table_with_columns(there, name, columns)), name, columns)
            == table_with_columns(there, name, columns),
{
    let t = table_with_columns(there, name, columns);
    let fields = t->Object_0;
    reveal_strlit("columns");
    reveal_strlit("name");
    match there {
        Some(JsonView::Object(f)) => {
            json::lemma_with_field(f, "columns"@, columns, "columns"@);
            json::lemma_with_field_sorted(f, "columns"@, columns);
            json::lemma_with_field_same(fields, "columns"@, columns);
        },
        _ => {
            assert(json::with_field(fields, "columns"@, columns) =~= fields);
        },
    }
}

/// Takes the table that an entry for a drop names out of a schema.
pub fn handle_drop_table(schema: &mut Schema, log: &Json) -> (r: Result<String, String>)
    ensures
        match (r, json::str_field(log.deep_view(), "table_name"@)) {
            (Ok(t), Some(name)) => t@ == name && final(schema).deep_view()
                == schema::without_table(old(schema).deep_view(), name),
            (Err(e), None) => e@ == "Invalid table name in drop log"@ && final(schema).deep_view()
                == old(schema).deep_view(),
            _ => false,
        },
{
    match log.str_field("table_name") {
        Some(name) => {
            drop_table(schema, name.as_str());
            Ok(name.clone())
        },
        None => Err("Invalid table name in drop log".to_owned()),
    }
}

/// The name of the table that a file belongs to: the last part of its path,
/// without the suffix.
pub open spec fn table_of_path(path: Text, suffix: Text) -> Text {
    text::replaced(text::split(path, '/').last(), suffix, Seq::empty())
}

/// The name of the file at the end of a path.
pub fn file_of_path(path: &str) -> (r: String)
    ensures
        r@ == text::split(path@, '/').last(),
{
    let parts = split_on(path, '/');
    proof {
        text::lemma_split_nonempty(path@, '/');
        assert(parts.deep_view().len() == parts@.len());
        assert(parts.deep_view().last() == parts@[parts@.len() - 1]@);
    }
    parts[parts.len() - 1].clone()
}

/// The name of the table that a file belongs to.
pub fn table_name_of_path(path: &str, suffix: &str) -> (r: String)
    requires
        suffix@.len() > 0,
    ensures
        r@ == table_of_path(path@, suffix@),
{
    let file = file_of_path(path);
    proof {
        reveal_strlit("");
        assert(""@ =~= Seq::<char>::empty());
    }
    replace_all(file.as_str(), suffix, "")
}

// ---------------------------------------------------------------------------
// Requests
// ---------------------------------------------------------------------------

/// A reply with a status and a message in its body.
pub open spec fn status_reply(code: u16, status: Text, message: Text) -> ReplyView {
    ReplyView {
        status: code,
        body: JsonView::Object(
            seq![("message"@, JsonView::Str(message)), ("status"@, JsonView::Str(status))],
        ),
    }
}

/// A reply with a status and a message in its body.
pub fn reply_status(code: u16, status: &str, message: String) -> (r: Reply)
    ensures
        r.deep_view() == status_reply(code, status@, message@),
{
    Reply {
        status: code,
        body: object2("message", Json::Str(message), "status", Json::Str(status.to_owned())),
    }
}

/// The reply to a request for recovery, given whether the recovery and the
/// refresh of the tables after it failed. `failed` is the text before the error
/// of a recovery that failed.
pub open spec fn recovery_outcome(
    recovery: Option<Text>,
    refresh: Option<Text>,
    failed: Text,
) -> ReplyView {
    match (recovery, refresh) {
        (None, None) => status_reply(200, "success"@, "Log recovery completed"@),
        (None, Some(e)) => status_reply(
            500,
            "error"@,
            "Log recovery succeeded but table refresh failed: "@ + e,
        ),
        (Some(_), Some(e)) => status_reply(
            500,
            "error"@,
            "Log recovery failed and table refresh failed: "@ + e,
        ),
        (Some(e), None) => status_reply(500, "error"@, failed + e),
    }
}

fn reply_recovery(recovery: &Option<String>, refresh: &Option<String>, failed: &str) -> (r: Reply)
    ensures
        r.deep_view() == recovery_outcome(recovery.deep_view(), refresh.deep_view(), failed@),
{
    match (recovery, refresh) {
        (None, None) => reply_status(200, "success", "Log recovery completed".to_owned()),
        (None, Some(e)) => reply_status(
            500,
            "error",
            concat2("Log recovery succeeded but table refresh failed: ", e.as_str()),
        ),
        (Some(_), Some(e)) => reply_status(
            500,
            "error",
            concat2("Log recovery failed and table refresh failed: ", e.as_str()),
        ),
        (Some(e), None) => reply_status(500, "error", concat2(failed, e.as_str())),
    }
}

/// The reply to a request for the recovery of everything, given the errors of
/// the recovery and of the refresh of the tables after it.
pub fn full_recovery_reply(recovery: &Option<String>, refresh: &Option<String>) -> (r: Reply)
    ensures
        r.deep_view() == recovery_outcome(
            recovery.deep_view(),
            refresh.deep_view(),
            "Log recovery failed: "@,
        ),
{
    reply_recovery(recovery, refresh, "Log recovery failed: ")
}

/// The reply to a request for the recovery of what is later than a time, given
/// the errors of the recovery and of the refresh of the tables after it.
pub fn timed_recovery_reply(recovery: &Option<String>, refresh: &Option<String>) -> (r: Reply)
    ensures
        r.deep_view() == recovery_outcome(
            recovery.deep_view(),
            refresh.deep_view(),
            "Recovery failed: "@,
        ),
{
    reply_recovery(recovery, refresh, "Recovery failed: ")
}

/// How the recovery of one table ended.
#[derive(Debug, PartialEq, Eq)]
pub enum TableRecovery {
    Done,
    RecalculationFailed(String),
    ReadFailed(String),
    RecoveryFailed(String),
}

/// The reply to a request for the recovery of one table.
pub open spec fn table_recovery_outcome(table: Text, end: TableRecovery) -> ReplyView {
    match end {
        TableRecovery::Done => status_reply(
            200,
            "success"@,
            "Table "@ + table + " recovery completed"@,
        ),
        TableRecovery::RecalculationFailed(e) => status_reply(
            500,
            "error"@,
            "Table "@ + table + " recalculation failed: "@ + e@,
        ),
        TableRecovery::ReadFailed(e) => status_reply(
            500,
            "error"@,
            "Failed to get table data for "@ + table + ": "@ + e@,
        ),
        TableRecovery::RecoveryFailed(e) => status_reply(
            500,
            "error"@,
            "Log recovery failed for table "@ + table + ": "@ + e@,
        ),
    }
}

/// The reply to a request for the recovery of one table.
pub fn table_recovery_reply(table_name: &str, end: &TableRecovery) -> (r: Reply)
    ensures
        r.deep_view() == table_recovery_outcome(table_name@, *end),
{
    match end {
        TableRecovery::Done => reply_status(
            200,
            "success",
            concat3("Table ", table_name, " recovery completed"),
        ),
        TableRecovery::RecalculationFailed(e) => reply_status(
            500,
            "error",
            concat4("Table ", table_name, " recalculation failed: ", e.as_str()),
        ),
        TableRecovery::ReadFailed(e) => reply_status(
            500,
            "error",
            concat4("Failed to get table data for ", table_name, ": ", e.as_str()),
        ),
        TableRecovery::RecoveryFailed(e) => reply_status(
            500,
            "error",
            concat4("Log recovery failed for table ", table_name, ": ", e.as_str()),
        ),
    }
}

/// From when on to recover.
#[derive(Debug, Clone, Copy, PartialEq, Eq)]
pub enum Since {
    /// From a point in time on.
    Time(Instant),
    /// For so many hours before the present.
    Hours(i64),
}

/// From when on a request asks to recover: a timestamp or a number of hours,
/// but not both.
pub open spec fn since_of(timestamp: Option<Text>, hours: Option<i64>) -> Result<Since, ReplyView> {
    match (timestamp, hours) {
        (Some(t), None) => match outside::rfc3339_of(t) {
            Some(x) => Ok(Since::Time(x)),
            None => Err(status_reply(400, "error"@, "Invalid timestamp format"@)),
        },
        (None, Some(h)) => Ok(Since::Hours(h)),
        _ => Err(
            status_reply(400, "error"@, "Provide either timestamp or duration, not both"@),
        ),
    }
}

/// From when on a request asks to recover.
pub fn recovery_since(timestamp: &Option<String>, hours: Option<i64>) -> (r: Result<Since, Reply>)
    ensures
        match r {
            Ok(s) => since_of(timestamp.deep_view(), hours) == Ok::<_, ReplyView>(s),
            Err(reply) => since_of(timestamp.deep_view(), hours) == Err::<Since, _>(
                reply.deep_view(),
            ),
        },
{
    match (timestamp, hours) {
        (Some(t), None) => match parse_rfc3339(t.as_str()) {
            Some(x) => Ok(Since::Time(x)),
            None => Err(reply_status(400, "error", "Invalid timestamp format".to_owned())),
        },
        (None, Some(h)) => Ok(Since::Hours(h)),
        _ => Err(
            reply_status(
                400,
                "error",
                "Provide either timestamp or duration, not both".to_owned(),
            ),
        ),
    }
}

} // verus!
