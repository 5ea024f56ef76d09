//! What the rules of columns promise of the values that are stored.

use crate::errors::{ErrorKind, ErrorView};
use crate::executer::executer;
use crate::outside;
use crate::records::rows;
use crate::records::rows::{Row, Rows};
use crate::records::table;
use crate::records::table::{CacheView, FilesView};
use crate::records::validation;
use crate::records::validation::{RowData, ValidationView};
use crate::schema::schema;
use crate::schema::schema::{ActionView, ColumnView, ConstraintView, RuleView, SchemaView};
use crate::text;
use crate::text::{Strip, Text};
use vstd::prelude::*;

verus! {

/// Whether the column at position `c` is the first with the given name.
pub open spec fn is_named(columns: Seq<ColumnView>, name: Text, c: int) -> bool {
    &&& 0 <= c < columns.len()
    &&& columns[c].name == name
    &&& forall|k: int| 0 <= k < c ==> (#[trigger] columns[k]).name != name
}

/// Whether the column at position `u` is the first that is called UUID, in
/// whatever case.
pub open spec fn is_uuid_place(columns: Seq<ColumnView>, u: int) -> bool {
    &&& 0 <= u < columns.len()
    &&& outside::lowercase(columns[u].name) == "uuid"@
    &&& forall|k: int|
        0 <= k < u ==> outside::lowercase((#[trigger] columns[k]).name) != "uuid"@
}

/// Whether `cell` is the cell of a row at a position, without double quotes
/// around it.
pub open spec fn has_cell(row: Row, i: int, cell: Text) -> bool {
    0 <= i < row.len() && text::trimmed(row[i], Strip::Quote) == cell
}

/// Whether no row but that with the given UUID has a value in a column.
pub open spec fn is_free(
    table_rows: Rows,
    columns: Seq<ColumnView>,
    name: Text,
    uuid: Text,
    value: Text,
) -> bool {
    forall|k: int, u: int, c: int|
        0 <= k < table_rows.len() && #[trigger] is_uuid_place(columns, u) && #[trigger] is_named(
            columns,
            name,
            c,
        ) && has_cell(#[trigger] table_rows[k], c, value) ==> has_cell(
            table_rows[k],
            u,
            text::trimmed(uuid, Strip::Quote),
        )
}

/// Whether a rule holds of a value for a column of the row with the given UUID,
/// where the table has the given rows: it is not empty, no other row has it, or
/// it meets the condition.
pub open spec fn rule_holds(
    rule: RuleView,
    column: ColumnView,
    columns: Seq<ColumnView>,
    table_rows: Rows,
    uuid: Text,
    value: Text,
) -> bool {
    match rule.constraint_type {
        ConstraintView::NotNull => value.len() > 0,
        ConstraintView::Unique => is_free(table_rows, columns, column.name, uuid, value),
        ConstraintView::Check(e) => executer::row_meets(e, seq![value], seq![column.name]),
    }
}

proof fn lemma_named_column(columns: Seq<ColumnView>, name: Text)
    ensures
        match validation::named_column(columns, name) {
            Some(c) => is_named(columns, name, c),
            None => forall|k: int| 0 <= k < columns.len() ==> (#[trigger] columns[k]).name != name,
        },
    decreases columns.len(),
{
    if columns.len() > 0 {
        let d = columns.drop_last();
        lemma_named_column(d, name);
        assert(forall|k: int| 0 <= k < d.len() ==> d[k] == columns[k]);
        assert(columns[columns.len() - 1] == columns.last());
    }
}

proof fn lemma_uuid_column(columns: Seq<ColumnView>)
    ensures
        match validation::uuid_column(columns) {
            Some(u) => is_uuid_place(columns, u),
            None => forall|k: int|
                0 <= k < columns.len() ==> outside::lowercase((#[trigger] columns[k]).name)
                    != "uuid"@,
        },
    decreases columns.len(),
{
    if columns.len() > 0 {
        let d = columns.drop_last();
        lemma_uuid_column(d);
        assert(forall|k: int| 0 <= k < d.len() ==> d[k] == columns[k]);
        assert(columns[columns.len() - 1] == columns.last());
    }
}

proof fn lemma_value_taken(
    table_rows: Rows,
    columns: Seq<ColumnView>,
    name: Text,
    uuid: Text,
    value: Text,
)
    ensures
        validation::value_taken(table_rows, columns, name, Some(uuid), value) == !is_free(
            table_rows,
            columns,
            name,
            uuid,
            value,
        ),
{
    lemma_named_column(columns, name);
    lemma_uuid_column(columns);
    let taken = validation::value_taken(table_rows, columns, name, Some(uuid), value);
    if taken {
        let i = choose|i: int|
            0 <= i < table_rows.len() && validation::other_row_has(
                #[trigger] table_rows[i],
                columns,
                name,
                uuid,
                value,
            );
        let u = validation::uuid_column(columns)->0;
        let c = validation::named_column(columns, name)->0;
        assert(is_uuid_place(columns, u) && is_named(columns, name, c));
        assert(has_cell(table_rows[i], c, value));
        assert(!has_cell(table_rows[i], u, text::trimmed(uuid, Strip::Quote)));
    } else {
        assert forall|k: int, u: int, c: int|
            0 <= k < table_rows.len() && #[trigger] is_uuid_place(
                columns,
                u,
            ) && #[trigger] is_named(columns, name, c) && has_cell(
                #[trigger] table_rows[k],
                c,
                value,
            ) implies has_cell(table_rows[k], u, text::trimmed(uuid, Strip::Quote)) by {
            assert(!validation::other_row_has(table_rows[k], columns, name, uuid, value));
            match validation::uuid_column(columns) {
                Some(v) => {
                    if v < u {
                        assert(outside::lowercase(columns[v].name) == "uuid"@);
                    } else if u < v {
                        assert(outside::lowercase(columns[u].name) == "uuid"@);
                    }
                },
                None => {
                    assert(outside::lowercase(columns[u].name) == "uuid"@);
                },
            }
            match validation::named_column(columns, name) {
                Some(d) => {
                    if d < c {
                        assert(columns[d].name == name);
                    } else if c < d {
                        assert(columns[c].name == name);
                    }
                },
                None => {
                    assert(columns[c].name == name);
                },
            }
        }
    }
}

/// Whether one cache may have become another while the table was read.
spec fn is_read(
    schema: SchemaView,
    cache: CacheView,
    files: FilesView,
    table: Text,
    after: CacheView,
) -> bool {
    after == cache || after == table::table_data(schema, cache, files, table).0
}

proof fn lemma_same_rows(
    schema: SchemaView,
    cache: CacheView,
    files: FilesView,
    table: Text,
    after: CacheView,
)
    requires
        is_read(schema, cache, files, table, after),
    ensures
        table::table_data(schema, after, files, table).1 == table::table_data(
            schema,
            cache,
            files,
            table,
        ).1,
        is_read(
            schema,
            cache,
            files,
            table,
            table::table_data(schema, after, files, table).0,
        ),
{
}

/// What the first `n` rules of a column say of a value: the outcome as long as
/// no rule rejects it, by the last rule that does not hold.
proof fn lemma_rules_run(
    schema: SchemaView,
    cache: CacheView,
    after: CacheView,
    files: FilesView,
    table: Text,
    column: ColumnView,
    value: Text,
    uuid: Text,
    n: int,
)
    requires
        schema.contains_key(schema::initial_name(table)),
        table::table_data(schema, cache, files, table).1 is Ok,
        is_read(schema, cache, files, table, after),
        0 <= n <= column.rules.len(),
    ensures
        ({
            let columns = schema[schema::initial_name(table)].columns;
            let table_rows = table::table_data(schema, cache, files, table).1->Ok_0;
            let (end, outcome) = validation::rules_run(
                schema,
                after,
                files,
                table,
                column,
                value,
                Some(uuid),
                n,
            );
            &&& is_read(schema, cache, files, table, end)
            &&& outcome is Err <==> exists|i: int|
                0 <= i < n && (#[trigger] column.rules[i]).action is Reject && !rule_holds(
                    column.rules[i],
                    column,
                    columns,
                    table_rows,
                    uuid,
                    value,
                )
            &&& outcome is Ok ==> outcome->Ok_0 == last_say(
                column,
                columns,
                table_rows,
                uuid,
                value,
                n,
            )
        }),
    decreases n,
{
    let columns = schema[schema::initial_name(table)].columns;
    let table_rows = table::table_data(schema, cache, files, table).1->Ok_0;
    if n > 0 {
        lemma_rules_run(schema, cache, after, files, table, column, value, uuid, n - 1);
        let (before, so_far) = validation::rules_run(
            schema,
            after,
            files,
            table,
            column,
            value,
            Some(uuid),
            n - 1,
        );
        lemma_same_rows(schema, cache, files, table, before);
        lemma_value_taken(table_rows, columns, column.name, uuid, value);
        let rule = column.rules[n - 1];
        let held = rule_holds(rule, column, columns, table_rows, uuid, value);
        if so_far is Err {
            let i = choose|i: int|
                0 <= i < n - 1 && (#[trigger] column.rules[i]).action is Reject && !rule_holds(
                    column.rules[i],
                    column,
                    columns,
                    table_rows,
                    uuid,
                    value,
                );
            assert(0 <= i < n);
        } else if rule.action is Reject && !held {
            assert(column.rules[n - 1] == rule);
        } else {
            assert forall|i: int| 0 <= i < n && (#[trigger] column.rules[i]).action is Reject implies rule_holds(
                column.rules[i],
                column,
                columns,
                table_rows,
                uuid,
                value,
            ) by {
                if i < n - 1 {
                    assert(!(column.rules[i].action is Reject && !rule_holds(
                        column.rules[i],
                        column,
                        columns,
                        table_rows,
                        uuid,
                        value,
                    )));
                }
            }
        }
    }
}

/// What the last of the first `n` rules that does not hold makes of a value;
/// the value itself where all of them hold.
pub open spec fn last_say(
    column: ColumnView,
    columns: Seq<ColumnView>,
    table_rows: Rows,
    uuid: Text,
    value: Text,
    n: int,
) -> Option<Text>
    decreases n,
{
    if n <= 0 {
        Some(value)
    } else if rule_holds(column.rules[n - 1], column, columns, table_rows, uuid, value) {
        last_say(column, columns, table_rows, uuid, value, n - 1)
    } else {
        match column.rules[n - 1].action {
            ActionView::SetDefault(d) => Some(d),
            _ => None,
        }
    }
}

/// A value passes the rules of its column just where every rule that rejects
/// holds of it, whatever its place among the rules: a required value is not
/// empty, a unique one is in no other row, and a condition is met.
pub proof fn law_value_passes_where_rules_hold(
    schema: SchemaView,
    cache: CacheView,
    files: FilesView,
    table: Text,
    column: ColumnView,
    value: Text,
    uuid: Text,
)
    requires
        schema.contains_key(schema::initial_name(table)),
        table::table_data(schema, cache, files, table).1 is Ok,
    ensures
        validation::rules_outcome(schema, cache, files, table, column, value, Some(uuid)).1 is Ok
            <==> forall|i: int|
            0 <= i < column.rules.len() && (#[trigger] column.rules[i]).action is Reject
                ==> rule_holds(
                column.rules[i],
                column,
                schema[schema::initial_name(table)].columns,
                table::table_data(schema, cache, files, table).1->Ok_0,
                uuid,
                value,
            ),
{
    lemma_rules_run(
        schema,
        cache,
        cache,
        files,
        table,
        column,
        value,
        uuid,
        column.rules.len() as int,
    );
}

/// A value of which every rule of its column holds is stored as it is.
pub proof fn law_value_that_keeps_rules_is_unchanged(
    schema: SchemaView,
    cache: CacheView,
    files: FilesView,
    table: Text,
    column: ColumnView,
    value: Text,
    uuid: Text,
)
    requires
        schema.contains_key(schema::initial_name(table)),
        table::table_data(schema, cache, files, table).1 is Ok,
        forall|i: int|
            0 <= i < column.rules.len() ==> rule_holds(
                #[trigger] column.rules[i],
                column,
                schema[schema::initial_name(table)].columns,
                table::table_data(schema, cache, files, table).1->Ok_0,
                uuid,
                value,
            ),
    ensures
        validation::rules_outcome(schema, cache, files, table, column, value, Some(uuid)).1 == Ok::<
            Option<Text>,
            ErrorView,
        >(Some(value)),
{
    lemma_rules_run(
        schema,
        cache,
        cache,
        files,
        table,
        column,
        value,
        uuid,
        column.rules.len() as int,
    );
    lemma_last_say(
        column,
        schema[schema::initial_name(table)].columns,
        table::table_data(schema, cache, files, table).1->Ok_0,
        uuid,
        value,
        0,
        column.rules.len() as int,
    );
}

proof fn lemma_last_say(
    column: ColumnView,
    columns: Seq<ColumnView>,
    table_rows: Rows,
    uuid: Text,
    value: Text,
    i: int,
    n: int,
)
    requires
        0 <= i <= n <= column.rules.len(),
        forall|k: int|
            i <= k < n ==> rule_holds(
                #[trigger] column.rules[k],
                column,
                columns,
                table_rows,
                uuid,
                value,
            ),
    ensures
        last_say(column, columns, table_rows, uuid, value, n) == last_say(
            column,
            columns,
            table_rows,
            uuid,
            value,
            i,
        ),
    decreases n,
{
    if i < n {
        assert(rule_holds(column.rules[n - 1], column, columns, table_rows, uuid, value));
        lemma_last_say(column, columns, table_rows, uuid, value, i, n - 1);
    }
}

/// Where no rule that rejects is broken, the last rule that is broken decides
/// what is stored: its default, or nothing.
pub proof fn law_last_broken_rule_decides(
    schema: SchemaView,
    cache: CacheView,
    files: FilesView,
    table: Text,
    column: ColumnView,
    value: Text,
    uuid: Text,
    i: int,
)
    requires
        schema.contains_key(schema::initial_name(table)),
        table::table_data(schema, cache, files, table).1 is Ok,
        validation::rules_outcome(schema, cache, files, table, column, value, Some(uuid)).1 is Ok,
        0 <= i < column.rules.len(),
        !rule_holds(
            column.rules[i],
            column,
            schema[schema::initial_name(table)].columns,
            table::table_data(schema, cache, files, table).1->Ok_0,
            uuid,
            value,
        ),
        forall|k: int|
            i < k < column.rules.len() ==> rule_holds(
                #[trigger] column.rules[k],
                column,
                schema[schema::initial_name(table)].columns,
                table::table_data(schema, cache, files, table).1->Ok_0,
                uuid,
                value,
            ),
    ensures
        validation::rules_outcome(schema, cache, files, table, column, value, Some(uuid)).1 == Ok::<
            Option<Text>,
            ErrorView,
        >(
            match column.rules[i].action {
                ActionView::SetDefault(d) => Some(d),
                _ => None,
            },
        ),
{
    lemma_rules_run(
        schema,
        cache,
        cache,
        files,
        table,
        column,
        value,
        uuid,
        column.rules.len() as int,
    );
    lemma_last_say(
        column,
        schema[schema::initial_name(table)].columns,
        table::table_data(schema, cache, files, table).1->Ok_0,
        uuid,
        value,
        i + 1,
        column.rules.len() as int,
    );
}

// ---------------------------------------------------------------------------
// Rows
// ---------------------------------------------------------------------------

/// Whether a text has nothing but white space in it.
pub open spec fn is_blank(s: Text) -> bool {
    forall|i: int| 0 <= i < s.len() ==> text::is_space(#[trigger] s[i])
}

/// The value that a row gets in a column: the present time for a timestamp that
/// is missing or blank, the empty text for any other value that is missing, and
/// the given one otherwise.
pub open spec fn value_for(column: Text, data: RowData, now: Text) -> Text {
    let given = if data.contains_key(column) {
        data[column]
    } else {
        Seq::empty()
    };
    if column == "timestamp"@ && is_blank(given) {
        now
    } else {
        given
    }
}

/// Whether a value can be stored in a column: it is of the type of the column,
/// and its rules do not refuse it.
pub open spec fn is_storable(
    schema: SchemaView,
    cache: CacheView,
    files: FilesView,
    table: Text,
    column: ColumnView,
    value: Text,
    uuid: Text,
) -> bool {
    schema::fits_type(column.data_type, value) && validation::rules_outcome(
        schema,
        cache,
        files,
        table,
        column,
        value,
        Some(uuid),
    ).1 matches Ok(Some(_))
}

proof fn lemma_blank(s: Text)
    ensures
        (text::trimmed(s, Strip::Space).len() == 0) == is_blank(s),
    decreases s.len(),
{
    if s.len() > 0 && text::is_space(s[0]) {
        let r = s.skip(1);
        lemma_blank(r);
        assert(text::trimmed(s, Strip::Space) == text::trimmed(r, Strip::Space));
        if forall|i: int| 0 <= i < r.len() ==> text::is_space(#[trigger] r[i]) {
            assert forall|i: int| 0 <= i < s.len() implies text::is_space(#[trigger] s[i]) by {
                if i > 0 {
                    assert(r[i - 1] == s[i]);
                }
            }
        } else {
            let i = choose|i: int| 0 <= i < r.len() && !text::is_space(#[trigger] r[i]);
            assert(s[i + 1] == r[i]);
        }
    } else if s.len() > 0 {
        lemma_trim_back_keeps(s);
    }
}

proof fn lemma_trim_back_keeps(s: Text)
    requires
        s.len() > 0,
        !text::is_space(s[0]),
    ensures
        text::trim_back(s, Strip::Space).len() > 0,
    decreases s.len(),
{
    if s.len() > 1 {
        lemma_trim_back_keeps(s.drop_last());
    }
}

proof fn lemma_value_for(column: Text, data: RowData, now: Text)
    ensures
        validation::column_value(column, data, now) == value_for(column, data, now),
{
    let given = if data.contains_key(column) {
        data[column]
    } else {
        Seq::empty()
    };
    lemma_blank(given);
}

proof fn lemma_validation(
    schema: SchemaView,
    cache: CacheView,
    files: FilesView,
    table: Text,
    columns: Seq<ColumnView>,
    uuid: Text,
    now: Text,
    data: RowData,
    n: int,
)
    requires
        schema.contains_key(schema::initial_name(table)),
        table::table_data(schema, cache, files, table).1 is Ok,
        forall|i: int, j: int|
            0 <= i < j < columns.len() ==> (#[trigger] columns[i]).name != (
            #[trigger] columns[j]).name,
        0 <= n <= columns.len(),
    ensures
        ({
            let end = validation::validation_run(
                schema,
                files,
                table,
                columns,
                uuid,
                now,
                ValidationView { cache, data, row: Ok(Seq::empty()) },
                n,
            );
            &&& is_read(schema, cache, files, table, end.cache)
            &&& end.row is Ok <==> forall|k: int|
                0 <= k < n ==> is_storable(
                    schema,
                    cache,
                    files,
                    table,
                    #[trigger] columns[k],
                    value_for(columns[k].name, data, now),
                    uuid,
                )
            &&& end.row matches Ok(row) ==> row.len() == n && forall|k: int|
                0 <= k < n ==> validation::rules_outcome(
                    schema,
                    cache,
                    files,
                    table,
                    columns[k],
                    value_for(columns[k].name, data, now),
                    Some(uuid),
                ).1 == Ok::<Option<Text>, ErrorView>(Some(#[trigger] row[k]))
            &&& end.row is Ok ==> forall|k: int|
                n <= k < columns.len() ==> value_for((#[trigger] columns[k]).name, end.data, now)
                    == value_for(columns[k].name, data, now)
        }),
    decreases n,
{
    if n > 0 {
        lemma_validation(schema, cache, files, table, columns, uuid, now, data, n - 1);
        let start = ValidationView { cache, data, row: Ok(Seq::empty()) };
        let before = validation::validation_run(
            schema,
            files,
            table,
            columns,
            uuid,
            now,
            start,
            n - 1,
        );
        let end = validation::validation_run(schema, files, table, columns, uuid, now, start, n);
        if before.row is Ok {
            let column = columns[n - 1];
            let value = value_for(column.name, data, now);
            lemma_value_for(column.name, before.data, now);
            let m = column.rules.len() as int;
            lemma_rules_run(schema, cache, cache, files, table, column, value, uuid, m);
            lemma_rules_run(schema, cache, before.cache, files, table, column, value, uuid, m);
            if end.row is Ok {
                assert forall|k: int| 0 <= k < n implies is_storable(
                    schema,
                    cache,
                    files,
                    table,
                    #[trigger] columns[k],
                    value_for(columns[k].name, data, now),
                    uuid,
                ) by {}
                assert forall|k: int| 0 <= k < n implies validation::rules_outcome(
                    schema,
                    cache,
                    files,
                    table,
                    columns[k],
                    value_for(columns[k].name, data, now),
                    Some(uuid),
                ).1 == Ok::<Option<Text>, ErrorView>(Some(#[trigger] end.row->Ok_0[k])) by {
                    if k < n - 1 {
                        assert(end.row->Ok_0[k] == before.row->Ok_0[k]);
                    }
                }
                assert forall|k: int| n <= k < columns.len() implies value_for(
                    (#[trigger] columns[k]).name,
                    end.data,
                    now,
                ) == value_for(columns[k].name, data, now) by {
                    assert(columns[n - 1].name != columns[k].name);
                    assert(value_for(columns[k].name, before.data, now) == value_for(
                        columns[k].name,
                        data,
                        now,
                    ));
                }
            } else {
                assert(!is_storable(schema, cache, files, table, columns[n - 1], value, uuid));
            }
        } else {
            let k = choose|k: int|
                0 <= k < n - 1 && !is_storable(
                    schema,
                    cache,
                    files,
                    table,
                    #[trigger] columns[k],
                    value_for(columns[k].name, data, now),
                    uuid,
                );
            assert(0 <= k < n);
        }
    }
}

/// A row is stored just where the value of every column can be: then it has a
/// cell for each column, in the order of the columns, which holds what the rules
/// of the column leave of the value.
pub proof fn law_row_is_stored_where_values_can_be(
    schema: SchemaView,
    cache: CacheView,
    files: FilesView,
    table: Text,
    data: RowData,
    now: Text,
)
    requires
        schema.contains_key(schema::initial_name(table)),
        table::table_data(schema, cache, files, table).1 is Ok,
        forall|i: int, j: int|
            0 <= i < j < schema[schema::initial_name(table)].columns.len() ==> (
            #[trigger] schema[schema::initial_name(table)].columns[i]).name != (
            #[trigger] schema[schema::initial_name(table)].columns[j]).name,
        data.contains_key("UUID"@),
    ensures
        ({
            let columns = schema[schema::initial_name(table)].columns;
            let result = validation::validated_row(schema, cache, files, table, data, now).1;
            &&& result is Ok <==> forall|k: int|
                0 <= k < columns.len() ==> is_storable(
                    schema,
                    cache,
                    files,
                    table,
                    #[trigger] columns[k],
                    value_for(columns[k].name, data, now),
                    data["UUID"@],
                )
            &&& result matches Ok(row) ==> row.len() == columns.len() && forall|k: int|
                0 <= k < columns.len() ==> validation::rules_outcome(
                    schema,
                    cache,
                    files,
                    table,
                    columns[k],
                    value_for(columns[k].name, data, now),
                    Some(data["UUID"@]),
                ).1 == Ok::<Option<Text>, ErrorView>(Some(#[trigger] row[k]))
        }),
{
    let columns = schema[schema::initial_name(table)].columns;
    lemma_validation(
        schema,
        cache,
        files,
        table,
        columns,
        data["UUID"@],
        now,
        data,
        columns.len() as int,
    );
}

/// The first rule that rejects a value gives the error: which rule it is, of
/// which column, and where it matters of which value.
pub proof fn law_first_rejecting_rule_gives_the_error(
    schema: SchemaView,
    cache: CacheView,
    files: FilesView,
    table: Text,
    column: ColumnView,
    value: Text,
    uuid: Text,
    i: int,
)
    requires
        schema.contains_key(schema::initial_name(table)),
        table::table_data(schema, cache, files, table).1 is Ok,
        0 <= i < column.rules.len(),
        column.rules[i].action is Reject,
        !rule_holds(
            column.rules[i],
            column,
            schema[schema::initial_name(table)].columns,
            table::table_data(schema, cache, files, table).1->Ok_0,
            uuid,
            value,
        ),
        forall|k: int|
            0 <= k < i && (#[trigger] column.rules[k]).action is Reject ==> rule_holds(
                column.rules[k],
                column,
                schema[schema::initial_name(table)].columns,
                table::table_data(schema, cache, files, table).1->Ok_0,
                uuid,
                value,
            ),
    ensures
        validation::rules_outcome(schema, cache, files, table, column, value, Some(uuid)).1 == Err::<
            Option<Text>,
            ErrorView,
        >(
            ErrorView {
                kind: ErrorKind::InvalidData,
                message: match column.rules[i].constraint_type {
                    ConstraintView::NotNull => "NotNull constraint violated"@,
                    ConstraintView::Unique => "Unique constraint violated for column '"@
                        + column.name + "', Value '"@ + value + "' already exists in table."@,
                    ConstraintView::Check(e) => "Check constraint violated for column '"@
                        + column.name + "'. Expression "@ + validation::expression_text(e)
                        + " does not hold."@,
                },
            },
        ),
{
    let columns = schema[schema::initial_name(table)].columns;
    let table_rows = table::table_data(schema, cache, files, table).1->Ok_0;
    lemma_rules_run(schema, cache, cache, files, table, column, value, uuid, i);
    let (before, so_far) = validation::rules_run(
        schema,
        cache,
        files,
        table,
        column,
        value,
        Some(uuid),
        i,
    );
    lemma_same_rows(schema, cache, files, table, before);
    lemma_value_taken(table_rows, columns, column.name, uuid, value);
    lemma_error_stays(
        schema,
        cache,
        files,
        table,
        column,
        value,
        uuid,
        i + 1,
        column.rules.len() as int,
    );
}

proof fn lemma_error_stays(
    schema: SchemaView,
    cache: CacheView,
    files: FilesView,
    table: Text,
    column: ColumnView,
    value: Text,
    uuid: Text,
    i: int,
    n: int,
)
    requires
        0 < i <= n,
        validation::rules_run(schema, cache, files, table, column, value, Some(uuid), i).1 is Err,
    ensures
        validation::rules_run(schema, cache, files, table, column, value, Some(uuid), n)
            == validation::rules_run(schema, cache, files, table, column, value, Some(uuid), i),
    decreases n - i,
{
    if i < n {
        lemma_error_stays(schema, cache, files, table, column, value, uuid, i, n - 1);
    }
}

/// A value without a row to belong to breaks no rule of uniqueness, and every
/// other rule as any value does.
pub proof fn law_value_without_a_row_is_unique(
    schema: SchemaView,
    cache: CacheView,
    files: FilesView,
    table: Text,
    column: ColumnView,
    value: Text,
)
    requires
        table::table_data(schema, cache, files, table).1 is Ok,
        column.rules.len() == 1,
        column.rules[0].constraint_type is Unique,
    ensures
        validation::rules_outcome(schema, cache, files, table, column, value, None).1 == Ok::<
            Option<Text>,
            ErrorView,
        >(Some(value)),
{
    reveal_with_fuel(validation::rules_run, 2);
}

/// The first column whose value is not of its type gives the error.
pub proof fn law_first_misfit_gives_the_error(
    schema: SchemaView,
    cache: CacheView,
    files: FilesView,
    table: Text,
    data: RowData,
    now: Text,
    k: int,
)
    requires
        schema.contains_key(schema::initial_name(table)),
        table::table_data(schema, cache, files, table).1 is Ok,
        data.contains_key("UUID"@),
        0 <= k < schema[schema::initial_name(table)].columns.len(),
        ({
            let columns = schema[schema::initial_name(table)].columns;
            &&& forall|i: int, j: int|
                0 <= i < j < columns.len() ==> (#[trigger] columns[i]).name != (
                #[trigger] columns[j]).name
            &&& !schema::fits_type(columns[k].data_type, value_for(columns[k].name, data, now))
            &&& forall|i: int|
                0 <= i < k ==> is_storable(
                    schema,
                    cache,
                    files,
                    table,
                    #[trigger] columns[i],
                    value_for(columns[i].name, data, now),
                    data["UUID"@],
                )
        }),
    ensures
        ({
            let column = schema[schema::initial_name(table)].columns[k];
            validation::validated_row(schema, cache, files, table, data, now).1 == Err::<
                Row,
                ErrorView,
            >(
                ErrorView {
                    kind: ErrorKind::InvalidInput,
                    message: "Invalid data type for column '"@ + column.name + "'. Expected: "@
                        + column.data_type.name() + ", Found: "@ + value_for(
                        column.name,
                        data,
                        now,
                    ),
                },
            )
        }),
{
    let columns = schema[schema::initial_name(table)].columns;
    let uuid = data["UUID"@];
    let start = ValidationView { cache, data, row: Ok(Seq::empty()) };
    lemma_validation(schema, cache, files, table, columns, uuid, now, data, k);
    let before = validation::validation_run(schema, files, table, columns, uuid, now, start, k);
    lemma_value_for(columns[k].name, before.data, now);
    lemma_failure_stays(
        schema,
        files,
        table,
        columns,
        uuid,
        now,
        start,
        k + 1,
        columns.len() as int,
    );
}

proof fn lemma_failure_stays(
    schema: SchemaView,
    files: FilesView,
    table: Text,
    columns: Seq<ColumnView>,
    uuid: Text,
    now: Text,
    start: ValidationView,
    i: int,
    n: int,
)
    requires
        0 < i <= n,
        validation::validation_run(schema, files, table, columns, uuid, now, start, i).row is Err,
    ensures
        validation::validation_run(schema, files, table, columns, uuid, now, start, n)
            == validation::validation_run(schema, files, table, columns, uuid, now, start, i),
    decreases n - i,
{
    if i < n {
        lemma_failure_stays(schema, files, table, columns, uuid, now, start, i, n - 1);
    }
}

} // verus!
