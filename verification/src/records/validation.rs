//! The rules of the columns on the values of a row.

use crate::errors;
use crate::errors::{DbError, ErrorKind, ErrorView};
use crate::executer::executer;
use crate::executer::executer::evaluate_where_clause;
use crate::outside;
use crate::outside::debug_str;
use crate::query::parser::{Expression, ExpressionView, Identifier, IdentifierView};
use crate::records::rows::{Row, Rows};
use crate::records::table;
use crate::records::table::{get_table_data, Cache, CacheView, FilesView, TableFiles};
use crate::schema::schema;
use crate::schema::schema::{
    initial_table_name, is_valid_data_type, ActionView, Column, ColumnView, ConstraintType,
    ConstraintView, RuleAction, RuleView, Schema, SchemaView,
};
use crate::string_map::StringMap;
use crate::text;
use crate::text::{concat3, concat5, str_eq, trim_matches, Strip, Text};
use vstd::prelude::*;
use vstd::string::*;

verus! {

// ---------------------------------------------------------------------------
// The values of a column
// ---------------------------------------------------------------------------

/// The position of the first column with the given name.
pub open spec fn named_column(columns: Seq<ColumnView>, name: Text) -> Option<int>
    decreases columns.len(),
{
    if columns.len() == 0 {
        None
    } else {
        match named_column(columns.drop_last(), name) {
            Some(i) => Some(i),
            None => if columns.last().name == name {
                Some(columns.len() - 1)
            } else {
                None
            },
        }
    }
}

/// The position of the first column whose name in lower case is `uuid`.
pub open spec fn uuid_column(columns: Seq<ColumnView>) -> Option<int>
    decreases columns.len(),
{
    if columns.len() == 0 {
        None
    } else {
        match uuid_column(columns.drop_last()) {
            Some(i) => Some(i),
            None => if outside::lowercase(columns.last().name) == "uuid"@ {
                Some(columns.len() - 1)
            } else {
                None
            },
        }
    }
}

/// The cell of a row without double quotes around it.
pub open spec fn clean_cell(row: Row, i: int) -> Option<Text> {
    if 0 <= i < row.len() {
        Some(text::trimmed(row[i], Strip::Quote))
    } else {
        None
    }
}

/// Whether a row other than that with the given UUID has `value` in a column.
pub open spec fn other_row_has(
    row: Row,
    columns: Seq<ColumnView>,
    column: Text,
    uuid: Text,
    value: Text,
) -> bool {
    match (uuid_column(columns), named_column(columns, column)) {
        (Some(u), Some(c)) => clean_cell(row, u) != Some(text::trimmed(uuid, Strip::Quote))
            && clean_cell(row, c) == Some(value),
        _ => false,
    }
}

/// Whether `value` is in a column of any row other than that with the given
/// UUID. Without a UUID no value counts.
pub open spec fn value_taken(
    rows: Rows,
    columns: Seq<ColumnView>,
    column: Text,
    uuid: Option<Text>,
    value: Text,
) -> bool {
    uuid is Some && exists|i: int|
        0 <= i < rows.len() && other_row_has(#[trigger] rows[i], columns, column, uuid->0, value)
}

fn find_named_column(columns: &Vec<Column>, name: &str) -> (r: Option<usize>)
    ensures
        match r {
            Some(i) => i < columns@.len() && named_column(columns.deep_view(), name@) == Some(
                i as int,
            ),
            None => named_column(columns.deep_view(), name@) is None,
        },
{
    let ghost cs = columns.deep_view();
    let mut found: Option<usize> = None;
    let mut i: usize = 0;
    assert(cs.take(0) =~= Seq::<ColumnView>::empty());
    while i < columns.len()
        invariant
            i <= columns@.len(),
            cs == columns.deep_view(),
            match found {
                Some(k) => k < i && named_column(cs.take(i as int), name@) == Some(k as int),
                None => named_column(cs.take(i as int), name@) is None,
            },
        decreases columns@.len() - i,
    {
        assert(cs.take(i as int + 1).drop_last() =~= cs.take(i as int));
        assert(cs.take(i as int + 1).last() == columns@[i as int].deep_view());
        if found.is_none() && str_eq(columns[i].name.as_str(), name) {
            found = Some(i);
        }
        i = i + 1;
    }
    assert(cs.take(i as int) =~= cs);
    found
}

fn find_uuid_column(columns: &Vec<Column>) -> (r: Option<usize>)
    ensures
        match r {
            Some(i) => i < columns@.len() && uuid_column(columns.deep_view()) == Some(i as int),
            None => uuid_column(columns.deep_view()) is None,
        },
{
    let ghost cs = columns.deep_view();
    let mut found: Option<usize> = None;
    let mut i: usize = 0;
    assert(cs.take(0) =~= Seq::<ColumnView>::empty());
    while i < columns.len()
        invariant
            i <= columns@.len(),
            cs == columns.deep_view(),
            match found {
                Some(k) => k < i && uuid_column(cs.take(i as int)) == Some(k as int),
                None => uuid_column(cs.take(i as int)) is None,
            },
        decreases columns@.len() - i,
    {
        assert(cs.take(i as int + 1).drop_last() =~= cs.take(i as int));
        assert(cs.take(i as int + 1).last() == columns@[i as int].deep_view());
        if found.is_none() {
            let lower = columns[i].name.as_str().to_lowercase();
            if str_eq(lower.as_str(), "uuid") {
                found = Some(i);
            }
        }
        i = i + 1;
    }
    assert(cs.take(i as int) =~= cs);
    found
}

fn list_contains(values: &Vec<String>, value: &str) -> (r: bool)
    ensures
        r == values.deep_view().contains(value@),
{
    let ghost vs = values.deep_view();
    let mut i: usize = 0;
    while i < values.len()
        invariant
            i <= values@.len(),
            vs == values.deep_view(),
            forall|k: int| 0 <= k < i ==> #[trigger] vs[k] != value@,
        decreases values@.len() - i,
    {
        assert(vs[i as int] == values@[i as int]@);
        if str_eq(values[i].as_str(), value) {
            return true;
        }
        i = i + 1;
    }
    false
}

/// The values of a column in all rows but that with the given UUID, each once.
/// The header row, which holds the names of the columns, counts as a row.
/// Without a UUID there are none.
pub fn get_column_values(
    schema: &Schema,
    cache: &mut Cache,
    files: &TableFiles,
    table_name: &str,
    column_name: &str,
    row_uuid: Option<&str>,
) -> (r: Result<Vec<String>, DbError>)
    ensures
        final(cache).deep_view() == table::table_data(
            schema.deep_view(),
            old(cache).deep_view(),
            files.deep_view(),
            table_name@,
        ).0,
        match (
            r,
            table::table_data(
                schema.deep_view(),
                old(cache).deep_view(),
                files.deep_view(),
                table_name@,
            ).1,
        ) {
            (Ok(values), Ok(rows)) => values.deep_view().no_duplicates() && forall|v: Text|
                #[trigger] values.deep_view().contains(v) <==> value_taken(
                    rows,
                    schema.deep_view()[schema::initial_name(table_name@)].columns,
                    column_name@,
                    row_uuid.deep_view(),
                    v,
                ),
            (Err(e), Err(v)) => e.deep_view() == v,
            _ => false,
        },
{
    let rows = match get_table_data(schema, cache, files, table_name) {
        Ok(rows) => rows,
        Err(e) => {
            return Err(e);
        },
    };
    let mut values: Vec<String> = Vec::new();
    let initial = initial_table_name(table_name);
    let columns = match schema.tables.get(initial.as_str()) {
        Some(t) => &t.columns,
        None => {
            return Ok(values);
        },
    };
    let ghost rs = rows.deep_view();
    let ghost cs = columns.deep_view();
    let uuid = match row_uuid {
        Some(u) => u,
        None => {
            return Ok(values);
        },
    };
    assert(row_uuid.deep_view() == Some(uuid@));
    let (u, c) = match (find_uuid_column(columns), find_named_column(columns, column_name)) {
        (Some(u), Some(c)) => (u, c),
        _ => {
            return Ok(values);
        },
    };
    let clean_uuid = trim_matches(uuid, Strip::Quote);
    let mut i: usize = 0;
    while i < rows.len()
        invariant
            i <= rows@.len(),
            rs == rows.deep_view(),
            clean_uuid@ == text::trimmed(uuid@, Strip::Quote),
            uuid_column(cs) == Some(u as int),
            named_column(cs, column_name@) == Some(c as int),
            values.deep_view().no_duplicates(),
            forall|v: Text| #[trigger]
                values.deep_view().contains(v) <==> exists|k: int|
                    0 <= k < i && other_row_has(#[trigger] rs[k], cs, column_name@, uuid@, v),
        decreases rows@.len() - i,
    {
        let row = &rows[i];
        let ghost vs = values.deep_view();
        assert(rs[i as int] == row.deep_view());
        let same = if u < row.len() {
            assert(row.deep_view()[u as int] == row@[u as int]@);
            let cell = trim_matches(row[u].as_str(), Strip::Quote);
            str_eq(cell.as_str(), clean_uuid.as_str())
        } else {
            false
        };
        if !same && c < row.len() {
            assert(row.deep_view()[c as int] == row@[c as int]@);
            let value = trim_matches(row[c].as_str(), Strip::Quote);
            let ghost w = value@;
            assert(other_row_has(rs[i as int], cs, column_name@, uuid@, w));
            if !list_contains(&values, value.as_str()) {
                values.push(value);
                assert(values.deep_view() =~= vs.push(w));
            }
            proof {
                assert(values.deep_view().contains(w)) by {
                    if !vs.contains(w) {
                        assert(values.deep_view()[vs.len() as int] == w);
                    }
                }
                assert forall|v: Text| v != w implies values.deep_view().contains(v)
                    == vs.contains(v) by {
                    if vs.contains(v) {
                        let k = choose|k: int| 0 <= k < vs.len() && vs[k] == v;
                        assert(values.deep_view()[k] == v);
                    }
                    if values.deep_view().contains(v) {
                        let k = choose|k: int|
                            0 <= k < values.deep_view().len() && values.deep_view()[k] == v;
                        assert(vs[k] == v);
                    }
                }
            }
            assert forall|v: Text| #[trigger]
                values.deep_view().contains(v) <==> exists|k: int|
                    0 <= k < i + 1 && other_row_has(#[trigger] rs[k], cs, column_name@, uuid@, v) by {
                if v == w {
                    assert(other_row_has(rs[i as int], cs, column_name@, uuid@, v));
                } else {
                    assert(!other_row_has(rs[i as int], cs, column_name@, uuid@, v));
                    assert(values.deep_view().contains(v) == vs.contains(v));
                    if vs.contains(v) {
                        let k = choose|k: int|
                            0 <= k < i && other_row_has(
                                #[trigger] rs[k],
                                cs,
                                column_name@,
                                uuid@,
                                v,
                            );
                        assert(0 <= k < i + 1);
                    }
                }
            }
        } else {
            assert forall|v: Text| !other_row_has(rs[i as int], cs, column_name@, uuid@, v) by {}
            assert forall|v: Text| #[trigger]
                values.deep_view().contains(v) <==> exists|k: int|
                    0 <= k < i + 1 && other_row_has(#[trigger] rs[k], cs, column_name@, uuid@, v) by {
                if vs.contains(v) {
                    let k = choose|k: int|
                        0 <= k < i && other_row_has(#[trigger] rs[k], cs, column_name@, uuid@, v);
                    assert(0 <= k < i + 1);
                }
            }
        }
        i = i + 1;
    }
    Ok(values)
}

// ---------------------------------------------------------------------------
// Rules
// ---------------------------------------------------------------------------

/// The text of an identifier in an error message.
pub open spec fn identifier_text(i: IdentifierView) -> Text {
    match i {
        IdentifierView::Name(n) => "Name("@ + outside::debug_text(n) + ")"@,
        IdentifierView::Literal(v, None) => "Literal("@ + outside::debug_text(v) + ", None)"@,
        IdentifierView::Literal(v, Some(t)) => "Literal("@ + outside::debug_text(v) + ", Some("@
            + t.name() + "))"@,
        IdentifierView::Star => "Star"@,
    }
}

/// The text of a condition in an error message.
pub open spec fn expression_text(e: ExpressionView) -> Text {
    match e {
        ExpressionView::Comparison { left, operator, right } => "Comparison { left: "@
            + identifier_text(left) + ", operator: "@ + outside::debug_text(operator)
            + ", right: "@ + identifier_text(right) + " }"@,
    }
}

fn show_identifier(i: &Identifier) -> (r: String)
    ensures
        r@ == identifier_text(i.deep_view()),
{
    match i {
        Identifier::Name(n) => concat3("Name(", debug_str(n.as_str()).as_str(), ")"),
        Identifier::Literal(v, None) => concat3(
            "Literal(",
            debug_str(v.as_str()).as_str(),
            ", None)",
        ),
        Identifier::Literal(v, Some(t)) => concat5(
            "Literal(",
            debug_str(v.as_str()).as_str(),
            ", Some(",
            t.to_name().as_str(),
            "))",
        ),
        Identifier::Star => "Star".to_owned(),
    }
}

fn show_expression(e: &Expression) -> (r: String)
    ensures
        r@ == expression_text(e.deep_view()),
{
    match e {
        Expression::Comparison { left, operator, right } => {
            let l = show_identifier(left);
            let o = debug_str(operator.as_str());
            let mut r = concat5("Comparison { left: ", l.as_str(), ", operator: ", o.as_str(), ", right: ");
            r.append(show_identifier(right).as_str());
            r.append(" }");
            r
        },
    }
}

/// The error for a missing value.
pub open spec fn not_null_error() -> ErrorView {
    ErrorView { kind: ErrorKind::InvalidData, message: "NotNull constraint violated"@ }
}

/// The error for a value that is there already.
pub open spec fn unique_error(column: Text, value: Text) -> ErrorView {
    ErrorView {
        kind: ErrorKind::InvalidData,
        message: "Unique constraint violated for column '"@ + column + "', Value '"@ + value
            + "' already exists in table."@,
    }
}

/// The error for a value that does not meet a condition.
pub open spec fn check_error(column: Text, e: ExpressionView) -> ErrorView {
    ErrorView {
        kind: ErrorKind::InvalidData,
        message: "Check constraint violated for column '"@ + column + "'. Expression "@
            + expression_text(e) + " does not hold."@,
    }
}

/// What becomes of a value that breaks a rule.
pub open spec fn act(action: ActionView, error: ErrorView) -> Result<Option<Text>, ErrorView> {
    match action {
        ActionView::SetNull => Ok(None),
        ActionView::SetDefault(d) => Ok(Some(d)),
        ActionView::Reject => Err(error),
    }
}

/// What one rule does: the cache after it, and what becomes of the value, which
/// was `current` before. The rule is held against the value as it came.
pub open spec fn rule_step(
    schema: SchemaView,
    cache: CacheView,
    files: FilesView,
    table: Text,
    column: ColumnView,
    value: Text,
    uuid: Option<Text>,
    rule: RuleView,
    current: Option<Text>,
) -> (CacheView, Result<Option<Text>, ErrorView>) {
    match rule.constraint_type {
        ConstraintView::NotNull => if value.len() == 0 {
            (cache, act(rule.action, not_null_error()))
        } else {
            (cache, Ok(current))
        },
        ConstraintView::Unique => match table::table_data(schema, cache, files, table) {
            (after, Err(e)) => (after, Err(e)),
            (after, Ok(rows)) => if value_taken(
                rows,
                schema[schema::initial_name(table)].columns,
                column.name,
                uuid,
                value,
            ) {
                (after, act(rule.action, unique_error(column.name, value)))
            } else {
                (after, Ok(current))
            },
        },
        ConstraintView::Check(e) => if executer::row_meets(e, seq![value], seq![column.name]) {
            (cache, Ok(current))
        } else {
            (cache, act(rule.action, check_error(column.name, e)))
        },
    }
}

/// What the first `n` rules of a column do, one after the other: the cache after
/// them, and what becomes of the value. An error ends it.
pub open spec fn rules_run(
    schema: SchemaView,
    cache: CacheView,
    files: FilesView,
    table: Text,
    column: ColumnView,
    value: Text,
    uuid: Option<Text>,
    n: int,
) -> (CacheView, Result<Option<Text>, ErrorView>)
    decreases n,
{
    if n <= 0 {
        (cache, Ok(Some(value)))
    } else {
        match rules_run(schema, cache, files, table, column, value, uuid, n - 1) {
            (after, Err(e)) => (after, Err(e)),
            (after, Ok(current)) => rule_step(
                schema,
                after,
                files,
                table,
                column,
                value,
                uuid,
                column.rules[n - 1],
                current,
            ),
        }
    }
}

/// What the rules of a column do to a value.
pub open spec fn rules_outcome(
    schema: SchemaView,
    cache: CacheView,
    files: FilesView,
    table: Text,
    column: ColumnView,
    value: Text,
    uuid: Option<Text>,
) -> (CacheView, Result<Option<Text>, ErrorView>) {
    rules_run(schema, cache, files, table, column, value, uuid, column.rules.len() as int)
}

proof fn lemma_rule_error_stays(
    schema: SchemaView,
    cache: CacheView,
    files: FilesView,
    table: Text,
    column: ColumnView,
    value: Text,
    uuid: Option<Text>,
    k: int,
    n: int,
)
    requires
        0 <= k <= n,
        rules_run(schema, cache, files, table, column, value, uuid, k).1 is Err,
    ensures
        rules_run(schema, cache, files, table, column, value, uuid, n) == rules_run(
            schema,
            cache,
            files,
            table,
            column,
            value,
            uuid,
            k,
        ),
    decreases n - k,
{
    if k < n {
        lemma_rule_error_stays(schema, cache, files, table, column, value, uuid, k, n - 1);
    }
}

fn perform(action: &RuleAction, kind: ErrorKind, message: String) -> (r: Result<
    Option<String>,
    DbError,
>)
    ensures
        errors::result_view(r) == act(
            action.deep_view(),
            (ErrorView { kind, message: message@ }),
        ),
{
    match action {
        RuleAction::SetNull => Ok(None),
        RuleAction::SetDefault(d) => Ok(Some(d.clone())),
        RuleAction::Reject => Err(DbError::new(kind, message)),
    }
}

/// Holds a value against the rules of its column. Gives the value that is to be
/// stored: the value itself, the default of a broken rule, or nothing; and an
/// error where a broken rule rejects the value.
pub fn check_column_rules(
    schema: &Schema,
    cache: &mut Cache,
    files: &TableFiles,
    column: &Column,
    value: &str,
    table_name: &str,
    row_uuid: Option<&str>,
) -> (r: Result<Option<String>, DbError>)
    ensures
        (final(cache).deep_view(), errors::result_view(r)) == rules_outcome(
            schema.deep_view(),
            old(cache).deep_view(),
            files.deep_view(),
            table_name@,
            column.deep_view(),
            value@,
            row_uuid.deep_view(),
        ),
{
    let ghost sv = schema.deep_view();
    let ghost c0 = cache.deep_view();
    let ghost fv = files.deep_view();
    let ghost cv = column.deep_view();
    let ghost uv = row_uuid.deep_view();
    let ghost n = cv.rules.len() as int;
    let mut current: Option<String> = Some(value.to_owned());
    let mut i: usize = 0;
    while i < column.rules.len()
        invariant
            i <= column.rules@.len(),
            n == column.rules@.len(),
            c0 == old(cache).deep_view(),
            sv == schema.deep_view(),
            fv == files.deep_view(),
            cv == column.deep_view(),
            uv == row_uuid.deep_view(),
            (cache.deep_view(), Ok::<Option<Text>, ErrorView>(current.deep_view())) == rules_run(
                sv,
                c0,
                fv,
                table_name@,
                cv,
                value@,
                uv,
                i as int,
            ),
        decreases column.rules@.len() - i,
    {
        let rule = &column.rules[i];
        let ghost rv = rule.deep_view();
        assert(cv.rules[i as int] == rv);
        let outcome: Result<Option<String>, DbError> = match &rule.constraint_type {
            ConstraintType::NotNull => {
                if value.is_empty() {
                    perform(
                        &rule.action,
                        ErrorKind::InvalidData,
                        "NotNull constraint violated".to_owned(),
                    )
                } else {
                    Ok(current)
                }
            },
            ConstraintType::Unique => {
                match get_column_values(
                    schema,
                    cache,
                    files,
                    table_name,
                    column.name.as_str(),
                    row_uuid,
                ) {
                    Err(e) => Err(e),
                    Ok(values) => {
                        if list_contains(&values, value) {
                            perform(
                                &rule.action,
                                ErrorKind::InvalidData,
                                concat5(
                                    "Unique constraint violated for column '",
                                    column.name.as_str(),
                                    "', Value '",
                                    value,
                                    "' already exists in table.",
                                ),
                            )
                        } else {
                            Ok(current)
                        }
                    },
                }
            },
            ConstraintType::Check(expression) => {
                let mut names: Vec<String> = Vec::new();
                names.push(column.name.clone());
                let mut row: Vec<String> = Vec::new();
                row.push(value.to_owned());
                assert(names.deep_view() =~= seq![cv.name]);
                assert(row.deep_view() =~= seq![value@]);
                if evaluate_where_clause(expression, &row, &names) {
                    Ok(current)
                } else {
                    perform(
                        &rule.action,
                        ErrorKind::InvalidData,
                        concat5(
                            "Check constraint violated for column '",
                            column.name.as_str(),
                            "'. Expression ",
                            show_expression(expression).as_str(),
                            " does not hold.",
                        ),
                    )
                }
            },
        };
        assert((cache.deep_view(), errors::result_view(outcome)) == rules_run(
            sv,
            c0,
            fv,
            table_name@,
            cv,
            value@,
            uv,
            i as int + 1,
        ));
        match outcome {
            Ok(next) => {
                current = next;
            },
            Err(e) => {
                proof {
                    lemma_rule_error_stays(sv, c0, fv, table_name@, cv, value@, uv, i as int + 1, n);
                }
                return Err(e);
            },
        }
        i = i + 1;
    }
    Ok(current)
}

// ---------------------------------------------------------------------------
// Whole rows
// ---------------------------------------------------------------------------

/// The values that a row is made of, by the names of their columns.
pub type RowData = Map<Text, Text>;

/// The value for a column. A timestamp that is missing or blank is the present
/// time; any other missing value is the empty text.
pub open spec fn column_value(column: Text, data: RowData, now: Text) -> Text {
    let given = if data.contains_key(column) {
        data[column]
    } else {
        Seq::empty()
    };
    if column == "timestamp"@ && text::trimmed(given, Strip::Space).len() == 0 {
        now
    } else {
        given
    }
}

/// The error for a value that is not of its column's type.
pub open spec fn type_error(column: ColumnView, value: Text) -> ErrorView {
    ErrorView {
        kind: ErrorKind::InvalidInput,
        message: "Invalid data type for column '"@ + column.name + "'. Expected: "@
            + column.data_type.name() + ", Found: "@ + value,
    }
}

/// The error for a value that a rule has set to nothing.
pub open spec fn constraint_error(column: Text) -> ErrorView {
    ErrorView {
        kind: ErrorKind::InvalidInput,
        message: "Constraint violation for column '"@ + column + "'"@,
    }
}

/// The value to be stored in a column.
pub open spec fn validated_value(
    schema: SchemaView,
    cache: CacheView,
    files: FilesView,
    table: Text,
    column: ColumnView,
    value: Text,
    uuid: Text,
) -> (CacheView, Result<Text, ErrorView>) {
    if !schema::fits_type(column.data_type, value) {
        (cache, Err(type_error(column, value)))
    } else {
        match rules_outcome(schema, cache, files, table, column, value, Some(uuid)) {
            (after, Err(e)) => (after, Err(e)),
            (after, Ok(None)) => (after, Err(constraint_error(column.name))),
            (after, Ok(Some(v))) => (after, Ok(v)),
        }
    }
}

/// How far the validation of a row has come.
pub struct ValidationView {
    /// The cache.
    pub cache: CacheView,
    /// The values that no column has taken yet.
    pub data: RowData,
    /// The values to be stored, or the error that ended the validation.
    pub row: Result<Row, ErrorView>,
}

/// The validation of the first `n` columns of a row, in their order. Each
/// column takes its value, so that a second column of the same name finds none.
pub open spec fn validation_run(
    schema: SchemaView,
    files: FilesView,
    table: Text,
    columns: Seq<ColumnView>,
    uuid: Text,
    now: Text,
    start: ValidationView,
    n: int,
) -> ValidationView
    decreases n,
{
    if n <= 0 {
        start
    } else {
        let before = validation_run(schema, files, table, columns, uuid, now, start, n - 1);
        match before.row {
            Err(e) => before,
            Ok(row) => {
                let column = columns[n - 1];
                let value = column_value(column.name, before.data, now);
                let (after, result) = validated_value(
                    schema,
                    before.cache,
                    files,
                    table,
                    column,
                    value,
                    uuid,
                );
                ValidationView {
                    cache: after,
                    data: before.data.remove(column.name),
                    row: match result {
                        Ok(v) => Ok(row.push(v)),
                        Err(e) => Err(e),
                    },
                }
            },
        }
    }
}

/// The row that is made of some values, with the rules of its table kept, and
/// the cache after that.
pub open spec fn validated_row(
    schema: SchemaView,
    cache: CacheView,
    files: FilesView,
    table: Text,
    data: RowData,
    now: Text,
) -> (CacheView, Result<Row, ErrorView>) {
    if !schema.contains_key(schema::initial_name(table)) {
        (cache, Err(table::no_such_table(table, "' does not exist in schema"@)))
    } else if !data.contains_key("UUID"@) {
        (
            cache,
            Err(
                ErrorView {
                    kind: ErrorKind::InvalidInput,
                    message: "Missing UUID column in row data"@,
                },
            ),
        )
    } else {
        let columns = schema[schema::initial_name(table)].columns;
        let end = validation_run(
            schema,
            files,
            table,
            columns,
            data["UUID"@],
            now,
            ValidationView { cache, data, row: Ok(Seq::empty()) },
            columns.len() as int,
        );
        (end.cache, end.row)
    }
}

proof fn lemma_validation_error_stays(
    schema: SchemaView,
    files: FilesView,
    table: Text,
    columns: Seq<ColumnView>,
    uuid: Text,
    now: Text,
    start: ValidationView,
    k: int,
    n: int,
)
    requires
        0 <= k <= n,
        validation_run(schema, files, table, columns, uuid, now, start, k).row is Err,
    ensures
        validation_run(schema, files, table, columns, uuid, now, start, n) == validation_run(
            schema,
            files,
            table,
            columns,
            uuid,
            now,
            start,
            k,
        ),
    decreases n - k,
{
    if k < n {
        lemma_validation_error_stays(schema, files, table, columns, uuid, now, start, k, n - 1);
    }
}

fn validate_value(
    schema: &Schema,
    cache: &mut Cache,
    files: &TableFiles,
    table_name: &str,
    column: &Column,
    value: &str,
    uuid: &str,
) -> (r: Result<String, DbError>)
    ensures
        (final(cache).deep_view(), errors::result_view(r)) == validated_value(
            schema.deep_view(),
            old(cache).deep_view(),
            files.deep_view(),
            table_name@,
            column.deep_view(),
            value@,
            uuid@,
        ),
{
    if !is_valid_data_type(&column.data_type, value) {
        let mut message = concat5(
            "Invalid data type for column '",
            column.name.as_str(),
            "'. Expected: ",
            column.data_type.to_name().as_str(),
            ", Found: ",
        );
        message.append(value);
        return Err(DbError::new(ErrorKind::InvalidInput, message));
    }
    let given: Option<&str> = Some(uuid);
    assert(given.deep_view() == Some(uuid@));
    match check_column_rules(schema, cache, files, column, value, table_name, given) {
        Err(e) => Err(e),
        Ok(Some(v)) => Ok(v),
        Ok(None) => Err(
            DbError::new(
                ErrorKind::InvalidInput,
                concat3("Constraint violation for column '", column.name.as_str(), "'"),
            ),
        ),
    }
}

/// Makes a row of some values, in the order of the columns of the table, with
/// the rules of the columns kept. `now` is the present time.
#[verifier::loop_isolation(false)]
pub fn validate_and_process_row(
    schema: &Schema,
    cache: &mut Cache,
    files: &TableFiles,
    table_name: &str,
    row_data: StringMap<String>,
    now: &str,
) -> (r: Result<Vec<String>, DbError>)
    ensures
        (final(cache).deep_view(), errors::result_view(r)) == validated_row(
            schema.deep_view(),
            old(cache).deep_view(),
            files.deep_view(),
            table_name@,
            row_data.deep_view(),
            now@,
        ),
{
    let initial = initial_table_name(table_name);
    let columns = match schema.tables.get(initial.as_str()) {
        Some(t) => &t.columns,
        None => {
            return Err(
                DbError::new(
                    ErrorKind::NotFound,
                    concat3("Table '", initial.as_str(), "' does not exist in schema"),
                ),
            );
        },
    };
    let uuid = match row_data.get("UUID") {
        Some(u) => u.clone(),
        None => {
            return Err(
                DbError::new(
                    ErrorKind::InvalidInput,
                    "Missing UUID column in row data".to_owned(),
                ),
            );
        },
    };
    let ghost sv = schema.deep_view();
    let ghost fv = files.deep_view();
    let ghost cs = columns.deep_view();
    let ghost start = ValidationView {
        cache: cache.deep_view(),
        data: row_data.deep_view(),
        row: Ok(Seq::empty()),
    };
    let mut data = row_data;
    let mut row: Vec<String> = Vec::new();
    let mut i: usize = 0;
    assert(row.deep_view() =~= Seq::<Text>::empty());
    while i < columns.len()
        invariant
            i <= columns@.len(),
            sv == schema.deep_view(),
            fv == files.deep_view(),
            cs == columns.deep_view(),
            validation_run(sv, fv, table_name@, cs, uuid@, now@, start, i as int) == (
            ValidationView {
                cache: cache.deep_view(),
                data: data.deep_view(),
                row: Ok(row.deep_view()),
            }),
        decreases columns@.len() - i,
    {
        let column = &columns[i];
        let ghost before = row.deep_view();
        let ghost data0 = data.deep_view();
        assert(cs[i as int] == column.deep_view());
        let given = match data.remove(column.name.as_str()) {
            Some(v) => v,
            None => String::new(),
        };
        let value = if str_eq(column.name.as_str(), "timestamp") && trim_matches(
            given.as_str(),
            Strip::Space,
        ).as_str().is_empty() {
            now.to_owned()
        } else {
            given
        };
        assert(value@ == column_value(column.name@, data0, now@));
        match validate_value(
            schema,
            cache,
            files,
            table_name,
            column,
            value.as_str(),
            uuid.as_str(),
        ) {
            Ok(v) => {
                let ghost w = v@;
                row.push(v);
                assert(row.deep_view() =~= before.push(w));
            },
            Err(e) => {
                proof {
                    lemma_validation_error_stays(
                        sv,
                        fv,
                        table_name@,
                        cs,
                        uuid@,
                        now@,
                        start,
                        i as int + 1,
                        cs.len() as int,
                    );
                }
                return Err(e);
            },
        }
        i = i + 1;
    }
    Ok(row)
}

} // verus!
