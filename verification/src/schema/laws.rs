//! What table definitions promise.

use crate::json::JsonView;
use crate::numbers;
use crate::outside;
use crate::query::parser::{ExpressionView, IdentifierView};
use crate::schema::schema;
use crate::schema::schema_json;
use crate::schema::schema::{
    ActionView, ColumnView, ConstraintView, DataType, RuleView, SchemaView, TableView,
};
use crate::text;
use crate::text::{Strip, Text};
use vstd::prelude::*;

verus! {

/// A type is named by its names in lower case, and by no other word.
pub proof fn law_types_have_their_names(name: Text)
    ensures
        schema::named_type(name) == Some(DataType::Int) <==> seq!["int"@, "integer"@].contains(name),
        schema::named_type(name) == Some(DataType::String) <==> seq![
            "string"@,
            "text"@,
            "varchar"@,
        ].contains(name),
        schema::named_type(name) == Some(DataType::UUID) <==> name == "uuid"@,
        schema::named_type(name) == Some(DataType::DateTime) <==> name == "datetime"@,
{
    reveal_strlit("int");
    reveal_strlit("integer");
    reveal_strlit("string");
    reveal_strlit("text");
    reveal_strlit("varchar");
    reveal_strlit("uuid");
    reveal_strlit("datetime");
    let ints = seq!["int"@, "integer"@];
    let texts = seq!["string"@, "text"@, "varchar"@];
    assert(ints[0] == "int"@ && ints[1] == "integer"@);
    assert(texts[0] == "string"@ && texts[1] == "text"@ && texts[2] == "varchar"@);
    assert("int"@.len() == 3 && "integer"@.len() == 7 && "string"@.len() == 6 && "text"@.len() == 4
        && "varchar"@.len() == 7 && "uuid"@.len() == 4 && "datetime"@.len() == 8);
    assert("integer"@[0] == 'i' && "varchar"@[0] == 'v' && "text"@[0] == 't' && "uuid"@[0] == 'u');
}

/// A value is of a type where it denotes an integer, a UUID or a date and time,
/// and any value is a text.
pub proof fn law_values_of_types(value: Text)
    ensures
        schema::fits_type(DataType::Int, value) <==> exists|n: i64|
            numbers::i64_text(value) == Some(n),
        schema::fits_type(DataType::String, value),
        schema::fits_type(DataType::UUID, value) <==> outside::is_uuid_text(
            text::trimmed(value, Strip::Quote),
        ),
        schema::fits_type(DataType::DateTime, value) <==> exists|t: outside::Instant|
            outside::datetime_of(value, "%Y-%m-%d %H:%M:%S"@) == Some(t),
{
    if let Some(n) = numbers::i64_text(value) {
        assert(numbers::i64_text(value) == Some(n));
    }
    if let Some(t) = outside::datetime_of(value, "%Y-%m-%d %H:%M:%S"@) {
        assert(outside::datetime_of(value, "%Y-%m-%d %H:%M:%S"@) == Some(t));
    }
}

/// The words of a constraint, in whatever case, stand for what they say, and what
/// breaks it is rejected: `NOT NULL`, `UNIQUE`, or `CHECK` with a comparison
/// between parentheses.
pub proof fn law_constraints_are_read(s: Text)
    ensures
        ({
            let words = text::words(s);
            let first = outside::lowercase(words[0]);
            let check = text::join(words.skip(1), " "@);
            let rejects = |c: ConstraintView|
                Some(RuleView { constraint_type: c, action: ActionView::Reject });
            &&& words.len() == 0 ==> schema::rule_of(s) is None
            &&& words.len() > 1 && first == "not"@ && outside::lowercase(words[1]) == "null"@
                ==> schema::rule_of(s) == rejects(ConstraintView::NotNull)
            &&& words.len() > 0 && first == "unique"@ ==> schema::rule_of(s) == rejects(
                ConstraintView::Unique,
            )
            &&& words.len() > 0 && first == "check"@ && check.len() >= 2 && check[0] == '('
                && check.last() == ')' ==> match schema::expression_of(
                check.subrange(1, check.len() - 1),
            ) {
                Some(e) => schema::rule_of(s) == rejects(ConstraintView::Check(e)),
                None => schema::rule_of(s) is None,
            }
            &&& words.len() > 0 && first != "not"@ && first != "unique"@ && first != "check"@
                ==> schema::rule_of(s) is None
        }),
{
    reveal_strlit("not");
    reveal_strlit("unique");
    reveal_strlit("check");
    assert("not"@.len() == 3 && "unique"@.len() == 6 && "check"@.len() == 5);
}

/// A comparison has the operator and the operands that stand in its text: a text
/// between quotes is a literal without them, an integer on the right is one, and
/// anything else is a name.
pub proof fn law_comparison_is_read(
    s: Text,
    whole: Option<Text>,
    left: Text,
    operator: Text,
    right: Text,
)
    requires
        outside::regex_groups(schema::CHECK_PATTERN@, s) == Some(
            seq![whole, Some(left), Some(operator), Some(right)],
        ),
    ensures
        schema::expression_of(s) matches Some(
            ExpressionView::Comparison { left: l, operator: o, right: r },
        ) && o == operator && {
            let in_quotes = |t: Text| t.len() > 0 && (t[0] == '"' || t[0] == '\'');
            &&& l == if in_quotes(left) {
                IdentifierView::Literal(
                    text::trimmed(left, Strip::AnyQuote),
                    Some(DataType::String),
                )
            } else {
                IdentifierView::Name(left)
            }
            &&& r == if in_quotes(right) {
                IdentifierView::Literal(
                    text::trimmed(right, Strip::AnyQuote),
                    Some(DataType::String),
                )
            } else if numbers::i64_text(right) is Some {
                IdentifierView::Literal(right, Some(DataType::Int))
            } else {
                IdentifierView::Name(right)
            }
        },
{
    let groups = seq![whole, Some(left), Some(operator), Some(right)];
    assert(groups[1] == Some(left) && groups[2] == Some(operator) && groups[3] == Some(right));
}

/// Whether a column has a name and a type, and its only rule is that no value of
/// it may be missing.
pub open spec fn is_required(column: ColumnView, name: Text, data_type: DataType) -> bool {
    &&& column.name == name
    &&& column.data_type == data_type
    &&& column.rules.len() == 1
    &&& column.rules[0].constraint_type is NotNull
    &&& column.rules[0].action is Reject
}

/// A new table is there under its two names, each with the columns of its
/// definition as they were defined, between a UUID and a timestamp.
pub proof fn law_new_table_has_its_columns(before: SchemaView, table: TableView)
    ensures
        ({
            let after = schema::with_table(before, table);
            let n = table.columns.len() as int;
            forall|name: Text|
                name == table.name + "_initial"@ || name == table.name + "_updates"@ ==> {
                    let stored = (#[trigger] after[name]).columns;
                    &&& after.contains_key(name)
                    &&& after[name].name == name
                    &&& stored.len() == n + 2
                    &&& is_required(stored[0], "UUID"@, DataType::UUID)
                    &&& is_required(stored[n + 1], "timestamp"@, DataType::DateTime)
                    &&& forall|k: int|
                        0 <= k < n ==> #[trigger] stored[k + 1] == table.columns[k]
                }
        }),
{
    schema::lemma_names_differ(table.name);
}

/// A table that was dropped is under neither of its names.
pub proof fn law_dropped_table_is_gone(before: SchemaView, table: Text)
    ensures
        !schema::without_table(before, table).contains_key(table + "_initial"@),
        !schema::without_table(before, table).contains_key(table + "_updates"@),
{
}

/// The columns of a table are looked up under its name, and where there is none of
/// that name, under that of its initial rows.
pub proof fn law_columns_are_looked_up(all: SchemaView, table: Text)
    ensures
        ({
            let initial = table + "_initial"@;
            let found = if all.contains_key(table) {
                Some(all[table].columns)
            } else if all.contains_key(initial) {
                Some(all[initial].columns)
            } else {
                None
            };
            match found {
                Some(columns) => {
                    &&& schema::schema_column_names(all, table) matches Ok(names)
                    &&& names.len() == columns.len()
                    &&& forall|k: int|
                        0 <= k < names.len() ==> #[trigger] names[k] == columns[k].name
                },
                None => schema::schema_column_names(all, table) is Err,
            }
        }),
{
}

// ---------------------------------------------------------------------------
// Definitions in JSON
// ---------------------------------------------------------------------------

/// Two constraints with the same JSON form are the same.
proof fn lemma_constraint_is_told(a: ConstraintView, b: ConstraintView)
    requires
        schema_json::constraint_json(a) == schema_json::constraint_json(b),
    ensures
        a == b,
{
    reveal_strlit("Unique");
    reveal_strlit("NotNull");
    assert("Unique"@.len() == 6 && "NotNull"@.len() == 7);
    if let ConstraintView::Check(x) = a {
        if let ConstraintView::Check(y) = b {
            let p = schema_json::constraint_json(a)->Object_0;
            let q = schema_json::constraint_json(b)->Object_0;
            assert(p[0].1 == q[0].1);
            lemma_expression_is_told(x, y);
        }
    }
}

proof fn lemma_expression_is_told(a: ExpressionView, b: ExpressionView)
    requires
        schema_json::expression_json(a) == schema_json::expression_json(b),
    ensures
        a == b,
{
    let ExpressionView::Comparison { left: l1, operator: o1, right: r1 } = a;
    let ExpressionView::Comparison { left: l2, operator: o2, right: r2 } = b;
    let p = schema_json::expression_json(a)->Object_0[0].1->Object_0;
    let q = schema_json::expression_json(b)->Object_0[0].1->Object_0;
    assert(p == q);
    assert(p[0].1 == q[0].1 && p[1].1 == q[1].1 && p[2].1 == q[2].1);
    assert(p[0].1 == schema_json::identifier_json(l1));
    assert(q[0].1 == schema_json::identifier_json(l2));
    assert(p[1].1 == JsonView::Str(o1) && q[1].1 == JsonView::Str(o2));
    assert(p[2].1 == schema_json::identifier_json(r1));
    assert(q[2].1 == schema_json::identifier_json(r2));
    lemma_identifier_is_told(l1, l2);
    lemma_identifier_is_told(r1, r2);
}

proof fn lemma_identifier_is_told(a: IdentifierView, b: IdentifierView)
    requires
        schema_json::identifier_json(a) == schema_json::identifier_json(b),
    ensures
        a == b,
{
    reveal_strlit("Name");
    reveal_strlit("Literal");
    assert("Name"@.len() == 4 && "Literal"@.len() == 7);
    match (a, b) {
        (IdentifierView::Star, _) => {},
        (_, IdentifierView::Star) => {},
        _ => {
            let p = schema_json::identifier_json(a)->Object_0;
            let q = schema_json::identifier_json(b)->Object_0;
            assert(p[0] == q[0]);
            if let IdentifierView::Literal(v, t) = a {
                if let IdentifierView::Literal(w, u) = b {
                    let x = p[0].1->Array_0;
                    let y = q[0].1->Array_0;
                    assert(x[0] == JsonView::Str(v) && y[0] == JsonView::Str(w));
                    assert(x[1] == schema_json::type_json(t) && y[1] == schema_json::type_json(u));
                    lemma_type_is_told(t, u);
                }
            }
        },
    }
}

proof fn lemma_type_is_told(a: Option<DataType>, b: Option<DataType>)
    requires
        schema_json::type_json(a) == schema_json::type_json(b),
    ensures
        a == b,
{
    reveal_strlit("Int");
    reveal_strlit("String");
    reveal_strlit("UUID");
    reveal_strlit("DateTime");
    assert("Int"@.len() == 3 && "String"@.len() == 6 && "UUID"@.len() == 4 && "DateTime"@.len() == 8);
}

proof fn lemma_rule_is_told(a: RuleView, b: RuleView)
    requires
        schema_json::rule_json(a) == schema_json::rule_json(b),
    ensures
        a == b,
{
    let p = schema_json::rule_json(a)->Object_0;
    let q = schema_json::rule_json(b)->Object_0;
    assert(p[0].1 == q[0].1 && p[1].1 == q[1].1);
    lemma_constraint_is_told(a.constraint_type, b.constraint_type);
    reveal_strlit("SetNull");
    reveal_strlit("Reject");
    assert("SetNull"@.len() == 7 && "Reject"@.len() == 6);
    if let ActionView::SetDefault(d) = a.action {
        if let ActionView::SetDefault(e) = b.action {
            assert(p[0].1->Object_0[0].1 == q[0].1->Object_0[0].1);
        }
    }
}

proof fn lemma_column_is_told(a: ColumnView, b: ColumnView)
    requires
        schema_json::column_json(a) == schema_json::column_json(b),
    ensures
        a == b,
{
    let p = schema_json::column_json(a)->Object_0;
    let q = schema_json::column_json(b)->Object_0;
    assert(p[0].1 == q[0].1 && p[1].1 == q[1].1 && p[2].1 == q[2].1);
    lemma_type_is_told(Some(a.data_type), Some(b.data_type));
    let x = p[2].1->Array_0;
    let y = q[2].1->Array_0;
    assert(x.len() == a.rules.len() && y.len() == b.rules.len());
    assert forall|i: int| 0 <= i < a.rules.len() implies #[trigger] a.rules[i] == b.rules[i] by {
        assert(x[i] == schema_json::rule_json(a.rules[i]));
        assert(y[i] == schema_json::rule_json(b.rules[i]));
        lemma_rule_is_told(a.rules[i], b.rules[i]);
    }
    assert(a.rules =~= b.rules);
}

/// The JSON form of a table tells all of it: two tables with the same form are
/// the same, to the last rule of the last column.
pub proof fn law_definition_is_told_whole(a: TableView, b: TableView)
    requires
        schema_json::table_json(a) == schema_json::table_json(b),
    ensures
        a == b,
{
    let p = schema_json::table_json(a)->Object_0;
    let q = schema_json::table_json(b)->Object_0;
    assert(p[0].1 == q[0].1 && p[1].1 == q[1].1);
    let x = p[0].1->Array_0;
    let y = q[0].1->Array_0;
    assert(x.len() == a.columns.len() && y.len() == b.columns.len());
    assert forall|i: int| 0 <= i < a.columns.len() implies #[trigger] a.columns[i]
        == b.columns[i] by {
        assert(x[i] == schema_json::column_json(a.columns[i]));
        assert(y[i] == schema_json::column_json(b.columns[i]));
        lemma_column_is_told(a.columns[i], b.columns[i]);
    }
    assert(a.columns =~= b.columns);
}

} // verus!
