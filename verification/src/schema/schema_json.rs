//! Definitions of tables as JSON values.

use crate::json;
use crate::json::{object1, object2, object3, Json, JsonView};
use crate::query::parser::{Expression, ExpressionView, Identifier, IdentifierView};
use crate::schema::schema::{
    ActionView, Column, ColumnView, ConstraintType, ConstraintView, DataType, Rule, RuleAction,
    RuleView, Table, TableView,
};
use vstd::prelude::*;

verus! {

/// A data type, where there is one, as a JSON value.
pub open spec fn type_json(data_type: Option<DataType>) -> JsonView {
    match data_type {
        Some(t) => JsonView::Str(t.name()),
        None => JsonView::Null,
    }
}

/// An identifier as a JSON value.
pub open spec fn identifier_json(i: IdentifierView) -> JsonView {
    match i {
        IdentifierView::Name(n) => JsonView::Object(seq![("Name"@, JsonView::Str(n))]),
        IdentifierView::Literal(v, t) => JsonView::Object(
            seq![("Literal"@, JsonView::Array(seq![JsonView::Str(v), type_json(t)]))],
        ),
        IdentifierView::Star => JsonView::Str("Star"@),
    }
}

/// A condition as a JSON value.
pub open spec fn expression_json(e: ExpressionView) -> JsonView {
    match e {
        ExpressionView::Comparison { left, operator, right } => JsonView::Object(
            seq![
                (
                    "Comparison"@,
                    JsonView::Object(
                        seq![
                            ("left"@, identifier_json(left)),
                            ("operator"@, JsonView::Str(operator)),
                            ("right"@, identifier_json(right)),
                        ],
                    ),
                ),
            ],
        ),
    }
}

/// A constraint as a JSON value.
pub open spec fn constraint_json(c: ConstraintView) -> JsonView {
    match c {
        ConstraintView::Unique => JsonView::Str("Unique"@),
        ConstraintView::NotNull => JsonView::Str("NotNull"@),
        ConstraintView::Check(e) => JsonView::Object(seq![("Check"@, expression_json(e))]),
    }
}

/// What happens to a value that breaks a rule, as a JSON value.
pub open spec fn action_json(a: ActionView) -> JsonView {
    match a {
        ActionView::SetNull => JsonView::Str("SetNull"@),
        ActionView::SetDefault(d) => JsonView::Object(seq![("SetDefault"@, JsonView::Str(d))]),
        ActionView::Reject => JsonView::Str("Reject"@),
    }
}

/// A rule as a JSON value.
pub open spec fn rule_json(r: RuleView) -> JsonView {
    JsonView::Object(
        seq![
            ("action"@, action_json(r.action)),
            ("constraint_type"@, constraint_json(r.constraint_type)),
        ],
    )
}

/// A column as a JSON value.
pub open spec fn column_json(c: ColumnView) -> JsonView {
    JsonView::Object(
        seq![
            ("data_type"@, JsonView::Str(c.data_type.name())),
            ("name"@, JsonView::Str(c.name)),
            ("rules"@, JsonView::Array(Seq::new(c.rules.len(), |i: int| rule_json(c.rules[i])))),
        ],
    )
}

/// Some columns as JSON values.
pub open spec fn columns_json(columns: Seq<ColumnView>) -> Seq<JsonView> {
    Seq::new(columns.len(), |i: int| column_json(columns[i]))
}

/// A table as a JSON value.
pub open spec fn table_json(t: TableView) -> JsonView {
    JsonView::Object(
        seq![
            ("columns"@, JsonView::Array(columns_json(t.columns))),
            ("name"@, JsonView::Str(t.name)),
        ],
    )
}

fn identifier_to_json(i: &Identifier) -> (r: Json)
    ensures
        r.deep_view() == identifier_json(i.deep_view()),
{
    match i {
        Identifier::Name(n) => object1("Name", Json::Str(n.clone())),
        Identifier::Literal(v, t) => {
            let data_type = match t {
                Some(t) => Json::Str(t.to_name()),
                None => Json::Null,
            };
            let ghost d = data_type.deep_view();
            let mut parts: Vec<Json> = Vec::new();
            parts.push(Json::Str(v.clone()));
            parts.push(data_type);
            proof {
                json::lemma_array_view(parts);
                assert(parts.deep_view() =~= seq![JsonView::Str(v@), d]);
            }
            object1("Literal", Json::Array(parts))
        },
        Identifier::Star => Json::Str("Star".to_owned()),
    }
}

fn expression_to_json(e: &Expression) -> (r: Json)
    ensures
        r.deep_view() == expression_json(e.deep_view()),
{
    let Expression::Comparison { left, operator, right } = e;
    object1(
        "Comparison",
        object3(
            "left",
            identifier_to_json(left),
            "operator",
            Json::Str(operator.clone()),
            "right",
            identifier_to_json(right),
        ),
    )
}

fn rule_to_json(rule: &Rule) -> (r: Json)
    ensures
        r.deep_view() == rule_json(rule.deep_view()),
{
    let constraint_type = match &rule.constraint_type {
        ConstraintType::Unique => Json::Str("Unique".to_owned()),
        ConstraintType::NotNull => Json::Str("NotNull".to_owned()),
        ConstraintType::Check(e) => object1("Check", expression_to_json(e)),
    };
    let action = match &rule.action {
        RuleAction::SetNull => Json::Str("SetNull".to_owned()),
        RuleAction::SetDefault(d) => object1("SetDefault", Json::Str(d.clone())),
        RuleAction::Reject => Json::Str("Reject".to_owned()),
    };
    object2("action", action, "constraint_type", constraint_type)
}

/// A column as a JSON value.
pub fn column_to_json(column: &Column) -> (r: Json)
    ensures
        r.deep_view() == column_json(column.deep_view()),
{
    let ghost c = column.deep_view();
    let mut rules: Vec<Json> = Vec::new();
    let mut i: usize = 0;
    while i < column.rules.len()
        invariant
            i <= column.rules@.len(),
            c == column.deep_view(),
            rules@.len() == i,
            forall|k: int|
                0 <= k < i ==> (#[trigger] rules@[k]).deep_view() == rule_json(c.rules[k]),
        decreases column.rules@.len() - i,
    {
        assert(c.rules[i as int] == column.rules@[i as int].deep_view());
        rules.push(rule_to_json(&column.rules[i]));
        i = i + 1;
    }
    proof {
        json::lemma_array_view(rules);
        assert(rules.deep_view() =~= Seq::new(c.rules.len(), |i: int| rule_json(c.rules[i])));
    }
    object3(
        "data_type",
        Json::Str(column.data_type.to_name()),
        "name",
        Json::Str(column.name.clone()),
        "rules",
        Json::Array(rules),
    )
}

/// A table as a JSON value.
pub fn table_to_json(table: &Table) -> (r: Json)
    ensures
        r.deep_view() == table_json(table.deep_view()),
{
    let ghost t = table.deep_view();
    let mut columns: Vec<Json> = Vec::new();
    let mut i: usize = 0;
    while i < table.columns.len()
        invariant
            i <= table.columns@.len(),
            t == table.deep_view(),
            columns@.len() == i,
            forall|k: int|
                0 <= k < i ==> (#[trigger] columns@[k]).deep_view() == column_json(t.columns[k]),
        decreases table.columns@.len() - i,
    {
        assert(t.columns[i as int] == table.columns@[i as int].deep_view());
        columns.push(column_to_json(&table.columns[i]));
        i = i + 1;
    }
    proof {
        json::lemma_array_view(columns);
        assert(columns.deep_view() =~= columns_json(t.columns));
    }
    object2("columns", Json::Array(columns), "name", Json::Str(table.name.clone()))
}

} // verus!
