//! Conditions on rows, and the execution of the clauses of a query.

use crate::json;
use crate::json::{reply_error, Reply, ReplyView};
use crate::outside;
use crate::outside::{regex_is_match, uuid_parses};
use crate::query::parser::{
    ASTNode, ASTNodeView, ColumnView as DefinitionView, Expression, ExpressionView, Identifier,
    IdentifierView,
};
use crate::schema::schema;
use crate::schema::schema::{
    map_string_to_rule, Column, ColumnView, DataType, Rule, RuleView, Table, TableView,
};
use crate::string_map::{Duplicate, StringMap};
use crate::text;
use crate::text::{
    concat3, replace_all, str_eq, str_eq_ignore_ascii_case, str_lt, trim_matches, Strip, Text,
};
use vstd::prelude::*;

verus! {

// ---------------------------------------------------------------------------
// Conditions
// ---------------------------------------------------------------------------

/// The position of the first column whose name is `name` but for the case of
/// ASCII letters.
pub open spec fn column_index(columns: Seq<Text>, name: Text) -> Option<int>
    decreases columns.len(),
{
    if columns.len() == 0 {
        None
    } else {
        match column_index(columns.drop_last(), name) {
            Some(i) => Some(i),
            None => if text::eq_ignore_case(columns.last(), name) {
                Some(columns.len() - 1)
            } else {
                None
            },
        }
    }
}

/// The position of the first column whose name is `col_name` but for the case
/// of ASCII letters.
pub fn find_column_index(column_names: &Vec<String>, col_name: &str) -> (r: Option<usize>)
    ensures
        match r {
            Some(i) => column_index(column_names.deep_view(), col_name@) == Some(i as int) && i
                < column_names@.len(),
            None => column_index(column_names.deep_view(), col_name@) is None,
        },
{
    let ghost cs = column_names.deep_view();
    let mut i: usize = 0;
    assert(cs.take(0) =~= Seq::<Text>::empty());
    while i < column_names.len()
        invariant
            i <= column_names@.len(),
            cs == column_names.deep_view(),
            column_index(cs.take(i as int), col_name@) is None,
        decreases column_names@.len() - i,
    {
        assert(cs.take(i as int + 1).drop_last() =~= cs.take(i as int));
        assert(cs.take(i as int + 1).last() == column_names@[i as int]@);
        if str_eq_ignore_ascii_case(column_names[i].as_str(), col_name) {
            proof {
                lemma_column_index_extends(cs, i as int + 1, col_name@);
            }
            return Some(i);
        }
        i = i + 1;
    }
    assert(cs.take(i as int) =~= cs);
    None
}

proof fn lemma_column_index_extends(columns: Seq<Text>, n: int, name: Text)
    requires
        0 <= n <= columns.len(),
        column_index(columns.take(n), name) is Some,
    ensures
        column_index(columns, name) == column_index(columns.take(n), name),
    decreases columns.len(),
{
    if n < columns.len() {
        assert(columns.drop_last().take(n) =~= columns.take(n));
        lemma_column_index_extends(columns.drop_last(), n, name);
    } else {
        assert(columns.take(n) =~= columns);
    }
}

/// The names in upper case.
pub open spec fn uppercase_all(names: Seq<Text>) -> Seq<Text> {
    names.map_values(|s: Text| outside::uppercase(s))
}

/// The value of an operand on a row: the cell of the column that a name names,
/// or the text of a literal.
pub open spec fn operand_value(
    operand: IdentifierView,
    row: Seq<Text>,
    column_names: Seq<Text>,
) -> Option<Text> {
    match operand {
        IdentifierView::Name(name) => match column_index(
            uppercase_all(column_names),
            outside::uppercase(name),
        ) {
            Some(i) if i < row.len() => Some(row[i]),
            _ => None,
        },
        IdentifierView::Literal(value, _) => Some(value),
        IdentifierView::Star => None,
    }
}

/// The regular expression for a `LIKE` pattern: `%` stands for any sequence of
/// characters and `_` for any one character.
pub open spec fn like_pattern(pattern: Text) -> Text {
    let p = outside::lowercase(
        text::trimmed(text::trimmed(pattern, Strip::Quote), Strip::Apostrophe),
    );
    "^"@ + text::replaced(text::replaced(p, "%"@, ".*"@), "_"@, "."@) + "$"@
}

/// The text that a `LIKE` pattern is held against.
pub open spec fn like_subject(value: Text) -> Text {
    outside::lowercase(text::trimmed(value, Strip::Quote))
}

/// Whether a text is like a pattern.
pub open spec fn is_like(value: Text, pattern: Text) -> bool {
    outside::regex_matches(like_pattern(pattern), like_subject(value)) == Some(true)
}

/// Whether two values compare as the operator says. The values are texts, and
/// are ordered as texts.
pub open spec fn compares(operator: Text, left: Text, right: Text) -> bool {
    if operator == "="@ {
        left == right
    } else if operator == "!="@ {
        left != right
    } else if operator == ">"@ {
        text::text_lt(right, left)
    } else if operator == "<"@ {
        text::text_lt(left, right)
    } else if operator == ">="@ {
        !text::text_lt(left, right)
    } else if operator == "<="@ {
        !text::text_lt(right, left)
    } else if operator == "LIKE"@ {
        is_like(left, right)
    } else {
        false
    }
}

/// Whether a row meets a condition. It does not where an operand has no value.
/// Double quotes around the two values do not count.
pub open spec fn row_meets(
    condition: ExpressionView,
    row: Seq<Text>,
    column_names: Seq<Text>,
) -> bool {
    match condition {
        ExpressionView::Comparison { left, operator, right } => match (
            operand_value(left, row, column_names),
            operand_value(right, row, column_names),
        ) {
            (Some(l), Some(r)) => compares(
                operator,
                text::trimmed(l, Strip::Quote),
                text::trimmed(r, Strip::Quote),
            ),
            _ => false,
        },
    }
}

fn uppercase_names(names: &Vec<String>) -> (r: Vec<String>)
    ensures
        r.deep_view() == uppercase_all(names.deep_view()),
{
    let mut r: Vec<String> = Vec::new();
    let mut i: usize = 0;
    while i < names.len()
        invariant
            i <= names@.len(),
            r@.len() == i,
            forall|k: int| 0 <= k < i ==> (#[trigger] r@[k])@ == outside::uppercase(names@[k]@),
        decreases names@.len() - i,
    {
        r.push(names[i].as_str().to_uppercase());
        i = i + 1;
    }
    assert(r.deep_view() =~= uppercase_all(names.deep_view()));
    r
}

fn resolve_operand(
    operand: &Identifier,
    row: &Vec<String>,
    column_names: &Vec<String>,
) -> (r: Option<String>)
    ensures
        r.deep_view() == operand_value(
            operand.deep_view(),
            row.deep_view(),
            column_names.deep_view(),
        ),
{
    match operand {
        Identifier::Name(name) => {
            let upper = uppercase_names(column_names);
            match find_column_index(&upper, name.as_str().to_uppercase().as_str()) {
                Some(i) => if i < row.len() {
                    Some(row[i].clone())
                } else {
                    None
                },
                None => None,
            }
        },
        Identifier::Literal(value, _) => Some(value.clone()),
        Identifier::Star => None,
    }
}

/// Whether `left` is like `pattern`.
pub fn evaluate_like_condition(left: &str, pattern: &str) -> (r: bool)
    ensures
        r == is_like(left@, pattern@),
{
    let subject = trim_matches(left, Strip::Quote).as_str().to_lowercase();
    let unquoted = trim_matches(pattern, Strip::Quote);
    let lower = trim_matches(unquoted.as_str(), Strip::Apostrophe).as_str().to_lowercase();
    proof {
        reveal_strlit("%");
        reveal_strlit("_");
    }
    let any = replace_all(lower.as_str(), "%", ".*");
    let one = replace_all(any.as_str(), "_", ".");
    let regex = concat3("^", one.as_str(), "$");
    match regex_is_match(regex.as_str(), subject.as_str()) {
        Some(m) => m,
        None => false,
    }
}

/// Whether a row meets a condition.
pub fn evaluate_where_clause(
    condition: &Expression,
    row: &Vec<String>,
    column_names: &Vec<String>,
) -> (r: bool)
    ensures
        r == row_meets(condition.deep_view(), row.deep_view(), column_names.deep_view()),
{
    match condition {
        Expression::Comparison { left, operator, right } => {
            let left_value = match resolve_operand(left, row, column_names) {
                Some(v) => trim_matches(v.as_str(), Strip::Quote),
                None => {
                    return false;
                },
            };
            let right_value = match resolve_operand(right, row, column_names) {
                Some(v) => trim_matches(v.as_str(), Strip::Quote),
                None => {
                    return false;
                },
            };
            let l = left_value.as_str();
            let r = right_value.as_str();
            let op = operator.as_str();
            if str_eq(op, "=") {
                str_eq(l, r)
            } else if str_eq(op, "!=") {
                !str_eq(l, r)
            } else if str_eq(op, ">") {
                str_lt(r, l)
            } else if str_eq(op, "<") {
                str_lt(l, r)
            } else if str_eq(op, ">=") {
                !str_lt(l, r)
            } else if str_eq(op, "<=") {
                !str_lt(r, l)
            } else if str_eq(op, "LIKE") {
                evaluate_like_condition(l, r)
            } else {
                false
            }
        },
    }
}

/// Of two values exactly one of "less", "equal" and "greater" holds, and the
/// other three comparisons are their negations.
pub proof fn law_comparisons_partition(l: Text, r: Text)
    ensures
        compares("="@, l, r) || compares("<"@, l, r) || compares(">"@, l, r),
        !(compares("<"@, l, r) && compares(">"@, l, r)),
        !(compares("="@, l, r) && compares("<"@, l, r)),
        !(compares("="@, l, r) && compares(">"@, l, r)),
        compares("!="@, l, r) == !compares("="@, l, r),
        compares(">="@, l, r) == !compares("<"@, l, r),
        compares("<="@, l, r) == !compares(">"@, l, r),
{
    reveal_strlit("=");
    reveal_strlit("!=");
    reveal_strlit("<");
    reveal_strlit(">");
    reveal_strlit(">=");
    reveal_strlit("<=");
    assert("="@[0] != "<"@[0] && "="@[0] != ">"@[0] && "<"@[0] != ">"@[0]);
    assert("!="@[0] != ">"@[0] && "!="@[0] != "<"@[0]);
    assert(">="@.len() == 2 && "<="@.len() == 2 && "!="@.len() == 2);
    assert("="@.len() == 1 && "<"@.len() == 1 && ">"@.len() == 1);
    assert(">="@[0] != "<="@[0] && ">="@[0] != "!="@[0] && "<="@[0] != "!="@[0]);
    text::lemma_text_lt_total(l, r);
}

/// Whether two rows are the same.
pub fn rows_equal(a: &Vec<String>, b: &Vec<String>) -> (r: bool)
    ensures
        r == (a.deep_view() == b.deep_view()),
{
    if a.len() != b.len() {
        assert(a.deep_view().len() != b.deep_view().len());
        return false;
    }
    let mut i: usize = 0;
    while i < a.len()
        invariant
            i <= a@.len(),
            a@.len() == b@.len(),
            forall|k: int| 0 <= k < i ==> (#[trigger] a@[k])@ == b@[k]@,
        decreases a@.len() - i,
    {
        if !str_eq(a[i].as_str(), b[i].as_str()) {
            assert(a.deep_view()[i as int] != b.deep_view()[i as int]);
            return false;
        }
        i = i + 1;
    }
    assert(a.deep_view() =~= b.deep_view());
    true
}

// ---------------------------------------------------------------------------
// Plans
// ---------------------------------------------------------------------------

/// The name of the table that holds the users, which no query may mention.
pub const USERS_TABLE: &'static str = "users";

/// What a query asks for.
#[allow(inconsistent_fields)]
#[derive(Debug)]
pub enum QueryPlan {
    Select {
        columns: Vec<Identifier>,
        table: String,
        timestamp: Option<String>,
        condition: Option<Expression>,
    },
    Create { table: Table },
    Insert { table: String, values: Vec<String>, columns: Option<Vec<String>> },
    Update { table: String, values: StringMap<String>, condition: Expression },
    Delete { table: String, condition: Expression },
    Drop { table: String },
    /// Nothing but this reply.
    Respond { reply: Reply },
    /// A table with a column of a type that there is not.
    UnsupportedType { name: String },
}

/// A [`QueryPlan`] as a mathematical value.
#[allow(inconsistent_fields)]
pub enum PlanView {
    Select {
        columns: Seq<IdentifierView>,
        table: Text,
        timestamp: Option<Text>,
        condition: Option<ExpressionView>,
    },
    Create { table: TableView },
    Insert { table: Text, values: Seq<Text>, columns: Option<Seq<Text>> },
    Update { table: Text, values: Map<Text, Text>, condition: ExpressionView },
    Delete { table: Text, condition: ExpressionView },
    Drop { table: Text },
    Respond { reply: ReplyView },
    UnsupportedType { name: Text },
}

impl DeepView for QueryPlan {
    type V = PlanView;

    open spec fn deep_view(&self) -> PlanView {
        match self {
            QueryPlan::Select { columns, table, timestamp, condition } => PlanView::Select {
                columns: columns.deep_view(),
                table: table@,
                timestamp: timestamp.deep_view(),
                condition: condition.deep_view(),
            },
            QueryPlan::Create { table } => PlanView::Create { table: table.deep_view() },
            QueryPlan::Insert { table, values, columns } => PlanView::Insert {
                table: table@,
                values: values.deep_view(),
                columns: columns.deep_view(),
            },
            QueryPlan::Update { table, values, condition } => PlanView::Update {
                table: table@,
                values: values.deep_view(),
                condition: condition.deep_view(),
            },
            QueryPlan::Delete { table, condition } => PlanView::Delete {
                table: table@,
                condition: condition.deep_view(),
            },
            QueryPlan::Drop { table } => PlanView::Drop { table: table@ },
            QueryPlan::Respond { reply } => PlanView::Respond { reply: reply.deep_view() },
            QueryPlan::UnsupportedType { name } => PlanView::UnsupportedType { name: name@ },
        }
    }
}

impl Duplicate for Identifier {
    fn duplicate(&self) -> (r: Self) {
        self.clone()
    }
}

impl Duplicate for Expression {
    fn duplicate(&self) -> (r: Self) {
        self.clone()
    }
}

/// The condition of the first `WHERE` clause.
pub open spec fn first_condition(nodes: Seq<ASTNodeView>) -> Option<ExpressionView>
    decreases nodes.len(),
{
    if nodes.len() == 0 {
        None
    } else {
        match nodes[0] {
            ASTNodeView::Where { condition } => Some(condition),
            _ => first_condition(nodes.skip(1)),
        }
    }
}

/// The texts of the literals among some values.
pub open spec fn literal_texts(values: Seq<IdentifierView>) -> Seq<Text>
    decreases values.len(),
{
    if values.len() == 0 {
        Seq::empty()
    } else {
        let before = literal_texts(values.drop_last());
        match values.last() {
            IdentifierView::Literal(t, _) => before.push(t),
            _ => before,
        }
    }
}

/// The names among some identifiers.
pub open spec fn name_texts(values: Seq<IdentifierView>) -> Seq<Text>
    decreases values.len(),
{
    if values.len() == 0 {
        Seq::empty()
    } else {
        let before = name_texts(values.drop_last());
        match values.last() {
            IdentifierView::Name(t) => before.push(t),
            _ => before,
        }
    }
}

/// The text of an identifier.
pub open spec fn identifier_value(i: IdentifierView) -> Text {
    match i {
        IdentifierView::Name(n) => n,
        IdentifierView::Literal(v, _) => v,
        IdentifierView::Star => "*"@,
    }
}

/// The new values of an `UPDATE`, by their columns. Of several for one column
/// the last counts.
pub open spec fn assigned(values: Seq<(IdentifierView, IdentifierView)>) -> Map<Text, Text>
    decreases values.len(),
{
    if values.len() == 0 {
        Map::empty()
    } else {
        assigned(values.drop_last()).insert(
            identifier_value(values.last().0),
            identifier_value(values.last().1),
        )
    }
}

/// Whether a condition names one row: it compares the UUID with a UUID.
pub open spec fn is_uuid_condition(condition: ExpressionView) -> bool {
    match condition {
        ExpressionView::Comparison { left, operator, right } => {
            &&& left == IdentifierView::Name("uuid"@) || left == IdentifierView::Name("UUID"@)
            &&& match right {
                IdentifierView::Literal(t, _) => outside::is_uuid_text(
                    text::trimmed(t, Strip::Quote),
                ),
                _ => false,
            }
        },
    }
}

/// The rules that some constraints stand for; one that stands for none is
/// passed over.
pub open spec fn rules_of(constraints: Seq<Text>) -> Seq<RuleView>
    decreases constraints.len(),
{
    if constraints.len() == 0 {
        Seq::empty()
    } else {
        let before = rules_of(constraints.drop_last());
        match schema::rule_of(constraints.last()) {
            Some(rule) => before.push(rule),
            None => before,
        }
    }
}

/// The columns of a table definition, or the first type name that names no
/// type. A column without a name or a type is passed over.
pub open spec fn columns_of(definitions: Seq<DefinitionView>) -> Result<Seq<ColumnView>, Text>
    decreases definitions.len(),
{
    if definitions.len() == 0 {
        Ok(Seq::empty())
    } else {
        match columns_of(definitions.drop_last()) {
            Err(e) => Err(e),
            Ok(before) => match definitions.last() {
                (IdentifierView::Name(name), IdentifierView::Name(column_type), constraints) => {
                    match schema::named_type(outside::lowercase(column_type)) {
                        None => Err(column_type),
                        Some(data_type) => Ok(
                            before.push(
                                ColumnView { name, data_type, rules: rules_of(constraints) },
                            ),
                        ),
                    }
                },
                _ => Ok(before),
            },
        }
    }
}

/// A plan to reply with a status and an error message.
pub open spec fn refuse(status: u16, message: Text) -> PlanView {
    PlanView::Respond { reply: json::error_reply(status, message) }
}

/// What a query asks for. Its first clause decides; the condition is that of
/// the first `WHERE` clause.
pub open spec fn plan_of(nodes: Seq<ASTNodeView>) -> PlanView {
    if nodes.len() == 0 {
        refuse(400, "No valid SQL query provided"@)
    } else {
        let condition = first_condition(nodes);
        match nodes[0] {
            ASTNodeView::Select { columns, table, timestamp, limit } => match table {
                IdentifierView::Name(name) => PlanView::Select {
                    columns,
                    table: name,
                    timestamp,
                    condition,
                },
                _ => refuse(400, "Invalid table name"@),
            },
            ASTNodeView::Create { table, columns } => match table {
                IdentifierView::Name(name) => match columns_of(columns) {
                    Ok(columns) => PlanView::Create { table: TableView { name, columns } },
                    Err(e) => PlanView::UnsupportedType { name: e },
                },
                _ => refuse(400, "Invalid table name in CREATE TABLE"@),
            },
            ASTNodeView::Insert { table, values, columns } => match table {
                IdentifierView::Name(name) => PlanView::Insert {
                    table: name,
                    values: literal_texts(values),
                    columns: if columns.len() == 0 {
                        None
                    } else {
                        Some(name_texts(columns))
                    },
                },
                _ => refuse(400, "Invalid table name in INSERT statement"@),
            },
            ASTNodeView::Update { table, values } => match table {
                IdentifierView::Name(name) => match condition {
                    None => refuse(
                        400,
                        "UPDATE must include a WHERE clause with a valid UUID"@,
                    ),
                    Some(condition) => if is_uuid_condition(condition) {
                        PlanView::Update { table: name, values: assigned(values), condition }
                    } else {
                        refuse(
                            400,
                            "WHERE clause must contain a valid UUID condition for table '"@ + name
                                + "'"@,
                        )
                    },
                },
                _ => refuse(400, "Invalid table name in UPDATE statement"@),
            },
            ASTNodeView::Delete { table } => match table {
                IdentifierView::Name(name) => match condition {
                    None => refuse(
                        400,
                        "DELETE must include a WHERE clause with a valid filter"@,
                    ),
                    Some(condition) => PlanView::Delete { table: name, condition },
                },
                _ => refuse(400, "Invalid table name in DELETE statement"@),
            },
            ASTNodeView::Drop { table } => match table {
                IdentifierView::Name(name) => PlanView::Drop { table: name },
                _ => refuse(400, "Invalid table name"@),
            },
            ASTNodeView::Where { condition } => refuse(400, "Unsupported AST Node type"@),
        }
    }
}

fn find_condition(nodes: &Vec<ASTNode>) -> (r: Option<Expression>)
    ensures
        r.deep_view() == first_condition(nodes.deep_view()),
{
    let ghost ns = nodes.deep_view();
    let mut i: usize = 0;
    assert(ns.skip(0) =~= ns);
    while i < nodes.len()
        invariant
            i <= nodes@.len(),
            ns == nodes.deep_view(),
            first_condition(ns) == first_condition(ns.skip(i as int)),
        decreases nodes@.len() - i,
    {
        assert(ns.skip(i as int)[0] == nodes@[i as int].deep_view());
        assert(ns.skip(i as int).skip(1) =~= ns.skip(i as int + 1));
        if let ASTNode::Where { condition } = &nodes[i] {
            return Some(condition.clone());
        }
        i = i + 1;
    }
    None
}

fn collect_literals(values: &Vec<Identifier>) -> (r: Vec<String>)
    ensures
        r.deep_view() == literal_texts(values.deep_view()),
{
    let ghost vs = values.deep_view();
    let mut r: Vec<String> = Vec::new();
    let mut i: usize = 0;
    assert(vs.take(0) =~= Seq::<IdentifierView>::empty());
    assert(r.deep_view() =~= Seq::<Text>::empty());
    while i < values.len()
        invariant
            i <= values@.len(),
            vs == values.deep_view(),
            r.deep_view() == literal_texts(vs.take(i as int)),
        decreases values@.len() - i,
    {
        let ghost before = r.deep_view();
        assert(vs.take(i as int + 1).drop_last() =~= vs.take(i as int));
        assert(vs.take(i as int + 1).last() == values@[i as int].deep_view());
        if let Identifier::Literal(t, _) = &values[i] {
            r.push(t.clone());
            assert(r.deep_view() =~= before.push(t@));
        }
        i = i + 1;
    }
    assert(vs.take(i as int) =~= vs);
    r
}

fn collect_names(values: &Vec<Identifier>) -> (r: Vec<String>)
    ensures
        r.deep_view() == name_texts(values.deep_view()),
{
    let ghost vs = values.deep_view();
    let mut r: Vec<String> = Vec::new();
    let mut i: usize = 0;
    assert(vs.take(0) =~= Seq::<IdentifierView>::empty());
    assert(r.deep_view() =~= Seq::<Text>::empty());
    while i < values.len()
        invariant
            i <= values@.len(),
            vs == values.deep_view(),
            r.deep_view() == name_texts(vs.take(i as int)),
        decreases values@.len() - i,
    {
        let ghost before = r.deep_view();
        assert(vs.take(i as int + 1).drop_last() =~= vs.take(i as int));
        assert(vs.take(i as int + 1).last() == values@[i as int].deep_view());
        if let Identifier::Name(t) = &values[i] {
            r.push(t.clone());
            assert(r.deep_view() =~= before.push(t@));
        }
        i = i + 1;
    }
    assert(vs.take(i as int) =~= vs);
    r
}

/// The name that an identifier gives a column.
pub fn extract_column_name(identifier: &Identifier) -> (r: String)
    ensures
        r@ == identifier_value(identifier.deep_view()),
{
    match identifier {
        Identifier::Name(name) => name.clone(),
        Identifier::Literal(value, _) => value.clone(),
        Identifier::Star => "*".to_owned(),
    }
}

/// The text of an identifier that stands for a value.
pub fn extract_literal_value(identifier: &Identifier) -> (r: String)
    ensures
        r@ == identifier_value(identifier.deep_view()),
{
    match identifier {
        Identifier::Literal(value, _) => value.clone(),
        Identifier::Name(name) => name.clone(),
        Identifier::Star => "*".to_owned(),
    }
}

fn collect_assignments(values: &Vec<(Identifier, Identifier)>) -> (r: StringMap<String>)
    ensures
        r.deep_view() == assigned(values.deep_view()),
{
    let ghost vs = values.deep_view();
    let mut r: StringMap<String> = StringMap::new();
    let mut i: usize = 0;
    assert(vs.take(0) =~= Seq::<(IdentifierView, IdentifierView)>::empty());
    while i < values.len()
        invariant
            i <= values@.len(),
            vs == values.deep_view(),
            r.deep_view() == assigned(vs.take(i as int)),
        decreases values@.len() - i,
    {
        assert(vs.take(i as int + 1).drop_last() =~= vs.take(i as int));
        assert(vs.take(i as int + 1).last() == values@[i as int].deep_view());
        r.insert(extract_column_name(&values[i].0), extract_literal_value(&values[i].1));
        i = i + 1;
    }
    assert(vs.take(i as int) =~= vs);
    r
}

/// Whether a condition names one row by its UUID.
pub fn is_uuid_where_clause(condition: &Expression) -> (r: bool)
    ensures
        r == is_uuid_condition(condition.deep_view()),
{
    match condition {
        Expression::Comparison { left, operator: _, right } => {
            let left_is_uuid = match left {
                Identifier::Name(name) => str_eq(name.as_str(), "uuid") || str_eq(
                    name.as_str(),
                    "UUID",
                ),
                _ => false,
            };
            let right_is_uuid = match right {
                Identifier::Literal(t, _) => {
                    let clean = trim_matches(t.as_str(), Strip::Quote);
                    uuid_parses(clean.as_str())
                },
                _ => false,
            };
            left_is_uuid && right_is_uuid
        },
    }
}

fn collect_rules(constraints: &Vec<String>) -> (r: Vec<Rule>)
    ensures
        r.deep_view() == rules_of(constraints.deep_view()),
{
    let ghost cs = constraints.deep_view();
    let mut r: Vec<Rule> = Vec::new();
    let mut i: usize = 0;
    assert(cs.take(0) =~= Seq::<Text>::empty());
    assert(r.deep_view() =~= Seq::<RuleView>::empty());
    while i < constraints.len()
        invariant
            i <= constraints@.len(),
            cs == constraints.deep_view(),
            r.deep_view() == rules_of(cs.take(i as int)),
        decreases constraints@.len() - i,
    {
        let ghost before = r.deep_view();
        assert(cs.take(i as int + 1).drop_last() =~= cs.take(i as int));
        assert(cs.take(i as int + 1).last() == constraints@[i as int]@);
        if let Some(rule) = map_string_to_rule(constraints[i].as_str()) {
            let ghost v = rule.deep_view();
            r.push(rule);
            assert(r.deep_view() =~= before.push(v));
        }
        i = i + 1;
    }
    assert(cs.take(i as int) =~= cs);
    r
}

proof fn lemma_type_error_stays(definitions: Seq<DefinitionView>, n: int)
    requires
        0 <= n <= definitions.len(),
        columns_of(definitions.take(n)) is Err,
    ensures
        columns_of(definitions) == columns_of(definitions.take(n)),
    decreases definitions.len(),
{
    if n < definitions.len() {
        assert(definitions.drop_last().take(n) =~= definitions.take(n));
        lemma_type_error_stays(definitions.drop_last(), n);
    } else {
        assert(definitions.take(n) =~= definitions);
    }
}

/// The columns of a table definition, or the first type name that names no
/// type.
pub fn build_columns(definitions: &Vec<(Identifier, Identifier, Vec<String>)>) -> (r: Result<
    Vec<Column>,
    String,
>)
    ensures
        match r {
            Ok(columns) => columns_of(definitions.deep_view()) == Ok::<_, Text>(
                columns.deep_view(),
            ),
            Err(e) => columns_of(definitions.deep_view()) == Err::<Seq<ColumnView>, _>(e@),
        },
{
    let ghost ds = definitions.deep_view();
    let mut r: Vec<Column> = Vec::new();
    let mut i: usize = 0;
    assert(ds.take(0) =~= Seq::<DefinitionView>::empty());
    assert(r.deep_view() =~= Seq::<ColumnView>::empty());
    while i < definitions.len()
        invariant
            i <= definitions@.len(),
            ds == definitions.deep_view(),
            columns_of(ds.take(i as int)) == Ok::<_, Text>(r.deep_view()),
        decreases definitions@.len() - i,
    {
        let ghost before = r.deep_view();
        assert(ds.take(i as int + 1).drop_last() =~= ds.take(i as int));
        assert(ds.take(i as int + 1).last() == definitions@[i as int].deep_view());
        if let (Identifier::Name(name), Identifier::Name(column_type)) = (
            &definitions[i].0,
            &definitions[i].1,
        ) {
            match DataType::parse(column_type.as_str()) {
                Some(data_type) => {
                    let column = Column {
                        name: name.clone(),
                        data_type,
                        rules: collect_rules(&definitions[i].2),
                    };
                    let ghost v = column.deep_view();
                    r.push(column);
                    assert(r.deep_view() =~= before.push(v));
                },
                None => {
                    proof {
                        lemma_type_error_stays(ds, i as int + 1);
                    }
                    return Err(column_type.clone());
                },
            }
        }
        i = i + 1;
    }
    assert(ds.take(i as int) =~= ds);
    Ok(r)
}

fn refused(message: &str) -> (r: QueryPlan)
    ensures
        r.deep_view() == refuse(400, message@),
{
    QueryPlan::Respond { reply: reply_error(400, message.to_owned()) }
}

/// What a query asks for.
pub fn plan_query(ast_nodes: &Vec<ASTNode>) -> (r: QueryPlan)
    ensures
        r.deep_view() == plan_of(ast_nodes.deep_view()),
{
    if ast_nodes.len() == 0 {
        return refused("No valid SQL query provided");
    }
    let condition = find_condition(ast_nodes);
    assert(ast_nodes.deep_view()[0] == ast_nodes@[0].deep_view());
    match &ast_nodes[0] {
        ASTNode::Select { columns, table, timestamp, limit: _ } => match table {
            Identifier::Name(name) => QueryPlan::Select {
                columns: columns.duplicate(),
                table: name.clone(),
                timestamp: timestamp.duplicate(),
                condition,
            },
            _ => refused("Invalid table name"),
        },
        ASTNode::Create { table, columns } => match table {
            Identifier::Name(name) => match build_columns(columns) {
                Ok(columns) => QueryPlan::Create { table: Table { name: name.clone(), columns } },
                Err(e) => QueryPlan::UnsupportedType { name: e },
            },
            _ => refused("Invalid table name in CREATE TABLE"),
        },
        ASTNode::Insert { table, values, columns } => match table {
            Identifier::Name(name) => QueryPlan::Insert {
                table: name.clone(),
                values: collect_literals(values),
                columns: if columns.len() == 0 {
                    None
                } else {
                    Some(collect_names(columns))
                },
            },
            _ => refused("Invalid table name in INSERT statement"),
        },
        ASTNode::Update { table, values } => match table {
            Identifier::Name(name) => match condition {
                None => refused("UPDATE must include a WHERE clause with a valid UUID"),
                Some(condition) => if is_uuid_where_clause(&condition) {
                    QueryPlan::Update {
                        table: name.clone(),
                        values: collect_assignments(values),
                        condition,
                    }
                } else {
                    QueryPlan::Respond {
                        reply: reply_error(
                            400,
                            concat3(
                                "WHERE clause must contain a valid UUID condition for table '",
                                name.as_str(),
                                "'",
                            ),
                        ),
                    }
                },
            },
            _ => refused("Invalid table name in UPDATE statement"),
        },
        ASTNode::Delete { table } => match table {
            Identifier::Name(name) => match condition {
                None => refused("DELETE must include a WHERE clause with a valid filter"),
                Some(condition) => QueryPlan::Delete { table: name.clone(), condition },
            },
            _ => refused("Invalid table name in DELETE statement"),
        },
        ASTNode::Drop { table } => match table {
            Identifier::Name(name) => QueryPlan::Drop { table: name.clone() },
            _ => refused("Invalid table name"),
        },
        ASTNode::Where { condition: _ } => refused("Unsupported AST Node type"),
    }
}

} // verus!
