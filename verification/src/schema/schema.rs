//! Tables, their columns, and the rules on the columns.

use crate::errors;
use crate::errors::{DbError, ErrorKind, ErrorView};
use crate::numbers;
use crate::numbers::parse_i64;
use crate::outside;
use crate::outside::{parse_datetime, regex_captures, uuid_parses};
use crate::query::parser::{Expression, ExpressionView, Identifier, IdentifierView};
use crate::string_map::{Duplicate, Same, StringMap};
use crate::text;
use crate::text::{
    chars_of, concat2, concat5, join_with, split_whitespace, str_eq, string_of, trim_matches,
    Strip, Text,
};
use vstd::prelude::*;

verus! {

// ---------------------------------------------------------------------------
// Definitions of tables
// ---------------------------------------------------------------------------

/// Data types for columns.
#[derive(Debug, Clone, Copy, PartialEq, Eq, Hash, Structural)]
pub enum DataType {
    Int,
    String,
    UUID,
    DateTime,
}

/// What a rule demands of a value.
#[derive(Debug, PartialEq, Eq, Hash)]
pub enum ConstraintType {
    Unique,
    NotNull,
    Check(Expression),
}

/// A demand on the values of a column, and what happens where it is not met.
#[derive(Debug, PartialEq, Eq)]
pub struct Rule {
    pub constraint_type: ConstraintType,
    pub action: RuleAction,
}

/// What happens to a value that breaks a rule.
#[derive(Debug, PartialEq, Eq)]
pub enum RuleAction {
    SetNull,
    SetDefault(String),
    Reject,
}

/// A column of a table.
#[derive(Debug, PartialEq, Eq)]
pub struct Column {
    pub name: String,
    pub data_type: DataType,
    /// Rules applied to this column.
    pub rules: Vec<Rule>,
}

/// A table.
#[derive(Debug, PartialEq, Eq)]
pub struct Table {
    pub name: String,
    pub columns: Vec<Column>,
}

/// The tables of a database. Each logical table is there twice: its initial
/// rows under `<name>_initial`, the changes to them under `<name>_updates`.
#[derive(Debug)]
pub struct Schema {
    pub tables: StringMap<Table>,
}

/// A [`ConstraintType`] as a mathematical value.
pub enum ConstraintView {
    Unique,
    NotNull,
    Check(ExpressionView),
}

/// A [`RuleAction`] as a mathematical value.
pub enum ActionView {
    SetNull,
    SetDefault(Text),
    Reject,
}

/// A [`Rule`] as a mathematical value.
pub struct RuleView {
    pub constraint_type: ConstraintView,
    pub action: ActionView,
}

/// A [`Column`] as a mathematical value.
pub struct ColumnView {
    pub name: Text,
    pub data_type: DataType,
    pub rules: Seq<RuleView>,
}

/// A [`Table`] as a mathematical value.
pub struct TableView {
    pub name: Text,
    pub columns: Seq<ColumnView>,
}

/// A [`Schema`] as a mathematical value: the tables by their names.
pub type SchemaView = Map<Text, TableView>;

impl DeepView for DataType {
    type V = DataType;

    open spec fn deep_view(&self) -> DataType {
        *self
    }
}

impl DeepView for ConstraintType {
    type V = ConstraintView;

    open spec fn deep_view(&self) -> ConstraintView {
        match self {
            ConstraintType::Unique => ConstraintView::Unique,
            ConstraintType::NotNull => ConstraintView::NotNull,
            ConstraintType::Check(e) => ConstraintView::Check(e.deep_view()),
        }
    }
}

impl DeepView for RuleAction {
    type V = ActionView;

    open spec fn deep_view(&self) -> ActionView {
        match self {
            RuleAction::SetNull => ActionView::SetNull,
            RuleAction::SetDefault(s) => ActionView::SetDefault(s@),
            RuleAction::Reject => ActionView::Reject,
        }
    }
}

impl DeepView for Rule {
    type V = RuleView;

    open spec fn deep_view(&self) -> RuleView {
        RuleView {
            constraint_type: self.constraint_type.deep_view(),
            action: self.action.deep_view(),
        }
    }
}

impl DeepView for Column {
    type V = ColumnView;

    open spec fn deep_view(&self) -> ColumnView {
        ColumnView {
            name: self.name@,
            data_type: self.data_type,
            rules: self.rules.deep_view(),
        }
    }
}

impl DeepView for Table {
    type V = TableView;

    open spec fn deep_view(&self) -> TableView {
        TableView { name: self.name@, columns: self.columns.deep_view() }
    }
}

impl DeepView for Schema {
    type V = SchemaView;

    open spec fn deep_view(&self) -> SchemaView {
        self.tables.deep_view()
    }
}

impl Duplicate for Rule {
    fn duplicate(&self) -> (r: Self) {
        let constraint_type = match &self.constraint_type {
            ConstraintType::Unique => ConstraintType::Unique,
            ConstraintType::NotNull => ConstraintType::NotNull,
            ConstraintType::Check(e) => ConstraintType::Check(e.clone()),
        };
        let action = match &self.action {
            RuleAction::SetNull => RuleAction::SetNull,
            RuleAction::SetDefault(s) => RuleAction::SetDefault(s.clone()),
            RuleAction::Reject => RuleAction::Reject,
        };
        Rule { constraint_type, action }
    }
}

impl Duplicate for Column {
    fn duplicate(&self) -> (r: Self) {
        Column {
            name: self.name.clone(),
            data_type: self.data_type,
            rules: self.rules.duplicate(),
        }
    }
}

impl Duplicate for Table {
    fn duplicate(&self) -> (r: Self) {
        Table { name: self.name.clone(), columns: self.columns.duplicate() }
    }
}

impl Duplicate for Schema {
    fn duplicate(&self) -> (r: Self) {
        Schema { tables: self.tables.duplicate() }
    }
}

impl Same for Rule {
    fn same(&self, other: &Self) -> (r: bool) {
        let constraints = match (&self.constraint_type, &other.constraint_type) {
            (ConstraintType::Unique, ConstraintType::Unique) => true,
            (ConstraintType::NotNull, ConstraintType::NotNull) => true,
            (ConstraintType::Check(a), ConstraintType::Check(b)) => a.same(b),
            _ => false,
        };
        let actions = match (&self.action, &other.action) {
            (RuleAction::SetNull, RuleAction::SetNull) => true,
            (RuleAction::SetDefault(a), RuleAction::SetDefault(b)) => a.same(b),
            (RuleAction::Reject, RuleAction::Reject) => true,
            _ => false,
        };
        constraints && actions
    }
}

impl Same for Column {
    fn same(&self, other: &Self) -> (r: bool) {
        self.name.same(&other.name) && self.data_type == other.data_type && self.rules.same(
            &other.rules,
        )
    }
}

impl Same for Table {
    fn same(&self, other: &Self) -> (r: bool) {
        self.name.same(&other.name) && self.columns.same(&other.columns)
    }
}

impl Same for Schema {
    fn same(&self, other: &Self) -> (r: bool) {
        self.tables.same(&other.tables)
    }
}

impl Default for Schema {
    fn default() -> (r: Self)
        ensures
            r.deep_view() == Map::<Text, TableView>::empty(),
    {
        Schema { tables: StringMap::new() }
    }
}

// ---------------------------------------------------------------------------
// Data types
// ---------------------------------------------------------------------------

/// The data type with the given name in lower case.
pub open spec fn named_type(name: Text) -> Option<DataType> {
    if name == "int"@ || name == "integer"@ {
        Some(DataType::Int)
    } else if name == "string"@ || name == "text"@ || name == "varchar"@ {
        Some(DataType::String)
    } else if name == "uuid"@ {
        Some(DataType::UUID)
    } else if name == "datetime"@ {
        Some(DataType::DateTime)
    } else {
        None
    }
}

fn lookup_type(name: &str) -> (r: Option<DataType>)
    ensures
        r == named_type(name@),
{
    if str_eq(name, "int") || str_eq(name, "integer") {
        Some(DataType::Int)
    } else if str_eq(name, "string") || str_eq(name, "text") || str_eq(name, "varchar") {
        Some(DataType::String)
    } else if str_eq(name, "uuid") {
        Some(DataType::UUID)
    } else if str_eq(name, "datetime") {
        Some(DataType::DateTime)
    } else {
        None
    }
}

impl DataType {
    /// The data type with the given name, in any case.
    pub fn from(s: &str) -> (r: DataType)
        requires
            named_type(outside::lowercase(s@)) is Some,
        ensures
            named_type(outside::lowercase(s@)) == Some(r),
    {
        let lower = s.to_lowercase();
        match lookup_type(lower.as_str()) {
            Some(t) => t,
            None => DataType::String,
        }
    }

    /// The data type with the given name, in any case, where there is one.
    pub fn parse(s: &str) -> (r: Option<DataType>)
        ensures
            r == named_type(outside::lowercase(s@)),
    {
        let lower = s.to_lowercase();
        match lookup_type(lower.as_str()) {
            Some(_) => Some(DataType::from(s)),
            None => None,
        }
    }

    /// The name of the data type.
    pub open spec fn name(self) -> Text {
        match self {
            DataType::Int => "Int"@,
            DataType::String => "String"@,
            DataType::UUID => "UUID"@,
            DataType::DateTime => "DateTime"@,
        }
    }

    /// The name of the data type.
    pub fn to_name(&self) -> (r: String)
        ensures
            r@ == self.name(),
    {
        match self {
            DataType::Int => "Int".to_owned(),
            DataType::String => "String".to_owned(),
            DataType::UUID => "UUID".to_owned(),
            DataType::DateTime => "DateTime".to_owned(),
        }
    }
}

/// Whether a text is a value of a data type.
pub open spec fn fits_type(data_type: DataType, value: Text) -> bool {
    match data_type {
        DataType::Int => numbers::i64_text(value) is Some,
        DataType::String => true,
        DataType::UUID => outside::is_uuid_text(text::trimmed(value, Strip::Quote)),
        DataType::DateTime => outside::datetime_of(value, "%Y-%m-%d %H:%M:%S"@) is Some,
    }
}

/// Whether `value` is a value of the data type.
pub fn is_valid_data_type(data_type: &DataType, value: &str) -> (r: bool)
    ensures
        r == fits_type(*data_type, value@),
{
    match data_type {
        DataType::Int => parse_i64(value).is_some(),
        DataType::String => true,
        DataType::UUID => {
            let clean = trim_matches(value, Strip::Quote);
            uuid_parses(clean.as_str())
        },
        DataType::DateTime => parse_datetime(value, "%Y-%m-%d %H:%M:%S").is_some(),
    }
}

// ---------------------------------------------------------------------------
// Rules
// ---------------------------------------------------------------------------

/// The regular expression for the comparison of a `CHECK` constraint.
pub const CHECK_PATTERN: &'static str = "(?i)^\\s*([\\w\\.]+)\\s*(=|!=|>|>=|<|<=|LIKE)\\s*(['\"]?[\\w\\.]+['\"]?)\\s*$";

/// Whether a text begins with a quote of either kind.
pub open spec fn begins_with_quote(s: Text) -> bool {
    s.len() > 0 && (s[0] == '"' || s[0] == '\'')
}

fn starts_with_quote(s: &str) -> (r: bool)
    ensures
        r == begins_with_quote(s@),
{
    let cs = chars_of(s);
    cs.len() > 0 && (cs[0] == '"' || cs[0] == '\'')
}

/// The left operand of a comparison.
pub open spec fn left_operand(s: Text) -> IdentifierView {
    if begins_with_quote(s) {
        IdentifierView::Literal(text::trimmed(s, Strip::AnyQuote), Some(DataType::String))
    } else {
        IdentifierView::Name(s)
    }
}

/// The right operand of a comparison: a string in quotes, an integer, or a
/// name.
pub open spec fn right_operand(s: Text) -> IdentifierView {
    if begins_with_quote(s) {
        IdentifierView::Literal(text::trimmed(s, Strip::AnyQuote), Some(DataType::String))
    } else if numbers::i64_text(s) is Some {
        IdentifierView::Literal(s, Some(DataType::Int))
    } else {
        IdentifierView::Name(s)
    }
}

/// What group `i` of a match holds.
pub open spec fn group(groups: Seq<Option<Text>>, i: int) -> Option<Text> {
    if 0 <= i < groups.len() {
        groups[i]
    } else {
        None
    }
}

/// The comparison that the groups of a match hold.
pub open spec fn comparison_of(groups: Seq<Option<Text>>) -> Option<ExpressionView> {
    match (group(groups, 1), group(groups, 2), group(groups, 3)) {
        (Some(left), Some(operator), Some(right)) => Some(
            ExpressionView::Comparison {
                left: left_operand(left),
                operator,
                right: right_operand(right),
            },
        ),
        _ => None,
    }
}

/// The comparison that `s` is.
pub open spec fn expression_of(s: Text) -> Option<ExpressionView> {
    match outside::regex_groups(CHECK_PATTERN@, s) {
        Some(groups) => comparison_of(groups),
        None => None,
    }
}

/// The comparison that the groups of a match hold.
pub fn expression_from_groups(groups: &Vec<Option<String>>) -> (r: Option<Expression>)
    ensures
        r.deep_view() == comparison_of(groups.deep_view()),
{
    if groups.len() <= 3 {
        return None;
    }
    match (&groups[1], &groups[2], &groups[3]) {
        (Some(left), Some(operator), Some(right)) => {
            let left_identifier = if starts_with_quote(left.as_str()) {
                Identifier::Literal(
                    trim_matches(left.as_str(), Strip::AnyQuote),
                    Some(DataType::String),
                )
            } else {
                Identifier::Name(left.clone())
            };
            let right_identifier = if starts_with_quote(right.as_str()) {
                Identifier::Literal(
                    trim_matches(right.as_str(), Strip::AnyQuote),
                    Some(DataType::String),
                )
            } else if parse_i64(right.as_str()).is_some() {
                Identifier::Literal(right.clone(), Some(DataType::Int))
            } else {
                Identifier::Name(right.clone())
            };
            assert(groups.deep_view()[1] == Some(left@));
            assert(groups.deep_view()[2] == Some(operator@));
            assert(groups.deep_view()[3] == Some(right@));
            Some(
                Expression::Comparison {
                    left: left_identifier,
                    operator: operator.clone(),
                    right: right_identifier,
                },
            )
        },
        _ => None,
    }
}

/// The comparison that `expr_str` is, such as `age > 18` or `name = 'John'`.
pub fn parse_expression(expr_str: &str) -> (r: Option<Expression>)
    ensures
        r.deep_view() == expression_of(expr_str@),
{
    match regex_captures(CHECK_PATTERN, expr_str) {
        Some(groups) => expression_from_groups(&groups),
        None => None,
    }
}

/// What the words of a constraint demand.
pub open spec fn constraint_of(parts: Seq<Text>) -> Option<ConstraintView> {
    if parts.len() == 0 {
        None
    } else {
        let keyword = outside::lowercase(parts[0]);
        if keyword == "not"@ {
            if parts.len() > 1 && outside::lowercase(parts[1]) == "null"@ {
                Some(ConstraintView::NotNull)
            } else {
                None
            }
        } else if keyword == "unique"@ {
            Some(ConstraintView::Unique)
        } else if keyword == "check"@ {
            let e = text::join(parts.skip(1), " "@);
            if e.len() >= 2 && e[0] == '(' && e.last() == ')' {
                match expression_of(e.subrange(1, e.len() - 1)) {
                    Some(expression) => Some(ConstraintView::Check(expression)),
                    None => None,
                }
            } else {
                None
            }
        } else {
            None
        }
    }
}

/// The rule that a constraint stands for: whatever breaks it is rejected.
pub open spec fn rule_of(s: Text) -> Option<RuleView> {
    match constraint_of(text::words(s)) {
        Some(constraint_type) => Some(RuleView { constraint_type, action: ActionView::Reject }),
        None => None,
    }
}

fn map_words_to_constraint(parts: &Vec<String>) -> (r: Option<ConstraintType>)
    ensures
        r.deep_view() == constraint_of(parts.deep_view()),
{
    if parts.len() == 0 {
        return None;
    }
    assert(parts.deep_view()[0] == parts@[0]@);
    let keyword = parts[0].as_str().to_lowercase();
    if str_eq(keyword.as_str(), "not") {
        if parts.len() > 1 {
            assert(parts.deep_view()[1] == parts@[1]@);
            let second = parts[1].as_str().to_lowercase();
            if str_eq(second.as_str(), "null") {
                Some(ConstraintType::NotNull)
            } else {
                None
            }
        } else {
            None
        }
    } else if str_eq(keyword.as_str(), "unique") {
        Some(ConstraintType::Unique)
    } else if str_eq(keyword.as_str(), "check") {
        let mut rest: Vec<String> = Vec::new();
        let mut i: usize = 1;
        while i < parts.len()
            invariant
                1 <= i <= parts@.len(),
                rest@.len() == i - 1,
                forall|k: int| 0 <= k < i - 1 ==> (#[trigger] rest@[k])@ == parts@[k + 1]@,
            decreases parts@.len() - i,
        {
            rest.push(parts[i].clone());
            i = i + 1;
        }
        assert(rest.deep_view() =~= parts.deep_view().skip(1));
        let e = join_with(&rest, " ");
        let cs = chars_of(e.as_str());
        if cs.len() >= 2 && cs[0] == '(' && cs[cs.len() - 1] == ')' {
            let inner = string_of(&cs, 1, cs.len() - 1);
            match parse_expression(inner.as_str()) {
                Some(expression) => Some(ConstraintType::Check(expression)),
                None => None,
            }
        } else {
            None
        }
    } else {
        None
    }
}

/// The rule that a constraint stands for, where it is one of `NOT NULL`,
/// `UNIQUE` and `CHECK (..)`.
pub fn map_string_to_rule(rule_str: &str) -> (r: Option<Rule>)
    ensures
        r.deep_view() == rule_of(rule_str@),
{
    let parts = split_whitespace(rule_str);
    match map_words_to_constraint(&parts) {
        Some(constraint_type) => Some(Rule { constraint_type, action: RuleAction::Reject }),
        None => None,
    }
}

// ---------------------------------------------------------------------------
// Creating and dropping tables
// ---------------------------------------------------------------------------

/// The name under which the schema holds the initial rows of a table.
pub open spec fn initial_name(table: Text) -> Text {
    table + "_initial"@
}

/// The name under which the schema holds the changes to a table.
pub open spec fn updates_name(table: Text) -> Text {
    table + "_updates"@
}

/// The name under which the schema holds the initial rows of a table.
pub fn initial_table_name(table_name: &str) -> (r: String)
    ensures
        r@ == initial_name(table_name@),
{
    concat2(table_name, "_initial")
}

/// The name under which the schema holds the changes to a table.
pub fn updates_table_name(table_name: &str) -> (r: String)
    ensures
        r@ == updates_name(table_name@),
{
    concat2(table_name, "_updates")
}

/// The two names of a table are different.
pub proof fn lemma_names_differ(table: Text)
    ensures
        initial_name(table) != updates_name(table),
{
    reveal_strlit("_initial");
    reveal_strlit("_updates");
    assert(initial_name(table)[table.len() as int + 1] == 'i');
    assert(updates_name(table)[table.len() as int + 1] == 'u');
}

/// A column that no value may be missing from.
pub open spec fn required_column(name: Text, data_type: DataType) -> ColumnView {
    ColumnView {
        name,
        data_type,
        rules: seq![
            RuleView { constraint_type: ConstraintView::NotNull, action: ActionView::Reject },
        ],
    }
}

/// The columns of a stored table: a UUID before, and a timestamp after, those
/// of its definition.
pub open spec fn stored_columns(columns: Seq<ColumnView>) -> Seq<ColumnView> {
    seq![required_column("UUID"@, DataType::UUID)] + columns + seq![
        required_column("timestamp"@, DataType::DateTime),
    ]
}

/// The schema with a table added to it.
pub open spec fn with_table(schema: SchemaView, table: TableView) -> SchemaView {
    let columns = stored_columns(table.columns);
    schema.insert(
        initial_name(table.name),
        TableView { name: initial_name(table.name), columns },
    ).insert(updates_name(table.name), TableView { name: updates_name(table.name), columns })
}

/// The schema with a table taken out of it.
pub open spec fn without_table(schema: SchemaView, table: Text) -> SchemaView {
    schema.remove(initial_name(table)).remove(updates_name(table))
}

fn make_required_column(name: &str, data_type: DataType) -> (r: Column)
    ensures
        r.deep_view() == required_column(name@, data_type),
{
    let mut rules: Vec<Rule> = Vec::new();
    rules.push(Rule { constraint_type: ConstraintType::NotNull, action: RuleAction::Reject });
    assert(rules.deep_view() =~= required_column(name@, data_type).rules);
    Column { name: name.to_owned(), data_type, rules }
}

fn make_stored_table(name: &str, columns: &Vec<Column>) -> (r: Table)
    ensures
        r.deep_view() == (TableView { name: name@, columns: stored_columns(columns.deep_view()) }),
{
    let mut stored: Vec<Column> = Vec::new();
    stored.push(make_required_column("UUID", DataType::UUID));
    let mut i: usize = 0;
    while i < columns.len()
        invariant
            i <= columns@.len(),
            stored@.len() == i + 1,
            stored@[0].deep_view() == required_column("UUID"@, DataType::UUID),
            forall|k: int|
                0 <= k < i ==> (#[trigger] stored@[k + 1]).deep_view() == columns@[k].deep_view(),
        decreases columns@.len() - i,
    {
        let ghost before = stored@;
        stored.push(columns[i].duplicate());
        assert forall|k: int| 0 <= k < i + 1 implies (#[trigger] stored@[k + 1]).deep_view()
            == columns@[k].deep_view() by {
            if k < i {
                assert(stored@[k + 1] == before[k + 1]);
            }
        }
        i = i + 1;
    }
    let ghost before = stored@;
    stored.push(make_required_column("timestamp", DataType::DateTime));
    assert forall|k: int| 0 <= k < stored@.len() implies #[trigger] stored.deep_view()[k]
        == stored_columns(columns.deep_view())[k] by {
        if 0 < k <= columns@.len() {
            assert(stored@[k] == before[(k - 1) + 1]);
        }
    }
    assert(stored.deep_view() =~= stored_columns(columns.deep_view()));
    Table { name: name.to_owned(), columns: stored }
}

/// Adds a table to a schema, for its initial rows and for the changes to them.
pub fn create_table(schema: &mut Schema, table: &Table)
    ensures
        final(schema).deep_view() == with_table(old(schema).deep_view(), table.deep_view()),
{
    let initial = initial_table_name(table.name.as_str());
    let updates = updates_table_name(table.name.as_str());
    let initial_table = make_stored_table(initial.as_str(), &table.columns);
    let updates_table = make_stored_table(updates.as_str(), &table.columns);
    schema.tables.insert(initial, initial_table);
    schema.tables.insert(updates, updates_table);
}

/// Takes a table out of a schema.
pub fn drop_table(schema: &mut Schema, table_name: &str)
    ensures
        final(schema).deep_view() == without_table(old(schema).deep_view(), table_name@),
{
    let initial = initial_table_name(table_name);
    let updates = updates_table_name(table_name);
    let _ = schema.tables.remove(initial.as_str());
    let _ = schema.tables.remove(updates.as_str());
}

/// Dropping a table undoes its creation, where there was no table of its name.
pub proof fn law_drop_undoes_create(schema: SchemaView, table: TableView)
    requires
        !schema.contains_key(initial_name(table.name)),
        !schema.contains_key(updates_name(table.name)),
    ensures
        without_table(with_table(schema, table), table.name) == schema,
{
    assert(without_table(with_table(schema, table), table.name) =~= schema);
}

/// Creating or dropping a table leaves every other entry of the schema as it
/// was.
pub proof fn law_other_tables_unchanged(schema: SchemaView, table: TableView, other: Text)
    requires
        other != initial_name(table.name),
        other != updates_name(table.name),
    ensures
        with_table(schema, table).contains_key(other) == schema.contains_key(other),
        without_table(schema, table.name).contains_key(other) == schema.contains_key(other),
        schema.contains_key(other) ==> with_table(schema, table)[other] == schema[other]
            && without_table(schema, table.name)[other] == schema[other],
{
}

/// The names of some columns.
pub open spec fn column_names(columns: Seq<ColumnView>) -> Seq<Text> {
    columns.map_values(|c: ColumnView| c.name)
}

/// The columns of a new table are its UUID, those of its definition in their
/// order, and its timestamp.
pub proof fn law_columns_of_new_table(schema: SchemaView, table: TableView)
    ensures
        with_table(schema, table).contains_key(initial_name(table.name)),
        column_names(with_table(schema, table)[initial_name(table.name)].columns) == seq!["UUID"@]
            + column_names(table.columns) + seq!["timestamp"@],
{
    lemma_names_differ(table.name);
    assert(column_names(stored_columns(table.columns)) =~= seq!["UUID"@] + column_names(
        table.columns,
    ) + seq!["timestamp"@]);
}

/// The names of some columns.
pub fn names_of_columns(columns: &Vec<Column>) -> (r: Vec<String>)
    ensures
        r.deep_view() == column_names(columns.deep_view()),
{
    let mut r: Vec<String> = Vec::new();
    let mut i: usize = 0;
    while i < columns.len()
        invariant
            i <= columns@.len(),
            r@.len() == i,
            forall|k: int| 0 <= k < i ==> (#[trigger] r@[k])@ == columns@[k].name@,
        decreases columns@.len() - i,
    {
        r.push(columns[i].name.clone());
        i = i + 1;
    }
    assert(r.deep_view() =~= column_names(columns.deep_view()));
    r
}

/// The column names of a table, looked up by its name and, failing that, by
/// the name of its initial rows.
pub open spec fn schema_column_names(schema: SchemaView, table: Text) -> Result<
    Seq<Text>,
    ErrorView,
> {
    if schema.contains_key(table) {
        Ok(column_names(schema[table].columns))
    } else if schema.contains_key(initial_name(table)) {
        Ok(column_names(schema[initial_name(table)].columns))
    } else {
        Err(
            ErrorView {
                kind: ErrorKind::NotFound,
                message: "Table '"@ + table + "' or '"@ + table + "_initial' not found"@,
            },
        )
    }
}

/// The column names of a table, looked up by its name and, failing that, by
/// the name of its initial rows.
pub fn get_column_names_from_schema(schema: &Schema, table_name: &str) -> (r: Result<
    Vec<String>,
    DbError,
>)
    ensures
        errors::result_view(r) == schema_column_names(schema.deep_view(), table_name@),
{
    if let Some(table) = schema.tables.get(table_name) {
        return Ok(names_of_columns(&table.columns));
    }
    let initial = initial_table_name(table_name);
    match schema.tables.get(initial.as_str()) {
        Some(table) => Ok(names_of_columns(&table.columns)),
        None => Err(
            DbError::new(
                ErrorKind::NotFound,
                concat5("Table '", table_name, "' or '", table_name, "_initial' not found"),
            ),
        ),
    }
}

} // verus!
