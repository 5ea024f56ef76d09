//! What the clauses of a query ask for, and what is replied to them.

use crate::errors::{ErrorKind, ErrorView};
use crate::executer::executer;
use crate::executer::executer::PlanView;
use crate::executer::replies;
use crate::executer::replies::Change;
use crate::executer::row_changes;
use crate::executer::row_changes::{RowsChange, RowsRunView};
use crate::executer::select;
use crate::json;
use crate::json::JsonView;
use crate::outside;
use crate::query::parser::{ASTNodeView, ColumnView as DefinitionView, ExpressionView, IdentifierView};
use crate::records::rows::{Row, Rows};
use crate::records::table;
use crate::records::table::{CacheView, FilesView};
use crate::schema::schema;
use crate::schema::schema::{ColumnView, DataType, RuleView, SchemaView, TableView};
use crate::text;
use crate::text::{Strip, Text};
use vstd::prelude::*;

verus! {

/// Whether `condition` is that of the first `WHERE` clause among some clauses.
pub open spec fn is_condition_of(
    nodes: Seq<ASTNodeView>,
    condition: Option<ExpressionView>,
) -> bool {
    match condition {
        Some(c) => exists|k: int|
            #![trigger nodes[k]]
            0 <= k < nodes.len() && nodes[k] == (ASTNodeView::Where { condition: c }) && forall|
                j: int,
            |
                0 <= j < k ==> !((#[trigger] nodes[j]) is Where),
        None => forall|j: int| 0 <= j < nodes.len() ==> !((#[trigger] nodes[j]) is Where),
    }
}

proof fn lemma_first_condition(nodes: Seq<ASTNodeView>)
    ensures
        is_condition_of(nodes, executer::first_condition(nodes)),
    decreases nodes.len(),
{
    if nodes.len() > 0 {
        if let ASTNodeView::Where { condition } = nodes[0] {
            assert(nodes[0] == (ASTNodeView::Where { condition }));
        } else {
            let rest = nodes.skip(1);
            lemma_first_condition(rest);
            match executer::first_condition(rest) {
                Some(c) => {
                    let k = choose|k: int|
                        #![trigger rest[k]]
                        0 <= k < rest.len() && rest[k] == (ASTNodeView::Where { condition: c })
                            && forall|j: int| 0 <= j < k ==> !((#[trigger] rest[j]) is Where);
                    assert(nodes[k + 1] == rest[k]);
                    assert forall|j: int| 0 <= j < k + 1 implies !((#[trigger] nodes[j]) is Where) by {
                        if j > 0 {
                            assert(rest[j - 1] == nodes[j]);
                        }
                    }
                },
                None => {
                    assert forall|j: int| 0 <= j < nodes.len() implies !((
                    #[trigger] nodes[j]) is Where) by {
                        if j > 0 {
                            assert(rest[j - 1] == nodes[j]);
                        }
                    }
                },
            }
        }
    }
}

proof fn lemma_one_condition(
    nodes: Seq<ASTNodeView>,
    a: Option<ExpressionView>,
    b: Option<ExpressionView>,
)
    requires
        is_condition_of(nodes, a),
        is_condition_of(nodes, b),
    ensures
        a == b,
{
    if let Some(c) = a {
        let k = choose|k: int|
            #![trigger nodes[k]]
            0 <= k < nodes.len() && nodes[k] == (ASTNodeView::Where { condition: c }) && forall|
                j: int,
            |
                0 <= j < k ==> !((#[trigger] nodes[j]) is Where);
        if let Some(d) = b {
            let m = choose|m: int|
                #![trigger nodes[m]]
                0 <= m < nodes.len() && nodes[m] == (ASTNodeView::Where { condition: d }) && forall|
                    j: int,
                |
                    0 <= j < m ==> !((#[trigger] nodes[j]) is Where);
            if k < m {
                assert(nodes[k] is Where);
            } else if m < k {
                assert(nodes[m] is Where);
            }
        }
    } else if let Some(d) = b {
        let m = choose|m: int|
            #![trigger nodes[m]]
            0 <= m < nodes.len() && nodes[m] == (ASTNodeView::Where { condition: d }) && forall|
                j: int,
            |
                0 <= j < m ==> !((#[trigger] nodes[j]) is Where);
        assert(nodes[m] is Where);
    }
}

/// A `SELECT` asks for its columns of its table at its time, under the first
/// condition of the query.
pub proof fn law_select_asks_for_its_rows(
    nodes: Seq<ASTNodeView>,
    columns: Seq<IdentifierView>,
    table: Text,
    timestamp: Option<Text>,
    limit: Option<u64>,
    condition: Option<ExpressionView>,
)
    requires
        nodes.len() > 0,
        nodes[0] == (ASTNodeView::Select {
            columns,
            table: IdentifierView::Name(table),
            timestamp,
            limit,
        }),
        is_condition_of(nodes, condition),
    ensures
        executer::plan_of(nodes) == (PlanView::Select { columns, table, timestamp, condition }),
{
    lemma_first_condition(nodes);
    lemma_one_condition(nodes, condition, executer::first_condition(nodes));
}

proof fn lemma_literals(values: Seq<IdentifierView>, texts: Seq<Text>)
    requires
        values.len() == texts.len(),
        forall|i: int|
            0 <= i < values.len() ==> ((#[trigger] values[i]) matches IdentifierView::Literal(t, _)
                && t == texts[i]),
    ensures
        executer::literal_texts(values) == texts,
    decreases values.len(),
{
    if values.len() > 0 {
        let d = values.drop_last();
        assert(forall|i: int| 0 <= i < d.len() ==> d[i] == values[i]);
        lemma_literals(d, texts.drop_last());
        assert(values[values.len() - 1] == values.last());
        assert(texts.drop_last().push(texts.last()) =~= texts);
    } else {
        assert(texts =~= Seq::empty());
    }
}

proof fn lemma_names(values: Seq<IdentifierView>, texts: Seq<Text>)
    requires
        values.len() == texts.len(),
        forall|i: int|
            0 <= i < values.len() ==> #[trigger] values[i] == IdentifierView::Name(texts[i]),
    ensures
        executer::name_texts(values) == texts,
    decreases values.len(),
{
    if values.len() > 0 {
        let d = values.drop_last();
        assert(forall|i: int| 0 <= i < d.len() ==> d[i] == values[i]);
        lemma_names(d, texts.drop_last());
        assert(values[values.len() - 1] == values.last());
        assert(texts.drop_last().push(texts.last()) =~= texts);
    } else {
        assert(texts =~= Seq::empty());
    }
}

/// An `INSERT` asks for a row with all of its values, in their order, in the
/// columns that it names.
pub proof fn law_insert_asks_for_its_row(
    nodes: Seq<ASTNodeView>,
    table: Text,
    values: Seq<IdentifierView>,
    texts: Seq<Text>,
    names: Seq<Text>,
)
    requires
        nodes.len() > 0,
        nodes[0] == (ASTNodeView::Insert {
            table: IdentifierView::Name(table),
            values,
            columns: names.map_values(|name: Text| IdentifierView::Name(name)),
        }),
        values.len() == texts.len(),
        forall|i: int|
            0 <= i < values.len() ==> ((#[trigger] values[i]) matches IdentifierView::Literal(t, _)
                && t == texts[i]),
    ensures
        executer::plan_of(nodes) == (PlanView::Insert {
            table,
            values: texts,
            columns: if names.len() == 0 {
                None
            } else {
                Some(names)
            },
        }),
{
    lemma_literals(values, texts);
    lemma_names(names.map_values(|name: Text| IdentifierView::Name(name)), names);
}

proof fn lemma_assigned(
    values: Seq<(IdentifierView, IdentifierView)>,
    names: Seq<Text>,
    texts: Seq<Text>,
)
    requires
        names.no_duplicates(),
        values.len() == names.len() == texts.len(),
        forall|i: int|
            0 <= i < values.len() ==> {
                &&& (#[trigger] values[i]).0 == IdentifierView::Name(names[i])
                &&& values[i].1 matches IdentifierView::Literal(t, _) && t == texts[i]
            },
    ensures
        ({
            let given = executer::assigned(values);
            &&& forall|i: int|
                0 <= i < names.len() ==> given.contains_key(#[trigger] names[i]) && given[names[i]]
                    == texts[i]
            &&& forall|name: Text| #[trigger] given.contains_key(name) ==> names.contains(name)
        }),
    decreases values.len(),
{
    if values.len() > 0 {
        let d = values.drop_last();
        let ns = names.drop_last();
        let ts = texts.drop_last();
        let last = values.len() - 1;
        assert(forall|i: int|
            0 <= i < d.len() ==> d[i] == values[i] && ns[i] == names[i] && ts[i] == texts[i]);
        lemma_assigned(d, ns, ts);
        assert(values[last] == values.last());
        let given = executer::assigned(values);
        let before = executer::assigned(d);
        assert(given == before.insert(names[last], texts[last]));
        assert forall|i: int| 0 <= i < names.len() implies given.contains_key(#[trigger] names[i])
            && given[names[i]] == texts[i] by {
            if i < last {
                assert(before.contains_key(ns[i]));
                assert(names[i] != names[last]);
            }
        }
        assert forall|name: Text| #[trigger] given.contains_key(name) implies names.contains(name) by {
            if name == names[last] {
            } else {
                assert(ns.contains(name));
                let i = choose|i: int| 0 <= i < ns.len() && ns[i] == name;
                assert(names[i] == name);
            }
        }
    }
}

/// An `UPDATE` asks for its values in its columns, for the row whose UUID its
/// condition gives; without such a condition it is refused.
pub proof fn law_update_asks_for_its_values(
    nodes: Seq<ASTNodeView>,
    table: Text,
    values: Seq<(IdentifierView, IdentifierView)>,
    names: Seq<Text>,
    texts: Seq<Text>,
    condition: Option<ExpressionView>,
)
    requires
        nodes.len() > 0,
        nodes[0] == (ASTNodeView::Update { table: IdentifierView::Name(table), values }),
        is_condition_of(nodes, condition),
        names.no_duplicates(),
        values.len() == names.len() == texts.len(),
        forall|i: int|
            0 <= i < values.len() ==> {
                &&& (#[trigger] values[i]).0 == IdentifierView::Name(names[i])
                &&& values[i].1 matches IdentifierView::Literal(t, _) && t == texts[i]
            },
    ensures
        match condition {
            Some(ExpressionView::Comparison { left, operator, right }) => {
                let of_one_row = (left == IdentifierView::Name("uuid"@) || left
                    == IdentifierView::Name("UUID"@)) && (right matches IdentifierView::Literal(t, _)
                    && outside::is_uuid_text(text::trimmed(t, Strip::Quote)));
                if of_one_row {
                    &&& executer::plan_of(nodes) matches PlanView::Update {
                        table: t,
                        values: given,
                        condition: c,
                    }
                    &&& t == table
                    &&& Some(c) == condition
                    &&& given.dom() == names.to_set()
                    &&& forall|i: int|
                        0 <= i < names.len() ==> given[#[trigger] names[i]] == texts[i]
                } else {
                    executer::plan_of(nodes) matches PlanView::Respond { reply } && reply.status
                        == 400
                }
            },
            None => executer::plan_of(nodes) matches PlanView::Respond { reply } && reply.status
                == 400,
        },
{
    lemma_first_condition(nodes);
    lemma_one_condition(nodes, condition, executer::first_condition(nodes));
    lemma_assigned(values, names, texts);
    let given = executer::assigned(values);
    assert(given.dom() =~= names.to_set()) by {
        assert forall|name: Text| given.dom().contains(name) <==> names.to_set().contains(name) by {
            if names.contains(name) {
                let i = choose|i: int| 0 <= i < names.len() && names[i] == name;
                assert(given.contains_key(names[i]));
            }
        }
    }
}

/// Of several values for one column of an `UPDATE` the last counts.
pub proof fn law_last_assignment_counts(
    values: Seq<(IdentifierView, IdentifierView)>,
    name: Text,
    value: Text,
    data_type: Option<DataType>,
)
    ensures
        executer::assigned(
            values.push((IdentifierView::Name(name), IdentifierView::Literal(value, data_type))),
        ) == executer::assigned(values).insert(name, value),
{
    let all = values.push(
        (IdentifierView::Name(name), IdentifierView::Literal(value, data_type)),
    );
    assert(all.drop_last() =~= values);
}

/// A `DELETE` asks for the deletion of the rows that meet its condition, and is
/// refused without one; a `DROP` asks for the drop of its table.
pub proof fn law_delete_and_drop_ask_for_their_table(
    nodes: Seq<ASTNodeView>,
    table: Text,
    condition: Option<ExpressionView>,
)
    requires
        nodes.len() > 0,
        is_condition_of(nodes, condition),
    ensures
        nodes[0] == (ASTNodeView::Delete { table: IdentifierView::Name(table) }) ==> match condition {
            Some(c) => executer::plan_of(nodes) == (PlanView::Delete { table, condition: c }),
            None => executer::plan_of(nodes) matches PlanView::Respond { reply } && reply.status
                == 400,
        },
        nodes[0] == (ASTNodeView::Drop { table: IdentifierView::Name(table) })
            ==> executer::plan_of(nodes) == (PlanView::Drop { table }),
        nodes[0] is Where ==> (executer::plan_of(nodes) matches PlanView::Respond { reply }
            && reply.status == 400),
{
    lemma_first_condition(nodes);
    lemma_one_condition(nodes, condition, executer::first_condition(nodes));
}

proof fn lemma_rules(constraints: Seq<Text>, rules: Seq<RuleView>)
    requires
        constraints.len() == rules.len(),
        forall|i: int|
            0 <= i < rules.len() ==> schema::rule_of(#[trigger] constraints[i]) == Some(rules[i]),
    ensures
        executer::rules_of(constraints) == rules,
    decreases constraints.len(),
{
    if constraints.len() > 0 {
        let d = constraints.drop_last();
        assert(forall|i: int| 0 <= i < d.len() ==> d[i] == constraints[i]);
        lemma_rules(d, rules.drop_last());
        assert(constraints[constraints.len() - 1] == constraints.last());
        assert(rules.drop_last().push(rules.last()) =~= rules);
    } else {
        assert(rules =~= Seq::empty());
    }
}

/// Whether a column is what a definition defines: its name, its type, and a rule
/// for each of its constraints, in their order.
pub open spec fn is_defined(definition: DefinitionView, column: ColumnView) -> bool {
    &&& definition.0 == IdentifierView::Name(column.name)
    &&& definition.1 matches IdentifierView::Name(declared)
    &&& schema::named_type(outside::lowercase(declared)) == Some(column.data_type)
    &&& definition.2.len() == column.rules.len()
    &&& forall|i: int|
        0 <= i < column.rules.len() ==> schema::rule_of(#[trigger] definition.2[i]) == Some(
            column.rules[i],
        )
}

proof fn lemma_columns(definitions: Seq<DefinitionView>, columns: Seq<ColumnView>)
    requires
        definitions.len() == columns.len(),
        forall|i: int|
            0 <= i < columns.len() ==> is_defined(#[trigger] definitions[i], columns[i]),
    ensures
        executer::columns_of(definitions) == Ok::<_, Text>(columns),
    decreases definitions.len(),
{
    if definitions.len() > 0 {
        let d = definitions.drop_last();
        assert(forall|i: int| 0 <= i < d.len() ==> d[i] == definitions[i]);
        lemma_columns(d, columns.drop_last());
        let last = definitions.len() - 1;
        assert(definitions[last] == definitions.last());
        assert(is_defined(definitions[last], columns[last]));
        lemma_rules(definitions[last].2, columns[last].rules);
        assert(columns.drop_last().push(columns.last()) =~= columns);
    } else {
        assert(columns =~= Seq::empty());
    }
}

/// A `CREATE` asks for a table with a column for each definition, in their
/// order.
pub proof fn law_create_asks_for_its_table(
    nodes: Seq<ASTNodeView>,
    table: Text,
    definitions: Seq<DefinitionView>,
    columns: Seq<ColumnView>,
)
    requires
        nodes.len() > 0,
        nodes[0] == (ASTNodeView::Create {
            table: IdentifierView::Name(table),
            columns: definitions,
        }),
        definitions.len() == columns.len(),
        forall|i: int|
            0 <= i < columns.len() ==> is_defined(#[trigger] definitions[i], columns[i]),
    ensures
        executer::plan_of(nodes) == (PlanView::Create { table: TableView { name: table, columns } }),
{
    lemma_columns(definitions, columns);
}

/// A query without a clause is refused.
pub proof fn law_empty_query_is_refused()
    ensures
        executer::plan_of(Seq::empty()) matches PlanView::Respond { reply } && reply.status == 400,
{
}

// ---------------------------------------------------------------------------
// Replies
// ---------------------------------------------------------------------------

proof fn lemma_matching(rows: Rows, condition: ExpressionView, names: Seq<Text>)
    ensures
        replies::matching(rows, condition, names) == rows.filter(
            |row: Row| executer::row_meets(condition, row, names),
        ),
    decreases rows.len(),
{
    reveal(Seq::filter);
    if rows.len() > 0 {
        lemma_matching(rows.drop_last(), condition, names);
    }
}

/// An `UPDATE` and a `DELETE` are about just the rows that meet their condition,
/// each of them once and in the order of the table; where there is none, the
/// reply says so.
pub proof fn law_changes_are_about_matching_rows(
    schema: SchemaView,
    table: Text,
    names: Seq<Text>,
    rows: Rows,
    condition: ExpressionView,
)
    requires
        schema::schema_column_names(schema, table) == Ok::<_, ErrorView>(names),
    ensures
        ({
            let found = rows.filter(|row: Row| executer::row_meets(condition, row, names));
            let result = replies::rows_concerned(schema, table, Ok(rows), condition);
            if found.len() > 0 {
                result == Ok::<_, json::ReplyView>(found)
            } else {
                result matches Err(reply) && reply.status == 404
            }
        }),
{
    lemma_matching(rows, condition, names);
}

/// A request for a table is answered with a value for every cell of its rows,
/// without the header, each at its place: a number for a cell that is one in
/// JSON, else a text without quotes around it.
pub proof fn law_table_is_shown_cell_by_cell(rows: Rows)
    requires
        rows.len() > 1,
    ensures
        ({
            let reply = replies::table_outcome(Ok(rows));
            &&& reply.status == 200
            &&& reply.body matches JsonView::Array(shown)
            &&& shown.len() == rows.len() - 1
            &&& forall|i: int|
                0 <= i < shown.len() ==> ((#[trigger] shown[i]) matches JsonView::Array(cells)
                    && cells.len() == rows[i + 1].len() && forall|k: int|
                    0 <= k < cells.len() ==> #[trigger] cells[k] == if outside::is_json_number(
                        rows[i + 1][k],
                    ) {
                        JsonView::Number(rows[i + 1][k])
                    } else {
                        JsonView::Str(text::trimmed(rows[i + 1][k], Strip::Quote))
                    })
        }),
{
}

/// A request for a table at a past time is answered with a value for every cell
/// of its rows, the header among them, each at its place.
pub proof fn law_past_is_shown_cell_by_cell(rows: Rows)
    ensures
        ({
            let reply = replies::past_outcome(Ok(rows));
            &&& reply.status == 200
            &&& reply.body matches JsonView::Array(shown)
            &&& shown.len() == rows.len()
            &&& forall|i: int|
                0 <= i < shown.len() ==> ((#[trigger] shown[i]) matches JsonView::Array(cells)
                    && cells.len() == rows[i].len() && forall|k: int|
                    0 <= k < cells.len() ==> {
                        let cell = rows[i][k];
                        &&& !crate::numbers::is_number_text(cell) ==> #[trigger] cells[k]
                            == JsonView::Str(text::trimmed(cell, Strip::Quote))
                        &&& crate::numbers::is_number_text(cell) && outside::is_json_number(cell)
                            ==> cells[k] == JsonView::Number(cell)
                    })
        }),
{
}

/// A table that is empty, or that could not be read, is no success.
pub proof fn law_missing_table_is_no_success(e: ErrorView, rows: Rows)
    requires
        rows.len() <= 1,
    ensures
        replies::table_outcome(Ok(rows)).status == 404,
        replies::table_outcome(Err(e)).status == if e.kind == ErrorKind::NotFound {
            404u16
        } else {
            500u16
        },
        replies::past_outcome(Err(e)).status == if e.kind == ErrorKind::NotFound {
            404u16
        } else {
            500u16
        },
        replies::columns_outcome(Err(e)).status == if e.kind == ErrorKind::NotFound {
            404u16
        } else {
            500u16
        },
{
}

/// A request for the columns of a table is answered with their names, in their
/// order.
pub proof fn law_columns_are_shown(names: Row)
    ensures
        replies::columns_outcome(Ok(names)).status == 200,
        replies::columns_outcome(Ok(names)).body matches JsonView::Array(shown) && shown.len()
            == names.len() && forall|i: int|
            0 <= i < names.len() ==> #[trigger] shown[i] == JsonView::Str(names[i]),
{
}

/// A query that mentions the table of the users, in whatever case and wherever,
/// is refused; any other is not.
pub proof fn law_users_are_out_of_reach(query: Text)
    ensures
        (exists|a: Text, b: Text| outside::lowercase(query) == #[trigger] (a + "users"@ + b)) ==> (
        replies::reserved_words_reply(query) matches Some(reply) && reply.status == 403),
        (forall|a: Text, b: Text| outside::lowercase(query) != #[trigger] (a + "users"@ + b))
            ==> replies::reserved_words_reply(query) is None,
{
    let s = outside::lowercase(query);
    let p = "users"@;
    if exists|a: Text, b: Text| s == #[trigger] (a + p + b) {
        let (a, b) = choose|a: Text, b: Text| s == #[trigger] (a + p + b);
        assert(s.subrange(a.len() as int, a.len() as int + p.len()) =~= p);
        assert(text::occurs_at(s, p, a.len() as int));
    }
    if text::contains_text(s, p) {
        let i = choose|i: int| text::occurs_at(s, p, i);
        let a = s.take(i);
        let b = s.skip(i + p.len());
        assert(s =~= a + s.subrange(i, i + p.len()) + b);
        assert(s == a + p + b);
    }
}

/// The name of a table is what the names under which the schema holds it have in
/// common.
pub proof fn law_base_name_is_the_table(table: Text)
    ensures
        replies::base_name(schema::initial_name(table)) == table,
        replies::base_name(schema::updates_name(table)) == table,
{
    reveal_strlit("_initial");
    reveal_strlit("_updates");
    let a = schema::initial_name(table);
    let b = schema::updates_name(table);
    assert(a.take(a.len() - 8) =~= table);
    assert(b.take(b.len() - 8) =~= table);
    assert(a.skip(a.len() - 8) =~= "_initial"@);
    assert(b.subrange(b.len() - 8, b.len() as int) =~= "_updates"@);
    assert(a.subrange(a.len() - 8, a.len() as int) =~= "_initial"@);
    assert("_initial"@[1] == 'i' && "_updates"@[1] == 'u');
    assert(b[table.len() as int + 1] == 'u');
}

// ---------------------------------------------------------------------------
// Runs over rows
// ---------------------------------------------------------------------------

/// A change is made to every row that it is about, in their order: the rows are
/// named by their first cells.
pub proof fn law_rows_are_changed_by_their_first_cells(rows: Rows)
    ensures
        row_changes::row_ids(rows) == rows.filter(|row: Row| row.len() > 0).map_values(
            |row: Row| row[0],
        ),
    decreases rows.len(),
{
    reveal(Seq::filter);
    let p = |row: Row| row.len() > 0;
    let f = |row: Row| row[0];
    if rows.len() > 0 {
        let d = rows.drop_last();
        law_rows_are_changed_by_their_first_cells(d);
        if rows.last().len() > 0 {
            assert(d.filter(p).push(rows.last()).map_values(f) =~= d.filter(p).map_values(f).push(
                f(rows.last()),
            ));
        }
    } else {
        assert(rows.filter(p).map_values(f) =~= Seq::empty());
    }
}

/// A run over rows begins before the first of them, with all of them.
pub proof fn law_run_begins_with_all_rows(change: RowsChange, rows: Rows)
    ensures
        ({
            let run = row_changes::new_rows_run(change, rows);
            run.change == change && run.ids == row_changes::row_ids(rows) && run.count == rows.len()
                && run.at == 0 && !run.recalculating
        }),
{
}

/// When all rows were changed, the reply is one of success, and that to a
/// `DELETE` says how many there were; an error is no success, and the reply tells
/// it.
pub proof fn law_replies_to_changes(run: RowsRunView, change: Change, e: ErrorView)
    ensures
        row_changes::changed_reply(run).status == 200,
        run.change == RowsChange::Delete ==> json::get(
            row_changes::changed_reply(run).body,
            "message"@,
        ) == Some(JsonView::Str("Deleted "@ + crate::numbers::decimal(run.count) + " rows"@)),
        row_changes::unchanged_reply(run.change, e).status == 500,
        row_changes::after_recalculation(run, Some(e)).status == 500,
        row_changes::after_recalculation(run, None) == row_changes::changed_reply(run),
        replies::failure(change, e).status == 500,
        json::get(replies::failure(change, e).body, "error"@) matches Some(JsonView::Str(told))
            && e.message.is_suffix_of(told),
{
    crate::change_logging::laws::law_replies_say_what_they_are_given(
        200,
        "Deleted "@ + crate::numbers::decimal(run.count) + " rows"@,
    );
    let prefix = match change {
        Change::Create => "Error creating table: "@,
        Change::Insert => "Error inserting row: "@,
        Change::Update => "Error updating row: "@,
        Change::Recalculate => "Error recalculating data: "@,
        Change::Delete => "Error deleting row: "@,
        Change::Drop => "Failed to drop table: "@,
    };
    let told = prefix + e.message;
    crate::change_logging::laws::law_replies_say_what_they_are_given(500, told);
    assert(told.subrange(told.len() - e.message.len(), told.len() as int) =~= e.message);
}

/// The reply to an `INSERT` gives the UUID of the new row.
pub proof fn law_insert_replies_with_its_uuid(uuid: Text)
    ensures
        replies::inserted_row(uuid).status == 200,
        json::get(replies::inserted_row(uuid).body, "uuid"@) == Some(JsonView::Str(uuid)),
{
    let fields = replies::inserted_row(uuid).body->Object_0;
    reveal_strlit("message");
    reveal_strlit("uuid");
    assert("message"@.len() == 7 && "uuid"@.len() == 4);
    reveal_with_fuel(json::field_of, 3);
    assert(fields.skip(1)[0] == fields[1]);
}

/// A `SELECT` on a table that is not there, or that cannot be read, is no
/// success; nor is a change whose rows cannot be read.
pub proof fn law_unreadable_table_is_no_success(
    schema: SchemaView,
    table: Text,
    columns: Seq<IdentifierView>,
    condition: Option<ExpressionView>,
    of_rows: ExpressionView,
    e: ErrorView,
)
    ensures
        select::select_outcome(schema, table, columns, condition, Err(e)).status == if e.kind
            == ErrorKind::NotFound {
            404u16
        } else {
            500u16
        },
        replies::rows_concerned(schema, table, Err(e), of_rows) matches Err(reply) && reply.status
            == 500,
{
}

/// A `SELECT` reads the table as it was at its time where it gives one, and as it
/// is where it does not.
pub proof fn law_select_reads_the_table_of_its_time(
    schema: SchemaView,
    cache: CacheView,
    files: FilesView,
    table: Text,
    timestamp: Text,
)
    ensures
        select::select_data(schema, cache, files, table, Some(timestamp)) == (
            cache,
            table::table_at(schema, files, table, timestamp),
        ),
        select::select_data(schema, cache, files, table, None) == table::table_data(
            schema,
            cache,
            files,
            table,
        ),
{
}

/// The tables that are listed are in the order of their names, and none is listed
/// twice.
pub proof fn law_listed_tables_are_in_order(names: Seq<Text>, i: int, j: int)
    requires
        replies::strictly_sorted(names),
        0 <= i < j < names.len(),
    ensures
        text::text_lt(names[i], names[j]),
        names[i] != names[j],
{
    crate::text_laws::law_first_difference_decides(names[i], 'a', Seq::empty(), 'b', Seq::empty());
}

} // verus!
