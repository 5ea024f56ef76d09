//! What conditions and `SELECT` promise of the rows of a table.

use crate::errors::ErrorView;
use crate::executer::executer;
use crate::executer::select;
use crate::json;
use crate::json::JsonView;
use crate::numbers;
use crate::outside;
use crate::query::parser::{ExpressionView, IdentifierView};
use crate::records::rows;
use crate::records::rows::{Row, Rows};
use crate::schema::schema;
use crate::schema::schema::SchemaView;
use crate::text;
use crate::text::{Strip, Text};
use vstd::prelude::*;

verus! {

// ---------------------------------------------------------------------------
// Conditions
// ---------------------------------------------------------------------------

/// A column is looked up by its name but for the case of ASCII letters, and of
/// several the first counts.
pub proof fn law_column_is_first_of_its_name(columns: Seq<Text>, name: Text)
    ensures
        match executer::column_index(columns, name) {
            Some(i) => 0 <= i < columns.len() && text::eq_ignore_case(columns[i], name) && forall|
                k: int,
            |
                0 <= k < i ==> !text::eq_ignore_case(#[trigger] columns[k], name),
            None => forall|k: int|
                0 <= k < columns.len() ==> !text::eq_ignore_case(#[trigger] columns[k], name),
        },
    decreases columns.len(),
{
    if columns.len() > 0 {
        let d = columns.drop_last();
        law_column_is_first_of_its_name(d, name);
        assert(forall|k: int| 0 <= k < d.len() ==> d[k] == columns[k]);
        assert(columns[columns.len() - 1] == columns.last());
    }
}

/// Whether the column at position `i` is the first with the given name, in
/// whatever case.
pub open spec fn is_column(names: Seq<Text>, name: Text, i: int) -> bool {
    &&& 0 <= i < names.len()
    &&& text::eq_ignore_case(outside::uppercase(names[i]), outside::uppercase(name))
    &&& forall|k: int|
        0 <= k < i ==> !text::eq_ignore_case(
            outside::uppercase(#[trigger] names[k]),
            outside::uppercase(name),
        )
}

/// Whether `value` is what an operand stands for on a row: the cell under the
/// name, or the literal itself.
pub open spec fn stands_for(
    operand: IdentifierView,
    row: Row,
    names: Seq<Text>,
    value: Text,
) -> bool {
    match operand {
        IdentifierView::Name(name) => exists|i: int|
            is_column(names, name, i) && i < row.len() && row[i] == value,
        IdentifierView::Literal(literal, _) => literal == value,
        IdentifierView::Star => false,
    }
}

proof fn lemma_operand(operand: IdentifierView, row: Row, names: Seq<Text>, value: Text)
    ensures
        (executer::operand_value(operand, row, names) == Some(value)) == stands_for(
            operand,
            row,
            names,
            value,
        ),
{
    if let IdentifierView::Name(name) = operand {
        let upper = executer::uppercase_all(names);
        let wanted = outside::uppercase(name);
        law_column_is_first_of_its_name(upper, wanted);
        assert(forall|k: int|
            0 <= k < names.len() ==> #[trigger] upper[k] == outside::uppercase(names[k]));
        match executer::column_index(upper, wanted) {
            Some(i) => {
                assert forall|k: int| 0 <= k < i implies !text::eq_ignore_case(
                    outside::uppercase(#[trigger] names[k]),
                    wanted,
                ) by {
                    assert(!text::eq_ignore_case(upper[k], wanted));
                }
                assert(is_column(names, name, i));
                assert forall|j: int| is_column(names, name, j) implies j == i by {
                    if j < i {
                        assert(!text::eq_ignore_case(upper[j], wanted));
                    } else if i < j {
                        assert(!text::eq_ignore_case(outside::uppercase(names[i]), wanted));
                    }
                }
            },
            None => {
                assert forall|j: int| !is_column(names, name, j) by {
                    if 0 <= j < names.len() {
                        assert(!text::eq_ignore_case(upper[j], wanted));
                    }
                }
            },
        }
    }
}

/// A comparison holds of a row where it holds of the two values that its
/// operands stand for, without double quotes around them: equality of texts,
/// and the order of texts.
pub proof fn law_condition_compares_values(
    left: IdentifierView,
    right: IdentifierView,
    row: Row,
    names: Seq<Text>,
    l: Text,
    r: Text,
)
    requires
        stands_for(left, row, names, l),
        stands_for(right, row, names, r),
    ensures
        ({
            let a = text::trimmed(l, Strip::Quote);
            let b = text::trimmed(r, Strip::Quote);
            let meets = |operator: Text|
                executer::row_meets(
                    ExpressionView::Comparison { left, operator, right },
                    row,
                    names,
                );
            &&& meets("="@) == (a == b)
            &&& meets("!="@) == (a != b)
            &&& meets("<"@) == text::text_lt(a, b)
            &&& meets(">"@) == text::text_lt(b, a)
            &&& meets("<="@) == (a == b || text::text_lt(a, b))
            &&& meets(">="@) == (a == b || text::text_lt(b, a))
        }),
{
    lemma_operand(left, row, names, l);
    lemma_operand(right, row, names, r);
    let a = text::trimmed(l, Strip::Quote);
    let b = text::trimmed(r, Strip::Quote);
    executer::law_comparisons_partition(a, b);
    text::lemma_text_lt_total(a, b);
    reveal_strlit("=");
    reveal_strlit("!=");
    reveal_strlit("<");
    reveal_strlit(">");
    reveal_strlit(">=");
    reveal_strlit("<=");
    assert("="@[0] != "<"@[0] && "="@[0] != ">"@[0] && "<"@[0] != ">"@[0]);
    assert("!="@.len() == 2 && "="@.len() == 1 && "<"@.len() == 1 && ">"@.len() == 1);
}

/// A condition with an operand that stands for nothing, or with an operator
/// that there is not, holds of no row.
pub proof fn law_senseless_condition_holds_of_nothing(
    left: IdentifierView,
    operator: Text,
    right: IdentifierView,
    row: Row,
    names: Seq<Text>,
)
    requires
        (forall|v: Text| !stands_for(left, row, names, v)) || (forall|v: Text|
            !stands_for(right, row, names, v)) || !seq![
            "="@,
            "!="@,
            "<"@,
            ">"@,
            "<="@,
            ">="@,
            "LIKE"@,
        ].contains(operator),
    ensures
        !executer::row_meets(ExpressionView::Comparison { left, operator, right }, row, names),
{
    let operators = seq!["="@, "!="@, "<"@, ">"@, "<="@, ">="@, "LIKE"@];
    assert(operators[0] == "="@ && operators[1] == "!="@ && operators[2] == "<"@ && operators[3]
        == ">"@ && operators[4] == "<="@ && operators[5] == ">="@ && operators[6] == "LIKE"@);
    if let Some(v) = executer::operand_value(left, row, names) {
        lemma_operand(left, row, names, v);
    }
    if let Some(v) = executer::operand_value(right, row, names) {
        lemma_operand(right, row, names, v);
    }
}

proof fn lemma_replaced_char(s: Text, c: char, to: Text)
    requires
        s.len() > 0,
    ensures
        text::replaced(s, seq![c], to) == (if s[0] == c {
            to
        } else {
            seq![s[0]]
        }) + text::replaced(s.skip(1), seq![c], to),
{
    assert(s.subrange(0, 1) =~= seq![s[0]]);
    assert(seq![s[0]][0] == s[0] && seq![c][0] == c);
    if text::occurs_at(s, seq![c], 0) {
        assert(s[0] == c);
    } else if s[0] == c {
        assert(s.subrange(0, 1) == seq![c]);
    }
}

proof fn lemma_wildcards(s: Text)
    ensures
        text::replaced(text::replaced(s, "%"@, ".*"@), "_"@, "."@) == s.map_values(
            |c: char|
                if c == '%' {
                    seq!['.', '*']
                } else if c == '_' {
                    seq!['.']
                } else {
                    seq![c]
                },
        ).flatten(),
    decreases s.len(),
{
    let f = |c: char|
        if c == '%' {
            seq!['.', '*']
        } else if c == '_' {
            seq!['.']
        } else {
            seq![c]
        };
    reveal_strlit("%");
    reveal_strlit("_");
    reveal_strlit(".*");
    reveal_strlit(".");
    assert("%"@ =~= seq!['%']);
    assert("_"@ =~= seq!['_']);
    assert(".*"@ =~= seq!['.', '*']);
    assert("."@ =~= seq!['.']);
    if s.len() == 0 {
        assert(s.map_values(f) =~= Seq::<Text>::empty());
    } else {
        let rest = s.skip(1);
        lemma_wildcards(rest);
        let m = s.map_values(f);
        assert(m.drop_first() =~= rest.map_values(f));
        assert(m.first() == f(s[0]));
        lemma_replaced_char(s, '%', ".*"@);
        let inner = text::replaced(rest, "%"@, ".*"@);
        if s[0] == '%' {
            let t = ".*"@ + inner;
            lemma_replaced_char(t, '_', "."@);
            assert(t.skip(1) =~= seq!['*'] + inner);
            lemma_replaced_char(t.skip(1), '_', "."@);
            assert(t.skip(1).skip(1) =~= inner);
            let done = text::replaced(inner, "_"@, "."@);
            assert(seq!['.'] + (seq!['*'] + done) =~= seq!['.', '*'] + done);
        } else {
            let t = seq![s[0]] + inner;
            lemma_replaced_char(t, '_', "."@);
            assert(t.skip(1) =~= inner);
        }
    }
}

/// A `LIKE` pattern has to cover the whole value: the regular expression for it
/// is tied to both ends of the value, in it a percent sign stands for any
/// characters, an underscore for any one, and every other character for itself.
/// Upper and lower case are not told apart.
pub proof fn law_like_covers_the_whole_value(value: Text, pattern: Text)
    ensures
        ({
            let subject = outside::lowercase(text::trimmed(value, Strip::Quote));
            let p = outside::lowercase(
                text::trimmed(text::trimmed(pattern, Strip::Quote), Strip::Apostrophe),
            );
            let inner = p.map_values(
                |c: char|
                    if c == '%' {
                        seq!['.', '*']
                    } else if c == '_' {
                        seq!['.']
                    } else {
                        seq![c]
                    },
            ).flatten();
            executer::is_like(value, pattern) <==> outside::regex_matches(
                seq!['^'] + inner + seq!['$'],
                subject,
            ) == Some(true)
        }),
{
    let p = outside::lowercase(
        text::trimmed(text::trimmed(pattern, Strip::Quote), Strip::Apostrophe),
    );
    lemma_wildcards(p);
    reveal_strlit("^");
    reveal_strlit("$");
    assert("^"@ =~= seq!['^']);
    assert("$"@ =~= seq!['$']);
}

/// A row is like a pattern where the value that the left operand stands for is
/// like that of the right.
pub proof fn law_like_compares_values(
    left: IdentifierView,
    right: IdentifierView,
    row: Row,
    names: Seq<Text>,
    l: Text,
    r: Text,
)
    requires
        stands_for(left, row, names, l),
        stands_for(right, row, names, r),
    ensures
        executer::row_meets(
            (ExpressionView::Comparison { left, operator: "LIKE"@, right }),
            row,
            names,
        ) == executer::is_like(text::trimmed(l, Strip::Quote), text::trimmed(r, Strip::Quote)),
{
    lemma_operand(left, row, names, l);
    lemma_operand(right, row, names, r);
    reveal_strlit("=");
    reveal_strlit("!=");
    reveal_strlit("<");
    reveal_strlit(">");
    reveal_strlit(">=");
    reveal_strlit("<=");
    reveal_strlit("LIKE");
    assert("LIKE"@.len() == 4);
}

// ---------------------------------------------------------------------------
// SELECT
// ---------------------------------------------------------------------------

/// A stored value is shown as it was given: a number as a number, and anything
/// else as a text without quotes around it.
pub proof fn law_stored_value_is_shown(value: Text)
    requires
        !value.contains('"'),
    ensures
        select::cell_value(rows::quoted(value)) == match numbers::i64_text(value) {
            Some(n) => JsonView::Int(n),
            None => if numbers::is_number_text(value) {
                JsonView::Float(value)
            } else {
                JsonView::Str(value)
            },
        },
{
    rows::law_unquote_undoes_quote(value);
    if !numbers::is_number_text(value) {
        let q = rows::quoted(value);
        reveal_strlit("\"");
        assert(q[0] == '"');
        lemma_quoted_is_no_number(q);
    }
}

proof fn lemma_quoted_is_no_number(q: Text)
    requires
        q.len() > 0,
        q[0] == '"',
    ensures
        numbers::i64_text(q) is None,
        !numbers::is_float_text(q),
{
    assert(!text::is_digit(q[0]));
    assert(numbers::digits_end(q, 0) == 0);
    reveal_strlit("inf");
    reveal_strlit("infinity");
    reveal_strlit("nan");
    let f = |c: char| text::ascii_lower(c);
    assert(q.map_values(f)[0] == '"');
    assert("inf"@.map_values(f)[0] == 'i');
    assert("infinity"@.map_values(f)[0] == 'i');
    assert("nan"@.map_values(f)[0] == 'n');
}

/// `SELECT *` gives of every row as many values as it has cells, each at the
/// position of its cell.
pub proof fn law_star_gives_every_cell(schema: SchemaView, table: Text, rows: Rows)
    requires
        schema::schema_column_names(schema, table) is Ok,
        rows.len() > 1,
    ensures
        ({
            let found = select::selected(schema, table, seq![IdentifierView::Star], rows);
            &&& found.len() == rows.len()
            &&& forall|i: int|
                0 <= i < rows.len() ==> (#[trigger] found[i]).len() == rows[i].len()
            &&& forall|i: int, k: int|
                0 <= i < rows.len() && 0 <= k < rows[i].len() ==> #[trigger] found[i][k]
                    == select::cell_value(rows[i][k])
        }),
{
    assert(seq![IdentifierView::Star][0] is Star);
}

/// Whether the columns of a `SELECT` are names, and the column at position `j`
/// is that at position `places[j]` of the table.
pub open spec fn names_places(
    columns: Seq<IdentifierView>,
    names: Seq<Text>,
    places: Seq<int>,
) -> bool {
    &&& columns.len() == places.len()
    &&& forall|j: int|
        0 <= j < columns.len() ==> {
            &&& 0 <= places[j] < names.len()
            &&& (#[trigger] columns[j]) matches IdentifierView::Name(name)
            &&& text::eq_ignore_case(names[places[j]], name)
            &&& forall|k: int|
                0 <= k < places[j] ==> !text::eq_ignore_case(#[trigger] names[k], name)
        }
}

proof fn lemma_named_values(
    columns: Seq<IdentifierView>,
    names: Seq<Text>,
    places: Seq<int>,
    row: Row,
)
    requires
        names_places(columns, names, places),
        forall|j: int| 0 <= j < places.len() ==> #[trigger] places[j] < row.len(),
    ensures
        select::named_values(columns, names, row) == places.map_values(
            |p: int| select::cell_value(row[p]),
        ),
    decreases columns.len(),
{
    let f = |p: int| select::cell_value(row[p]);
    if columns.len() == 0 {
        assert(places.map_values(f) =~= Seq::empty());
    } else {
        let d = columns.drop_last();
        let e = places.drop_last();
        let last = columns.len() - 1;
        assert(forall|j: int| 0 <= j < d.len() ==> d[j] == columns[j] && e[j] == places[j]);
        lemma_named_values(d, names, e, row);
        assert(columns[last] == columns.last());
        let name = columns[last]->Name_0;
        law_column_is_first_of_its_name(names, name);
        let i = executer::column_index(names, name);
        assert(i == Some(places[last])) by {
            match i {
                Some(k) => {
                    if k < places[last] {
                        assert(!text::eq_ignore_case(names[k], name));
                    } else if places[last] < k {
                        assert(!text::eq_ignore_case(names[places[last]], name));
                    }
                },
                None => {
                    assert(!text::eq_ignore_case(names[places[last]], name));
                },
            }
        }
        assert(e.map_values(f).push(f(places[last])) =~= places.map_values(f));
    }
}

/// A `SELECT` that names columns gives of every row the cells of those columns,
/// in the order in which they are named.
pub proof fn law_named_columns_give_their_cells(
    schema: SchemaView,
    table: Text,
    names: Seq<Text>,
    columns: Seq<IdentifierView>,
    places: Seq<int>,
    rows: Rows,
)
    requires
        schema::schema_column_names(schema, table) == Ok::<_, ErrorView>(names),
        rows.len() > 1,
        names_places(columns, names, places),
        forall|i: int, j: int|
            0 <= i < rows.len() && 0 <= j < places.len() ==> #[trigger] places[j]
                < (#[trigger] rows[i]).len(),
    ensures
        ({
            let found = select::selected(schema, table, columns, rows);
            &&& found.len() == rows.len()
            &&& forall|i: int|
                0 <= i < rows.len() ==> (#[trigger] found[i]).len() == columns.len()
            &&& forall|i: int, j: int|
                0 <= i < rows.len() && 0 <= j < columns.len() ==> #[trigger] found[i][j]
                    == select::cell_value(rows[i][places[j]])
        }),
{
    if columns.len() == 1 {
        assert(columns[0] is Name);
    }
    let found = select::selected(schema, table, columns, rows);
    assert forall|i: int| 0 <= i < rows.len() implies #[trigger] found[i] == places.map_values(
        |p: int| select::cell_value(rows[i][p]),
    ) by {
        lemma_named_values(columns, names, places, rows[i]);
    }
}

/// `SELECT *` gives the same as a `SELECT` that names all columns of the table
/// in their order, where no two names are the same but for case and every row
/// has a cell for each column.
pub proof fn law_star_is_all_columns(
    schema: SchemaView,
    table: Text,
    names: Seq<Text>,
    rows: Rows,
)
    requires
        schema::schema_column_names(schema, table) == Ok::<_, ErrorView>(names),
        forall|i: int, j: int|
            0 <= i < j < names.len() ==> !text::eq_ignore_case(
                #[trigger] names[i],
                #[trigger] names[j],
            ),
        forall|i: int| 0 <= i < rows.len() ==> (#[trigger] rows[i]).len() == names.len(),
    ensures
        select::selected(schema, table, seq![IdentifierView::Star], rows) == select::selected(
            schema,
            table,
            names.map_values(|name: Text| IdentifierView::Name(name)),
            rows,
        ),
{
    let columns = names.map_values(|name: Text| IdentifierView::Name(name));
    let places = Seq::new(names.len(), |i: int| i);
    let star = select::selected(schema, table, seq![IdentifierView::Star], rows);
    let all = select::selected(schema, table, columns, rows);
    if rows.len() > 1 {
        law_star_gives_every_cell(schema, table, rows);
        law_named_columns_give_their_cells(schema, table, names, columns, places, rows);
        assert forall|i: int| 0 <= i < rows.len() implies #[trigger] star[i] == all[i] by {
            assert(star[i].len() == all[i].len());
            assert forall|k: int| 0 <= k < names.len() implies star[i][k] == all[i][k] by {
                assert(places[k] == k);
            }
            assert(star[i] =~= all[i]);
        }
        assert(star =~= all);
    }
}

/// A column that the table does not have shows nowhere, and the star among
/// other columns neither.
pub proof fn law_unknown_column_is_passed_over(
    a: Seq<IdentifierView>,
    column: IdentifierView,
    b: Seq<IdentifierView>,
    names: Seq<Text>,
    row: Row,
)
    requires
        match column {
            IdentifierView::Name(name) => forall|k: int|
                0 <= k < names.len() ==> !text::eq_ignore_case(#[trigger] names[k], name),
            _ => true,
        },
        a.len() + b.len() >= 2,
    ensures
        select::selected_values(a + seq![column] + b, names, row) == select::selected_values(
            a + b,
            names,
            row,
        ),
    decreases b.len(),
{
    lemma_passed_over(a, column, b, names, row);
}

proof fn lemma_passed_over(
    a: Seq<IdentifierView>,
    column: IdentifierView,
    b: Seq<IdentifierView>,
    names: Seq<Text>,
    row: Row,
)
    requires
        match column {
            IdentifierView::Name(name) => forall|k: int|
                0 <= k < names.len() ==> !text::eq_ignore_case(#[trigger] names[k], name),
            _ => true,
        },
    ensures
        select::named_values(a + seq![column] + b, names, row) == select::named_values(
            a + b,
            names,
            row,
        ),
    decreases b.len(),
{
    let whole = a + seq![column] + b;
    if b.len() == 0 {
        assert(whole.drop_last() =~= a + b);
        assert(whole.last() == column);
        if let IdentifierView::Name(name) = column {
            law_column_is_first_of_its_name(names, name);
        }
    } else {
        let d = b.drop_last();
        lemma_passed_over(a, column, d, names, row);
        assert(whole.drop_last() =~= a + seq![column] + d);
        assert((a + b).drop_last() =~= a + d);
        assert(whole.last() == b.last() && (a + b).last() == b.last());
    }
}

proof fn lemma_kept_is_filtered(rows: Rows, condition: ExpressionView, names: Seq<Text>)
    ensures
        select::kept_rows(rows, condition, names) == rows.filter(
            |row: Row| row == names || executer::row_meets(condition, row, names),
        ),
    decreases rows.len(),
{
    reveal(Seq::filter);
    if rows.len() > 0 {
        lemma_kept_is_filtered(rows.drop_last(), condition, names);
    }
}

/// A `SELECT` replies with what it gives of the header and of the rows that meet
/// its condition: each of them once, in the order of the table, and no other.
pub proof fn law_select_replies_with_matching_rows(
    schema: SchemaView,
    table: Text,
    names: Seq<Text>,
    columns: Seq<IdentifierView>,
    condition: Option<ExpressionView>,
    rows: Rows,
)
    requires
        schema::schema_column_names(schema, table) == Ok::<_, ErrorView>(names),
    ensures
        ({
            let kept = match condition {
                Some(c) => rows.filter(
                    |row: Row| row == names || executer::row_meets(c, row, names),
                ),
                None => rows,
            };
            let reply = select::select_outcome(schema, table, columns, condition, Ok(rows));
            &&& reply.status == 200
            &&& if kept.len() > 1 {
                &&& reply.body matches JsonView::Array(found)
                &&& found.len() == kept.len()
                &&& forall|i: int|
                    0 <= i < kept.len() ==> #[trigger] found[i] == JsonView::Array(
                        select::selected_values(columns, names, kept[i]),
                    )
            } else {
                json::get(reply.body, "message"@) == Some(
                    JsonView::Str("No matching rows found"@),
                )
            }
        }),
{
    if let Some(c) = condition {
        lemma_kept_is_filtered(rows, c, names);
    }
    reveal_with_fuel(json::field_of, 2);
    assert(seq![("message"@, JsonView::Str("No matching rows found"@))][0].0 == "message"@);
}

} // verus!
