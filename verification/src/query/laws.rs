//! How queries are read: text into tokens, and tokens into clauses.

use crate::numbers;
use crate::outside;
use crate::query::parser;
use crate::query::parser::{
    ASTNodeView, AssignmentView, ColumnView, ExpressionView, IdentifierView, TokenState,
};
use crate::schema::schema::DataType;
use crate::text;
use crate::text::{Strip, Text};
use vstd::prelude::*;

verus! {

// ---------------------------------------------------------------------------
// Tokens
// ---------------------------------------------------------------------------

proof fn lemma_run_from(a: Text, b: Text)
    requires
        !parser::token_run(a).in_string,
        !parser::token_run(a).done,
        parser::token_run(a).current.len() == 0,
    ensures
        parser::token_run(a + b) == (TokenState {
            tokens: parser::token_run(a).tokens + parser::token_run(b).tokens,
            ..parser::token_run(b)
        }),
    decreases b.len(),
{
    let x = parser::token_run(a);
    if b.len() == 0 {
        assert(a + b =~= a);
        assert(x.current =~= Seq::empty());
        assert(x.tokens + Seq::<Text>::empty() =~= x.tokens);
    } else {
        let d = b.drop_last();
        lemma_run_from(a, d);
        assert((a + b).drop_last() =~= a + d);
        assert((a + b).last() == b.last());
        let y = parser::token_run(d);
        let next = parser::token_step(y, b.last());
        let here = parser::token_step(TokenState { tokens: x.tokens + y.tokens, ..y }, b.last());
        assert(here.tokens =~= x.tokens + next.tokens);
    }
}

proof fn lemma_not_done(s: Text)
    requires
        !s.contains(';'),
    ensures
        !parser::token_run(s).done,
    decreases s.len(),
{
    if s.len() > 0 {
        let d = s.drop_last();
        if d.contains(';') {
            let k = choose|k: int| 0 <= k < d.len() && d[k] == ';';
            assert(s[k] == ';');
        }
        assert(s[s.len() - 1] == s.last());
        lemma_not_done(d);
    }
}

/// White space, a comma and a parenthesis separate tokens outside strings: what
/// is before them and what is after them are read on their own, and a comma or a
/// parenthesis is a token between the two.
pub proof fn law_tokens_are_separated(a: Text, c: char, b: Text)
    requires
        !a.contains('"'),
        !a.contains(';'),
        text::is_space(c) || c == ',' || c == '(' || c == ')',
    ensures
        parser::tokens_of(a + seq![c] + b) == parser::tokens_of(a) + (if text::is_space(c) {
            Seq::empty()
        } else {
            seq![seq![c]]
        }) + parser::tokens_of(b),
{
    let st = parser::token_run(a);
    parser::lemma_run_is_plain(a);
    parser::lemma_word_is_trimmed(st.current);
    lemma_not_done(a);
    assert(',' as int == 0x2c && '(' as int == 0x28 && ')' as int == 0x29 && '"' as int == 0x22);
    let ac = a + seq![c];
    assert(ac.drop_last() =~= a);
    assert(ac.last() == c);
    lemma_run_from(ac, b);
    let y = parser::token_run(b);
    let end = parser::token_run(ac + b);
    let middle: Seq<Text> = if text::is_space(c) {
        Seq::empty()
    } else {
        seq![seq![c]]
    };
    let first = parser::tokens_of(a);
    assert(parser::token_run(ac).tokens =~= first + middle);
    assert(parser::tokens_of(ac + b) =~= first + middle + parser::tokens_of(b));
}

/// A word, which holds no white space, quote, semicolon, comma or parenthesis, is
/// read as one token, and an empty text as none.
pub proof fn law_word_is_a_token(word: Text)
    requires
        parser::is_word(word),
    ensures
        parser::tokens_of(word) == if word.len() == 0 {
            Seq::empty()
        } else {
            seq![word]
        },
{
    let e = Seq::<char>::empty();
    parser::lemma_word_is_read(e, word);
    assert(e + word =~= word);
    parser::lemma_word_is_trimmed(word);
    assert(Seq::<Text>::empty().push(word) =~= seq![word]);
}

/// A string between double quotes is one token, whatever it holds, and the
/// quotes are not part of it.
pub proof fn law_string_is_a_token(a: Text, string: Text, b: Text)
    requires
        !a.contains('"'),
        !a.contains(';'),
        !string.contains('"'),
        string.len() > 0,
    ensures
        parser::tokens_of(a + seq!['"'] + string + seq!['"'] + b) == parser::tokens_of(a) + seq![
            string,
        ] + parser::tokens_of(b),
{
    let st = parser::token_run(a);
    parser::lemma_run_is_plain(a);
    parser::lemma_word_is_trimmed(st.current);
    lemma_not_done(a);
    let open = a + seq!['"'];
    assert(open.drop_last() =~= a);
    assert(open.last() == '"');
    lemma_string_run(open, string);
    let full = open + string;
    let closed = full + seq!['"'];
    assert(closed.drop_last() =~= full);
    assert(closed.last() == '"');
    assert(Seq::<char>::empty() + string =~= string);
    lemma_run_from(closed, b);
    let first = parser::tokens_of(a);
    assert(parser::token_run(closed).tokens =~= first + seq![string]);
    assert(parser::tokens_of(closed + b) =~= first + seq![string] + parser::tokens_of(b));
}

proof fn lemma_string_run(open: Text, string: Text)
    requires
        parser::token_run(open).in_string,
        !parser::token_run(open).done,
        !string.contains('"'),
    ensures
        parser::token_run(open + string) == (TokenState {
            current: parser::token_run(open).current + string,
            ..parser::token_run(open)
        }),
    decreases string.len(),
{
    let st = parser::token_run(open);
    if string.len() == 0 {
        assert(open + string =~= open);
        assert(st.current + string =~= st.current);
    } else {
        let d = string.drop_last();
        if d.contains('"') {
            let k = choose|k: int| 0 <= k < d.len() && d[k] == '"';
            assert(string[k] == '"');
        }
        assert(string[string.len() - 1] == string.last());
        lemma_string_run(open, d);
        assert((open + string).drop_last() =~= open + d);
        assert((open + string).last() == string.last());
        assert((st.current + d).push(string.last()) =~= st.current + string);
    }
}

/// The text of a value token is kept, and quotes around it are taken off. A
/// number is an integer, then come UUIDs and dates and times, and what is none of
/// these is a text where it holds a letter.
pub proof fn law_value_token_is_kept(s: Text)
    ensures
        ({
            let quoted = s.len() >= 2 && s[0] == '"' && s.last() == '"';
            &&& quoted ==> parser::token_identifier(s) == IdentifierView::Literal(
                s.subrange(1, s.len() - 1),
                Some(DataType::String),
            )
            &&& s.len() != 1 && !quoted ==> {
                &&& parser::token_identifier(s) matches IdentifierView::Literal(t, data_type)
                &&& t == s
                &&& numbers::is_number_text(s) ==> data_type == Some(DataType::Int)
                &&& !numbers::is_number_text(s) && outside::is_uuid_text(s) ==> data_type == Some(
                    DataType::UUID,
                )
                &&& !numbers::is_number_text(s) && !outside::is_uuid_text(s) ==> {
                    let is_time = outside::datetime_of(s, "%Y-%m-%d %H:%M:%S"@) is Some
                        || outside::datetime_of(s, "%Y-%m-%dT%H:%M:%S"@) is Some;
                    let has_letter = exists|i: int|
                        0 <= i < s.len() && outside::alphabetic(#[trigger] s[i]);
                    data_type == if is_time {
                        Some(DataType::DateTime)
                    } else if has_letter {
                        Some(DataType::String)
                    } else {
                        None
                    }
                }
            }
        }),
{
}

// ---------------------------------------------------------------------------
// Lists
// ---------------------------------------------------------------------------

/// Whether the tokens from `i` on are the given items with a comma between each
/// two neighbours.
pub open spec fn is_list(t: Seq<Text>, i: int, items: Seq<Text>) -> bool {
    &&& items.len() > 0
    &&& 0 <= i
    &&& i + 2 * items.len() - 1 <= t.len()
    &&& forall|k: int| 0 <= k < items.len() ==> t[i + 2 * k] == #[trigger] items[k]
    &&& forall|k: int| 0 <= k < items.len() - 1 ==> #[trigger] t[i + 2 * k + 1] == ","@
}

proof fn lemma_list_rest(t: Seq<Text>, i: int, items: Seq<Text>)
    requires
        is_list(t, i, items),
        items.len() > 1,
    ensures
        is_list(t, i + 2, items.skip(1)),
        t[i] == items[0],
        t[i + 1] == ","@,
{
    let rest = items.skip(1);
    assert(t[i + 2 * 0] == items[0]);
    assert(t[i + 2 * 0 + 1] == ","@);
    assert forall|k: int| 0 <= k < rest.len() implies t[i + 2 + 2 * k] == #[trigger] rest[k] by {
        assert(t[i + 2 * (k + 1)] == items[k + 1]);
    }
    assert forall|k: int| 0 <= k < rest.len() - 1 implies #[trigger] t[i + 2 + 2 * k + 1] == ","@ by {
        assert(t[i + 2 * (k + 1) + 1] == ","@);
    }
}

proof fn lemma_words()
    ensures
        "FROM"@ != ","@,
        ","@ != "*"@,
        ","@ != ")"@,
{
    reveal_strlit("FROM");
    reveal_strlit(",");
    reveal_strlit("*");
    reveal_strlit(")");
    assert(","@[0] == ',' && "*"@[0] == '*' && ")"@[0] == ')' && "FROM"@.len() == 4);
}

proof fn lemma_select_list(t: Seq<Text>, i: int, names: Seq<Text>)
    requires
        is_list(t, i, names),
        i + 2 * names.len() - 1 < t.len(),
        t[i + 2 * names.len() - 1] == "FROM"@,
        forall|k: int|
            0 <= k < names.len() ==> #[trigger] names[k] != "FROM"@ && names[k] != ","@ && names[k]
                != "*"@,
    ensures
        parser::select_columns(t, i) == (
            names.map_values(|name: Text| IdentifierView::Name(name)),
            i + 2 * names.len() - 1,
        ),
    decreases names.len(),
{
    let f = |name: Text| IdentifierView::Name(name);
    lemma_words();
    assert(names[0] != "FROM"@);
    assert(t[i + 2 * 0] == names[0]);
    if names.len() == 1 {
        assert(parser::select_columns(t, i + 1).0 =~= Seq::empty());
        assert(seq![f(names[0])] + Seq::<IdentifierView>::empty() =~= names.map_values(f));
    } else {
        lemma_list_rest(t, i, names);
        let rest = names.skip(1);
        assert(forall|k: int| 0 <= k < rest.len() ==> rest[k] == names[k + 1]);
        lemma_select_list(t, i + 2, rest);
        assert(parser::select_columns(t, i + 1) == parser::select_columns(t, i + 2));
        assert(seq![f(names[0])] + rest.map_values(f) =~= names.map_values(f));
    }
}

proof fn lemma_items(t: Seq<Text>, i: int, items: Seq<Text>)
    requires
        is_list(t, i, items),
        i + 2 * items.len() - 1 < t.len(),
        t[i + 2 * items.len() - 1] == ")"@,
        forall|k: int| 0 <= k < items.len() ==> #[trigger] items[k] != ")"@,
    ensures
        parser::list_items(t, i) == (items, i + 2 * items.len() - 1),
    decreases items.len(),
{
    lemma_words();
    assert(items[0] != ")"@);
    assert(t[i + 2 * 0] == items[0]);
    if items.len() == 1 {
        assert(!parser::is_at(t, i + 1, ","@));
        assert(parser::list_items(t, i + 1) == (Seq::<Text>::empty(), i + 1));
        assert(seq![t[i]] + Seq::<Text>::empty() =~= items);
    } else {
        lemma_list_rest(t, i, items);
        let rest = items.skip(1);
        assert(forall|k: int| 0 <= k < rest.len() ==> rest[k] == items[k + 1]);
        lemma_items(t, i + 2, rest);
        assert(seq![t[i]] + rest =~= items);
    }
}

// ---------------------------------------------------------------------------
// Clauses
// ---------------------------------------------------------------------------

proof fn lemma_clause_words()
    ensures
        "SELECT"@ != "WHERE"@,
        "SELECT"@ != "CREATE"@,
        "SELECT"@ != "INSERT"@,
        "SELECT"@ != "UPDATE"@,
        "SELECT"@ != "DELETE"@,
        "WHERE"@ != "CREATE"@,
        "WHERE"@ != "INSERT"@,
        "WHERE"@ != "UPDATE"@,
        "WHERE"@ != "DELETE"@,
        "CREATE"@ != "INSERT"@,
        "CREATE"@ != "UPDATE"@,
        "CREATE"@ != "DELETE"@,
        "INSERT"@ != "UPDATE"@,
        "INSERT"@ != "DELETE"@,
        "UPDATE"@ != "DELETE"@,
        "DROP"@ != "SELECT"@,
        "DROP"@ != "WHERE"@,
        "DROP"@ != "CREATE"@,
        "DROP"@ != "INSERT"@,
        "DROP"@ != "UPDATE"@,
        "DROP"@ != "DELETE"@,
        "VALUES"@ != "("@,
        "WHERE"@ != ","@,
{
    reveal_strlit("SELECT");
    reveal_strlit("WHERE");
    reveal_strlit("CREATE");
    reveal_strlit("INSERT");
    reveal_strlit("UPDATE");
    reveal_strlit("DELETE");
    reveal_strlit("DROP");
    reveal_strlit("VALUES");
    reveal_strlit("(");
    reveal_strlit(",");
    assert("SELECT"@[0] == 'S' && "CREATE"@[0] == 'C' && "INSERT"@[0] == 'I' && "UPDATE"@[0] == 'U'
        && "DELETE"@[0] == 'D' && "WHERE"@.len() == 5 && "DROP"@.len() == 4 && "VALUES"@.len() == 6
        && "("@.len() == 1 && ","@.len() == 1);
    assert("SELECT"@.len() == 6 && "CREATE"@.len() == 6 && "INSERT"@.len() == 6 && "UPDATE"@.len()
        == 6 && "DELETE"@.len() == 6);
}

/// The timestamp of a `SELECT` is written with `%20` or `T` for a space.
pub open spec fn written_time(timestamp: Text) -> Text {
    text::replaced(text::replaced(timestamp, "%20"@, " "@), "T"@, " "@)
}

/// `SELECT a, b FROM table` reads as a `SELECT` of the columns in their order
/// from the table, `AT` gives its time, and the clause ends there.
pub proof fn law_select_is_read(
    t: Seq<Text>,
    i: int,
    names: Seq<Text>,
    table: Text,
    timestamp: Option<Text>,
)
    requires
        0 <= i < t.len(),
        t[i] == "SELECT"@,
        is_list(t, i + 1, names),
        forall|k: int|
            0 <= k < names.len() ==> #[trigger] names[k] != "FROM"@ && names[k] != ","@ && names[k]
                != "*"@,
        ({
            let from = i + 2 * names.len();
            let end = from + 2 + if timestamp is Some {
                2int
            } else {
                0int
            };
            &&& end <= t.len()
            &&& t[from] == "FROM"@
            &&& t[from + 1] == table
            &&& match timestamp {
                Some(time) => t[from + 2] == "AT"@ && t[from + 3] == time,
                None => from + 2 < t.len() ==> t[from + 2] != "AT"@,
            }
            &&& end < t.len() ==> outside::uppercase(t[end]) != "LIMIT"@
        }),
    ensures
        parser::parse_clause(t, i) == Ok::<_, Text>(
            (
                ASTNodeView::Select {
                    columns: names.map_values(|name: Text| IdentifierView::Name(name)),
                    table: IdentifierView::Name(table),
                    timestamp: match timestamp {
                        Some(time) => Some(written_time(time)),
                        None => None,
                    },
                    limit: None,
                },
                i + 2 * names.len() + 2 + if timestamp is Some {
                    2int
                } else {
                    0int
                },
            ),
        ),
{
    lemma_select_list(t, i + 1, names);
    lemma_clause_words();
}

/// `SELECT * FROM table` reads as a `SELECT` of everything in the table.
pub proof fn law_select_star_is_read(t: Seq<Text>, i: int, table: Text)
    requires
        0 <= i,
        i + 4 <= t.len(),
        t[i] == "SELECT"@,
        t[i + 1] == "*"@,
        t[i + 2] == "FROM"@,
        t[i + 3] == table,
        i + 4 < t.len() ==> t[i + 4] != "AT"@ && outside::uppercase(t[i + 4]) != "LIMIT"@,
    ensures
        parser::parse_clause(t, i) == Ok::<_, Text>(
            (
                ASTNodeView::Select {
                    columns: seq![IdentifierView::Star],
                    table: IdentifierView::Name(table),
                    timestamp: None,
                    limit: None,
                },
                i + 4,
            ),
        ),
{
    lemma_clause_words();
    reveal_strlit("*");
    reveal_strlit("FROM");
    assert("*"@.len() == 1 && "FROM"@.len() == 4);
    reveal_with_fuel(parser::select_columns, 2);
    assert(seq![IdentifierView::Star] + Seq::<IdentifierView>::empty() =~= seq![
        IdentifierView::Star,
    ]);
}

/// `WHERE column operator value` reads as the condition that it is.
pub proof fn law_where_is_read(t: Seq<Text>, i: int)
    requires
        0 <= i,
        i + 3 < t.len(),
        t[i] == "WHERE"@,
    ensures
        parser::parse_clause(t, i) matches Ok((
            ASTNodeView::Where {
                condition: ExpressionView::Comparison { left, operator, right },
            },
            end,
        )) && left == IdentifierView::Name(t[i + 1]) && operator == t[i + 2] && (
        right matches IdentifierView::Literal(value, data_type) && value == t[i + 3] && data_type
            == if outside::is_uuid_text(t[i + 3]) {
            Some(DataType::UUID)
        } else {
            None
        }) && end == i + 4,
{
    lemma_clause_words();
}

/// `INSERT INTO table (a, b) VALUES (x, y)` reads as an `INSERT` of the values in
/// their order into the columns in their order.
pub proof fn law_insert_is_read(
    t: Seq<Text>,
    i: int,
    table: Text,
    names: Seq<Text>,
    values: Seq<Text>,
)
    requires
        0 <= i,
        i + 4 < t.len(),
        t[i] == "INSERT"@,
        t[i + 1] == "INTO"@,
        t[i + 2] == table,
        t[i + 3] == "("@,
        is_list(t, i + 4, names),
        is_list(t, i + 4 + 2 * names.len() + 2, values),
        ({
            let close = i + 4 + 2 * names.len() - 1;
            let end = close + 3 + 2 * values.len() - 1;
            &&& end < t.len()
            &&& t[close] == ")"@
            &&& t[close + 1] == "VALUES"@
            &&& t[close + 2] == "("@
            &&& t[end] == ")"@
        }),
        forall|k: int| 0 <= k < names.len() ==> #[trigger] names[k] != ")"@,
        forall|k: int| 0 <= k < values.len() ==> #[trigger] values[k] != ")"@,
    ensures
        parser::parse_clause(t, i) == Ok::<_, Text>(
            (
                ASTNodeView::Insert {
                    table: IdentifierView::Name(table),
                    values: values.map_values(|value: Text| parser::token_identifier(value)),
                    columns: names.map_values(|name: Text| IdentifierView::Name(name)),
                },
                i + 6 + 2 * names.len() + 2 * values.len(),
            ),
        ),
{
    lemma_clause_words();
    lemma_items(t, i + 4, names);
    lemma_items(t, i + 4 + 2 * names.len() + 2, values);
    assert(parser::values_of(values) =~= values.map_values(
        |value: Text| parser::token_identifier(value),
    ));
    assert(parser::names_of(names) =~= names.map_values(|name: Text| IdentifierView::Name(name)));
}

/// `INSERT INTO table VALUES (x, y)` reads as an `INSERT` that names no columns.
pub proof fn law_insert_without_columns_is_read(
    t: Seq<Text>,
    i: int,
    table: Text,
    values: Seq<Text>,
)
    requires
        0 <= i,
        i + 5 < t.len(),
        t[i] == "INSERT"@,
        t[i + 1] == "INTO"@,
        t[i + 2] == table,
        t[i + 3] == "VALUES"@,
        t[i + 4] == "("@,
        is_list(t, i + 5, values),
        i + 4 + 2 * values.len() < t.len(),
        t[i + 4 + 2 * values.len()] == ")"@,
        forall|k: int| 0 <= k < values.len() ==> #[trigger] values[k] != ")"@,
    ensures
        parser::parse_clause(t, i) == Ok::<_, Text>(
            (
                ASTNodeView::Insert {
                    table: IdentifierView::Name(table),
                    values: values.map_values(|value: Text| parser::token_identifier(value)),
                    columns: Seq::empty(),
                },
                i + 5 + 2 * values.len(),
            ),
        ),
{
    lemma_clause_words();
    lemma_items(t, i + 5, values);
    assert(parser::values_of(values) =~= values.map_values(
        |value: Text| parser::token_identifier(value),
    ));
    assert(parser::names_of(Seq::empty()) =~= Seq::empty());
}

/// Whether the tokens from `i` on are the given assignments, `column = value`
/// each, with a comma between each two neighbours.
pub open spec fn are_assignments(t: Seq<Text>, i: int, names: Seq<Text>, values: Seq<Text>) -> bool {
    &&& names.len() == values.len()
    &&& 0 <= i
    &&& i + 4 * names.len() <= t.len() + 1
    &&& forall|k: int|
        0 <= k < names.len() ==> t[i + 4 * k] == #[trigger] names[k] && t[i + 4 * k + 1] == "="@
            && t[i + 4 * k + 2] == values[k]
    &&& forall|k: int| 0 <= k < names.len() - 1 ==> #[trigger] t[i + 4 * k + 3] == ","@
}

proof fn lemma_assignments(t: Seq<Text>, i: int, names: Seq<Text>, values: Seq<Text>)
    requires
        names.len() > 0,
        are_assignments(t, i, names, values),
        i + 4 * names.len() - 1 < t.len(),
        t[i + 4 * names.len() - 1] == "WHERE"@,
        forall|k: int| 0 <= k < names.len() ==> #[trigger] names[k] != "WHERE"@,
    ensures
        parser::assignments(t, i) == Ok::<_, Text>(
            (
                Seq::new(
                    names.len(),
                    |k: int| (IdentifierView::Name(names[k]), parser::token_identifier(values[k])),
                ),
                i + 4 * names.len() - 1,
            ),
        ),
    decreases names.len(),
{
    let f = |k: int| (IdentifierView::Name(names[k]), parser::token_identifier(values[k]));
    lemma_clause_words();
    assert(names[0] != "WHERE"@);
    assert(t[i + 4 * 0] == names[0] && t[i + 4 * 0 + 1] == "="@ && t[i + 4 * 0 + 2] == values[0]);
    let first = seq![(IdentifierView::Name(t[i]), parser::token_identifier(t[i + 2]))];
    if names.len() == 1 {
        assert(parser::assignments(t, i + 3) == Ok::<_, Text>(
            (Seq::<AssignmentView>::empty(), i + 3),
        ));
        assert(first + Seq::<AssignmentView>::empty() =~= Seq::new(names.len(), f));
    } else {
        assert(t[i + 4 * 0 + 3] == ","@);
        let ns = names.skip(1);
        let vs = values.skip(1);
        assert forall|k: int| 0 <= k < ns.len() implies t[i + 4 + 4 * k] == #[trigger] ns[k] && t[i + 4
            + 4 * k + 1] == "="@ && t[i + 4 + 4 * k + 2] == vs[k] by {
            assert(t[i + 4 * (k + 1)] == names[k + 1]);
        }
        assert forall|k: int| 0 <= k < ns.len() - 1 implies #[trigger] t[i + 4 + 4 * k + 3] == ","@ by {
            assert(t[i + 4 * (k + 1) + 3] == ","@);
        }
        assert forall|k: int| 0 <= k < ns.len() implies #[trigger] ns[k] != "WHERE"@ by {
            assert(names[k + 1] != "WHERE"@);
        }
        lemma_assignments(t, i + 4, ns, vs);
        let g = |k: int| (IdentifierView::Name(ns[k]), parser::token_identifier(vs[k]));
        assert(first + Seq::new(ns.len(), g) =~= Seq::new(names.len(), f));
    }
}

/// `UPDATE table SET a = x, b = y WHERE` reads as an `UPDATE` of the columns with
/// their values, and the condition follows.
pub proof fn law_update_is_read(
    t: Seq<Text>,
    i: int,
    table: Text,
    names: Seq<Text>,
    values: Seq<Text>,
)
    requires
        0 <= i,
        i + 2 < t.len(),
        t[i] == "UPDATE"@,
        t[i + 1] == table,
        t[i + 2] == "SET"@,
        names.len() > 0,
        are_assignments(t, i + 3, names, values),
        i + 2 + 4 * names.len() < t.len(),
        t[i + 2 + 4 * names.len()] == "WHERE"@,
        forall|k: int| 0 <= k < names.len() ==> #[trigger] names[k] != "WHERE"@,
    ensures
        parser::parse_clause(t, i) == Ok::<_, Text>(
            (
                ASTNodeView::Update {
                    table: IdentifierView::Name(table),
                    values: Seq::new(
                        names.len(),
                        |k: int|
                            (IdentifierView::Name(names[k]), parser::token_identifier(values[k])),
                    ),
                },
                i + 2 + 4 * names.len(),
            ),
        ),
{
    lemma_clause_words();
    lemma_assignments(t, i + 3, names, values);
}

/// `DELETE FROM table WHERE` reads as a `DELETE` from the table, and the condition
/// follows; `DROP TABLE table` reads as a `DROP` of the table.
pub proof fn law_delete_and_drop_are_read(t: Seq<Text>, i: int)
    requires
        0 <= i,
        i + 2 < t.len(),
    ensures
        t[i] == "DELETE"@ && t[i + 1] == "FROM"@ && i + 3 < t.len() && t[i + 3] == "WHERE"@
            ==> parser::parse_clause(t, i) == Ok::<_, Text>(
            (ASTNodeView::Delete { table: IdentifierView::Name(t[i + 2]) }, i + 3),
        ),
        t[i] == "DELETE"@ && !(i + 3 < t.len() && t[i + 3] == "WHERE"@) ==> parser::parse_clause(
            t,
            i,
        ) is Err,
        t[i] == "DROP"@ && outside::uppercase(t[i + 1]) == "TABLE"@ ==> parser::parse_clause(t, i)
            == Ok::<_, Text>(
            (ASTNodeView::Drop { table: IdentifierView::Name(t[i + 2]) }, i + 3),
        ),
{
    lemma_clause_words();
}

/// Whether the tokens from `from` up to `to` are constraints of one word each.
pub open spec fn are_constraints(t: Seq<Text>, from: int, to: int) -> bool {
    forall|k: int|
        from <= k < to ==> #[trigger] t[k] != ","@ && t[k] != ")"@ && outside::uppercase(t[k])
            != "CHECK"@
}

proof fn lemma_constraints(t: Seq<Text>, from: int, to: int)
    requires
        0 <= from <= to < t.len(),
        t[to] == ","@ || t[to] == ")"@,
        are_constraints(t, from, to),
    ensures
        parser::column_constraints(t, from) == Ok::<_, Text>((t.subrange(from, to), to)),
    decreases to - from,
{
    if from < to {
        assert(t[from] != ","@);
        lemma_constraints(t, from + 1, to);
        assert(seq![t[from]] + t.subrange(from + 1, to) =~= t.subrange(from, to));
    } else {
        assert(t.subrange(from, to) =~= Seq::empty());
    }
}

/// Where the column definition at position `k` ends: before the next, or at the
/// closing parenthesis.
pub open spec fn column_end(starts: Seq<int>, close: int, k: int) -> int {
    if k + 1 < starts.len() {
        starts[k + 1] - 1
    } else {
        close
    }
}

/// Whether the tokens from `start` up to `end` are a column definition: a name, a
/// type and constraints of one word each.
pub open spec fn is_column(t: Seq<Text>, start: int, end: int) -> bool {
    &&& 0 <= start
    &&& start + 2 <= end < t.len()
    &&& t[start] != ")"@
    &&& t[start + 1] != ","@
    &&& t[start + 1] != ")"@
    &&& are_constraints(t, start + 2, end)
}

/// Whether the tokens from `starts[0]` on are column definitions, the one at
/// position `k` from `starts[k]` on, with a comma after each but the last, which
/// a closing parenthesis follows.
pub open spec fn are_columns(t: Seq<Text>, starts: Seq<int>, close: int) -> bool {
    &&& starts.len() > 0
    &&& 0 <= close < t.len()
    &&& t[close] == ")"@
    &&& forall|k: int|
        0 <= k < starts.len() ==> is_column(t, #[trigger] starts[k], column_end(starts, close, k))
    &&& forall|k: int| 0 < k < starts.len() ==> t[#[trigger] starts[k] - 1] == ","@
}

/// The definition in the tokens from `start` up to `end`.
pub open spec fn column_of(t: Seq<Text>, start: int, end: int) -> ColumnView {
    (
        IdentifierView::Name(t[start]),
        IdentifierView::Name(t[start + 1]),
        t.subrange(start + 2, end),
    )
}

proof fn lemma_columns(t: Seq<Text>, starts: Seq<int>, close: int)
    requires
        are_columns(t, starts, close),
    ensures
        parser::create_columns(t, starts[0]) == Ok::<_, Text>(
            (
                Seq::new(
                    starts.len(),
                    |k: int| column_of(t, starts[k], column_end(starts, close, k)),
                ),
                close,
            ),
        ),
    decreases starts.len(),
{
    let f = |k: int| column_of(t, starts[k], column_end(starts, close, k));
    lemma_words();
    let s = starts[0];
    let end = column_end(starts, close, 0);
    assert(is_column(t, s, end));
    if starts.len() == 1 {
        lemma_constraints(t, s + 2, end);
        lemma_column_step(t, s, end, close, Seq::empty(), close);
        assert(seq![f(0)] + Seq::<ColumnView>::empty() =~= Seq::new(starts.len(), f));
    } else {
        assert(t[starts[1] - 1] == ","@);
        lemma_constraints(t, s + 2, end);
        let rest = starts.skip(1);
        assert forall|k: int| 0 <= k < rest.len() implies is_column(
            t,
            #[trigger] rest[k],
            column_end(rest, close, k),
        ) by {
            assert(is_column(t, starts[k + 1], column_end(starts, close, k + 1)));
            assert(column_end(rest, close, k) == column_end(starts, close, k + 1));
        }
        assert forall|k: int| 0 < k < rest.len() implies t[#[trigger] rest[k] - 1] == ","@ by {
            assert(t[starts[k + 1] - 1] == ","@);
        }
        lemma_columns(t, rest, close);
        let g = |k: int| column_of(t, rest[k], column_end(rest, close, k));
        let more = Seq::new(rest.len(), g);
        lemma_column_step(t, s, end, starts[1], more, close);
        assert forall|k: int| 0 <= k < rest.len() implies #[trigger] more[k] == f(k + 1) by {
            assert(column_end(rest, close, k) == column_end(starts, close, k + 1));
        }
        assert(seq![f(0)] + more =~= Seq::new(starts.len(), f));
    }
}

proof fn lemma_column_step(
    t: Seq<Text>,
    start: int,
    end: int,
    next: int,
    more: Seq<ColumnView>,
    close: int,
)
    requires
        is_column(t, start, end),
        parser::column_constraints(t, start + 2) == Ok::<_, Text>((t.subrange(start + 2, end), end)),
        next == end && t[end] == ")"@ && close == end && more.len() == 0 || next == end + 1 && t[end]
            == ","@ && parser::create_columns(t, next) == Ok::<_, Text>((more, close)),
    ensures
        parser::create_columns(t, start) == Ok::<_, Text>(
            (seq![column_of(t, start, end)] + more, close),
        ),
{
    lemma_words();
    parser::lemma_constraints_advance(t, start + 2);
    if next == end {
        assert(more =~= Seq::empty());
        assert(parser::create_columns(t, end) == Ok::<_, Text>((more, close)));
    }
}

/// `CREATE TABLE table (a type constraint, b type)` reads as a `CREATE` of the
/// table with a definition for each column, in their order, with all of its
/// constraints.
pub proof fn law_create_is_read(t: Seq<Text>, i: int, starts: Seq<int>, close: int)
    requires
        0 <= i,
        i + 4 < t.len(),
        t[i] == "CREATE"@,
        t[i + 1] == "TABLE"@,
        t[i + 3] == "("@,
        are_columns(t, starts, close),
        starts[0] == i + 4,
    ensures
        parser::parse_clause(t, i) == Ok::<_, Text>(
            (
                ASTNodeView::Create {
                    table: IdentifierView::Name(t[i + 2]),
                    columns: Seq::new(
                        starts.len(),
                        |k: int| column_of(t, starts[k], column_end(starts, close, k)),
                    ),
                },
                close + 1,
            ),
        ),
{
    lemma_clause_words();
    lemma_columns(t, starts, close);
}

/// `CHECK (a operator b)` among the constraints of a column is one constraint,
/// which keeps its comparison, and what follows it is read as well.
pub proof fn law_check_is_read(t: Seq<Text>, i: int, more: Seq<Text>, end: int)
    requires
        0 <= i,
        i + 5 < t.len(),
        t[i] != ","@,
        t[i] != ")"@,
        outside::uppercase(t[i]) == "CHECK"@,
        t[i + 1] == "("@,
        t[i + 5] == ")"@,
        parser::column_constraints(t, i + 6) == Ok::<_, Text>((more, end)),
    ensures
        parser::column_constraints(t, i) == Ok::<_, Text>(
            (
                seq!["CHECK ("@ + t[i + 2] + " "@ + t[i + 3] + " "@ + t[i + 4] + ")"@] + more,
                end,
            ),
        ),
{
}

/// A query is read clause by clause, to its end; an error in one of them is the
/// error of the query.
pub proof fn law_query_is_read_clause_by_clause(
    t: Seq<Text>,
    i: int,
    node: ASTNodeView,
    next: int,
)
    requires
        0 <= i < t.len(),
        parser::parse_clause(t, i) == Ok::<_, Text>((node, next)),
    ensures
        match parser::parse_clauses(t, next) {
            Ok(rest) => parser::parse_clauses(t, i) == Ok::<_, Text>(seq![node] + rest),
            Err(e) => parser::parse_clauses(t, i) == Err::<Seq<ASTNodeView>, _>(e),
        },
        parser::parse_clauses(t, t.len() as int) == Ok::<_, Text>(Seq::<ASTNodeView>::empty()),
{
    parser::lemma_clause_advances(t, i);
}

/// A token that begins no clause is an error.
pub proof fn law_unknown_clause_is_an_error(t: Seq<Text>, i: int)
    requires
        0 <= i < t.len(),
        !seq![
            "SELECT"@,
            "WHERE"@,
            "CREATE"@,
            "INSERT"@,
            "UPDATE"@,
            "DELETE"@,
            "DROP"@,
        ].contains(t[i]),
    ensures
        parser::parse_clauses(t, i) is Err,
{
    let words = seq![
        "SELECT"@,
        "WHERE"@,
        "CREATE"@,
        "INSERT"@,
        "UPDATE"@,
        "DELETE"@,
        "DROP"@,
    ];
    assert(words[0] == "SELECT"@ && words[1] == "WHERE"@ && words[2] == "CREATE"@ && words[3]
        == "INSERT"@ && words[4] == "UPDATE"@ && words[5] == "DELETE"@ && words[6] == "DROP"@);
}

/// The bytes of a query are read as the text that they encode, and bytes that
/// encode none are an error.
pub proof fn law_query_is_the_text_of_its_bytes(query: Text, bytes: Seq<u8>)
    ensures
        parser::parse_query(vstd::utf8::encode_utf8(query)) == parser::parse_clauses(
            parser::tokens_of(query),
            0,
        ),
        !vstd::utf8::valid_utf8(bytes) ==> parser::parse_query(bytes) is Err,
{
    vstd::utf8::encode_utf8_valid_utf8(query);
    vstd::utf8::encode_utf8_decode_utf8(query);
}

/// `LIMIT` after the table of a `SELECT` takes a number, and what is none is an
/// error.
pub proof fn law_limit_is_read(t: Seq<Text>, i: int, table: Text)
    requires
        0 <= i,
        i + 6 <= t.len(),
        t[i] == "SELECT"@,
        t[i + 1] == "*"@,
        t[i + 2] == "FROM"@,
        t[i + 3] == table,
        t[i + 4] != "AT"@,
        outside::uppercase(t[i + 4]) == "LIMIT"@,
    ensures
        match numbers::u64_text(t[i + 5]) {
            Some(n) => parser::parse_clause(t, i) == Ok::<_, Text>(
                (
                    ASTNodeView::Select {
                        columns: seq![IdentifierView::Star],
                        table: IdentifierView::Name(table),
                        timestamp: None,
                        limit: Some(n),
                    },
                    i + 6,
                ),
            ),
            None => parser::parse_clause(t, i) is Err,
        },
{
    lemma_clause_words();
    reveal_strlit("*");
    reveal_strlit("FROM");
    assert("*"@.len() == 1 && "FROM"@.len() == 4);
    reveal_with_fuel(parser::select_columns, 2);
    assert(seq![IdentifierView::Star] + Seq::<IdentifierView>::empty() =~= seq![
        IdentifierView::Star,
    ]);
}

proof fn lemma_from(t: Seq<Text>, i: int)
    requires
        0 <= i,
    ensures
        ({
            let from = parser::select_columns(t, i).1;
            &&& i <= from
            &&& forall|k: int| i <= k < from && k < t.len() ==> #[trigger] t[k] != "FROM"@
        }),
    decreases t.len() - i,
{
    if i < t.len() && t[i] != "FROM"@ {
        lemma_from(t, i + 1);
    }
}

/// A clause is read only where its words are in their places: a `SELECT` has its
/// `FROM` before its table, a `WHERE` has a whole condition, an `INSERT` has its
/// `INTO` and its values between parentheses, an `UPDATE` has its `SET` and a
/// `WHERE` after it, and so on; where they are missing, it is an error.
pub proof fn law_clauses_have_their_words(t: Seq<Text>, i: int, node: ASTNodeView, end: int)
    requires
        0 <= i < t.len(),
        parser::parse_clause(t, i) == Ok::<_, Text>((node, end)),
    ensures
        match node {
            ASTNodeView::Select { columns, table, timestamp, limit } => t[i] == "SELECT"@ && exists|
                from: int,
            |
                i < from && from + 1 < t.len() && #[trigger] t[from] == "FROM"@ && table
                    == IdentifierView::Name(t[from + 1]) && from + 2 <= end && forall|k: int|
                    i < k < from ==> #[trigger] t[k] != "FROM"@,
            ASTNodeView::Where { condition } => t[i] == "WHERE"@ && i + 4 <= t.len() && end == i + 4,
            ASTNodeView::Insert { table, values, columns } => {
                &&& t[i] == "INSERT"@
                &&& i + 2 < t.len()
                &&& t[i + 1] == "INTO"@
                &&& table == IdentifierView::Name(t[i + 2])
                &&& i + 4 < end <= t.len()
                &&& t[end - 1] == ")"@
                &&& exists|j: int|
                    i + 3 <= j && j + 1 < end - 1 && #[trigger] t[j] == "VALUES"@ && t[j + 1]
                        == "("@
            },
            ASTNodeView::Update { table, values } => {
                &&& t[i] == "UPDATE"@
                &&& i + 2 < end < t.len()
                &&& table == IdentifierView::Name(t[i + 1])
                &&& t[i + 2] == "SET"@
                &&& t[end] == "WHERE"@
            },
            ASTNodeView::Delete { table } => {
                &&& t[i] == "DELETE"@
                &&& end == i + 3
                &&& end < t.len()
                &&& t[i + 1] == "FROM"@
                &&& table == IdentifierView::Name(t[i + 2])
                &&& t[end] == "WHERE"@
            },
            ASTNodeView::Create { table, columns } => {
                &&& t[i] == "CREATE"@
                &&& i + 4 < end <= t.len()
                &&& t[i + 1] == "TABLE"@
                &&& table == IdentifierView::Name(t[i + 2])
                &&& t[i + 3] == "("@
                &&& t[end - 1] == ")"@
            },
            ASTNodeView::Drop { table } => {
                &&& t[i] == "DROP"@
                &&& end == i + 3
                &&& end <= t.len()
                &&& outside::uppercase(t[i + 1]) == "TABLE"@
                &&& table == IdentifierView::Name(t[i + 2])
            },
        },
{
    lemma_clause_words();
    parser::lemma_clause_advances(t, i);
    match node {
        ASTNodeView::Select { columns, table, timestamp, limit } => {
            lemma_from(t, i + 1);
            let from = parser::select_columns(t, i + 1).1;
            assert(t[from] == "FROM"@);
        },
        ASTNodeView::Insert { table, values, columns } => {
            if let Ok((names, j)) = parser::insert_columns(t, i + 3) {
                parser::lemma_list_items_advance(t, i + 4);
                parser::lemma_list_items_advance(t, j + 2);
                assert(t[j] == "VALUES"@);
            }
        },
        ASTNodeView::Update { table, values } => {
            parser::lemma_assignments_advance(t, i + 3);
        },
        ASTNodeView::Create { table, columns } => {
            parser::lemma_create_columns_advance(t, i + 4);
        },
        _ => {},
    }
}

} // verus!
