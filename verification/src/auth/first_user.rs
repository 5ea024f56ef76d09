//! The query that adds the first user.

use crate::auth::auth;
use crate::auth::auth::{SetupView, ADMIN};
use crate::executer::executer;
use crate::executer::executer::{PlanView, USERS_TABLE};
use crate::query::parser;
use crate::query::parser::{ASTNodeView, IdentifierView, TokenState};
use crate::text;
use crate::text::{Strip, Text};
use vstd::prelude::*;

verus! {

/// Whether a character is one that belongs to a word of a query.
pub open spec fn in_word(c: char) -> bool {
    c != '"' && c != ',' && c != '(' && c != ')' && c != ';' && !text::is_space(c)
}

/// Whether a text is a word of a query.
pub open spec fn is_word(w: Text) -> bool {
    w.len() > 0 && forall|i: int| 0 <= i < w.len() ==> in_word(#[trigger] w[i])
}

/// The tokenizer between two tokens, after the given ones.
pub open spec fn between(tokens: Seq<Text>) -> TokenState {
    TokenState { tokens, current: Seq::empty(), in_string: false, done: false }
}

proof fn lemma_next(t: Text, i: int)
    requires
        0 <= i < t.len(),
    ensures
        parser::token_run(t.take(i + 1)) == parser::token_step(parser::token_run(t.take(i)), t[i]),
{
    assert(t.take(i + 1).drop_last() =~= t.take(i));
}

proof fn lemma_word(t: Text, i: int, w: Text, st: TokenState, n: int)
    requires
        0 <= i,
        0 <= n <= w.len(),
        i + w.len() <= t.len(),
        t.subrange(i, i + w.len()) == w,
        parser::token_run(t.take(i)) == st,
        !st.done,
        st.current.len() == 0,
        forall|k: int|
            0 <= k < w.len() ==> if st.in_string {
                #[trigger] w[k] != '"'
            } else {
                in_word(w[k])
            },
    ensures
        parser::token_run(t.take(i + n)) == (TokenState { current: w.take(n), ..st }),
    decreases n,
{
    if n == 0 {
        assert(w.take(0) =~= st.current);
    } else {
        lemma_word(t, i, w, st, n - 1);
        lemma_next(t, i + n - 1);
        assert(t.subrange(i, i + w.len())[n - 1] == t[i + n - 1]);
        assert(w[n - 1] == t[i + n - 1]);
        assert(w.take(n - 1).push(w[n - 1]) =~= w.take(n));
    }
}

/// A word and the space after it.
proof fn lemma_word_and_space(t: Text, i: int, tokens: Seq<Text>, w: Text)
    requires
        0 <= i,
        i + w.len() < t.len(),
        t.subrange(i, i + w.len()) == w,
        t[i + w.len()] == ' ',
        is_word(w),
        parser::token_run(t.take(i)) == between(tokens),
    ensures
        parser::token_run(t.take(i + w.len() + 1)) == between(tokens.push(w)),
{
    lemma_word(t, i, w, between(tokens), w.len() as int);
    assert(w.take(w.len() as int) =~= w);
    lemma_next(t, i + w.len());
    text::lemma_trimmed_unchanged(w, Strip::Space);
}

/// A word and the comma or parenthesis after it.
proof fn lemma_word_and_mark(t: Text, i: int, tokens: Seq<Text>, w: Text, c: char)
    requires
        0 <= i,
        i + w.len() < t.len(),
        t.subrange(i, i + w.len()) == w,
        t[i + w.len()] == c,
        c == ',' || c == '(' || c == ')',
        is_word(w),
        parser::token_run(t.take(i)) == between(tokens),
    ensures
        parser::token_run(t.take(i + w.len() + 1)) == between(tokens.push(w).push(seq![c])),
{
    lemma_word(t, i, w, between(tokens), w.len() as int);
    assert(w.take(w.len() as int) =~= w);
    lemma_next(t, i + w.len());
    text::lemma_trimmed_unchanged(w, Strip::Space);
}

/// A comma or a parenthesis.
proof fn lemma_mark(t: Text, i: int, tokens: Seq<Text>, c: char)
    requires
        0 <= i < t.len(),
        t[i] == c,
        c == ',' || c == '(' || c == ')',
        parser::token_run(t.take(i)) == between(tokens),
    ensures
        parser::token_run(t.take(i + 1)) == between(tokens.push(seq![c])),
{
    lemma_next(t, i);
}

/// A space between two tokens.
proof fn lemma_space(t: Text, i: int, tokens: Seq<Text>)
    requires
        0 <= i < t.len(),
        t[i] == ' ',
        parser::token_run(t.take(i)) == between(tokens),
    ensures
        parser::token_run(t.take(i + 1)) == between(tokens),
{
    lemma_next(t, i);
}

/// A word in double quotes.
proof fn lemma_string(t: Text, i: int, tokens: Seq<Text>, w: Text)
    requires
        0 <= i,
        i + w.len() + 1 < t.len(),
        t[i] == '"',
        t.subrange(i + 1, i + 1 + w.len()) == w,
        t[i + 1 + w.len()] == '"',
        is_word(w),
        parser::token_run(t.take(i)) == between(tokens),
    ensures
        parser::token_run(t.take(i + w.len() + 2)) == between(tokens.push(w)),
{
    lemma_next(t, i);
    let inside = TokenState { in_string: true, ..between(tokens) };
    assert(parser::token_run(t.take(i + 1)) == inside);
    assert(forall|k: int| 0 <= k < w.len() ==> in_word(#[trigger] w[k]));
    lemma_word(t, i + 1, w, inside, w.len() as int);
    assert(w.take(w.len() as int) =~= w);
    lemma_next(t, i + 1 + w.len());
}

/// The tokens of the query that adds the first user.
pub open spec fn insert_tokens() -> Seq<Text> {
    seq![
        "INSERT"@,
        "INTO"@,
        USERS_TABLE@,
        seq!['('],
        "username"@,
        seq![','],
        "password_hash"@,
        seq![','],
        "auth_group"@,
        seq![')'],
        "VALUES"@,
        seq!['('],
        ADMIN@,
        seq![','],
        ADMIN@,
        seq![','],
        ADMIN@,
        seq![')'],
    ]
}

proof fn lemma_words()
    ensures
        is_word("INSERT"@) && "INSERT"@.len() == 6,
        is_word("INTO"@) && "INTO"@.len() == 4,
        is_word(USERS_TABLE@) && USERS_TABLE@.len() == 5,
        is_word("username"@) && "username"@.len() == 8,
        is_word("password_hash"@) && "password_hash"@.len() == 13,
        is_word("auth_group"@) && "auth_group"@.len() == 10,
        is_word("VALUES"@) && "VALUES"@.len() == 6,
        is_word(ADMIN@) && ADMIN@.len() == 5,
{
    reveal_strlit("INSERT");
    reveal_strlit("INTO");
    reveal_strlit("users");
    reveal_strlit("username");
    reveal_strlit("password_hash");
    reveal_strlit("auth_group");
    reveal_strlit("VALUES");
    reveal_strlit("admin");
}

proof fn lemma_first_words(t: Text)
    requires
        t == auth::admin_insert_text(),
    ensures
        t.len() == 91,
        t.subrange(0, 6) == "INSERT"@ && t[6] == ' ',
        t.subrange(7, 11) == "INTO"@ && t[11] == ' ',
        t.subrange(12, 17) == USERS_TABLE@ && t[17] == ' ',
        t[18] == '(',
        t.subrange(19, 27) == "username"@ && t[27] == ',' && t[28] == ' ',
{
    reveal_strlit("INSERT INTO ");
    reveal_strlit("users");
    reveal_strlit(
        " (username, password_hash, auth_group) VALUES ( \"admin\", \"admin\", \"admin\")",
    );
    reveal_strlit("INSERT");
    reveal_strlit("INTO");
    reveal_strlit("username");
    assert(t.subrange(0, 6) =~= "INSERT"@);
    assert(t.subrange(7, 11) =~= "INTO"@);
    assert(t.subrange(12, 17) =~= "users"@);
    assert(t.subrange(19, 27) =~= "username"@);
}

proof fn lemma_last_words(t: Text)
    requires
        t == auth::admin_insert_text(),
    ensures
        t.len() == 91,
        t.subrange(29, 42) == "password_hash"@ && t[42] == ',' && t[43] == ' ',
        t.subrange(44, 54) == "auth_group"@ && t[54] == ')' && t[55] == ' ',
        t.subrange(56, 62) == "VALUES"@ && t[62] == ' ',
        t[63] == '(' && t[64] == ' ',
        t[65] == '"' && t.subrange(66, 71) == ADMIN@ && t[71] == '"',
        t[72] == ',' && t[73] == ' ',
        t[74] == '"' && t.subrange(75, 80) == ADMIN@ && t[80] == '"',
        t[81] == ',' && t[82] == ' ',
        t[83] == '"' && t.subrange(84, 89) == ADMIN@ && t[89] == '"',
        t[90] == ')',
{
    reveal_strlit("INSERT INTO ");
    reveal_strlit("users");
    reveal_strlit(
        " (username, password_hash, auth_group) VALUES ( \"admin\", \"admin\", \"admin\")",
    );
    reveal_strlit("password_hash");
    reveal_strlit("auth_group");
    reveal_strlit("VALUES");
    reveal_strlit("admin");
    assert(t.subrange(29, 42) =~= "password_hash"@);
    assert(t.subrange(44, 54) =~= "auth_group"@);
    assert(t.subrange(56, 62) =~= "VALUES"@);
    assert(t.subrange(66, 71) =~= "admin"@);
    assert(t.subrange(75, 80) =~= "admin"@);
    assert(t.subrange(84, 89) =~= "admin"@);
}

proof fn lemma_insert_tokens()
    ensures
        parser::tokens_of(auth::admin_insert_text()) == insert_tokens(),
{
    let t = auth::admin_insert_text();
    let all = insert_tokens();
    lemma_words();
    lemma_first_words(t);
    lemma_last_words(t);
    assert(t.take(0) =~= Seq::empty());
    assert(all.take(0) =~= Seq::empty());
    assert forall|k: int| 0 <= k < 18 implies #[trigger] all.take(k + 1) == all.take(k).push(
        all[k],
    ) by {
        assert(all.take(k + 1) =~= all.take(k).push(all[k]));
    }
    assert(all.take(1) == all.take(0).push(all[0]));
    lemma_word_and_space(t, 0, all.take(0), "INSERT"@);
    assert(all.take(2) == all.take(1).push(all[1]));
    lemma_word_and_space(t, 7, all.take(1), "INTO"@);
    assert(all.take(3) == all.take(2).push(all[2]));
    lemma_word_and_space(t, 12, all.take(2), USERS_TABLE@);
    assert(all.take(4) == all.take(3).push(all[3]));
    lemma_mark(t, 18, all.take(3), '(');
    assert(all.take(5) == all.take(4).push(all[4]));
    assert(all.take(6) == all.take(5).push(all[5]));
    lemma_word_and_mark(t, 19, all.take(4), "username"@, ',');
    lemma_space(t, 28, all.take(6));
    assert(all.take(7) == all.take(6).push(all[6]));
    assert(all.take(8) == all.take(7).push(all[7]));
    lemma_word_and_mark(t, 29, all.take(6), "password_hash"@, ',');
    lemma_space(t, 43, all.take(8));
    assert(all.take(9) == all.take(8).push(all[8]));
    assert(all.take(10) == all.take(9).push(all[9]));
    lemma_word_and_mark(t, 44, all.take(8), "auth_group"@, ')');
    lemma_space(t, 55, all.take(10));
    assert(all.take(11) == all.take(10).push(all[10]));
    lemma_word_and_space(t, 56, all.take(10), "VALUES"@);
    assert(all.take(12) == all.take(11).push(all[11]));
    lemma_mark(t, 63, all.take(11), '(');
    lemma_space(t, 64, all.take(12));
    assert(all.take(13) == all.take(12).push(all[12]));
    lemma_string(t, 65, all.take(12), ADMIN@);
    assert(all.take(14) == all.take(13).push(all[13]));
    lemma_mark(t, 72, all.take(13), ',');
    lemma_space(t, 73, all.take(14));
    assert(all.take(15) == all.take(14).push(all[14]));
    lemma_string(t, 74, all.take(14), ADMIN@);
    assert(all.take(16) == all.take(15).push(all[15]));
    lemma_mark(t, 81, all.take(15), ',');
    lemma_space(t, 82, all.take(16));
    assert(all.take(17) == all.take(16).push(all[16]));
    lemma_string(t, 83, all.take(16), ADMIN@);
    assert(all.take(18) == all.take(17).push(all[17]));
    lemma_mark(t, 90, all.take(17), ')');
    assert(t.take(91) =~= t);
    assert(all.take(18) =~= all);
}

proof fn lemma_marks()
    ensures
        "("@ == seq!['('],
        ")"@ == seq![')'],
        ","@ == seq![','],
{
    reveal_strlit("(");
    reveal_strlit(")");
    reveal_strlit(",");
    assert("("@ =~= seq!['(']);
    assert(")"@ =~= seq![')']);
    assert(","@ =~= seq![',']);
}

proof fn lemma_insert_parses()
    ensures
        parser::parse_clauses(insert_tokens(), 0) == Ok::<Seq<ASTNodeView>, Text>(
            seq![
                ASTNodeView::Insert {
                    table: IdentifierView::Name(USERS_TABLE@),
                    values: parser::values_of(seq![ADMIN@, ADMIN@, ADMIN@]),
                    columns: parser::names_of(
                        seq!["username"@, "password_hash"@, "auth_group"@],
                    ),
                },
            ],
        ),
{
    let t = insert_tokens();
    lemma_words();
    lemma_marks();
    reveal_strlit("INSERT");
    reveal_strlit("SELECT");
    reveal_strlit("WHERE");
    reveal_strlit("CREATE");
    assert("INSERT"@[0] == 'I' && "SELECT"@[0] == 'S' && "CREATE"@[0] == 'C');
    assert("INSERT"@ != "SELECT"@ && "INSERT"@ != "WHERE"@ && "INSERT"@ != "CREATE"@);
    reveal_with_fuel(parser::list_items, 4);
    reveal_with_fuel(parser::parse_clauses, 2);
    assert(in_word("username"@[0]) && in_word("password_hash"@[0]) && in_word("auth_group"@[0])
        && in_word(ADMIN@[0]));
    assert(parser::list_items(t, 4).1 == 9);
    assert(parser::list_items(t, 4).0 =~= seq!["username"@, "password_hash"@, "auth_group"@]);
    assert(parser::list_items(t, 12).1 == 17);
    assert(parser::list_items(t, 12).0 =~= seq![ADMIN@, ADMIN@, ADMIN@]);
    let (node, next) = parser::parse_insert(t, 0)->Ok_0;
    assert(next == 18);
    assert(parser::parse_clauses(t, 18) == Ok::<Seq<ASTNodeView>, Text>(Seq::empty()));
    assert(seq![node] + Seq::<ASTNodeView>::empty() =~= seq![node]);
}

/// The query that adds the first user parses, and is the insertion of one row
/// into the table of users whose name, password and group are all those of the
/// administrator.
pub proof fn law_first_user_is_administrator()
    ensures
        auth::insert_step() matches SetupView::Insert(nodes) && executer::plan_of(nodes)
            == (PlanView::Insert {
            table: USERS_TABLE@,
            values: seq![ADMIN@, ADMIN@, ADMIN@],
            columns: Some(seq!["username"@, "password_hash"@, "auth_group"@]),
        }),
{
    let t = auth::admin_insert_text();
    vstd::utf8::encode_utf8_valid_utf8(t);
    vstd::utf8::encode_utf8_decode_utf8(t);
    lemma_insert_tokens();
    lemma_insert_parses();
    let values = parser::values_of(seq![ADMIN@, ADMIN@, ADMIN@]);
    let columns = parser::names_of(seq!["username"@, "password_hash"@, "auth_group"@]);
    lemma_words();
    assert(in_word(ADMIN@[0]));
    reveal_with_fuel(executer::literal_texts, 4);
    reveal_with_fuel(executer::name_texts, 4);
    assert(executer::literal_texts(values) =~= seq![ADMIN@, ADMIN@, ADMIN@]);
    assert(executer::name_texts(columns) =~= seq![
        "username"@,
        "password_hash"@,
        "auth_group"@,
    ]);
}

} // verus!
