//! The parser of the query language: text to tokens, tokens to syntax tree.

use crate::numbers;
use crate::numbers::{is_float_literal, parse_i64, parse_u64};
use crate::outside;
use crate::outside::{parse_datetime, utf8_to_string, uuid_parses};
use crate::schema::schema::DataType;
use crate::string_map::Same;
use crate::text;
use crate::text::{
    char_is_space, chars_of, concat2, concat3, replace_all, str_eq, string_of, trim_matches, Strip,
    Text,
};
use vstd::prelude::*;
use vstd::string::*;

verus! {

broadcast use vstd::string::group_string_axioms;

// ---------------------------------------------------------------------------
// Syntax trees
// ---------------------------------------------------------------------------

/// A name, a literal, or the star of a `SELECT`.
#[derive(PartialEq, Eq, Debug, Hash)]
pub enum Identifier {
    /// A column name, a table name, and the like.
    Name(String),
    /// A literal such as a number or a string, with its data type where known.
    Literal(String, Option<DataType>),
    /// The `*` of a `SELECT` statement.
    Star,
}

/// A condition on a row.
#[derive(PartialEq, Eq, Debug, Hash)]
pub enum Expression {
    Comparison { left: Identifier, operator: String, right: Identifier },
}

/// One clause of a statement.
#[allow(inconsistent_fields)]
#[derive(PartialEq, Eq, Debug)]
pub enum ASTNode {
    Select {
        /// Columns in the `SELECT` clause.
        columns: Vec<Identifier>,
        /// Table in the `FROM` clause.
        table: Identifier,
        /// Timestamp after `AT`.
        timestamp: Option<String>,
        /// Number after `LIMIT`.
        limit: Option<u64>,
    },
    Where { condition: Expression },
    Insert { table: Identifier, values: Vec<Identifier>, columns: Vec<Identifier> },
    Update { table: Identifier, values: Vec<(Identifier, Identifier)> },
    Delete { table: Identifier },
    Create { table: Identifier, columns: Vec<(Identifier, Identifier, Vec<String>)> },
    Drop { table: Identifier },
}

/// The clauses of a query.
#[derive(Debug)]
pub struct ASTNodes(pub Vec<ASTNode>);

/// An [`Identifier`] as a mathematical value.
pub enum IdentifierView {
    Name(Text),
    Literal(Text, Option<DataType>),
    Star,
}

/// An [`Expression`] as a mathematical value.
pub enum ExpressionView {
    Comparison { left: IdentifierView, operator: Text, right: IdentifierView },
}

/// An [`ASTNode`] as a mathematical value.
#[allow(inconsistent_fields)]
pub enum ASTNodeView {
    Select {
        columns: Seq<IdentifierView>,
        table: IdentifierView,
        timestamp: Option<Text>,
        limit: Option<u64>,
    },
    Where { condition: ExpressionView },
    Insert { table: IdentifierView, values: Seq<IdentifierView>, columns: Seq<IdentifierView> },
    Update { table: IdentifierView, values: Seq<(IdentifierView, IdentifierView)> },
    Delete { table: IdentifierView },
    Create { table: IdentifierView, columns: Seq<(IdentifierView, IdentifierView, Seq<Text>)> },
    Drop { table: IdentifierView },
}

impl DeepView for Identifier {
    type V = IdentifierView;

    open spec fn deep_view(&self) -> IdentifierView {
        match self {
            Identifier::Name(n) => IdentifierView::Name(n@),
            Identifier::Literal(v, t) => IdentifierView::Literal(v@, *t),
            Identifier::Star => IdentifierView::Star,
        }
    }
}

impl DeepView for Expression {
    type V = ExpressionView;

    open spec fn deep_view(&self) -> ExpressionView {
        match self {
            Expression::Comparison { left, operator, right } => ExpressionView::Comparison {
                left: left.deep_view(),
                operator: operator@,
                right: right.deep_view(),
            },
        }
    }
}

impl DeepView for ASTNode {
    type V = ASTNodeView;

    open spec fn deep_view(&self) -> ASTNodeView {
        match self {
            ASTNode::Select { columns, table, timestamp, limit } => ASTNodeView::Select {
                columns: columns.deep_view(),
                table: table.deep_view(),
                timestamp: timestamp.deep_view(),
                limit: *limit,
            },
            ASTNode::Where { condition } => ASTNodeView::Where { condition: condition.deep_view() },
            ASTNode::Insert { table, values, columns } => ASTNodeView::Insert {
                table: table.deep_view(),
                values: values.deep_view(),
                columns: columns.deep_view(),
            },
            ASTNode::Update { table, values } => ASTNodeView::Update {
                table: table.deep_view(),
                values: values.deep_view(),
            },
            ASTNode::Delete { table } => ASTNodeView::Delete { table: table.deep_view() },
            ASTNode::Create { table, columns } => ASTNodeView::Create {
                table: table.deep_view(),
                columns: columns.deep_view(),
            },
            ASTNode::Drop { table } => ASTNodeView::Drop { table: table.deep_view() },
        }
    }
}

impl Clone for Identifier {
    fn clone(&self) -> (r: Self)
        ensures
            r.deep_view() == self.deep_view(),
    {
        match self {
            Identifier::Name(n) => Identifier::Name(n.clone()),
            Identifier::Literal(v, t) => Identifier::Literal(v.clone(), *t),
            Identifier::Star => Identifier::Star,
        }
    }
}

impl Clone for Expression {
    fn clone(&self) -> (r: Self)
        ensures
            r.deep_view() == self.deep_view(),
    {
        match self {
            Expression::Comparison { left, operator, right } => Expression::Comparison {
                left: left.clone(),
                operator: operator.clone(),
                right: right.clone(),
            },
        }
    }
}

impl Same for Identifier {
    fn same(&self, other: &Self) -> (r: bool) {
        match (self, other) {
            (Identifier::Name(a), Identifier::Name(b)) => a.same(b),
            (Identifier::Literal(a, s), Identifier::Literal(b, t)) => a.same(b) && match (s, t) {
                (Some(x), Some(y)) => *x == *y,
                (None, None) => true,
                _ => false,
            },
            (Identifier::Star, Identifier::Star) => true,
            _ => false,
        }
    }
}

impl Same for Expression {
    fn same(&self, other: &Self) -> (r: bool) {
        let Expression::Comparison { left: l1, operator: o1, right: r1 } = self;
        let Expression::Comparison { left: l2, operator: o2, right: r2 } = other;
        l1.same(l2) && o1.same(o2) && r1.same(r2)
    }
}

// ---------------------------------------------------------------------------
// Literals
// ---------------------------------------------------------------------------

/// Whether `s` is an integer or floating-point literal.
pub fn is_numeric_literal(s: &str) -> (r: bool)
    ensures
        r == numbers::is_number_text(s@),
{
    parse_i64(s).is_some() || is_float_literal(s)
}

/// Whether `s` is a date and time, with a space or a `T` between the two.
pub open spec fn is_datetime_text(s: Text) -> bool {
    ||| outside::datetime_of(s, "%Y-%m-%d %H:%M:%S"@) is Some
    ||| outside::datetime_of(s, "%Y-%m-%dT%H:%M:%S"@) is Some
}

/// Whether `s` is a date and time, with a space or a `T` between the two.
pub fn is_datetime(s: &str) -> (r: bool)
    ensures
        r == is_datetime_text(s@),
{
    if parse_datetime(s, "%Y-%m-%d %H:%M:%S").is_some() {
        return true;
    }
    parse_datetime(s, "%Y-%m-%dT%H:%M:%S").is_some()
}

/// Whether `s` is a UUID.
pub fn is_uuid(s: &str) -> (r: bool)
    ensures
        r == outside::is_uuid_text(s@),
{
    uuid_parses(s)
}

/// Whether any character is alphabetic.
pub open spec fn has_letter(s: Text) -> bool {
    exists|i: int| 0 <= i < s.len() && outside::alphabetic(#[trigger] s[i])
}

fn contains_letter(s: &str) -> (r: bool)
    ensures
        r == has_letter(s@),
{
    let cs = chars_of(s);
    let mut i: usize = 0;
    while i < cs.len()
        invariant
            i <= cs@.len(),
            cs@ == s@,
            forall|k: int| 0 <= k < i ==> !outside::alphabetic(#[trigger] s@[k]),
        decreases cs@.len() - i,
    {
        if cs[i].is_alphabetic() {
            assert(outside::alphabetic(s@[i as int]));
            return true;
        }
        i = i + 1;
    }
    false
}

/// The data type of a value token that is not in quotes.
pub open spec fn token_type(s: Text) -> Option<DataType> {
    if numbers::is_number_text(s) {
        Some(DataType::Int)
    } else if outside::is_uuid_text(s) {
        Some(DataType::UUID)
    } else if is_datetime_text(s) {
        Some(DataType::DateTime)
    } else if has_letter(s) {
        Some(DataType::String)
    } else {
        None
    }
}

/// The literal that a value token stands for.
pub open spec fn token_identifier(s: Text) -> IdentifierView {
    if s.len() > 0 && s[0] == '"' && s.last() == '"' {
        IdentifierView::Literal(s.subrange(1, s.len() - 1), Some(DataType::String))
    } else {
        IdentifierView::Literal(s, token_type(s))
    }
}

/// The literal that a value token stands for. A lone double quote is no token.
pub fn match_token_to_identifier(value_token: &String) -> (r: Identifier)
    requires
        value_token@ != seq!['"'],
    ensures
        r.deep_view() == token_identifier(value_token@),
{
    let cs = chars_of(value_token.as_str());
    if cs.len() > 0 && cs[0] == '"' && cs[cs.len() - 1] == '"' {
        assert(cs.len() > 1) by {
            if cs.len() == 1 {
                assert(value_token@ =~= seq!['"']);
            }
        }
        Identifier::Literal(string_of(&cs, 1, cs.len() - 1), Some(DataType::String))
    } else if is_numeric_literal(value_token.as_str()) {
        Identifier::Literal(value_token.clone(), Some(DataType::Int))
    } else if is_uuid(value_token.as_str()) {
        Identifier::Literal(value_token.clone(), Some(DataType::UUID))
    } else if is_datetime(value_token.as_str()) {
        Identifier::Literal(value_token.clone(), Some(DataType::DateTime))
    } else if contains_letter(value_token.as_str()) {
        Identifier::Literal(value_token.clone(), Some(DataType::String))
    } else {
        Identifier::Literal(value_token.clone(), None)
    }
}

// ---------------------------------------------------------------------------
// Tokens
// ---------------------------------------------------------------------------

/// How far the tokenizer has come.
#[verifier::ext_equal]
pub struct TokenState {
    /// The complete tokens.
    pub tokens: Seq<Text>,
    /// The token that is being read.
    pub current: Text,
    /// Whether the last quote was an opening one.
    pub in_string: bool,
    /// Whether the end of the statement was met.
    pub done: bool,
}

/// The complete tokens, with the current one among them where it is not empty.
pub open spec fn flushed(st: TokenState, token: Text) -> Seq<Text> {
    if st.current.len() > 0 {
        st.tokens.push(token)
    } else {
        st.tokens
    }
}

/// What one more character does to the tokenizer.
///
/// A double quote begins or ends a string, in which every character counts.
/// Outside a string white space separates tokens, a comma and a parenthesis
/// are tokens of their own, and a semicolon ends the statement.
pub open spec fn token_step(st: TokenState, c: char) -> TokenState {
    if st.done {
        st
    } else if c == '"' {
        TokenState {
            tokens: flushed(st, st.current),
            current: Seq::empty(),
            in_string: !st.in_string,
            done: false,
        }
    } else if st.in_string {
        TokenState { current: st.current.push(c), ..st }
    } else if c == ',' || c == '(' || c == ')' {
        TokenState {
            tokens: flushed(st, text::trimmed(st.current, Strip::Space)).push(seq![c]),
            current: Seq::empty(),
            ..st
        }
    } else if text::is_space(c) {
        TokenState {
            tokens: flushed(st, text::trimmed(st.current, Strip::Space)),
            current: Seq::empty(),
            ..st
        }
    } else if c == ';' {
        TokenState { done: true, ..st }
    } else {
        TokenState { current: st.current.push(c), ..st }
    }
}

/// How far the tokenizer is after `s`.
pub open spec fn token_run(s: Text) -> TokenState
    decreases s.len(),
{
    if s.len() == 0 {
        TokenState {
            tokens: Seq::empty(),
            current: Seq::empty(),
            in_string: false,
            done: false,
        }
    } else {
        token_step(token_run(s.drop_last()), s.last())
    }
}

/// The tokens of a query.
pub open spec fn tokens_of(s: Text) -> Seq<Text> {
    let st = token_run(s);
    flushed(st, text::trimmed(st.current, Strip::Space))
}

proof fn lemma_done_stays(s: Text, i: int)
    requires
        0 <= i <= s.len(),
        token_run(s.take(i)).done,
    ensures
        token_run(s) == token_run(s.take(i)),
    decreases s.len(),
{
    if i < s.len() {
        assert(s.drop_last().take(i) =~= s.take(i));
        lemma_done_stays(s.drop_last(), i);
    } else {
        assert(s.take(i) =~= s);
    }
}

/// A semicolon outside a string ends a query: whatever comes after it, the
/// tokens are the same.
pub proof fn law_semicolon_ends_query(s: Text, rest: Text)
    requires
        !token_run(s).in_string,
    ensures
        tokens_of(s + seq![';'] + rest) == tokens_of(s),
{
    let ended = s + seq![';'];
    let whole = ended + rest;
    assert(ended.drop_last() =~= s);
    assert(whole.take(ended.len() as int) =~= ended);
    if token_run(s).done {
        assert(whole.take(s.len() as int) =~= s);
        lemma_done_stays(whole, s.len() as int);
    } else {
        lemma_done_stays(whole, ended.len() as int);
    }
}

/// The tokens of a query.
pub fn tokenize_query(query_str: &str) -> (r: Result<Vec<String>, String>)
    ensures
        r is Ok,
        r->Ok_0.deep_view() == tokens_of(query_str@),
{
    let cs = chars_of(query_str);
    let ghost s = query_str@;
    let mut tokens: Vec<String> = Vec::new();
    let mut in_string = false;
    let mut current = String::new();
    let mut done = false;
    let mut i: usize = 0;
    assert(s.take(0) =~= Seq::<char>::empty());
    assert(tokens.deep_view() =~= Seq::<Text>::empty());
    while i < cs.len() && !done
        invariant
            i <= cs@.len(),
            cs@ == s,
            token_run(s.take(i as int)) == (TokenState {
                tokens: tokens.deep_view(),
                current: current@,
                in_string,
                done,
            }),
        decreases cs@.len() - i,
    {
        let c = cs[i];
        let ghost st = token_run(s.take(i as int));
        assert(s.take(i as int + 1).drop_last() =~= s.take(i as int));
        assert(s.take(i as int + 1).last() == c);
        if c == '"' {
            in_string = !in_string;
            if !current.as_str().is_empty() {
                tokens.push(current);
                assert(tokens.deep_view() =~= st.tokens.push(st.current));
            }
            current = String::new();
        } else if in_string {
            current.push(c);
        } else if c == ',' || c == '(' || c == ')' || char_is_space(c) {
            if !current.as_str().is_empty() {
                tokens.push(trim_matches(current.as_str(), Strip::Space));
                assert(tokens.deep_view() =~= st.tokens.push(text::trimmed(st.current, Strip::Space)));
            }
            current = String::new();
            if c == ',' || c == '(' || c == ')' {
                let mut t = String::new();
                t.push(c);
                assert(t@ =~= seq![c]);
                let ghost before = tokens.deep_view();
                tokens.push(t);
                assert(tokens.deep_view() =~= before.push(seq![c]));
            }
        } else if c == ';' {
            done = true;
        } else {
            current.push(c);
        }
        i = i + 1;
    }
    proof {
        if done {
            lemma_done_stays(s, i as int);
        } else {
            assert(s.take(i as int) =~= s);
        }
    }
    if !current.as_str().is_empty() {
        let ghost before = tokens.deep_view();
        tokens.push(trim_matches(current.as_str(), Strip::Space));
        assert(tokens.deep_view() =~= before.push(text::trimmed(current@, Strip::Space)));
    }
    Ok(tokens)
}

/// No token holds a double quote: quotes only mark where strings begin and end.
pub proof fn law_tokens_hold_no_quote(s: Text)
    ensures
        forall|i: int| 0 <= i < tokens_of(s).len() ==> !(#[trigger] tokens_of(s)[i]).contains('"'),
{
    let st = token_run(s);
    lemma_run_holds_no_quote(s);
    lemma_trimmed_holds_no_quote(st.current);
    assert forall|i: int| 0 <= i < tokens_of(s).len() implies !(#[trigger] tokens_of(s)[i]).contains(
        '"',
    ) by {
        if i < st.tokens.len() {
            assert(tokens_of(s)[i] == st.tokens[i]);
        }
    }
}

proof fn lemma_run_holds_no_quote(s: Text)
    ensures
        !token_run(s).current.contains('"'),
        forall|i: int|
            0 <= i < token_run(s).tokens.len() ==> !(#[trigger] token_run(s).tokens[i]).contains('"'),
    decreases s.len(),
{
    if s.len() > 0 {
        let st = token_run(s.drop_last());
        let c = s.last();
        lemma_run_holds_no_quote(s.drop_last());
        lemma_trimmed_holds_no_quote(st.current);
        let next = token_step(st, c);
        if c != '"' {
            assert(!st.current.push(c).contains('"')) by {
                if st.current.push(c).contains('"') {
                    let k = choose|k: int|
                        0 <= k < st.current.push(c).len() && st.current.push(c)[k] == '"';
                    if k < st.current.len() {
                        assert(st.current[k] == '"');
                    }
                }
            }
            assert(!seq![c].contains('"')) by {
                if seq![c].contains('"') {
                    let k = choose|k: int| 0 <= k < 1 && seq![c][k] == '"';
                    assert(seq![c][k] == c);
                }
            }
        }
        assert forall|i: int| 0 <= i < next.tokens.len() implies !(
        #[trigger] next.tokens[i]).contains('"') by {
            if i < st.tokens.len() {
                assert(next.tokens[i] == st.tokens[i]);
            }
        }
    }
}

proof fn lemma_trimmed_holds_no_quote(s: Text)
    requires
        !s.contains('"'),
    ensures
        !text::trimmed(s, Strip::Space).contains('"'),
{
    let t = text::trimmed(s, Strip::Space);
    text::lemma_trimmed_part(s, Strip::Space);
    if t.contains('"') {
        let k = choose|k: int| 0 <= k < t.len() && t[k] == '"';
        let (a, b) = choose|a: int, b: int|
            0 <= a <= b <= s.len() && t == #[trigger] s.subrange(a, b);
        assert(s[a + k] == '"');
    }
}

/// Whether `c` is a token of its own outside a string.
pub open spec fn stands_alone(c: char) -> bool {
    c == ',' || c == '(' || c == ')'
}

/// Whether `t` is a token that is read as it stands: it is not empty, it holds
/// no white space, double quote or semicolon, and a comma or a parenthesis only
/// where that is all it holds.
pub open spec fn is_plain_token(t: Text) -> bool {
    &&& t.len() > 0
    &&& forall|k: int|
        0 <= k < t.len() ==> !text::is_space(#[trigger] t[k]) && t[k] != '"' && t[k] != ';' && (
        stands_alone(t[k]) ==> t.len() == 1)
}

/// Whether every character of `t` is one that makes up a word outside a string.
pub open spec fn is_word(t: Text) -> bool {
    forall|k: int|
        0 <= k < t.len() ==> !text::is_space(#[trigger] t[k]) && t[k] != '"' && t[k] != ';'
            && !stands_alone(t[k])
}

pub proof fn lemma_word_is_trimmed(t: Text)
    requires
        is_word(t),
    ensures
        text::trimmed(t, Strip::Space) == t,
{
    if t.len() > 0 {
        assert(!text::is_space(t[0]) && !text::is_space(t[t.len() - 1]));
    }
    text::lemma_trimmed_unchanged(t, Strip::Space);
}

/// What the tokenizer has read of a text without double quotes.
pub proof fn lemma_run_is_plain(s: Text)
    requires
        !s.contains('"'),
    ensures
        !token_run(s).in_string,
        is_word(token_run(s).current),
        forall|i: int|
            0 <= i < token_run(s).tokens.len() ==> is_plain_token(#[trigger] token_run(s).tokens[i]),
    decreases s.len(),
{
    if s.len() > 0 {
        let st = token_run(s.drop_last());
        let c = s.last();
        assert(!s.drop_last().contains('"')) by {
            if s.drop_last().contains('"') {
                let k = choose|k: int| 0 <= k < s.len() - 1 && s.drop_last()[k] == '"';
                assert(s[k] == '"');
            }
        }
        assert(c != '"') by {
            assert(s[s.len() - 1] == c);
        }
        lemma_run_is_plain(s.drop_last());
        lemma_word_is_trimmed(st.current);
        let next = token_step(st, c);
        if stands_alone(c) {
            assert(!text::is_space(c)) by {
                assert(',' as int == 0x2c && '(' as int == 0x28 && ')' as int == 0x29);
            }
            assert(is_plain_token(seq![c]));
        }
        assert forall|i: int| 0 <= i < next.tokens.len() implies is_plain_token(
            #[trigger] next.tokens[i],
        ) by {
            if i < st.tokens.len() {
                assert(next.tokens[i] == st.tokens[i]);
            }
        }
    }
}

/// A word after `s` is added to the token that is being read.
pub proof fn lemma_word_is_read(s: Text, t: Text)
    requires
        is_word(t),
        !token_run(s).in_string,
        !token_run(s).done,
    ensures
        token_run(s + t) == (TokenState { current: token_run(s).current + t, ..token_run(s) }),
    decreases t.len(),
{
    let st = token_run(s);
    if t.len() == 0 {
        assert(s + t =~= s);
        assert(st.current + t =~= st.current);
    } else {
        let d = t.drop_last();
        assert(forall|k: int| 0 <= k < d.len() ==> d[k] == t[k]);
        assert(is_word(d));
        lemma_word_is_read(s, d);
        assert((s + t).drop_last() =~= s + d);
        assert((s + t).last() == t.last());
        assert(t[t.len() - 1] == t.last());
        assert((st.current + d).push(t.last()) =~= st.current + t);
    }
}

/// Plain tokens with a space between each two neighbours are read as they stand.
proof fn lemma_joined_run(ts: Seq<Text>)
    requires
        forall|i: int| 0 <= i < ts.len() ==> is_plain_token(#[trigger] ts[i]),
    ensures
        ({
            let st = token_run(text::join(ts, seq![' ']));
            !st.in_string && !st.done && is_word(st.current) && flushed(st, st.current) == ts
        }),
    decreases ts.len(),
{
    if ts.len() > 0 {
        let t = ts.last();
        assert(is_plain_token(ts[ts.len() - 1]));
        let d = ts.drop_last();
        assert(forall|i: int| 0 <= i < d.len() ==> d[i] == ts[i]);
        lemma_joined_run(d);
        let front = if ts.len() == 1 {
            Seq::empty()
        } else {
            text::join(d, seq![' ']) + seq![' ']
        };
        let whole = text::join(ts, seq![' ']);
        assert(whole =~= front + t);
        assert(token_run(front) == (TokenState {
            tokens: d,
            current: Seq::empty(),
            in_string: false,
            done: false,
        })) by {
            if ts.len() == 1 {
                assert(d =~= Seq::empty());
            } else {
                assert(front.drop_last() =~= text::join(d, seq![' ']));
                assert(front.last() == ' ');
                assert(text::is_space(' '));
                lemma_word_is_trimmed(token_run(text::join(d, seq![' '])).current);
            }
        }
        assert(d.push(t) =~= ts);
        if stands_alone(t[0]) {
            assert(t =~= seq![t[0]]);
            assert(whole.drop_last() =~= front);
            assert(whole.last() == t[0]);
        } else {
            assert forall|k: int| 0 <= k < t.len() implies !stands_alone(#[trigger] t[k]) by {
                assert(stands_alone(t[k]) ==> t.len() == 1);
            }
            assert(is_word(t));
            lemma_word_is_read(front, t);
            assert(Seq::<char>::empty() + t =~= t);
        }
    }
}

/// The tokens of a query without strings are plain, and they read back: joined
/// with a space between each two neighbours, they are the tokens of what was
/// joined.
pub proof fn law_tokens_read_back(s: Text)
    requires
        !s.contains('"'),
    ensures
        forall|i: int| 0 <= i < tokens_of(s).len() ==> is_plain_token(#[trigger] tokens_of(s)[i]),
        tokens_of(text::join(tokens_of(s), " "@)) == tokens_of(s),
{
    let st = token_run(s);
    let ts = tokens_of(s);
    lemma_run_is_plain(s);
    lemma_word_is_trimmed(st.current);
    assert forall|i: int| 0 <= i < ts.len() implies is_plain_token(#[trigger] ts[i]) by {
        if i < st.tokens.len() {
            assert(ts[i] == st.tokens[i]);
        }
    }
    reveal_strlit(" ");
    assert(" "@ =~= seq![' ']);
    lemma_joined_run(ts);
    lemma_word_is_trimmed(token_run(text::join(ts, seq![' '])).current);
}

// ---------------------------------------------------------------------------
// Clauses
// ---------------------------------------------------------------------------

/// Whether the token at `i` is `word`.
pub open spec fn is_at(t: Seq<Text>, i: int, word: Text) -> bool {
    0 <= i < t.len() && t[i] == word
}

fn token_is(tokens: &Vec<String>, i: usize, word: &str) -> (r: bool)
    ensures
        r == is_at(tokens.deep_view(), i as int, word@),
{
    i < tokens.len() && str_eq(tokens[i].as_str(), word)
}

/// The column list of a `SELECT` from `i` up to `FROM`, in which commas are
/// skipped, and the position after it.
pub open spec fn select_columns(t: Seq<Text>, i: int) -> (Seq<IdentifierView>, int)
    decreases t.len() - i,
{
    if i < 0 || i >= t.len() || t[i] == "FROM"@ {
        (Seq::empty(), i)
    } else {
        let (rest, end) = select_columns(t, i + 1);
        if t[i] == "*"@ {
            (seq![IdentifierView::Star] + rest, end)
        } else if t[i] == ","@ {
            (rest, end)
        } else {
            (seq![IdentifierView::Name(t[i])] + rest, end)
        }
    }
}

/// The optional `AT <timestamp>` at `i`, and the position after it. In the
/// timestamp `%20` and `T` stand for a space.
pub open spec fn select_timestamp(t: Seq<Text>, i: int) -> Result<(Option<Text>, int), Text> {
    if is_at(t, i, "AT"@) {
        if i + 1 < t.len() {
            Ok(
                (
                    Some(text::replaced(text::replaced(t[i + 1], "%20"@, " "@), "T"@, " "@)),
                    i + 2,
                ),
            )
        } else {
            Err("Expected timestamp after 'AT'"@)
        }
    } else {
        Ok((None, i))
    }
}

/// The optional `LIMIT <number>` at `i`, and the position after it.
pub open spec fn select_limit(t: Seq<Text>, i: int) -> Result<(Option<u64>, int), Text> {
    if 0 <= i < t.len() && outside::uppercase(t[i]) == "LIMIT"@ {
        if i + 1 < t.len() {
            match numbers::u64_text(t[i + 1]) {
                Some(n) => Ok((Some(n), i + 2)),
                None => Err(
                    "Expected a non-negative integer after 'LIMIT', found: "@ + t[i + 1],
                ),
            }
        } else {
            Err("Expected number after 'LIMIT'"@)
        }
    } else {
        Ok((None, i))
    }
}

/// The `SELECT` clause that begins at `i`, and the position after it.
pub open spec fn parse_select(t: Seq<Text>, i: int) -> Result<(ASTNodeView, int), Text> {
    let (columns, from) = select_columns(t, i + 1);
    if !is_at(t, from, "FROM"@) {
        Err("Missing 'FROM' clause in SELECT statement"@)
    } else if from + 1 >= t.len() {
        Err("Expected table name after 'FROM'"@)
    } else {
        match select_timestamp(t, from + 2) {
            Err(e) => Err(e),
            Ok((timestamp, j)) => match select_limit(t, j) {
                Err(e) => Err(e),
                Ok((limit, end)) => Ok(
                    (
                        ASTNodeView::Select {
                            columns,
                            table: IdentifierView::Name(t[from + 1]),
                            timestamp,
                            limit,
                        },
                        end,
                    ),
                ),
            },
        }
    }
}

proof fn lemma_select_columns_advance(t: Seq<Text>, i: int)
    requires
        0 <= i,
    ensures
        i <= select_columns(t, i).1,
        i <= t.len() ==> select_columns(t, i).1 <= t.len(),
    decreases t.len() - i,
{
    if i < t.len() && t[i] != "FROM"@ {
        lemma_select_columns_advance(t, i + 1);
    }
}

/// The `SELECT` clause that begins at `start`, and the position after it.
pub fn parse_select_clause(tokens: &Vec<String>, start: usize) -> (r: Result<
    (ASTNode, usize),
    String,
>)
    requires
        start < tokens@.len(),
    ensures
        match r {
            Ok((n, end)) => parse_select(tokens.deep_view(), start as int) == Ok::<_, Text>(
                (n.deep_view(), end as int),
            ),
            Err(e) => parse_select(tokens.deep_view(), start as int) == Err::<(ASTNodeView, int), _>(
                e@,
            ),
        },
{
    let ghost t = tokens.deep_view();
    let ghost spec_columns = select_columns(t, start + 1);
    let n: usize = tokens.len();
    let mut columns: Vec<Identifier> = Vec::new();
    let mut i: usize = start + 1;
    assert(columns.deep_view() + spec_columns.0 =~= spec_columns.0);
    while i < tokens.len() && !str_eq(tokens[i].as_str(), "FROM")
        invariant
            i <= tokens@.len(),
            t == tokens.deep_view(),
            spec_columns.1 == select_columns(t, i as int).1,
            spec_columns.0 == columns.deep_view() + select_columns(t, i as int).0,
        decreases tokens@.len() - i,
    {
        let ghost before = columns.deep_view();
        let ghost rest = select_columns(t, i + 1).0;
        if str_eq(tokens[i].as_str(), "*") {
            columns.push(Identifier::Star);
            assert(columns.deep_view() =~= before.push(IdentifierView::Star));
            assert(before.push(IdentifierView::Star) + rest =~= before + (seq![IdentifierView::Star]
                + rest));
        } else if str_eq(tokens[i].as_str(), ",") {
        } else {
            columns.push(Identifier::Name(tokens[i].clone()));
            let ghost name = IdentifierView::Name(t[i as int]);
            assert(columns.deep_view() =~= before.push(name));
            assert(before.push(name) + rest =~= before + (seq![name] + rest));
        }
        i = i + 1;
    }
    assert(columns.deep_view() + Seq::<IdentifierView>::empty() =~= columns.deep_view());
    if i >= tokens.len() {
        return Err("Missing 'FROM' clause in SELECT statement".to_owned());
    }
    if n - i <= 1 {
        return Err("Expected table name after 'FROM'".to_owned());
    }
    let table = Identifier::Name(tokens[i + 1].clone());
    let mut j: usize = i + 2;
    let mut timestamp: Option<String> = None;
    if token_is(tokens, j, "AT") {
        if n - j <= 1 {
            return Err("Expected timestamp after 'AT'".to_owned());
        }
        proof {
            reveal_strlit("%20");
            reveal_strlit("T");
        }
        let spaced = replace_all(tokens[j + 1].as_str(), "%20", " ");
        timestamp = Some(replace_all(spaced.as_str(), "T", " "));
        j = j + 2;
    }
    let mut limit: Option<u64> = None;
    if j < tokens.len() {
        let upper = tokens[j].as_str().to_uppercase();
        if str_eq(upper.as_str(), "LIMIT") {
            if n - j <= 1 {
                return Err("Expected number after 'LIMIT'".to_owned());
            }
            match parse_u64(tokens[j + 1].as_str()) {
                Some(n) => {
                    limit = Some(n);
                    j = j + 2;
                },
                None => {
                    return Err(
                        concat2(
                            "Expected a non-negative integer after 'LIMIT', found: ",
                            tokens[j + 1].as_str(),
                        ),
                    );
                },
            }
        }
    }
    Ok((ASTNode::Select { columns, table, timestamp, limit }, j))
}

/// The `WHERE` clause that begins at `i`, and the position after it.
pub open spec fn parse_where(t: Seq<Text>, i: int) -> Result<(ASTNodeView, int), Text> {
    if i + 3 >= t.len() {
        Err("Invalid WHERE clause"@)
    } else {
        Ok(
            (
                ASTNodeView::Where {
                    condition: ExpressionView::Comparison {
                        left: IdentifierView::Name(t[i + 1]),
                        operator: t[i + 2],
                        right: IdentifierView::Literal(
                            t[i + 3],
                            if outside::is_uuid_text(t[i + 3]) {
                                Some(DataType::UUID)
                            } else {
                                None
                            },
                        ),
                    },
                },
                i + 4,
            ),
        )
    }
}

/// The `WHERE` clause that begins at `start`, and the position after it.
pub fn parse_where_clause(tokens: &Vec<String>, start: usize) -> (r: Result<
    (ASTNode, usize),
    String,
>)
    requires
        start < tokens@.len(),
    ensures
        match r {
            Ok((n, end)) => parse_where(tokens.deep_view(), start as int) == Ok::<_, Text>(
                (n.deep_view(), end as int),
            ),
            Err(e) => parse_where(tokens.deep_view(), start as int) == Err::<(ASTNodeView, int), _>(
                e@,
            ),
        },
{
    if tokens.len() - start <= 3 {
        return Err("Invalid WHERE clause".to_owned());
    }
    let left = Identifier::Name(tokens[start + 1].clone());
    let operator = tokens[start + 2].clone();
    let right = if is_uuid(tokens[start + 3].as_str()) {
        Identifier::Literal(tokens[start + 3].clone(), Some(DataType::UUID))
    } else {
        Identifier::Literal(tokens[start + 3].clone(), None)
    };
    Ok(
        (
            ASTNode::Where { condition: Expression::Comparison { left, operator, right } },
            start + 4,
        ),
    )
}

/// The constraints of a column from `i` up to a comma or a closing
/// parenthesis, and the position after them. `CHECK` takes a parenthesised
/// comparison; every other token is a constraint by itself.
pub open spec fn column_constraints(t: Seq<Text>, i: int) -> Result<(Seq<Text>, int), Text>
    decreases t.len() - i,
{
    if i < 0 || i >= t.len() || t[i] == ","@ || t[i] == ")"@ {
        Ok((Seq::empty(), i))
    } else if outside::uppercase(t[i]) == "CHECK"@ && i + 1 < t.len() {
        if t[i + 1] != "("@ {
            Err("Invalid CHECK constraint: Missing '('."@)
        } else if i + 5 >= t.len() {
            Err("Invalid CHECK constraint: Incomplete expression."@)
        } else if t[i + 5] != ")"@ {
            Err("Invalid CHECK constraint: Missing ')'."@)
        } else {
            first_constraint(check_text(t[i + 2], t[i + 3], t[i + 4]), column_constraints(t, i + 6))
        }
    } else {
        first_constraint(t[i], column_constraints(t, i + 1))
    }
}

/// The text of a `CHECK` constraint.
pub open spec fn check_text(left: Text, operator: Text, right: Text) -> Text {
    "CHECK ("@ + left + " "@ + operator + " "@ + right + ")"@
}

/// `c` before the constraints of `rest`.
pub open spec fn first_constraint(c: Text, rest: Result<(Seq<Text>, int), Text>) -> Result<
    (Seq<Text>, int),
    Text,
> {
    all_constraints(seq![c], rest)
}

/// `cs` before the constraints of `rest`.
pub open spec fn all_constraints(cs: Seq<Text>, rest: Result<(Seq<Text>, int), Text>) -> Result<
    (Seq<Text>, int),
    Text,
> {
    match rest {
        Ok((more, end)) => Ok((cs + more, end)),
        Err(e) => Err(e),
    }
}

pub proof fn lemma_constraints_advance(t: Seq<Text>, i: int)
    ensures
        column_constraints(t, i) matches Ok((_, end)) ==> i <= end && (i <= t.len() ==> end
            <= t.len()),
    decreases t.len() - i,
{
    if i < 0 || i >= t.len() || t[i] == ","@ || t[i] == ")"@ {
    } else if outside::uppercase(t[i]) == "CHECK"@ && i + 1 < t.len() {
        if i + 5 < t.len() {
            lemma_constraints_advance(t, i + 6);
        }
    } else {
        lemma_constraints_advance(t, i + 1);
    }
}

/// A column of a table definition: its name, its type, its constraints.
pub type ColumnView = (IdentifierView, IdentifierView, Seq<Text>);

/// The column definitions from `i` up to a closing parenthesis, and the
/// position of that parenthesis.
pub open spec fn create_columns(t: Seq<Text>, i: int) -> Result<(Seq<ColumnView>, int), Text>
    decreases t.len() - i,
{
    if i < 0 || i >= t.len() || t[i] == ")"@ {
        Ok((Seq::empty(), i))
    } else if i + 1 >= t.len() || t[i + 1] == ","@ || t[i + 1] == ")"@ {
        Err("Invalid column definition for '"@ + t[i] + "': Missing data type."@)
    } else {
        match column_constraints(t, i + 2) {
            Err(e) => Err(e),
            Ok((constraints, j)) => {
                let next = if is_at(t, j, ","@) {
                    j + 1
                } else {
                    j
                };
                proof {
                    lemma_constraints_advance(t, i + 2);
                }
                all_columns(
                    seq![(IdentifierView::Name(t[i]), IdentifierView::Name(t[i + 1]), constraints)],
                    create_columns(t, next),
                )
            },
        }
    }
}

/// `cs` before the columns of `rest`.
pub open spec fn all_columns(
    cs: Seq<ColumnView>,
    rest: Result<(Seq<ColumnView>, int), Text>,
) -> Result<(Seq<ColumnView>, int), Text> {
    match rest {
        Ok((more, end)) => Ok((cs + more, end)),
        Err(e) => Err(e),
    }
}

/// The `CREATE` clause that begins at `i`, and the position after it.
pub open spec fn parse_create(t: Seq<Text>, i: int) -> Result<(ASTNodeView, int), Text> {
    if !is_at(t, i + 1, "TABLE"@) {
        Err("Expected 'TABLE' after 'CREATE'."@)
    } else if i + 2 >= t.len() {
        Err("Expected table name after 'CREATE TABLE'."@)
    } else if !is_at(t, i + 3, "("@) {
        Err("Expected '(' after table name."@)
    } else {
        match create_columns(t, i + 4) {
            Err(e) => Err(e),
            Ok((columns, end)) => if is_at(t, end, ")"@) {
                Ok(
                    (
                        ASTNodeView::Create { table: IdentifierView::Name(t[i + 2]), columns },
                        end + 1,
                    ),
                )
            } else {
                Err("Expected ')' after column definitions."@)
            },
        }
    }
}

/// The constraints of the column from `start` on, and the position after them.
fn parse_constraints(tokens: &Vec<String>, start: usize) -> (r: Result<
    (Vec<String>, usize),
    String,
>)
    requires
        start <= tokens@.len(),
    ensures
        match r {
            Ok((cs, end)) => column_constraints(tokens.deep_view(), start as int) == Ok::<_, Text>(
                (cs.deep_view(), end as int),
            ),
            Err(e) => column_constraints(tokens.deep_view(), start as int) == Err::<
                (Seq<Text>, int),
                _,
            >(e@),
        },
{
    let ghost t = tokens.deep_view();
    let n: usize = tokens.len();
    let ghost whole = column_constraints(t, start as int);
    let mut constraints: Vec<String> = Vec::new();
    let mut i: usize = start;
    proof {
        assert(constraints.deep_view() =~= Seq::<Text>::empty());
        lemma_all_constraints_empty(whole);
    }
    while i < n && !str_eq(tokens[i].as_str(), ",") && !str_eq(tokens[i].as_str(), ")")
        invariant
            i <= n == tokens@.len(),
            t == tokens.deep_view(),
            whole == column_constraints(t, start as int),
            whole == all_constraints(constraints.deep_view(), column_constraints(t, i as int)),
        decreases n - i,
    {
        let ghost before = constraints.deep_view();
        let upper = tokens[i].as_str().to_uppercase();
        if str_eq(upper.as_str(), "CHECK") && n - i > 1 {
            if !str_eq(tokens[i + 1].as_str(), "(") {
                return Err("Invalid CHECK constraint: Missing '('.".to_owned());
            }
            if n - i <= 5 {
                return Err("Invalid CHECK constraint: Incomplete expression.".to_owned());
            }
            if !str_eq(tokens[i + 5].as_str(), ")") {
                return Err("Invalid CHECK constraint: Missing ')'.".to_owned());
            }
            let mut check = concat3("CHECK (", tokens[i + 2].as_str(), " ");
            check.append(tokens[i + 3].as_str());
            check.append(" ");
            check.append(tokens[i + 4].as_str());
            check.append(")");
            let ghost c = check@;
            assert(c == check_text(t[i + 2], t[i + 3], t[i + 4]));
            constraints.push(check);
            proof {
                assert(constraints.deep_view() =~= before.push(c));
                lemma_all_constraints_push(before, c, column_constraints(t, i + 6));
            }
            i = i + 6;
        } else {
            let ghost c = t[i as int];
            constraints.push(tokens[i].clone());
            proof {
                assert(constraints.deep_view() =~= before.push(c));
                lemma_all_constraints_push(before, c, column_constraints(t, i + 1));
            }
            i = i + 1;
        }
    }
    assert(constraints.deep_view() + Seq::<Text>::empty() =~= constraints.deep_view());
    Ok((constraints, i))
}

proof fn lemma_all_constraints_empty(rest: Result<(Seq<Text>, int), Text>)
    ensures
        all_constraints(Seq::empty(), rest) == rest,
{
    if let Ok((more, end)) = rest {
        assert(Seq::<Text>::empty() + more =~= more);
    }
}

proof fn lemma_all_constraints_push(
    cs: Seq<Text>,
    c: Text,
    rest: Result<(Seq<Text>, int), Text>,
)
    ensures
        all_constraints(cs.push(c), rest) == all_constraints(cs, first_constraint(c, rest)),
{
    if let Ok((more, end)) = rest {
        assert(cs.push(c) + more =~= cs + (seq![c] + more));
    }
}

proof fn lemma_all_columns_push(
    cs: Seq<ColumnView>,
    c: ColumnView,
    rest: Result<(Seq<ColumnView>, int), Text>,
)
    ensures
        all_columns(cs.push(c), rest) == all_columns(cs, all_columns(seq![c], rest)),
{
    if let Ok((more, end)) = rest {
        assert(cs.push(c) + more =~= cs + (seq![c] + more));
    }
}

/// The `CREATE` clause that begins at `start`, and the position after it.
pub fn parse_create_clause(tokens: &Vec<String>, start: usize) -> (r: Result<
    (ASTNode, usize),
    String,
>)
    requires
        start < tokens@.len(),
    ensures
        match r {
            Ok((n, end)) => parse_create(tokens.deep_view(), start as int) == Ok::<_, Text>(
                (n.deep_view(), end as int),
            ),
            Err(e) => parse_create(tokens.deep_view(), start as int) == Err::<(ASTNodeView, int), _>(
                e@,
            ),
        },
{
    let ghost t = tokens.deep_view();
    let n: usize = tokens.len();
    if !token_is(tokens, start + 1, "TABLE") {
        return Err("Expected 'TABLE' after 'CREATE'.".to_owned());
    }
    if n - start <= 2 {
        return Err("Expected table name after 'CREATE TABLE'.".to_owned());
    }
    let table = Identifier::Name(tokens[start + 2].clone());
    if !token_is(tokens, start + 3, "(") {
        return Err("Expected '(' after table name.".to_owned());
    }
    let mut columns: Vec<(Identifier, Identifier, Vec<String>)> = Vec::new();
    let mut i: usize = start + 4;
    let ghost whole = create_columns(t, start + 4);
    proof {
        assert(columns.deep_view() =~= Seq::<ColumnView>::empty());
        if let Ok((more, end)) = whole {
            assert(Seq::<ColumnView>::empty() + more =~= more);
        }
    }
    while i < n && !str_eq(tokens[i].as_str(), ")")
        invariant
            start < i <= n == tokens@.len(),
            t == tokens.deep_view(),
            parse_create(t, start as int) == match whole {
                Err(e) => Err(e),
                Ok((columns, end)) => if is_at(t, end, ")"@) {
                    Ok::<(ASTNodeView, int), Text>(
                        (
                            ASTNodeView::Create {
                                table: IdentifierView::Name(t[start + 2]),
                                columns,
                            },
                            end + 1,
                        ),
                    )
                } else {
                    Err("Expected ')' after column definitions."@)
                },
            },
            whole == all_columns(columns.deep_view(), create_columns(t, i as int)),
        decreases n - i,
    {
        let ghost before = columns.deep_view();
        if n - i <= 1 || str_eq(tokens[i + 1].as_str(), ",") || str_eq(
            tokens[i + 1].as_str(),
            ")",
        ) {
            return Err(
                concat3(
                    "Invalid column definition for '",
                    tokens[i].as_str(),
                    "': Missing data type.",
                ),
            );
        }
        let column_name = Identifier::Name(tokens[i].clone());
        let column_type = Identifier::Name(tokens[i + 1].clone());
        match parse_constraints(tokens, i + 2) {
            Err(e) => {
                return Err(e);
            },
            Ok((constraints, end)) => {
                proof {
                    lemma_constraints_advance(t, i + 2);
                }
                let ghost c = (
                    IdentifierView::Name(t[i as int]),
                    IdentifierView::Name(t[i + 1]),
                    constraints.deep_view(),
                );
                columns.push((column_name, column_type, constraints));
                assert(columns.deep_view() =~= before.push(c));
                let next: usize = if token_is(tokens, end, ",") {
                    end + 1
                } else {
                    end
                };
                proof {
                    lemma_all_columns_push(before, c, create_columns(t, next as int));
                }
                i = next;
            },
        }
    }
    assert(columns.deep_view() + Seq::<ColumnView>::empty() =~= columns.deep_view());
    if i < n {
        Ok((ASTNode::Create { table, columns }, i + 1))
    } else {
        Err("Expected ')' after column definitions.".to_owned())
    }
}

/// The `DELETE` clause that begins at `i`, and the position after it, which is
/// that of the `WHERE` clause that must follow.
pub open spec fn parse_delete(t: Seq<Text>, i: int) -> Result<(ASTNodeView, int), Text> {
    if !is_at(t, i + 1, "FROM"@) {
        Err("Expected FROM after DELETE"@)
    } else if i + 2 >= t.len() {
        Err("Expected table name after DELETE FROM"@)
    } else if !is_at(t, i + 3, "WHERE"@) {
        Err("DELETE statement must include a WHERE clause"@)
    } else {
        Ok((ASTNodeView::Delete { table: IdentifierView::Name(t[i + 2]) }, i + 3))
    }
}

/// The `DELETE` clause that begins at `start`, and the position after it.
pub fn parse_delete_clause(tokens: &Vec<String>, start: usize) -> (r: Result<
    (ASTNode, usize),
    String,
>)
    requires
        start < tokens@.len(),
    ensures
        match r {
            Ok((n, end)) => parse_delete(tokens.deep_view(), start as int) == Ok::<_, Text>(
                (n.deep_view(), end as int),
            ),
            Err(e) => parse_delete(tokens.deep_view(), start as int) == Err::<(ASTNodeView, int), _>(
                e@,
            ),
        },
{
    let n: usize = tokens.len();
    if !token_is(tokens, start + 1, "FROM") {
        return Err("Expected FROM after DELETE".to_owned());
    }
    if n - start <= 2 {
        return Err("Expected table name after DELETE FROM".to_owned());
    }
    let table = Identifier::Name(tokens[start + 2].clone());
    if !token_is(tokens, start + 3, "WHERE") {
        return Err("DELETE statement must include a WHERE clause".to_owned());
    }
    Ok((ASTNode::Delete { table }, start + 3))
}

/// The items of a list from `i` up to a closing parenthesis, where a comma
/// after an item is skipped, and the position after them.
pub open spec fn list_items(t: Seq<Text>, i: int) -> (Seq<Text>, int)
    decreases t.len() - i,
{
    if i < 0 || i >= t.len() || t[i] == ")"@ {
        (Seq::empty(), i)
    } else {
        let next = if is_at(t, i + 1, ","@) {
            i + 2
        } else {
            i + 1
        };
        let (rest, end) = list_items(t, next);
        (seq![t[i]] + rest, end)
    }
}

pub proof fn lemma_list_items_advance(t: Seq<Text>, i: int)
    ensures
        i <= list_items(t, i).1,
        i <= t.len() ==> list_items(t, i).1 <= t.len(),
    decreases t.len() - i,
{
    if !(i < 0 || i >= t.len() || t[i] == ")"@) {
        if is_at(t, i + 1, ","@) {
            lemma_list_items_advance(t, i + 2);
        } else {
            lemma_list_items_advance(t, i + 1);
        }
    }
}

/// The items of the list from `start` on, and the position after them.
fn parse_list(tokens: &Vec<String>, start: usize) -> (r: (Vec<String>, usize))
    requires
        start <= tokens@.len(),
    ensures
        (r.0.deep_view(), r.1 as int) == list_items(tokens.deep_view(), start as int),
{
    let ghost t = tokens.deep_view();
    let n: usize = tokens.len();
    let ghost whole = list_items(t, start as int);
    let mut items: Vec<String> = Vec::new();
    let mut i: usize = start;
    assert(items.deep_view() + whole.0 =~= whole.0);
    while i < n && !str_eq(tokens[i].as_str(), ")")
        invariant
            i <= n == tokens@.len(),
            t == tokens.deep_view(),
            whole.0 == items.deep_view() + list_items(t, i as int).0,
            whole.1 == list_items(t, i as int).1,
        decreases n - i,
    {
        let ghost before = items.deep_view();
        items.push(tokens[i].clone());
        assert(items.deep_view() =~= before.push(t[i as int]));
        let next: usize = if token_is(tokens, i + 1, ",") {
            i + 2
        } else {
            i + 1
        };
        let ghost rest = list_items(t, next as int).0;
        assert(before.push(t[i as int]) + rest =~= before + (seq![t[i as int]] + rest));
        i = next;
    }
    assert(items.deep_view() + Seq::<Text>::empty() =~= items.deep_view());
    (items, i)
}

/// The column list that an `INSERT` may have at `i`, and the position after it.
pub open spec fn insert_columns(t: Seq<Text>, i: int) -> Result<(Seq<Text>, int), Text> {
    if !is_at(t, i, "("@) {
        Ok((Seq::empty(), i))
    } else {
        let (items, end) = list_items(t, i + 1);
        if is_at(t, end, ")"@) {
            Ok((items, end + 1))
        } else {
            Err("Expected ')' after column list"@)
        }
    }
}

/// The names of the columns of an `INSERT`.
pub open spec fn names_of(items: Seq<Text>) -> Seq<IdentifierView> {
    items.map_values(|s: Text| IdentifierView::Name(s))
}

/// The values of an `INSERT`.
pub open spec fn values_of(items: Seq<Text>) -> Seq<IdentifierView> {
    items.map_values(|s: Text| token_identifier(s))
}

/// The `INSERT` clause that begins at `i`, and the position after it.
pub open spec fn parse_insert(t: Seq<Text>, i: int) -> Result<(ASTNodeView, int), Text> {
    if !is_at(t, i + 1, "INTO"@) {
        Err("Expected INTO after INSERT"@)
    } else if i + 2 >= t.len() {
        Err("Expected table name after INSERT INTO"@)
    } else {
        match insert_columns(t, i + 3) {
            Err(e) => Err(e),
            Ok((columns, j)) => if !is_at(t, j, "VALUES"@) {
                Err("Expected VALUES after table name"@)
            } else if !is_at(t, j + 1, "("@) {
                Err("Expected '(' after VALUES"@)
            } else {
                let (values, end) = list_items(t, j + 2);
                if is_at(t, end, ")"@) {
                    Ok(
                        (
                            ASTNodeView::Insert {
                                table: IdentifierView::Name(t[i + 2]),
                                values: values_of(values),
                                columns: names_of(columns),
                            },
                            end + 1,
                        ),
                    )
                } else {
                    Err("Expected ')' after values list"@)
                }
            },
        }
    }
}

/// The tokens that the `INSERT` clause at `i` has as its values, as far as it
/// gets to them.
pub open spec fn insert_values(t: Seq<Text>, i: int) -> Seq<Text> {
    if is_at(t, i + 1, "INTO"@) && i + 2 < t.len() {
        match insert_columns(t, i + 3) {
            Ok((_, j)) => if is_at(t, j, "VALUES"@) && is_at(t, j + 1, "("@) {
                list_items(t, j + 2).0
            } else {
                Seq::empty()
            },
            Err(_) => Seq::empty(),
        }
    } else {
        Seq::empty()
    }
}

/// Whether no token is a lone double quote, which is no value.
pub open spec fn proper_tokens(t: Seq<Text>) -> bool {
    forall|i: int| 0 <= i < t.len() ==> #[trigger] t[i] != seq!['"']
}

proof fn lemma_list_items_proper(t: Seq<Text>, i: int)
    requires
        proper_tokens(t),
    ensures
        proper_tokens(list_items(t, i).0),
    decreases t.len() - i,
{
    if !(i < 0 || i >= t.len() || t[i] == ")"@) {
        let next = if is_at(t, i + 1, ","@) {
            i + 2
        } else {
            i + 1
        };
        lemma_list_items_proper(t, next);
        assert(t[i] != seq!['"']);
    }
}

/// The `INSERT` clause that begins at `start`, and the position after it.
pub fn parse_insert_clause(tokens: &Vec<String>, start: usize) -> (r: Result<
    (ASTNode, usize),
    String,
>)
    requires
        start < tokens@.len(),
        proper_tokens(insert_values(tokens.deep_view(), start as int)),
    ensures
        match r {
            Ok((n, end)) => parse_insert(tokens.deep_view(), start as int) == Ok::<_, Text>(
                (n.deep_view(), end as int),
            ),
            Err(e) => parse_insert(tokens.deep_view(), start as int) == Err::<(ASTNodeView, int), _>(
                e@,
            ),
        },
{
    let ghost t = tokens.deep_view();
    let n: usize = tokens.len();
    if !token_is(tokens, start + 1, "INTO") {
        return Err("Expected INTO after INSERT".to_owned());
    }
    if n - start <= 2 {
        return Err("Expected table name after INSERT INTO".to_owned());
    }
    let table = Identifier::Name(tokens[start + 2].clone());
    let mut j: usize = start + 3;
    let mut column_tokens: Vec<String> = Vec::new();
    assert(column_tokens.deep_view() =~= Seq::<Text>::empty());
    if token_is(tokens, j, "(") {
        let (items, end) = parse_list(tokens, j + 1);
        proof {
            lemma_list_items_advance(t, j + 1);
        }
        if !token_is(tokens, end, ")") {
            return Err("Expected ')' after column list".to_owned());
        }
        column_tokens = items;
        j = end + 1;
    }
    assert(insert_columns(t, start + 3) == Ok::<_, Text>((column_tokens.deep_view(), j as int)));
    if !token_is(tokens, j, "VALUES") {
        return Err("Expected VALUES after table name".to_owned());
    }
    if !token_is(tokens, j + 1, "(") {
        return Err("Expected '(' after VALUES".to_owned());
    }
    let (value_tokens, end) = parse_list(tokens, j + 2);
    proof {
        lemma_list_items_advance(t, j + 2);
    }
    if !token_is(tokens, end, ")") {
        return Err("Expected ')' after values list".to_owned());
    }
    let columns = to_names(&column_tokens);
    let values = to_values(&value_tokens);
    Ok((ASTNode::Insert { table, values, columns }, end + 1))
}

fn to_names(items: &Vec<String>) -> (r: Vec<Identifier>)
    ensures
        r.deep_view() == names_of(items.deep_view()),
{
    let mut r: Vec<Identifier> = Vec::new();
    let mut i: usize = 0;
    while i < items.len()
        invariant
            i <= items@.len(),
            r@.len() == i,
            forall|k: int|
                0 <= k < i ==> (#[trigger] r@[k]).deep_view() == IdentifierView::Name(items@[k]@),
        decreases items@.len() - i,
    {
        r.push(Identifier::Name(items[i].clone()));
        i = i + 1;
    }
    assert(r.deep_view() =~= names_of(items.deep_view()));
    r
}

fn to_values(items: &Vec<String>) -> (r: Vec<Identifier>)
    requires
        proper_tokens(items.deep_view()),
    ensures
        r.deep_view() == values_of(items.deep_view()),
{
    let mut r: Vec<Identifier> = Vec::new();
    let mut i: usize = 0;
    while i < items.len()
        invariant
            i <= items@.len(),
            proper_tokens(items.deep_view()),
            r@.len() == i,
            forall|k: int|
                0 <= k < i ==> (#[trigger] r@[k]).deep_view() == token_identifier(items@[k]@),
        decreases items@.len() - i,
    {
        assert(items.deep_view()[i as int] == items@[i as int]@);
        r.push(match_token_to_identifier(&items[i]));
        i = i + 1;
    }
    assert(r.deep_view() =~= values_of(items.deep_view()));
    r
}

/// One assignment of an `UPDATE`: the column and the value.
pub type AssignmentView = (IdentifierView, IdentifierView);

/// The assignments of an `UPDATE` from `i` up to `WHERE`, where a comma after
/// an assignment is skipped, and the position after them.
pub open spec fn assignments(t: Seq<Text>, i: int) -> Result<(Seq<AssignmentView>, int), Text>
    decreases t.len() - i,
{
    if i < 0 || i >= t.len() || t[i] == "WHERE"@ {
        Ok((Seq::empty(), i))
    } else if !is_at(t, i + 1, "="@) {
        Err("Expected '=' after column name '"@ + t[i] + "'"@)
    } else if i + 2 >= t.len() {
        Err("Expected value after '=' in 'SET' clause"@)
    } else {
        let next = if is_at(t, i + 3, ","@) {
            i + 4
        } else {
            i + 3
        };
        all_assignments(
            seq![(IdentifierView::Name(t[i]), token_identifier(t[i + 2]))],
            assignments(t, next),
        )
    }
}

/// `first` before the assignments of `rest`.
pub open spec fn all_assignments(
    first: Seq<AssignmentView>,
    rest: Result<(Seq<AssignmentView>, int), Text>,
) -> Result<(Seq<AssignmentView>, int), Text> {
    match rest {
        Ok((more, end)) => Ok((first + more, end)),
        Err(e) => Err(e),
    }
}

proof fn lemma_all_assignments_push(
    first: Seq<AssignmentView>,
    a: AssignmentView,
    rest: Result<(Seq<AssignmentView>, int), Text>,
)
    ensures
        all_assignments(first.push(a), rest) == all_assignments(
            first,
            all_assignments(seq![a], rest),
        ),
{
    if let Ok((more, end)) = rest {
        assert(first.push(a) + more =~= first + (seq![a] + more));
    }
}

pub proof fn lemma_assignments_advance(t: Seq<Text>, i: int)
    ensures
        assignments(t, i) matches Ok((_, end)) ==> i <= end && (i <= t.len() ==> end <= t.len()),
    decreases t.len() - i,
{
    if i < 0 || i >= t.len() || t[i] == "WHERE"@ {
    } else if is_at(t, i + 1, "="@) && i + 2 < t.len() {
        if is_at(t, i + 3, ","@) {
            lemma_assignments_advance(t, i + 4);
        } else {
            lemma_assignments_advance(t, i + 3);
        }
    }
}

/// The tokens that are assigned from `i` on, as far as the assignments are
/// well formed.
pub open spec fn assigned_values(t: Seq<Text>, i: int) -> Seq<Text>
    decreases t.len() - i,
{
    if i < 0 || i >= t.len() || t[i] == "WHERE"@ || !is_at(t, i + 1, "="@) || i + 2 >= t.len() {
        Seq::empty()
    } else {
        let next = if is_at(t, i + 3, ","@) {
            i + 4
        } else {
            i + 3
        };
        seq![t[i + 2]] + assigned_values(t, next)
    }
}

proof fn lemma_assigned_values_proper(t: Seq<Text>, i: int)
    requires
        proper_tokens(t),
    ensures
        proper_tokens(assigned_values(t, i)),
    decreases t.len() - i,
{
    if !(i < 0 || i >= t.len() || t[i] == "WHERE"@ || !is_at(t, i + 1, "="@) || i + 2 >= t.len()) {
        let next = if is_at(t, i + 3, ","@) {
            i + 4
        } else {
            i + 3
        };
        lemma_assigned_values_proper(t, next);
        assert(t[i + 2] != seq!['"']);
    }
}

/// The `UPDATE` clause that begins at `i`, and the position after it, which is
/// that of the `WHERE` clause that must follow.
pub open spec fn parse_update(t: Seq<Text>, i: int) -> Result<(ASTNodeView, int), Text> {
    if i + 1 >= t.len() {
        Err("Expected table name after 'UPDATE'"@)
    } else if !is_at(t, i + 2, "SET"@) {
        Err("Expected 'SET' after table name in 'UPDATE'"@)
    } else {
        match assignments(t, i + 3) {
            Err(e) => Err(e),
            Ok((values, end)) => if is_at(t, end, "WHERE"@) {
                Ok((ASTNodeView::Update { table: IdentifierView::Name(t[i + 1]), values }, end))
            } else {
                Err("Expected 'WHERE' clause after 'SET' in 'UPDATE'"@)
            },
        }
    }
}

/// The `UPDATE` clause that begins at `start`, and the position after it.
pub fn parse_update_clause(tokens: &Vec<String>, start: usize) -> (r: Result<
    (ASTNode, usize),
    String,
>)
    requires
        start < tokens@.len(),
        is_at(tokens.deep_view(), start + 2, "SET"@) ==> proper_tokens(
            assigned_values(tokens.deep_view(), start + 3),
        ),
    ensures
        match r {
            Ok((n, end)) => parse_update(tokens.deep_view(), start as int) == Ok::<_, Text>(
                (n.deep_view(), end as int),
            ),
            Err(e) => parse_update(tokens.deep_view(), start as int) == Err::<(ASTNodeView, int), _>(
                e@,
            ),
        },
{
    let ghost t = tokens.deep_view();
    let n: usize = tokens.len();
    if n - start <= 1 {
        return Err("Expected table name after 'UPDATE'".to_owned());
    }
    let table = Identifier::Name(tokens[start + 1].clone());
    if !token_is(tokens, start + 2, "SET") {
        return Err("Expected 'SET' after table name in 'UPDATE'".to_owned());
    }
    let ghost whole = assignments(t, start + 3);
    let mut values: Vec<(Identifier, Identifier)> = Vec::new();
    let mut i: usize = start + 3;
    proof {
        assert(values.deep_view() =~= Seq::<AssignmentView>::empty());
        if let Ok((more, end)) = whole {
            assert(Seq::<AssignmentView>::empty() + more =~= more);
        }
    }
    while i < n && !str_eq(tokens[i].as_str(), "WHERE")
        invariant
            start < i <= n == tokens@.len(),
            t == tokens.deep_view(),
            proper_tokens(assigned_values(t, i as int)),
            whole == assignments(t, start + 3),
            is_at(t, start + 2, "SET"@),
            whole == all_assignments(values.deep_view(), assignments(t, i as int)),
        decreases n - i,
    {
        let ghost before = values.deep_view();
        if !token_is(tokens, i + 1, "=") {
            return Err(concat3("Expected '=' after column name '", tokens[i].as_str(), "'"));
        }
        if n - i <= 2 {
            return Err("Expected value after '=' in 'SET' clause".to_owned());
        }
        let column = Identifier::Name(tokens[i].clone());
        assert(t[i + 2] == tokens@[i + 2]@);
        assert(assigned_values(t, i as int)[0] == t[i + 2]);
        let value = match_token_to_identifier(&tokens[i + 2]);
        let ghost a = (IdentifierView::Name(t[i as int]), token_identifier(t[i + 2]));
        values.push((column, value));
        assert(values.deep_view() =~= before.push(a));
        let next: usize = if token_is(tokens, i + 3, ",") {
            i + 4
        } else {
            i + 3
        };
        proof {
            lemma_all_assignments_push(before, a, assignments(t, next as int));
            let rest = assigned_values(t, next as int);
            assert forall|k: int| 0 <= k < rest.len() implies #[trigger] rest[k] != seq!['"'] by {
                assert(assigned_values(t, i as int)[k + 1] == rest[k]);
            }
        }
        i = next;
    }
    assert(values.deep_view() + Seq::<AssignmentView>::empty() =~= values.deep_view());
    if i >= n {
        Err("Expected 'WHERE' clause after 'SET' in 'UPDATE'".to_owned())
    } else {
        Ok((ASTNode::Update { table, values }, i))
    }
}

/// The `DROP` clause that begins at `i`, and the position after it.
pub open spec fn parse_drop(t: Seq<Text>, i: int) -> Result<(ASTNodeView, int), Text> {
    if i + 1 >= t.len() || outside::uppercase(t[i + 1]) != "TABLE"@ {
        Err("Expected TABLE keyword after DROP"@)
    } else if i + 2 >= t.len() {
        Err("Missing table name in DROP TABLE statement"@)
    } else {
        Ok((ASTNodeView::Drop { table: IdentifierView::Name(t[i + 2]) }, i + 3))
    }
}

/// The `DROP` clause that begins at `start`, and the position after it.
pub fn parse_drop_clause(tokens: &Vec<String>, start: usize) -> (r: Result<
    (ASTNode, usize),
    String,
>)
    requires
        start < tokens@.len(),
    ensures
        match r {
            Ok((n, end)) => parse_drop(tokens.deep_view(), start as int) == Ok::<_, Text>(
                (n.deep_view(), end as int),
            ),
            Err(e) => parse_drop(tokens.deep_view(), start as int) == Err::<(ASTNodeView, int), _>(
                e@,
            ),
        },
{
    let n: usize = tokens.len();
    if n - start <= 1 {
        return Err("Expected TABLE keyword after DROP".to_owned());
    }
    let upper = tokens[start + 1].as_str().to_uppercase();
    if !str_eq(upper.as_str(), "TABLE") {
        return Err("Expected TABLE keyword after DROP".to_owned());
    }
    if n - start <= 2 {
        return Err("Missing table name in DROP TABLE statement".to_owned());
    }
    Ok((ASTNode::Drop { table: Identifier::Name(tokens[start + 2].clone()) }, start + 3))
}

// ---------------------------------------------------------------------------
// Queries
// ---------------------------------------------------------------------------

/// The clause that begins at `i`, by its first token, and the position after
/// it.
pub open spec fn parse_clause(t: Seq<Text>, i: int) -> Result<(ASTNodeView, int), Text> {
    if t[i] == "SELECT"@ {
        parse_select(t, i)
    } else if t[i] == "WHERE"@ {
        parse_where(t, i)
    } else if t[i] == "CREATE"@ {
        parse_create(t, i)
    } else if t[i] == "INSERT"@ {
        parse_insert(t, i)
    } else if t[i] == "UPDATE"@ {
        parse_update(t, i)
    } else if t[i] == "DELETE"@ {
        parse_delete(t, i)
    } else if t[i] == "DROP"@ {
        parse_drop(t, i)
    } else {
        Err("Unexpected token: "@ + t[i])
    }
}

/// A clause takes up at least one token.
pub proof fn lemma_clause_advances(t: Seq<Text>, i: int)
    requires
        0 <= i < t.len(),
    ensures
        parse_clause(t, i) matches Ok((_, end)) ==> i < end <= t.len(),
{
    lemma_select_columns_advance(t, i + 1);
    if is_at(t, i + 3, "("@) {
        lemma_create_columns_advance(t, i + 4);
        lemma_list_items_advance(t, i + 4);
    }
    if let Ok((columns, j)) = insert_columns(t, i + 3) {
        lemma_list_items_advance(t, j + 2);
    }
    lemma_assignments_advance(t, i + 3);
}

pub proof fn lemma_create_columns_advance(t: Seq<Text>, i: int)
    ensures
        create_columns(t, i) matches Ok((_, end)) ==> i <= end && (i <= t.len() ==> end
            <= t.len()),
    decreases t.len() - i,
{
    if i < 0 || i >= t.len() || t[i] == ")"@ {
    } else if i + 1 >= t.len() || t[i + 1] == ","@ || t[i + 1] == ")"@ {
    } else {
        lemma_constraints_advance(t, i + 2);
        if let Ok((constraints, j)) = column_constraints(t, i + 2) {
            if is_at(t, j, ","@) {
                lemma_create_columns_advance(t, j + 1);
            } else {
                lemma_create_columns_advance(t, j);
            }
        }
    }
}

/// The clauses from `i` on, one after the other. The first that is in error
/// puts the whole query in error.
pub open spec fn parse_clauses(t: Seq<Text>, i: int) -> Result<Seq<ASTNodeView>, Text>
    decreases t.len() - i,
{
    if i < 0 || i >= t.len() {
        Ok(Seq::empty())
    } else {
        match parse_clause(t, i) {
            Err(e) => Err(e),
            Ok((node, next)) => {
                proof {
                    lemma_clause_advances(t, i);
                }
                all_clauses(seq![node], parse_clauses(t, next))
            },
        }
    }
}

/// `first` before the clauses of `rest`.
pub open spec fn all_clauses(
    first: Seq<ASTNodeView>,
    rest: Result<Seq<ASTNodeView>, Text>,
) -> Result<Seq<ASTNodeView>, Text> {
    match rest {
        Ok(more) => Ok(first + more),
        Err(e) => Err(e),
    }
}

/// The clauses of a query: of the tokens of the text that its bytes encode.
pub open spec fn parse_query(bytes: Seq<u8>) -> Result<Seq<ASTNodeView>, Text> {
    if vstd::utf8::valid_utf8(bytes) {
        parse_clauses(tokens_of(vstd::utf8::decode_utf8(bytes)), 0)
    } else {
        Err(outside::utf8_error(bytes))
    }
}

fn parse_next_clause(tokens: &Vec<String>, i: usize) -> (r: Result<(ASTNode, usize), String>)
    requires
        i < tokens@.len(),
        proper_tokens(tokens.deep_view()),
    ensures
        match r {
            Ok((n, end)) => parse_clause(tokens.deep_view(), i as int) == Ok::<_, Text>(
                (n.deep_view(), end as int),
            ),
            Err(e) => parse_clause(tokens.deep_view(), i as int) == Err::<(ASTNodeView, int), _>(e@),
        },
{
    let word = tokens[i].as_str();
    let ghost t = tokens.deep_view();
    assert(t[i as int] == word@);
    proof {
        if let Ok((_, j)) = insert_columns(t, i + 3) {
            lemma_list_items_proper(t, j + 2);
        }
        lemma_assigned_values_proper(t, i + 3);
    }
    if str_eq(word, "SELECT") {
        parse_select_clause(tokens, i)
    } else if str_eq(word, "WHERE") {
        parse_where_clause(tokens, i)
    } else if str_eq(word, "CREATE") {
        parse_create_clause(tokens, i)
    } else if str_eq(word, "INSERT") {
        parse_insert_clause(tokens, i)
    } else if str_eq(word, "UPDATE") {
        parse_update_clause(tokens, i)
    } else if str_eq(word, "DELETE") {
        parse_delete_clause(tokens, i)
    } else if str_eq(word, "DROP") {
        parse_drop_clause(tokens, i)
    } else {
        Err(concat2("Unexpected token: ", word))
    }
}

/// The syntax tree of a query.
pub fn sql_parser(query_bytes: &[u8]) -> (r: Result<Vec<ASTNode>, String>)
    ensures
        match r {
            Ok(nodes) => parse_query(query_bytes@) == Ok::<_, Text>(nodes.deep_view()),
            Err(e) => parse_query(query_bytes@) == Err::<Seq<ASTNodeView>, _>(e@),
        },
{
    let query = match utf8_to_string(query_bytes) {
        Ok(s) => s,
        Err(e) => {
            return Err(e);
        },
    };
    let tokens = match tokenize_query(query.as_str()) {
        Ok(tokens) => tokens,
        Err(e) => {
            return Err(e);
        },
    };
    let ghost t = tokens.deep_view();
    proof {
        law_tokens_hold_no_quote(query@);
        assert forall|i: int| 0 <= i < t.len() implies #[trigger] t[i] != seq!['"'] by {
            assert(!t[i].contains('"'));
            assert(seq!['"'][0] == '"');
        }
    }
    let n: usize = tokens.len();
    let ghost whole = parse_clauses(t, 0);
    let mut nodes: Vec<ASTNode> = Vec::new();
    let mut i: usize = 0;
    proof {
        assert(nodes.deep_view() =~= Seq::<ASTNodeView>::empty());
        if let Ok(more) = whole {
            assert(Seq::<ASTNodeView>::empty() + more =~= more);
        }
    }
    while i < n
        invariant
            i <= n == tokens@.len(),
            t == tokens.deep_view(),
            proper_tokens(t),
            whole == parse_query(query_bytes@),
            whole == all_clauses(nodes.deep_view(), parse_clauses(t, i as int)),
        decreases n - i,
    {
        let ghost before = nodes.deep_view();
        proof {
            lemma_clause_advances(t, i as int);
        }
        match parse_next_clause(&tokens, i) {
            Ok((node, next)) => {
                let ghost v = node.deep_view();
                nodes.push(node);
                proof {
                    assert(nodes.deep_view() =~= before.push(v));
                    if let Ok(more) = parse_clauses(t, next as int) {
                        assert(before.push(v) + more =~= before + (seq![v] + more));
                    }
                }
                i = next;
            },
            Err(e) => {
                return Err(e);
            },
        }
    }
    assert(nodes.deep_view() + Seq::<ASTNodeView>::empty() =~= nodes.deep_view());
    Ok(nodes)
}

// ---------------------------------------------------------------------------
// Laws
// ---------------------------------------------------------------------------

/// In every query that parses, a `DELETE` and an `UPDATE` are followed by a
/// `WHERE`: there is no such statement without a condition.
pub proof fn law_delete_and_update_have_condition(bytes: Seq<u8>, i: int)
    requires
        parse_query(bytes) is Ok,
        0 <= i < parse_query(bytes)->Ok_0.len(),
        parse_query(bytes)->Ok_0[i] is Delete || parse_query(bytes)->Ok_0[i] is Update,
    ensures
        i + 1 < parse_query(bytes)->Ok_0.len(),
        parse_query(bytes)->Ok_0[i + 1] is Where,
{
    lemma_condition_follows(tokens_of(vstd::utf8::decode_utf8(bytes)), 0, i);
}

proof fn lemma_condition_follows(t: Seq<Text>, i: int, k: int)
    requires
        0 <= i,
        parse_clauses(t, i) is Ok,
        0 <= k < parse_clauses(t, i)->Ok_0.len(),
        parse_clauses(t, i)->Ok_0[k] is Delete || parse_clauses(t, i)->Ok_0[k] is Update,
    ensures
        k + 1 < parse_clauses(t, i)->Ok_0.len(),
        parse_clauses(t, i)->Ok_0[k + 1] is Where,
    decreases t.len() - i,
{
    lemma_clause_advances(t, i);
    let (node, next) = parse_clause(t, i)->Ok_0;
    let rest = parse_clauses(t, next);
    let all = parse_clauses(t, i)->Ok_0;
    assert(all == seq![node] + rest->Ok_0);
    if k == 0 {
        assert(all[0] == node);
        lemma_different_keywords();
        assert(is_at(t, next, "WHERE"@));
        assert(parse_clause(t, next) == parse_where(t, next));
        assert(all[1] == rest->Ok_0[0]);
    } else {
        assert(all[k] == rest->Ok_0[k - 1]);
        lemma_condition_follows(t, next, k - 1);
        assert(all[k + 1] == rest->Ok_0[k]);
    }
}

proof fn lemma_different_keywords()
    ensures
        "WHERE"@ != "SELECT"@,
{
    reveal_strlit("WHERE");
    reveal_strlit("SELECT");
    assert("WHERE"@[0] != "SELECT"@[0]);
}

} // verus!
