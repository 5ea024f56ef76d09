//! Who may do what: users, their credentials, and the credentials of nodes.

use crate::errors::{DbError, ErrorKind, ErrorView};
use crate::executer::executer::USERS_TABLE;
use crate::executer::select;
use crate::executer::select::NO_ROWS;
use crate::json;
use crate::json::{
    is_success, json_eq, reply_message, reply_text, Json, JsonView, PlainReply, PlainView, Reply,
    ReplyView,
};
use crate::outside;
use crate::outside::{base64_decode, new_uuid, utf8_to_string};
use crate::query::parser;
use crate::query::parser::{sql_parser, ASTNode, ASTNodeView, ExpressionView, IdentifierView};
use crate::records::rows::Rows;
use crate::replication::replication_nodes;
use crate::replication::replication_nodes::{auth_header, NodeView, NodesConfig};
use crate::schema::schema;
use crate::schema::schema::{
    initial_table_name, Column, ColumnView, DataType, Rule, RuleView, Schema, SchemaView, Table,
    TableView,
};
use crate::string_map::{Duplicate, StringMap};
use crate::text;
use crate::text::{
    chars_of, concat2, concat3, concat4, is_among, split_on, str_contains, str_eq, str_starts_with,
    string_of, trim_matches, Strip, Text,
};
use vstd::prelude::*;

verus! {

/// A user of the database.
#[derive(Debug, PartialEq, Eq)]
pub struct User {
    pub uuid: String,
    pub username: String,
    pub password_hash: String,
    pub auth_group: String,
}

/// A [`User`] as a mathematical value.
pub struct UserView {
    pub uuid: Text,
    pub username: Text,
    pub password_hash: Text,
    pub auth_group: Text,
}

impl DeepView for User {
    type V = UserView;

    open spec fn deep_view(&self) -> UserView {
        UserView {
            uuid: self.uuid@,
            username: self.username@,
            password_hash: self.password_hash@,
            auth_group: self.auth_group@,
        }
    }
}

impl Duplicate for User {
    fn duplicate(&self) -> (r: Self) {
        User {
            uuid: self.uuid.clone(),
            username: self.username.clone(),
            password_hash: self.password_hash.clone(),
            auth_group: self.auth_group.clone(),
        }
    }
}

/// A request to log in.
#[derive(Debug, PartialEq, Eq)]
pub struct LoginRequest {
    pub username: String,
    pub password: String,
}

/// A request to create a user.
#[derive(Debug, PartialEq, Eq)]
pub struct CreateUserRequest {
    pub username: String,
    pub password: String,
}

/// A request to change a user.
#[derive(Debug, PartialEq, Eq)]
pub struct UpdateUserRequest {
    pub uuid: String,
    pub username: String,
    pub password: String,
    pub auth_group: Option<String>,
}

/// A request to delete a user.
#[derive(Debug, PartialEq, Eq)]
pub struct DeleteUserRequest {
    pub id: String,
    pub username: String,
}

// ---------------------------------------------------------------------------
// Looking users up
// ---------------------------------------------------------------------------

/// The query that looks a user up.
pub open spec fn user_query_text(username: Text) -> Text {
    "SELECT * FROM "@ + USERS_TABLE@ + " WHERE username = "@ + username
}

/// The syntax tree of the query that looks a user up.
pub fn user_query(username: &str) -> (r: Result<Vec<ASTNode>, String>)
    ensures
        match r {
            Ok(nodes) => parser::parse_query(
                vstd::utf8::encode_utf8(user_query_text(username@)),
            ) == Ok::<_, Text>(nodes.deep_view()),
            Err(e) => parser::parse_query(
                vstd::utf8::encode_utf8(user_query_text(username@)),
            ) == Err::<Seq<ASTNodeView>, _>(e@),
        },
{
    let query = concat4("SELECT * FROM ", USERS_TABLE, " WHERE username = ", username);
    sql_parser(query.as_str().as_bytes())
}

/// Whether a JSON value is an array of texts.
pub open spec fn is_text_row(v: JsonView) -> bool {
    v matches JsonView::Array(cells) && forall|i: int|
        0 <= i < cells.len() ==> (#[trigger] cells[i]) is Str
}

/// The texts in an array.
pub open spec fn texts_in(v: JsonView) -> Seq<Text> {
    Seq::new(v->Array_0.len(), |i: int| v->Array_0[i]->Str_0)
}

/// Whether a JSON value is an array of arrays of texts.
pub open spec fn is_text_table(v: JsonView) -> bool {
    v matches JsonView::Array(rows) && forall|i: int|
        0 <= i < rows.len() ==> is_text_row(#[trigger] rows[i])
}

/// Whether a row is marked as removed.
pub open spec fn is_marked_removed(row: Seq<Text>) -> bool {
    exists|i: int| 0 <= i < row.len() && text::contains_text(#[trigger] row[i], "ROW_REMOVED"@)
}

/// The user that a row holds.
pub open spec fn user_of_row(row: Seq<Text>) -> Option<UserView> {
    if is_marked_removed(row) || row.len() < 4 {
        None
    } else {
        Some(
            UserView {
                uuid: row[0],
                username: row[1],
                password_hash: row[2],
                auth_group: row[3],
            },
        )
    }
}

/// The user in the reply to a query that looks a user up: the row after the
/// names of the columns.
pub open spec fn user_of_reply(reply: ReplyView) -> Option<UserView> {
    if json::success(reply.status) && is_text_table(reply.body) && reply.body->Array_0.len() > 1 {
        user_of_row(texts_in(reply.body->Array_0[1]))
    } else {
        None
    }
}

fn row_of_texts(v: &Json) -> (r: Option<Vec<String>>)
    ensures
        match r {
            Some(row) => is_text_row(v.deep_view()) && row.deep_view() == texts_in(v.deep_view()),
            None => !is_text_row(v.deep_view()),
        },
{
    let cells = match v {
        Json::Array(cells) => cells,
        _ => {
            return None;
        },
    };
    proof {
        json::lemma_array_view(*cells);
    }
    let ghost cs = cells.deep_view();
    let mut row: Vec<String> = Vec::new();
    let mut i: usize = 0;
    while i < cells.len()
        invariant
            i <= cells@.len(),
            cs == cells.deep_view(),
            v.deep_view() == JsonView::Array(cs),
            row@.len() == i,
            forall|k: int| 0 <= k < i ==> (#[trigger] cs[k]) is Str && row@[k]@ == cs[k]->Str_0,
        decreases cells@.len() - i,
    {
        assert(cs[i as int] == cells@[i as int].deep_view());
        match &cells[i] {
            Json::Str(t) => row.push(t.clone()),
            _ => {
                assert(!(cs[i as int] is Str));
                return None;
            },
        }
        i = i + 1;
    }
    assert(row.deep_view() =~= texts_in(v.deep_view()));
    Some(row)
}

fn row_is_removed(row: &Vec<String>) -> (r: bool)
    ensures
        r == is_marked_removed(row.deep_view()),
{
    let ghost cells = row.deep_view();
    let mut i: usize = 0;
    while i < row.len()
        invariant
            i <= row@.len(),
            cells == row.deep_view(),
            forall|k: int| 0 <= k < i ==> !text::contains_text(#[trigger] cells[k], "ROW_REMOVED"@),
        decreases row@.len() - i,
    {
        assert(cells[i as int] == row@[i as int]@);
        if str_contains(row[i].as_str(), "ROW_REMOVED") {
            return true;
        }
        i = i + 1;
    }
    false
}

/// The user in the reply to a query that looks a user up.
pub fn fetch_user_from_db(reply: &Reply) -> (r: Option<User>)
    ensures
        r.deep_view() == user_of_reply(reply.deep_view()),
{
    if !is_success(reply.status) {
        return None;
    }
    let rows = match &reply.body {
        Json::Array(rows) => rows,
        _ => {
            return None;
        },
    };
    proof {
        json::lemma_array_view(*rows);
    }
    let ghost rs = rows.deep_view();
    let mut second: Vec<String> = Vec::new();
    let mut i: usize = 0;
    while i < rows.len()
        invariant
            i <= rows@.len(),
            rs == rows.deep_view(),
            reply.body.deep_view() == JsonView::Array(rs),
            forall|k: int| 0 <= k < i ==> is_text_row(#[trigger] rs[k]),
            i > 1 ==> second.deep_view() == texts_in(rs[1]),
        decreases rows@.len() - i,
    {
        assert(rs[i as int] == rows@[i as int].deep_view());
        match row_of_texts(&rows[i]) {
            Some(row) => {
                if i == 1 {
                    second = row;
                }
            },
            None => {
                assert(!is_text_row(rs[i as int]));
                return None;
            },
        }
        i = i + 1;
    }
    if rows.len() <= 1 {
        return None;
    }
    if row_is_removed(&second) || second.len() < 4 {
        return None;
    }
    Some(
        User {
            uuid: second[0].clone(),
            username: second[1].clone(),
            password_hash: second[2].clone(),
            auth_group: second[3].clone(),
        },
    )
}

/// Users that were looked up, by their names.
#[derive(Debug)]
pub struct UserCache {
    users: StringMap<User>,
}

impl DeepView for UserCache {
    type V = Map<Text, UserView>;

    closed spec fn deep_view(&self) -> Map<Text, UserView> {
        self.users.deep_view()
    }
}

impl UserCache {
    /// A cache without users.
    pub fn new() -> (r: Self)
        ensures
            r.deep_view() == Map::<Text, UserView>::empty(),
    {
        UserCache { users: StringMap::new() }
    }

    /// The user under a name.
    pub fn get(&self, username: &str) -> (r: Option<User>)
        ensures
            match r {
                Some(user) => self.deep_view().contains_key(username@) && user.deep_view()
                    == self.deep_view()[username@],
                None => !self.deep_view().contains_key(username@),
            },
    {
        match self.users.get(username) {
            Some(user) => Some(user.duplicate()),
            None => None,
        }
    }

    /// Keeps a user under a name.
    pub fn insert(&mut self, username: &str, user: &User)
        ensures
            final(self).deep_view() == old(self).deep_view().insert(username@, user.deep_view()),
    {
        self.users.insert(username.to_owned(), user.duplicate());
    }

    /// Forgets the user under a name.
    pub fn remove(&mut self, username: &str)
        ensures
            final(self).deep_view() == old(self).deep_view().remove(username@),
    {
        let _ = self.users.remove(username);
    }
}

// ---------------------------------------------------------------------------
// Logging in, creating, changing and deleting users
// ---------------------------------------------------------------------------

/// A refusal as a plain text.
pub open spec fn refusal(status: u16, message: Text) -> PlainView {
    PlainView { status, message }
}

/// The user who logs in, given the user under the name of the request.
pub fn login(request: &LoginRequest, fetched_user: &Option<User>) -> (r: Result<User, PlainReply>)
    ensures
        match (r, *fetched_user) {
            (Ok(u), Some(user)) => u.deep_view() == user.deep_view() && user.password_hash@
                == request.password@,
            (Ok(_), None) => false,
            (Err(e), user) => e.deep_view() == refusal(401, "Invalid credentials"@) && (
            user matches Some(u) ==> u.password_hash@ != request.password@),
        },
{
    match fetched_user {
        Some(user) => if str_eq(user.password_hash.as_str(), request.password.as_str()) {
            Ok(user.duplicate())
        } else {
            Err(PlainReply::new(401, "Invalid credentials"))
        },
        None => Err(PlainReply::new(401, "Invalid credentials")),
    }
}

/// The group of a user whom nobody has admitted yet.
pub const PENDING: &'static str = "pending";

/// The group of the users who may change others.
pub const ADMIN: &'static str = "admin";

/// The user whom a request creates: one whom nobody has admitted yet.
pub open spec fn new_user(username: Text, password: Text, uuid: Text) -> UserView {
    UserView { uuid, username, password_hash: password, auth_group: PENDING@ }
}

/// The row of a user.
pub open spec fn user_row(user: UserView) -> Seq<Text> {
    seq![user.uuid, user.username, user.password_hash, user.auth_group]
}

/// The row of a user.
pub fn user_cells(user: &User) -> (r: Vec<String>)
    ensures
        r.deep_view() == user_row(user.deep_view()),
{
    let mut r: Vec<String> = Vec::new();
    r.push(user.uuid.clone());
    r.push(user.username.clone());
    r.push(user.password_hash.clone());
    r.push(user.auth_group.clone());
    assert(r.deep_view() =~= user_row(user.deep_view()));
    r
}

/// The user whom a request creates, with a given UUID, given the user under the
/// name of the request.
pub fn create_user_with(
    request: &CreateUserRequest,
    existing: &Option<User>,
    uuid: String,
) -> (r: Result<User, PlainReply>)
    ensures
        match r {
            Ok(u) => existing is None && u.deep_view() == new_user(
                request.username@,
                request.password@,
                uuid@,
            ),
            Err(e) => existing is Some && e.deep_view() == refusal(
                400,
                "Username already exists"@,
            ),
        },
{
    match existing {
        Some(_) => Err(PlainReply::new(400, "Username already exists")),
        None => Ok(
            User {
                uuid,
                username: request.username.clone(),
                password_hash: request.password.clone(),
                auth_group: PENDING.to_owned(),
            },
        ),
    }
}

/// The user whom a request creates, given the user under the name of the
/// request.
pub fn create_user(request: &CreateUserRequest, existing: &Option<User>) -> (r: Result<
    User,
    PlainReply,
>)
    ensures
        match r {
            Ok(u) => existing is None && outside::is_hyphenated_uuid(u.uuid@) && u.deep_view()
                == new_user(request.username@, request.password@, u.uuid@),
            Err(e) => existing is Some && e.deep_view() == refusal(
                400,
                "Username already exists"@,
            ),
        },
{
    let uuid = new_uuid();
    create_user_with(request, existing, uuid)
}

/// Whether a user may change the row with the given UUID, as that of another
/// user: an administrator may, and everyone may change themselves.
pub open spec fn may_change(by: UserView, target: UserView, uuid: Text) -> bool {
    by.auth_group == ADMIN@ || (by.uuid == target.uuid && by.uuid == uuid)
}

fn check_may_change(by: &User, target: &User, uuid: &str) -> (r: bool)
    ensures
        r == may_change(by.deep_view(), target.deep_view(), uuid@),
{
    str_eq(by.auth_group.as_str(), ADMIN) || (str_eq(by.uuid.as_str(), target.uuid.as_str())
        && str_eq(by.uuid.as_str(), uuid))
}

/// The values that a request gives to a user.
pub open spec fn new_values(
    username: Text,
    password: Text,
    auth_group: Option<Text>,
    target: UserView,
) -> Map<Text, Text> {
    let values = Map::<Text, Text>::empty().insert("username"@, username).insert(
        "password_hash"@,
        if password.len() > 0 {
            password
        } else {
            target.password_hash
        },
    );
    match auth_group {
        Some(group) => values.insert("auth_group"@, group),
        None => values,
    }
}

/// What a request to change the row with the given UUID does: the values that it
/// gives, or a refusal. Only an administrator may change a group, or the row of
/// another user.
pub open spec fn user_update(
    uuid: Text,
    username: Text,
    password: Text,
    auth_group: Option<Text>,
    target: Option<UserView>,
    by: UserView,
) -> Result<Map<Text, Text>, PlainView> {
    match target {
        None => Err(refusal(400, "User doesn't exist"@)),
        Some(t) => if auth_group is Some && by.auth_group != ADMIN@ {
            Err(refusal(403, "Only administrators can change user groups"@))
        } else if !may_change(by, t, uuid) {
            Err(refusal(403, "You can only update your own account"@))
        } else {
            Ok(new_values(username, password, auth_group, t))
        },
    }
}

/// A change to a row of the table of users.
#[derive(Debug)]
pub struct UserUpdate {
    /// The identifier of the row, in quotes.
    pub row_id: String,
    pub values: StringMap<String>,
}

/// What a request to change a user does, given the user under the name of the
/// request and the user who asks.
pub fn update_user(
    request: &UpdateUserRequest,
    target_user: &Option<User>,
    authenticated_user: &User,
) -> (r: Result<UserUpdate, PlainReply>)
    ensures
        match r {
            Ok(update) => user_update(
                request.uuid@,
                request.username@,
                request.password@,
                request.auth_group.deep_view(),
                target_user.deep_view(),
                authenticated_user.deep_view(),
            ) == Ok::<_, PlainView>(update.values.deep_view()) && update.row_id@ == "\""@
                + request.uuid@ + "\""@,
            Err(e) => user_update(
                request.uuid@,
                request.username@,
                request.password@,
                request.auth_group.deep_view(),
                target_user.deep_view(),
                authenticated_user.deep_view(),
            ) == Err::<Map<Text, Text>, _>(e.deep_view()),
        },
{
    let target = match target_user {
        Some(user) => user,
        None => {
            return Err(PlainReply::new(400, "User doesn't exist"));
        },
    };
    let mut values: StringMap<String> = StringMap::new();
    values.insert("username".to_owned(), request.username.clone());
    if chars_of(request.password.as_str()).len() > 0 {
        values.insert("password_hash".to_owned(), request.password.clone());
    } else {
        values.insert("password_hash".to_owned(), target.password_hash.clone());
    }
    let is_admin = str_eq(authenticated_user.auth_group.as_str(), ADMIN);
    match &request.auth_group {
        Some(group) => {
            if !is_admin {
                return Err(PlainReply::new(403, "Only administrators can change user groups"));
            }
            values.insert("auth_group".to_owned(), group.clone());
        },
        None => {
            if !check_may_change(authenticated_user, target, request.uuid.as_str()) {
                return Err(PlainReply::new(403, "You can only update your own account"));
            }
        },
    }
    Ok(UserUpdate { row_id: concat3("\"", request.uuid.as_str(), "\""), values })
}

/// What a request to delete a row of the table of users does, given the user
/// under the name of the request and the user who asks: gives back the user who
/// is deleted, or a refusal. Only an administrator may delete the row of another
/// user. Double quotes around the identifier of the row do not count.
pub open spec fn user_deletion(id: Text, target: Option<UserView>, by: UserView) -> Result<
    UserView,
    PlainView,
> {
    match target {
        None => Err(refusal(400, "User doesn't exist"@)),
        Some(t) => if !may_change(by, t, text::trimmed(id, Strip::Quote)) {
            Err(refusal(403, "You can only delete your own account or must be an administrator"@))
        } else {
            Ok(t)
        },
    }
}

/// What a request to delete a row of the table of users does, given the user
/// under the name of the request and the user who asks.
pub fn delete_user(
    request: &DeleteUserRequest,
    target_user: &Option<User>,
    authenticated_user: &User,
) -> (r: Result<User, PlainReply>)
    ensures
        match r {
            Ok(u) => user_deletion(
                request.id@,
                target_user.deep_view(),
                authenticated_user.deep_view(),
            ) == Ok::<_, PlainView>(u.deep_view()),
            Err(e) => user_deletion(
                request.id@,
                target_user.deep_view(),
                authenticated_user.deep_view(),
            ) == Err::<UserView, _>(e.deep_view()),
        },
{
    match target_user {
        Some(target) => {
            let id = trim_matches(request.id.as_str(), Strip::Quote);
            if check_may_change(authenticated_user, target, id.as_str()) {
                Ok(target.duplicate())
            } else {
                Err(
                    PlainReply::new(
                        403,
                        "You can only delete your own account or must be an administrator",
                    ),
                )
            }
        },
        None => Err(PlainReply::new(400, "User doesn't exist")),
    }
}

/// What was done to the table of users.
#[derive(Debug, Clone, Copy, PartialEq, Eq, Structural)]
pub enum UserChange {
    Updated,
    Deleted,
}

/// The reply to a request that was granted, given whether it could be done.
pub fn user_change_reply(change: UserChange, done: bool) -> (r: Result<Reply, PlainReply>)
    ensures
        match r {
            Ok(reply) => done && reply.deep_view() == json::text_reply(
                200,
                match change {
                    UserChange::Updated => "User updated successfully"@,
                    UserChange::Deleted => "User deleted successfully"@,
                },
            ),
            Err(e) => !done && e.deep_view() == refusal(
                500,
                match change {
                    UserChange::Updated => "Failed to update user"@,
                    UserChange::Deleted => "Failed to delete user"@,
                },
            ),
        },
{
    match (change, done) {
        (UserChange::Updated, true) => Ok(reply_text(200, "User updated successfully".to_owned())),
        (UserChange::Deleted, true) => Ok(reply_text(200, "User deleted successfully".to_owned())),
        (UserChange::Updated, false) => Err(PlainReply::new(500, "Failed to update user")),
        (UserChange::Deleted, false) => Err(PlainReply::new(500, "Failed to delete user")),
    }
}

/// A user who is no administrator changes no group, and no row but their own.
pub proof fn law_only_admins_change_others(
    uuid: Text,
    username: Text,
    password: Text,
    auth_group: Option<Text>,
    target: UserView,
    by: UserView,
)
    requires
        by.auth_group != ADMIN@,
        auth_group is Some || by.uuid != uuid || by.uuid != target.uuid,
    ensures
        user_update(uuid, username, password, auth_group, Some(target), by) matches Err(e)
            && e.status == 403,
{
}

/// A user who is no administrator deletes no row but their own.
pub proof fn law_only_admins_delete_others(id: Text, target: UserView, by: UserView)
    requires
        by.auth_group != ADMIN@,
        by.uuid != text::trimmed(id, Strip::Quote) || by.uuid != target.uuid,
    ensures
        user_deletion(id, Some(target), by) matches Err(e) && e.status == 403,
{
}

/// Everyone may change and delete their own row.
pub proof fn law_own_account_is_open(
    uuid: Text,
    username: Text,
    password: Text,
    user: UserView,
)
    requires
        user.uuid == uuid,
        text::trimmed(uuid, Strip::Quote) == uuid,
    ensures
        user_update(uuid, username, password, None, Some(user), user) is Ok,
        user_deletion(uuid, Some(user), user) == Ok::<UserView, PlainView>(user),
{
}

// ---------------------------------------------------------------------------
// The first user
// ---------------------------------------------------------------------------

/// A column of texts without rules.
pub open spec fn text_column(name: Text) -> ColumnView {
    ColumnView { name, data_type: DataType::String, rules: Seq::<RuleView>::empty() }
}

/// The table of users.
pub open spec fn users_definition() -> TableView {
    TableView {
        name: USERS_TABLE@,
        columns: seq![
            text_column("username"@),
            text_column("password_hash"@),
            text_column("auth_group"@),
        ],
    }
}

fn make_text_column(name: &str) -> (r: Column)
    ensures
        r.deep_view() == text_column(name@),
{
    let rules: Vec<Rule> = Vec::new();
    assert(rules.deep_view() =~= Seq::<RuleView>::empty());
    Column { name: name.to_owned(), data_type: DataType::String, rules }
}

/// The table of users.
pub fn users_table() -> (r: Table)
    ensures
        r.deep_view() == users_definition(),
{
    let mut columns: Vec<Column> = Vec::new();
    columns.push(make_text_column("username"));
    columns.push(make_text_column("password_hash"));
    columns.push(make_text_column("auth_group"));
    assert(columns.deep_view() =~= users_definition().columns);
    Table { name: USERS_TABLE.to_owned(), columns }
}

/// What is to be done so that there is a first user.
#[derive(Debug)]
pub enum SetupAction {
    /// A table is to be created.
    CreateTable(Table),
    /// A query is to be run that looks for the user.
    Select(Vec<ASTNode>),
    /// A query is to be run that adds the user.
    Insert(Vec<ASTNode>),
    /// There is nothing more to be done.
    Done,
    /// Something went wrong.
    Fail(DbError),
}

/// A [`SetupAction`] as a mathematical value.
pub enum SetupView {
    CreateTable(TableView),
    Select(Seq<ASTNodeView>),
    Insert(Seq<ASTNodeView>),
    Done,
    Fail(ErrorView),
}

impl DeepView for SetupAction {
    type V = SetupView;

    open spec fn deep_view(&self) -> SetupView {
        match self {
            SetupAction::CreateTable(table) => SetupView::CreateTable(table.deep_view()),
            SetupAction::Select(nodes) => SetupView::Select(nodes.deep_view()),
            SetupAction::Insert(nodes) => SetupView::Insert(nodes.deep_view()),
            SetupAction::Done => SetupView::Done,
            SetupAction::Fail(e) => SetupView::Fail(e.deep_view()),
        }
    }
}

/// An error of no particular kind.
pub open spec fn other_error(message: Text) -> SetupView {
    SetupView::Fail(ErrorView { kind: ErrorKind::Other, message })
}

/// The query that looks for the first user.
pub open spec fn admin_query_text() -> Text {
    "SELECT * FROM "@ + USERS_TABLE@ + " WHERE username = \"admin\""@
}

/// The query that adds the first user.
pub open spec fn admin_insert_text() -> Text {
    "INSERT INTO "@ + USERS_TABLE@
        + " (username, password_hash, auth_group) VALUES ( \"admin\", \"admin\", \"admin\")"@
}

/// The step in which the first user is looked for.
pub open spec fn select_step() -> SetupView {
    match parser::parse_query(vstd::utf8::encode_utf8(admin_query_text())) {
        Ok(nodes) => SetupView::Select(nodes),
        Err(e) => other_error("SELECT sql_parser error: "@ + e),
    }
}

/// The step in which the first user is added.
pub open spec fn insert_step() -> SetupView {
    match parser::parse_query(vstd::utf8::encode_utf8(admin_insert_text())) {
        Ok(nodes) => SetupView::Insert(nodes),
        Err(e) => other_error("INSERT sql_parser error: "@ + e),
    }
}

fn select_admin() -> (r: SetupAction)
    ensures
        r.deep_view() == select_step(),
{
    let query = concat3("SELECT * FROM ", USERS_TABLE, " WHERE username = \"admin\"");
    match sql_parser(query.as_str().as_bytes()) {
        Ok(nodes) => SetupAction::Select(nodes),
        Err(e) => SetupAction::Fail(
            DbError::new(ErrorKind::Other, concat2("SELECT sql_parser error: ", e.as_str())),
        ),
    }
}

fn insert_admin() -> (r: SetupAction)
    ensures
        r.deep_view() == insert_step(),
{
    let query = concat3(
        "INSERT INTO ",
        USERS_TABLE,
        " (username, password_hash, auth_group) VALUES ( \"admin\", \"admin\", \"admin\")",
    );
    match sql_parser(query.as_str().as_bytes()) {
        Ok(nodes) => SetupAction::Insert(nodes),
        Err(e) => SetupAction::Fail(
            DbError::new(ErrorKind::Other, concat2("INSERT sql_parser error: ", e.as_str())),
        ),
    }
}

/// What is to be done first so that there is a first user: the table of users
/// is created where there is none, and then the user is looked for.
pub fn create_default_user(schema: &Schema) -> (r: SetupAction)
    ensures
        r.deep_view() == if schema.deep_view().contains_key(schema::initial_name(USERS_TABLE@)) {
            select_step()
        } else {
            SetupView::CreateTable(users_definition())
        },
{
    if schema.tables.contains_key(initial_table_name(USERS_TABLE).as_str()) {
        select_admin()
    } else {
        SetupAction::CreateTable(users_table())
    }
}

/// What is to be done when the table of users was created.
pub fn users_table_created(error: &Option<DbError>) -> (r: SetupAction)
    ensures
        r.deep_view() == match error {
            None => select_step(),
            Some(e) => SetupView::Fail(e.deep_view()),
        },
{
    match error {
        None => select_admin(),
        Some(e) => SetupAction::Fail(e.duplicate()),
    }
}

/// The reply to a query, with its status in words and its body as a text.
#[derive(Debug, PartialEq, Eq)]
pub struct QueryReply {
    pub reply: Reply,
    pub status_text: String,
    pub body_text: String,
}

/// Whether the body of a reply says that no row was found.
pub open spec fn says_no_rows(body: JsonView) -> bool {
    body == json::message_reply(200, NO_ROWS@).body
}

/// What follows the query that looks for the first user: the user is there
/// where a row comes after the names of the columns, and is added where no row
/// was found.
pub open spec fn after_select(outcome: Result<QueryReply, String>) -> SetupView {
    match outcome {
        Err(e) => other_error("SELECT global_execute_query error: "@ + e@),
        Ok(q) => if !json::success(q.reply.status) {
            other_error(
                "SELECT query failed. Status: "@ + q.status_text@ + ". Body: "@ + q.body_text@,
            )
        } else {
            match json::as_array(q.reply.body.deep_view()) {
                Some(rows) => if rows.len() > 1 {
                    SetupView::Done
                } else {
                    insert_step()
                },
                None => if says_no_rows(q.reply.body.deep_view()) {
                    insert_step()
                } else {
                    SetupView::Fail(
                        ErrorView {
                            kind: ErrorKind::InvalidData,
                            message: "Unexpected JSON response format (not an array)"@,
                        },
                    )
                },
            }
        },
    }
}

/// What is to be done when the first user was looked for.
pub fn admin_selected(outcome: &Result<QueryReply, String>) -> (r: SetupAction)
    ensures
        r.deep_view() == after_select(*outcome),
{
    match outcome {
        Err(e) => SetupAction::Fail(
            DbError::new(
                ErrorKind::Other,
                concat2("SELECT global_execute_query error: ", e.as_str()),
            ),
        ),
        Ok(q) => if !is_success(q.reply.status) {
            SetupAction::Fail(
                DbError::new(
                    ErrorKind::Other,
                    concat4(
                        "SELECT query failed. Status: ",
                        q.status_text.as_str(),
                        ". Body: ",
                        q.body_text.as_str(),
                    ),
                ),
            )
        } else {
            match q.reply.body.as_array() {
                Some(rows) => if rows.len() > 1 {
                    SetupAction::Done
                } else {
                    insert_admin()
                },
                None => {
                    let none = reply_message(200, NO_ROWS.to_owned());
                    if json_eq(&q.reply.body, &none.body) {
                        insert_admin()
                    } else {
                        SetupAction::Fail(
                            DbError::new(
                                ErrorKind::InvalidData,
                                "Unexpected JSON response format (not an array)".to_owned(),
                            ),
                        )
                    }
                },
            }
        },
    }
}

/// The first user is added where there is none: where the query that looks for
/// the user finds no row besides the names of the columns, the user is added,
/// and where it finds one, nothing more is done.
pub proof fn law_first_user_is_added_once(
    schema: SchemaView,
    table: Text,
    columns: Seq<IdentifierView>,
    condition: ExpressionView,
    rows: Rows,
    names: Seq<Text>,
    q: QueryReply,
)
    requires
        schema::schema_column_names(schema, table) == Ok::<_, ErrorView>(names),
        q.reply.deep_view() == select::select_outcome(
            schema,
            table,
            columns,
            Some(condition),
            Ok(rows),
        ),
    ensures
        after_select(Ok(q)) == if select::kept_rows(rows, condition, names).len() <= 1 {
            insert_step()
        } else {
            SetupView::Done
        },
{
}

/// What follows the query that adds the first user.
pub open spec fn after_insert(outcome: Result<QueryReply, String>) -> SetupView {
    match outcome {
        Err(e) => other_error("INSERT global_execute_query error: "@ + e@),
        Ok(q) => if json::success(q.reply.status) {
            SetupView::Done
        } else {
            other_error(
                "Failed to create default admin user. Status: "@ + q.status_text@ + ". Body: "@
                    + q.body_text@,
            )
        },
    }
}

/// What is to be done when the first user was added.
pub fn admin_inserted(outcome: &Result<QueryReply, String>) -> (r: SetupAction)
    ensures
        r.deep_view() == after_insert(*outcome),
{
    match outcome {
        Err(e) => SetupAction::Fail(
            DbError::new(
                ErrorKind::Other,
                concat2("INSERT global_execute_query error: ", e.as_str()),
            ),
        ),
        Ok(q) => if is_success(q.reply.status) {
            SetupAction::Done
        } else {
            SetupAction::Fail(
                DbError::new(
                    ErrorKind::Other,
                    concat4(
                        "Failed to create default admin user. Status: ",
                        q.status_text.as_str(),
                        ". Body: ",
                        q.body_text.as_str(),
                    ),
                ),
            )
        },
    }
}

// ---------------------------------------------------------------------------
// Authentication
// ---------------------------------------------------------------------------

/// The name and the password in credentials: a text with one colon between the
/// two.
pub open spec fn split_credentials(credentials: Text) -> Option<(Text, Text)> {
    let parts = text::split(credentials, ':');
    if parts.len() == 2 {
        Some((parts[0], parts[1]))
    } else {
        None
    }
}

/// The name and the password in decoded credentials.
pub open spec fn decoded_credentials(decoded: Option<Seq<u8>>) -> Option<(Text, Text)> {
    match decoded {
        Some(bytes) => if vstd::utf8::valid_utf8(bytes) {
            split_credentials(vstd::utf8::decode_utf8(bytes))
        } else {
            None
        },
        None => None,
    }
}

/// Whether a header has the form of basic authentication.
pub open spec fn is_basic(header: Text) -> bool {
    text::starts_with(header, "Basic "@)
}

/// The name and the password in a header.
pub open spec fn header_credentials(header: Text) -> Option<(Text, Text)> {
    if is_basic(header) {
        decoded_credentials(outside::base64_bytes(header.skip(6)))
    } else {
        None
    }
}

/// The name and the password in decoded credentials.
pub fn credentials_in(decoded: &Option<Vec<u8>>) -> (r: Option<(String, String)>)
    ensures
        r.deep_view() == decoded_credentials(decoded.deep_view()),
{
    match decoded {
        None => None,
        Some(bytes) => {
            assert(bytes.deep_view() =~= bytes@);
            match utf8_to_string(bytes.as_slice()) {
                Err(_) => None,
                Ok(credentials) => {
                    let parts = split_on(credentials.as_str(), ':');
                    assert(parts.deep_view().len() == parts@.len());
                    if parts.len() == 2 {
                        Some((parts[0].clone(), parts[1].clone()))
                    } else {
                        None
                    }
                },
            }
        },
    }
}

/// The name and the password in a header.
pub fn credentials_of(header: &str) -> (r: Option<(String, String)>)
    ensures
        r.deep_view() == header_credentials(header@),
{
    if str_starts_with(header, "Basic ") {
        proof {
            reveal_strlit("Basic ");
        }
        let cs = chars_of(header);
        assert(header@.subrange(6, header@.len() as int) =~= header@.skip(6));
        let encoded = string_of(&cs, 6, cs.len());
        let decoded = base64_decode(encoded.as_str());
        credentials_in(&decoded)
    } else {
        None
    }
}

/// Who made a request.
#[derive(Debug, PartialEq, Eq)]
pub enum Authenticated {
    User(User),
    Node,
}

/// An [`Authenticated`] as a mathematical value.
pub enum AuthenticatedView {
    User(UserView),
    Node,
}

impl DeepView for Authenticated {
    type V = AuthenticatedView;

    open spec fn deep_view(&self) -> AuthenticatedView {
        match self {
            Authenticated::User(user) => AuthenticatedView::User(user.deep_view()),
            Authenticated::Node => AuthenticatedView::Node,
        }
    }
}

/// Whether credentials are those of a user who was admitted.
pub open spec fn is_admitted(credentials: Option<(Text, Text)>, user: Option<UserView>) -> bool {
    match (credentials, user) {
        (Some((_, password)), Some(u)) => u.password_hash == password && u.auth_group != PENDING@,
        _ => false,
    }
}

/// Who made a request with a header, given the credentials in it, the user
/// under their name, and the headers of the nodes, where they could be read.
pub open spec fn authenticated(
    header: Text,
    credentials: Option<(Text, Text)>,
    user: Option<UserView>,
    node_headers: Option<Seq<Text>>,
) -> Result<AuthenticatedView, PlainView> {
    if !is_basic(header) {
        Err(refusal(401, "Invalid credentials or missing authorization"@))
    } else if is_admitted(credentials, user) {
        Ok(AuthenticatedView::User(user->Some_0))
    } else {
        match node_headers {
            None => Err(refusal(401, "Authentication failed (node config error)"@)),
            Some(headers) => if headers.contains(header) {
                Ok(AuthenticatedView::Node)
            } else {
                Err(refusal(401, "Invalid credentials or missing authorization"@))
            },
        }
    }
}

/// The headers of nodes.
pub open spec fn headers_of(nodes: Seq<NodeView>) -> Seq<Text> {
    Seq::new(nodes.len(), |i: int| replication_nodes::node_header(nodes[i]))
}

/// Who made a request, given its header, the user under the name in it, and the
/// nodes, where they could be read.
pub open spec fn request_author(
    header: Option<Text>,
    user: Option<UserView>,
    nodes: Option<Seq<NodeView>>,
) -> Result<AuthenticatedView, PlainView> {
    match header {
        None => Err(refusal(401, "Invalid credentials or missing authorization"@)),
        Some(h) => authenticated(
            h,
            header_credentials(h),
            user,
            match nodes {
                Some(ns) => Some(headers_of(ns)),
                None => None,
            },
        ),
    }
}

/// Who made a request with a header, given the credentials in it, the user
/// under their name, and the headers of the nodes, where they could be read.
pub fn authenticate_with(
    header: &str,
    credentials: &Option<(String, String)>,
    user: &Option<User>,
    node_headers: &Option<Vec<String>>,
) -> (r: Result<Authenticated, PlainReply>)
    ensures
        match r {
            Ok(who) => authenticated(
                header@,
                credentials.deep_view(),
                user.deep_view(),
                node_headers.deep_view(),
            ) == Ok::<_, PlainView>(who.deep_view()),
            Err(e) => authenticated(
                header@,
                credentials.deep_view(),
                user.deep_view(),
                node_headers.deep_view(),
            ) == Err::<AuthenticatedView, _>(e.deep_view()),
        },
{
    if !str_starts_with(header, "Basic ") {
        return Err(PlainReply::new(401, "Invalid credentials or missing authorization"));
    }
    match (credentials, user) {
        (Some((_, password)), Some(u)) => {
            if str_eq(u.password_hash.as_str(), password.as_str()) && !str_eq(
                u.auth_group.as_str(),
                PENDING,
            ) {
                return Ok(Authenticated::User(u.duplicate()));
            }
        },
        _ => {},
    }
    match node_headers {
        None => Err(PlainReply::new(401, "Authentication failed (node config error)")),
        Some(headers) => if is_among(headers, header) {
            Ok(Authenticated::Node)
        } else {
            Err(PlainReply::new(401, "Invalid credentials or missing authorization"))
        },
    }
}

fn make_headers(nodes: &NodesConfig) -> (r: Vec<String>)
    ensures
        r.deep_view() == headers_of(nodes.deep_view()),
{
    let list = &nodes.nodes;
    let ghost ns = list.deep_view();
    let mut r: Vec<String> = Vec::new();
    let mut i: usize = 0;
    while i < list.len()
        invariant
            i <= list@.len(),
            ns == list.deep_view(),
            r@.len() == i,
            forall|k: int|
                0 <= k < i ==> (#[trigger] r@[k])@ == replication_nodes::node_header(ns[k]),
        decreases list@.len() - i,
    {
        assert(ns[i as int] == list@[i as int].deep_view());
        r.push(auth_header(&list[i]));
        i = i + 1;
    }
    assert(r.deep_view() =~= headers_of(ns));
    r
}

/// Who made a request, given its header, the user under the name in it, and the
/// nodes, where they could be read.
pub fn authenticate_request(
    header: &Option<String>,
    user: &Option<User>,
    nodes: &Option<NodesConfig>,
) -> (r: Result<Authenticated, PlainReply>)
    ensures
        match r {
            Ok(who) => request_author(
                header.deep_view(),
                user.deep_view(),
                nodes.deep_view(),
            ) == Ok::<_, PlainView>(who.deep_view()),
            Err(e) => request_author(
                header.deep_view(),
                user.deep_view(),
                nodes.deep_view(),
            ) == Err::<AuthenticatedView, _>(e.deep_view()),
        },
{
    match header {
        None => Err(PlainReply::new(401, "Invalid credentials or missing authorization")),
        Some(h) => {
            let credentials = credentials_of(h.as_str());
            let headers = match nodes {
                Some(config) => Some(make_headers(config)),
                None => None,
            };
            authenticate_with(h.as_str(), &credentials, user, &headers)
        },
    }
}

/// A request without a header is refused, and so is one whose credentials are
/// those of no user and of no node.
pub proof fn law_unknown_request_is_refused(
    header: Option<Text>,
    user: Option<UserView>,
    nodes: Option<Seq<NodeView>>,
)
    requires
        header matches Some(h) ==> !is_admitted(header_credentials(h), user) && (
        nodes matches Some(ns) ==> forall|i: int|
            0 <= i < ns.len() ==> replication_nodes::node_header(#[trigger] ns[i]) != h),
    ensures
        request_author(header, user, nodes) matches Err(e) && e.status == 401,
{
    match (header, nodes) {
        (Some(h), Some(ns)) => {
            if headers_of(ns).contains(h) {
                let i = choose|i: int| 0 <= i < headers_of(ns).len() && headers_of(ns)[i] == h;
                assert(replication_nodes::node_header(ns[i]) == h);
            }
        },
        _ => {},
    }
}

/// A user who was admitted is known by name and password. Neither the name nor
/// the password holds a colon.
pub proof fn law_admitted_user_is_known(
    header: Text,
    name: Text,
    user: UserView,
    nodes: Option<Seq<NodeView>>,
)
    requires
        is_basic(header),
        outside::base64_bytes(header.skip(6)) == Some(
            vstd::utf8::encode_utf8(name + ":"@ + user.password_hash),
        ),
        !name.contains(':'),
        !user.password_hash.contains(':'),
        user.auth_group != PENDING@,
    ensures
        request_author(Some(header), Some(user), nodes) == Ok::<_, PlainView>(
            AuthenticatedView::User(user),
        ),
{
    let credentials = name + ":"@ + user.password_hash;
    vstd::utf8::encode_utf8_valid_utf8(credentials);
    vstd::utf8::encode_utf8_decode_utf8(credentials);
    let parts = seq![name, user.password_hash];
    reveal_strlit(":");
    assert(":"@ =~= seq![':']);
    text::law_split_of_join(parts, ':');
    assert(text::join(parts, seq![':']) =~= credentials) by {
        reveal_with_fuel(text::join, 3);
        assert(parts.drop_last() =~= seq![name]);
    }
}

/// A user whom nobody has admitted yet is refused, even with the right
/// password, unless the credentials are those of a node.
pub proof fn law_pending_user_is_refused(
    header: Text,
    user: UserView,
    nodes: Option<Seq<NodeView>>,
)
    requires
        user.auth_group == PENDING@,
        nodes matches Some(ns) ==> forall|i: int|
            0 <= i < ns.len() ==> replication_nodes::node_header(#[trigger] ns[i]) != header,
    ensures
        request_author(Some(header), Some(user), nodes) is Err,
{
    law_unknown_request_is_refused(Some(header), Some(user), nodes);
}

/// A node is known by its name and its secret.
pub proof fn law_node_is_known(
    node: NodeView,
    user: Option<UserView>,
    nodes: Seq<NodeView>,
    i: int,
)
    requires
        0 <= i < nodes.len(),
        nodes[i] == node,
    ensures
        request_author(Some(replication_nodes::node_header(node)), user, Some(nodes)) is Ok,
{
    let header = replication_nodes::node_header(node);
    assert(headers_of(nodes)[i] == header);
    assert(headers_of(nodes).contains(header));
    reveal_strlit("Basic ");
    assert("Basic "@.is_prefix_of(header)) by {
        assert(header.take("Basic "@.len() as int) =~= "Basic "@);
    }
}

} // verus!
