//! Who is let in, and what the requests about users do.

use crate::auth::auth;
use crate::auth::auth::{QueryReply, UserView};
use crate::json::{JsonView, PlainView, ReplyView};
use crate::outside;
use crate::replication::replication_nodes;
use crate::schema::schema::DataType;
use crate::replication::replication_nodes::NodeView;
use crate::text;
use crate::text::Text;
use vstd::prelude::*;

verus! {

/// Whether a header is none of those with which nodes authenticate themselves:
/// the name and the secret of a node with a colon between them, in Base64.
pub open spec fn is_of_no_node(header: Text, nodes: Option<Seq<NodeView>>) -> bool {
    nodes matches Some(ns) ==> forall|i: int|
        0 <= i < ns.len() ==> header != "Basic "@ + outside::base64_of(
            vstd::utf8::encode_utf8((#[trigger] ns[i]).name + ":"@ + ns[i].shared_secret),
        )
}

proof fn lemma_of_no_node(header: Text, nodes: Option<Seq<NodeView>>)
    requires
        is_of_no_node(header, nodes),
    ensures
        nodes matches Some(ns) ==> !auth::headers_of(ns).contains(header),
{
    if let Some(ns) = nodes {
        let headers = auth::headers_of(ns);
        if headers.contains(header) {
            let i = choose|i: int| 0 <= i < headers.len() && headers[i] == header;
            assert(headers[i] == replication_nodes::node_header(ns[i]));
        }
    }
}

/// A wrong password is refused: whoever the user is, a request with another
/// password than theirs, and with the credentials of no node, is not let in.
pub proof fn law_wrong_password_is_refused(
    header: Text,
    name: Text,
    password: Text,
    user: Option<UserView>,
    nodes: Option<Seq<NodeView>>,
)
    requires
        outside::base64_bytes(header.skip(6)) == Some(
            vstd::utf8::encode_utf8(name + ":"@ + password),
        ),
        !name.contains(':'),
        !password.contains(':'),
        user matches Some(u) ==> u.password_hash != password,
        is_of_no_node(header, nodes),
    ensures
        auth::request_author(Some(header), user, nodes) matches Err(e) && e.status == 401,
{
    lemma_of_no_node(header, nodes);
    lemma_credentials(name, password);
}

proof fn lemma_credentials(name: Text, password: Text)
    requires
        !name.contains(':'),
        !password.contains(':'),
    ensures
        auth::decoded_credentials(Some(vstd::utf8::encode_utf8(name + ":"@ + password))) == Some(
            (name, password),
        ),
{
    let parts = seq![name, password];
    let whole = name + ":"@ + password;
    reveal_strlit(":");
    assert(":"@ =~= seq![':']);
    assert(parts.drop_last() =~= seq![name]);
    assert(text::join(seq![name], seq![':']) == name);
    assert(text::join(parts, seq![':']) == whole);
    text::law_split_of_join(parts, ':');
    vstd::utf8::encode_utf8_valid_utf8(whole);
    vstd::utf8::encode_utf8_decode_utf8(whole);
}

/// A request without the word for basic authentication, with credentials that
/// cannot be decoded, or without a user under its name, is not let in, unless its
/// credentials are those of a node.
pub proof fn law_unreadable_request_is_refused(
    header: Text,
    user: Option<UserView>,
    nodes: Option<Seq<NodeView>>,
)
    requires
        !"Basic "@.is_prefix_of(header) || outside::base64_bytes(header.skip(6)) is None || user
            is None,
        is_of_no_node(header, nodes),
    ensures
        auth::request_author(Some(header), user, nodes) matches Err(e) && e.status == 401,
{
    lemma_of_no_node(header, nodes);
}

/// A new user has the name and the password of the request, and waits to be
/// admitted.
pub proof fn law_new_user_waits(username: Text, password: Text, uuid: Text)
    ensures
        auth::new_user(username, password, uuid) == (UserView {
            uuid,
            username,
            password_hash: password,
            auth_group: "pending"@,
        }),
{
}

/// What is stored of a user is what is read of them, as long as none of it holds
/// the mark of a removed row.
pub proof fn law_stored_user_is_read(user: UserView, header: JsonView, more: Seq<JsonView>)
    requires
        forall|i: int|
            0 <= i < 4 ==> !text::contains_text(
                #[trigger] auth::user_row(user)[i],
                "ROW_REMOVED"@,
            ),
        auth::is_text_row(header),
        forall|i: int| 0 <= i < more.len() ==> auth::is_text_row(#[trigger] more[i]),
    ensures
        auth::user_of_reply(
            (ReplyView {
                status: 200,
                body: JsonView::Array(
                    seq![
                        header,
                        JsonView::Array(
                            seq![
                                JsonView::Str(user.uuid),
                                JsonView::Str(user.username),
                                JsonView::Str(user.password_hash),
                                JsonView::Str(user.auth_group),
                            ],
                        ),
                    ] + more,
                ),
            }),
        ) == Some(user),
        auth::user_row(user) == seq![
            user.uuid,
            user.username,
            user.password_hash,
            user.auth_group,
        ],
{
    let row = JsonView::Array(
        seq![
            JsonView::Str(user.uuid),
            JsonView::Str(user.username),
            JsonView::Str(user.password_hash),
            JsonView::Str(user.auth_group),
        ],
    );
    let rows = seq![header, row] + more;
    let body = JsonView::Array(rows);
    assert(rows[0] == header && rows[1] == row);
    assert forall|i: int| 0 <= i < rows.len() implies auth::is_text_row(#[trigger] rows[i]) by {
        if i >= 2 {
            assert(rows[i] == more[i - 2]);
        }
    }
    let cells = auth::texts_in(row);
    assert(cells =~= auth::user_row(user));
    assert(!auth::is_marked_removed(cells));
}

/// There is no user in a reply that is no success, that has no row after the
/// column names, or whose row bears the mark of a removed row.
pub proof fn law_no_user_is_read(reply: ReplyView)
    requires
        ({
            ||| !(200 <= reply.status < 300)
            ||| reply.body matches JsonView::Array(rows) && rows.len() <= 1
            ||| reply.body matches JsonView::Array(rows) && rows.len() > 1 && (
            rows[1] matches JsonView::Array(cells) && exists|i: int|
                0 <= i < cells.len() && ((#[trigger] cells[i]) matches JsonView::Str(t)
                    && text::contains_text(t, "ROW_REMOVED"@)))
            ||| !(reply.body is Array)
        }),
    ensures
        auth::user_of_reply(reply) is None,
{
    if let JsonView::Array(rows) = reply.body {
        if rows.len() > 1 {
            if let JsonView::Array(cells) = rows[1] {
                if exists|i: int|
                    0 <= i < cells.len() && ((#[trigger] cells[i]) matches JsonView::Str(t)
                        && text::contains_text(t, "ROW_REMOVED"@)) {
                    let i = choose|i: int|
                        0 <= i < cells.len() && ((#[trigger] cells[i]) matches JsonView::Str(t)
                            && text::contains_text(t, "ROW_REMOVED"@));
                    let texts = auth::texts_in(rows[1]);
                    assert(texts[i] == cells[i]->Str_0);
                }
            }
        }
    }
}

/// A change of a user gives them the name of the request, its password where it
/// has one, and its group where it has one, and nothing else.
pub proof fn law_changed_user_gets_the_values(
    uuid: Text,
    username: Text,
    password: Text,
    auth_group: Option<Text>,
    target: UserView,
    by: UserView,
)
    requires
        by.auth_group == "admin"@ || (by.uuid == target.uuid && by.uuid == uuid && auth_group
            is None),
    ensures
        auth::user_update(uuid, username, password, auth_group, Some(target), by) matches Ok(values)
            && {
            &&& values.contains_key("username"@) && values["username"@] == username
            &&& values.contains_key("password_hash"@) && values["password_hash"@] == if password.len()
                > 0 {
                password
            } else {
                target.password_hash
            }
            &&& values.contains_key("auth_group"@) == (auth_group is Some)
            &&& auth_group matches Some(group) ==> values["auth_group"@] == group
            &&& values.dom().subset_of(set!["username"@, "password_hash"@, "auth_group"@])
        },
{
    reveal_strlit("username");
    reveal_strlit("password_hash");
    reveal_strlit("auth_group");
    assert("username"@.len() == 8 && "password_hash"@.len() == 13 && "auth_group"@.len() == 10);
}

/// A user whom there is not is neither changed nor deleted, and an administrator
/// deletes whom they name.
pub proof fn law_admin_deletes_the_target(id: Text, target: UserView, by: UserView)
    requires
        by.auth_group == "admin"@,
    ensures
        auth::user_deletion(id, Some(target), by) == Ok::<_, PlainView>(target),
        auth::user_deletion(id, None, by) matches Err(e) && e.status == 400,
        forall|username: Text, password: Text|
            #[trigger] auth::user_update(id, username, password, None, None, by) matches Err(e)
                && e.status == 400,
{
}

/// A user is looked for by their name in the table of the users.
pub proof fn law_user_is_looked_up_by_name(username: Text)
    ensures
        auth::user_query_text(username) == "SELECT * FROM "@ + "users"@ + " WHERE username = "@
            + username,
{
}

// ---------------------------------------------------------------------------
// The first user
// ---------------------------------------------------------------------------

/// The table of the users has a column of texts for the name, for the password
/// and for the group, in this order.
pub proof fn law_users_have_their_columns()
    ensures
        ({
            let table = auth::users_definition();
            &&& table.name == "users"@
            &&& table.columns.len() == 3
            &&& table.columns[0].name == "username"@
            &&& table.columns[1].name == "password_hash"@
            &&& table.columns[2].name == "auth_group"@
            &&& forall|i: int|
                0 <= i < 3 ==> (#[trigger] table.columns[i]).data_type == DataType::String
        }),
{
}

/// Looking for the first user fails where the query fails, and so does adding
/// them; where adding succeeds, nothing more is to be done.
pub proof fn law_setup_fails_with_its_queries(q: QueryReply, e: String)
    ensures
        auth::after_select(Err(e)) is Fail,
        auth::after_insert(Err(e)) is Fail,
        !(200 <= q.reply.status < 300) ==> auth::after_select(Ok(q)) is Fail && auth::after_insert(
            Ok(q),
        ) is Fail,
        200 <= q.reply.status < 300 ==> auth::after_insert(Ok(q)) is Done,
{
}

/// The first user is looked for, and added, in the table of the users, by the name
/// that they are given.
pub proof fn law_first_user_is_looked_for_by_name()
    ensures
        auth::admin_query_text() == "SELECT * FROM "@ + "users"@
            + " WHERE username = \"admin\""@,
        auth::admin_insert_text() == "INSERT INTO "@ + "users"@
            + " (username, password_hash, auth_group) VALUES ( \"admin\", \"admin\", \"admin\")"@,
{
}

} // verus!
