use rust_db_engine::auth::auth::{
    admin_inserted, admin_selected, authenticate_request, authenticate_with, create_default_user,
    create_user, create_user_with, credentials_in, credentials_of, delete_user,
    fetch_user_from_db, login, update_user, user_cells, user_change_reply, user_query,
    users_table, users_table_created, Authenticated, CreateUserRequest, DeleteUserRequest,
    LoginRequest, QueryReply, SetupAction, UpdateUserRequest, User, UserCache, UserChange,
};
use rust_db_engine::errors::{DbError, ErrorKind};
use rust_db_engine::executer::executer::{plan_query, QueryPlan};
use rust_db_engine::executer::replies::inserted_reply;
use rust_db_engine::executer::select::handle_select;
use rust_db_engine::json::{Json, Reply};
use rust_db_engine::query::parser::{sql_parser, ASTNode, Expression, Identifier};
use rust_db_engine::records::changes::insert_row;
use rust_db_engine::records::table::{add_row_to_cache, Cache, TableFiles};
use rust_db_engine::replication::replication_nodes::{
    auth_header, NodesConfig, ReplicationMode, ReplicationNode,
};
use rust_db_engine::schema::schema::{create_table, Schema};
use rust_db_engine::string_map::StringMap;

fn text(s: &str) -> Json {
    Json::Str(s.to_string())
}

fn user(uuid: &str, name: &str, password: &str, group: &str) -> User {
    User {
        uuid: uuid.to_string(),
        username: name.to_string(),
        password_hash: password.to_string(),
        auth_group: group.to_string(),
    }
}

fn node() -> ReplicationNode {
    ReplicationNode {
        name: "north".to_string(),
        node_url: "http://north:8080".to_string(),
        description: String::new(),
        replication_mode: ReplicationMode::All,
        shared_secret: "s3cret".to_string(),
    }
}

fn rows(rows: Vec<Vec<Json>>) -> Reply {
    Reply { status: 200, body: Json::Array(rows.into_iter().map(Json::Array).collect()) }
}

fn header_row() -> Vec<Json> {
    vec![text("UUID"), text("username"), text("password_hash"), text("auth_group")]
}

// "Aladdin:open sesame" in Base64.
const ALADDIN: &str = "Basic QWxhZGRpbjpvcGVuIHNlc2FtZQ==";

#[test]
fn credentials_are_read_from_a_header() {
    assert_eq!(
        credentials_of(ALADDIN),
        Some(("Aladdin".to_string(), "open sesame".to_string()))
    );
    assert_eq!(credentials_of("Bearer QWxhZGRpbjpvcGVuIHNlc2FtZQ=="), None);
    assert_eq!(credentials_of("Basic ***"), None);
    assert_eq!(credentials_in(&Some(b"a:b:c".to_vec())), None);
    assert_eq!(credentials_in(&Some(b"a".to_vec())), None);
    assert_eq!(credentials_in(&Some(vec![0xff])), None);
    assert_eq!(credentials_in(&None), None);
}

#[test]
fn an_admitted_user_is_known() {
    let aladdin = user("u", "Aladdin", "open sesame", "user");
    let who = authenticate_request(
        &Some(ALADDIN.to_string()),
        &Some(user("u", "Aladdin", "open sesame", "user")),
        &None,
    );
    assert_eq!(who, Ok(Authenticated::User(aladdin)));
}

#[test]
fn a_pending_user_is_refused() {
    let refused = authenticate_request(
        &Some(ALADDIN.to_string()),
        &Some(user("u", "Aladdin", "open sesame", "pending")),
        &Some(NodesConfig::default()),
    )
    .err()
    .unwrap();
    assert_eq!(refused.status, 401);
    assert_eq!(refused.message, "Invalid credentials or missing authorization");
}

#[test]
fn a_wrong_password_is_refused() {
    let refused = authenticate_request(
        &Some(ALADDIN.to_string()),
        &Some(user("u", "Aladdin", "close sesame", "admin")),
        &None,
    )
    .err()
    .unwrap();
    assert_eq!(refused.status, 401);
    assert_eq!(refused.message, "Authentication failed (node config error)");
}

#[test]
fn a_request_without_a_header_is_refused() {
    let refused = authenticate_request(&None, &None, &Some(NodesConfig::default())).err().unwrap();
    assert_eq!(refused.status, 401);
    assert_eq!(refused.message, "Invalid credentials or missing authorization");
    let refused = authenticate_with("Digest x", &None, &None, &None).err().unwrap();
    assert_eq!(refused.message, "Invalid credentials or missing authorization");
}

#[test]
fn a_node_is_known_by_its_secret() {
    // "north:s3cret" in Base64.
    assert_eq!(auth_header(&node()), "Basic bm9ydGg6czNjcmV0");
    let nodes = Some(NodesConfig { nodes: vec![node()] });
    let who = authenticate_request(&Some(auth_header(&node())), &None, &nodes);
    assert_eq!(who, Ok(Authenticated::Node));
    let mut other = node();
    other.shared_secret = "wrong".to_string();
    assert!(authenticate_request(&Some(auth_header(&other)), &None, &nodes).is_err());
}

#[test]
fn a_user_is_read_from_a_reply() {
    let found = fetch_user_from_db(&rows(vec![
        header_row(),
        vec![text("u"), text("ann"), text("pw"), text("admin"), text("2025")],
    ]));
    assert_eq!(found, Some(user("u", "ann", "pw", "admin")));
    assert_eq!(fetch_user_from_db(&rows(vec![header_row()])), None);
    assert_eq!(
        fetch_user_from_db(&rows(vec![
            header_row(),
            vec![text("u"), text("ROW_REMOVED"), text("x"), text("y")],
        ])),
        None
    );
    assert_eq!(
        fetch_user_from_db(&rows(vec![header_row(), vec![text("u"), text("ann"), text("pw")]])),
        None
    );
    assert_eq!(
        fetch_user_from_db(&rows(vec![
            header_row(),
            vec![Json::Int(1), text("ann"), text("pw"), text("g")],
        ])),
        None
    );
    assert_eq!(fetch_user_from_db(&Reply { status: 404, body: Json::Array(vec![]) }), None);
    assert_eq!(fetch_user_from_db(&Reply { status: 200, body: Json::Null }), None);
}

#[test]
fn a_user_is_looked_up_by_name() {
    let nodes = user_query("ann").unwrap();
    assert_eq!(
        nodes[1],
        ASTNode::Where {
            condition: Expression::Comparison {
                left: Identifier::Name("username".to_string()),
                operator: "=".to_string(),
                right: Identifier::Literal("ann".to_string(), None),
            }
        }
    );
}

#[test]
fn a_changed_user_is_looked_up_again() {
    let mut cache = UserCache::new();
    assert_eq!(cache.get("ann"), None);
    cache.insert("ann", &user("u", "ann", "pw", "g"));
    assert_eq!(cache.get("ann"), Some(user("u", "ann", "pw", "g")));
    cache.remove("ann");
    assert_eq!(cache.get("ann"), None);
}

#[test]
fn a_user_logs_in_with_a_password() {
    let request = LoginRequest { username: "ann".to_string(), password: "pw".to_string() };
    let ann = user("u", "ann", "pw", "pending");
    assert_eq!(
        login(&request, &Some(user("u", "ann", "pw", "pending"))),
        Ok(ann)
    );
    for other in [None, Some(user("u", "ann", "wrong", "g"))] {
        let refused = login(&request, &other).err().unwrap();
        assert_eq!((refused.status, refused.message.as_str()), (401, "Invalid credentials"));
    }
}

#[test]
fn a_new_user_is_pending() {
    let request = CreateUserRequest { username: "ann".to_string(), password: "pw".to_string() };
    let made = create_user_with(&request, &None, "u".to_string()).unwrap();
    assert_eq!(made, user("u", "ann", "pw", "pending"));
    assert_eq!(user_cells(&made), vec!["u", "ann", "pw", "pending"]);
    let other = create_user(&request, &None).unwrap();
    assert_eq!(other.uuid.len(), 36);
    let refused = create_user(&request, &Some(made)).err().unwrap();
    assert_eq!((refused.status, refused.message.as_str()), (400, "Username already exists"));
}

fn change(group: Option<&str>, password: &str) -> UpdateUserRequest {
    UpdateUserRequest {
        uuid: "u".to_string(),
        username: "ann".to_string(),
        password: password.to_string(),
        auth_group: group.map(|g| g.to_string()),
    }
}

#[test]
fn only_admins_change_others() {
    let ann = Some(user("u", "ann", "pw", "user"));
    let bob = user("v", "bob", "pw", "user");
    let admin = user("w", "root", "pw", "admin");
    let refused = update_user(&change(None, "x"), &ann, &bob).err().unwrap();
    assert_eq!(refused.status, 403);
    assert_eq!(refused.message, "You can only update your own account");
    let refused =
        update_user(&change(Some("admin"), "x"), &ann, &user("u", "ann", "pw", "user"))
            .err()
            .unwrap();
    assert_eq!(refused.status, 403);
    assert_eq!(refused.message, "Only administrators can change user groups");
    let refused = update_user(&change(None, "x"), &None, &admin).err().unwrap();
    assert_eq!(refused.status, 400);
    assert_eq!(refused.message, "User doesn't exist");
    let granted = update_user(&change(Some("user"), ""), &ann, &admin).unwrap();
    assert_eq!(granted.row_id, "\"u\"");
    assert_eq!(granted.values.get("username").unwrap(), "ann");
    assert_eq!(granted.values.get("password_hash").unwrap(), "pw");
    assert_eq!(granted.values.get("auth_group").unwrap(), "user");
    let own = update_user(&change(None, "new"), &ann, &user("u", "ann", "pw", "user")).unwrap();
    assert_eq!(own.values.get("password_hash").unwrap(), "new");
    assert!(own.values.get("auth_group").is_none());
}

#[test]
fn the_row_of_another_user_is_not_changed_under_the_own_name() {
    let ann = user("u", "ann", "pw", "user");
    let request = UpdateUserRequest {
        uuid: "v".to_string(),
        username: "ann".to_string(),
        password: "x".to_string(),
        auth_group: None,
    };
    let refused =
        update_user(&request, &Some(user("u", "ann", "pw", "user")), &ann).err().unwrap();
    assert_eq!(refused.status, 403);
    assert_eq!(refused.message, "You can only update your own account");
    let root = user("w", "root", "pw", "admin");
    let granted = update_user(&request, &Some(user("u", "ann", "pw", "user")), &root).unwrap();
    assert_eq!(granted.row_id, "\"v\"");
}

#[test]
fn a_user_is_deleted_by_themselves_or_an_admin() {
    let ann = Some(user("u", "ann", "pw", "user"));
    let request =
        |id: &str| DeleteUserRequest { id: id.to_string(), username: "ann".to_string() };
    let own = user("u", "ann", "pw", "user");
    assert_eq!(delete_user(&request("u"), &ann, &own).unwrap(), own);
    assert!(delete_user(&request("\"u\""), &ann, &own).is_ok());
    assert!(delete_user(&request("u"), &ann, &user("w", "root", "pw", "admin")).is_ok());
    assert_eq!(delete_user(&request("v"), &ann, &own).err().unwrap().status, 403);
    let refused =
        delete_user(&request("u"), &ann, &user("v", "bob", "pw", "user")).err().unwrap();
    assert_eq!(refused.status, 403);
    assert_eq!(
        refused.message,
        "You can only delete your own account or must be an administrator"
    );
    let refused = delete_user(&request("u"), &None, &user("w", "root", "pw", "admin")).err().unwrap();
    assert_eq!(refused.status, 400);
}

#[test]
fn changes_to_users_are_told() {
    assert_eq!(
        user_change_reply(UserChange::Updated, true).unwrap().body,
        text("User updated successfully")
    );
    assert_eq!(
        user_change_reply(UserChange::Deleted, true).unwrap().body,
        text("User deleted successfully")
    );
    let failed = user_change_reply(UserChange::Updated, false).err().unwrap();
    assert_eq!((failed.status, failed.message.as_str()), (500, "Failed to update user"));
    let failed = user_change_reply(UserChange::Deleted, false).err().unwrap();
    assert_eq!((failed.status, failed.message.as_str()), (500, "Failed to delete user"));
}

fn reply(status: u16, body: Json) -> Result<QueryReply, String> {
    Ok(QueryReply {
        reply: Reply { status, body },
        status_text: "S".to_string(),
        body_text: "B".to_string(),
    })
}

fn failure(action: SetupAction) -> (ErrorKind, String) {
    match action {
        SetupAction::Fail(e) => (e.kind, e.message),
        _ => panic!("expected a failure"),
    }
}

#[test]
fn the_first_user_is_made_once() {
    let mut schema = Schema::default();
    match create_default_user(&schema) {
        SetupAction::CreateTable(table) => create_table(&mut schema, &table),
        _ => panic!("expected a table"),
    }
    assert_eq!(users_table().columns.len(), 3);
    match create_default_user(&schema) {
        SetupAction::Select(nodes) => assert_eq!(
            nodes,
            sql_parser(b"SELECT * FROM users WHERE username = \"admin\"").unwrap()
        ),
        _ => panic!("expected a query"),
    }
    assert!(matches!(users_table_created(&None), SetupAction::Select(_)));
    let one_row = Json::Array(vec![Json::Array(header_row())]);
    match admin_selected(&reply(200, one_row)) {
        SetupAction::Insert(nodes) => match &nodes[0] {
            ASTNode::Insert { values, .. } => assert_eq!(values.len(), 3),
            _ => panic!("expected an insert"),
        },
        _ => panic!("expected a query"),
    }
    let two_rows = Json::Array(vec![Json::Null, Json::Null]);
    assert!(matches!(admin_selected(&reply(200, two_rows)), SetupAction::Done));
    assert!(matches!(admin_inserted(&reply(200, Json::Null)), SetupAction::Done));
}

/// Runs a query on the table of users, whose rows are in the cache.
fn run(schema: &Schema, cache: &mut Cache, nodes: &Vec<ASTNode>) -> Result<QueryReply, String> {
    let files = || TableFiles { initial: Ok(vec![]), updates: Ok(vec![]) };
    let answer = match plan_query(nodes) {
        QueryPlan::Select { columns, table, timestamp, condition } => {
            handle_select(schema, cache, &files(), &table, &columns, &timestamp, &condition)
        }
        QueryPlan::Insert { table, values, columns } => {
            let row = insert_row(schema, cache, &files(), &table, &values, &columns).unwrap();
            add_row_to_cache(cache, &files(), &table, row.cells).unwrap();
            inserted_reply(&row.uuid)
        }
        _ => panic!("expected a query"),
    };
    reply(answer.status, answer.body)
}

#[test]
fn the_first_user_is_added_to_an_empty_table() {
    let mut schema = Schema::default();
    create_table(&mut schema, &users_table());
    let mut cache: Cache = StringMap::new();
    let mut action = create_default_user(&schema);
    let mut inserted = 0;
    loop {
        action = match action {
            SetupAction::Select(nodes) => admin_selected(&run(&schema, &mut cache, &nodes)),
            SetupAction::Insert(nodes) => {
                inserted += 1;
                admin_inserted(&run(&schema, &mut cache, &nodes))
            }
            SetupAction::Done => break,
            _ => panic!("expected a query"),
        };
    }
    assert_eq!(inserted, 1);
    let rows = cache.get("users").unwrap();
    assert_eq!(rows.len(), 1);
    for cell in &rows[0][1..4] {
        assert_eq!(cell, "\"admin\"");
    }
    match create_default_user(&schema) {
        SetupAction::Select(nodes) => {
            let outcome = run(&schema, &mut cache, &nodes);
            assert!(matches!(admin_selected(&outcome), SetupAction::Done));
        }
        _ => panic!("expected a query"),
    }
}

#[test]
fn a_failed_setup_says_why() {
    assert_eq!(
        failure(users_table_created(&Some(DbError::new(ErrorKind::NotFound, "x".to_string())))),
        (ErrorKind::NotFound, "x".to_string())
    );
    assert_eq!(
        failure(admin_selected(&Err("x".to_string()))),
        (ErrorKind::Other, "SELECT global_execute_query error: x".to_string())
    );
    assert_eq!(
        failure(admin_selected(&reply(500, Json::Null))),
        (ErrorKind::Other, "SELECT query failed. Status: S. Body: B".to_string())
    );
    assert_eq!(
        failure(admin_selected(&reply(200, Json::Null))),
        (ErrorKind::InvalidData, "Unexpected JSON response format (not an array)".to_string())
    );
    assert_eq!(
        failure(admin_inserted(&Err("x".to_string()))),
        (ErrorKind::Other, "INSERT global_execute_query error: x".to_string())
    );
    assert_eq!(
        failure(admin_inserted(&reply(500, Json::Null))),
        (
            ErrorKind::Other,
            "Failed to create default admin user. Status: S. Body: B".to_string()
        )
    );
}
