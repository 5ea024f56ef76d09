use rust_db_engine::errors::{DbError, ErrorKind};
use rust_db_engine::executer::executer::{
    build_columns, evaluate_like_condition, evaluate_where_clause, extract_column_name,
    extract_literal_value, find_column_index, is_uuid_where_clause, plan_query, rows_equal,
    QueryPlan,
};
use rust_db_engine::executer::replies::check_for_reserved_words;
use rust_db_engine::executer::row_changes::{RowsAction, RowsChange, RowsRun};
use rust_db_engine::executer::select::{
    handle_select, process_select, select_reply, to_array_of_arrays,
};
use rust_db_engine::json::{reply_error, reply_message, Json};
use rust_db_engine::query::parser::{sql_parser, Expression, Identifier};
use rust_db_engine::records::table::{Cache, TableFiles};
use rust_db_engine::schema::schema::{
    create_table, Column, ConstraintType, DataType, Schema, Table,
};
use rust_db_engine::string_map::StringMap;

fn texts(cells: &[&str]) -> Vec<String> {
    cells.iter().map(|c| c.to_string()).collect()
}

fn text(s: &str) -> Json {
    Json::Str(s.to_string())
}

fn comparison(name: &str, operator: &str, value: &str) -> Expression {
    Expression::Comparison {
        left: Identifier::Name(name.to_string()),
        operator: operator.to_string(),
        right: Identifier::Literal(value.to_string(), None),
    }
}

fn plan(query: &str) -> QueryPlan {
    plan_query(&sql_parser(query.as_bytes()).unwrap())
}

#[test]
fn conditions_compare_numbers_and_texts() {
    let names = texts(&["UUID", "age", "name"]);
    let row = texts(&["\"u\"", "20", "\"Ann\""]);
    assert!(evaluate_where_clause(&comparison("age", ">", "18"), &row, &names));
    assert!(!evaluate_where_clause(&comparison("age", "<", "18"), &row, &names));
    assert!(evaluate_where_clause(&comparison("age", ">=", "20"), &row, &names));
    assert!(evaluate_where_clause(&comparison("age", "<=", "20"), &row, &names));
    assert!(evaluate_where_clause(&comparison("age", "!=", "18"), &row, &names));
    assert!(evaluate_where_clause(&comparison("name", "=", "Ann"), &row, &names));
    assert!(!evaluate_where_clause(&comparison("name", "=", "Bob"), &row, &names));
    assert!(evaluate_where_clause(&comparison("name", "LIKE", "A%"), &row, &names));
}

#[test]
fn each_value_is_less_equal_or_greater() {
    let names = texts(&["a"]);
    for (x, y) in [("1", "2"), ("2", "2"), ("3", "2"), ("x", "y"), ("y", "y"), ("z", "y")] {
        let row = texts(&[x]);
        let n = ["<", "=", ">"]
            .iter()
            .filter(|op| evaluate_where_clause(&comparison("a", op, y), &row, &names))
            .count();
        assert_eq!(n, 1);
    }
}

#[test]
fn patterns_match() {
    assert!(evaluate_like_condition("Alice", "Al%"));
    assert!(evaluate_like_condition("Alice", "%ice"));
    assert!(evaluate_like_condition("Alice", "A_ice"));
    assert!(!evaluate_like_condition("Alice", "B%"));
}

#[test]
fn columns_are_found_in_any_case() {
    let names = texts(&["UUID", "Name"]);
    assert_eq!(find_column_index(&names, "name"), Some(1));
    assert_eq!(find_column_index(&names, "age"), None);
}

#[test]
fn rows_are_compared_cell_by_cell() {
    assert!(rows_equal(&texts(&["a", "b"]), &texts(&["a", "b"])));
    assert!(!rows_equal(&texts(&["a", "b"]), &texts(&["a"])));
    assert!(!rows_equal(&texts(&["a", "b"]), &texts(&["a", "c"])));
}

#[test]
fn a_select_is_planned() {
    match plan("SELECT id FROM t WHERE id = 1") {
        QueryPlan::Select { columns, table, timestamp, condition } => {
            assert_eq!(columns, vec![Identifier::Name("id".to_string())]);
            assert_eq!(table, "t");
            assert_eq!(timestamp, None);
            assert_eq!(condition, Some(comparison("id", "=", "1")));
        }
        _ => panic!("expected a select"),
    }
}

#[test]
fn an_insert_is_planned() {
    match plan("INSERT INTO t (id, name) VALUES (1, \"a\")") {
        QueryPlan::Insert { table, values, columns } => {
            assert_eq!(table, "t");
            assert_eq!(values, texts(&["1", "a"]));
            assert_eq!(columns, Some(texts(&["id", "name"])));
        }
        _ => panic!("expected an insert"),
    }
    match plan("INSERT INTO t VALUES (1)") {
        QueryPlan::Insert { columns, .. } => assert_eq!(columns, None),
        _ => panic!("expected an insert"),
    }
}

#[test]
fn an_update_needs_a_uuid() {
    match plan("UPDATE t SET name = \"x\" WHERE UUID = \"550e8400-e29b-41d4-a716-446655440000\"") {
        QueryPlan::Update { table, values, .. } => {
            assert_eq!(table, "t");
            assert_eq!(values.get("name").unwrap(), "x");
        }
        _ => panic!("expected an update"),
    }
    match plan("UPDATE t SET name = \"x\" WHERE name = \"y\"") {
        QueryPlan::Respond { reply } => {
            assert_eq!(reply.status, 400);
            assert_eq!(
                reply.body,
                Json::Object(vec![(
                    "error".to_string(),
                    text("WHERE clause must contain a valid UUID condition for table 't'")
                )])
            );
        }
        _ => panic!("expected a refusal"),
    }
}

#[test]
fn deletions_and_drops_are_planned() {
    match plan("DELETE FROM t WHERE id = 1") {
        QueryPlan::Delete { table, condition } => {
            assert_eq!(table, "t");
            assert_eq!(condition, comparison("id", "=", "1"));
        }
        _ => panic!("expected a deletion"),
    }
    assert!(matches!(plan("DROP TABLE t"), QueryPlan::Drop { .. }));
    assert!(matches!(plan_query(&vec![]), QueryPlan::Respond { .. }));
    assert!(matches!(plan("WHERE a = 1"), QueryPlan::Respond { .. }));
}

#[test]
fn a_column_of_an_unknown_type_is_told() {
    match plan("CREATE TABLE t (a BLOB)") {
        QueryPlan::UnsupportedType { name } => assert_eq!(name, "BLOB"),
        _ => panic!("expected an unknown type"),
    }
}

#[test]
fn columns_are_built_with_their_rules() {
    let columns = build_columns(&vec![(
        Identifier::Name("a".to_string()),
        Identifier::Name("INT".to_string()),
        texts(&["UNIQUE"]),
    )])
    .unwrap();
    assert_eq!(columns[0].name, "a");
    assert_eq!(columns[0].data_type, DataType::Int);
    assert!(matches!(columns[0].rules[0].constraint_type, ConstraintType::Unique));
}

#[test]
fn identifiers_are_read() {
    assert_eq!(extract_column_name(&Identifier::Name("a".to_string())), "a");
    assert_eq!(extract_literal_value(&Identifier::Literal("1".to_string(), None)), "1");
    assert!(is_uuid_where_clause(&comparison(
        "UUID",
        "=",
        "550e8400-e29b-41d4-a716-446655440000"
    )));
    assert!(!is_uuid_where_clause(&comparison("id", "=", "1")));
}

fn people() -> (Schema, TableFiles) {
    let mut schema = Schema::default();
    let columns = vec![
        Column { name: "age".to_string(), data_type: DataType::Int, rules: vec![] },
        Column { name: "name".to_string(), data_type: DataType::String, rules: vec![] },
    ];
    create_table(&mut schema, &Table { name: "people".to_string(), columns });
    let files = TableFiles {
        initial: Ok(vec![
            texts(&["\"u1\"", "20", "\"Ann\"", "\"2025-01-01 00:00:00\""]),
            texts(&["\"u2\"", "30", "\"Bob\"", "\"2025-02-01 00:00:00\""]),
        ]),
        updates: Ok(vec![]),
    };
    (schema, files)
}

#[test]
fn a_select_keeps_matching_rows() {
    let (schema, files) = people();
    let mut cache: Cache = StringMap::new();
    let reply = handle_select(
        &schema,
        &mut cache,
        &files,
        "people",
        &vec![Identifier::Name("name".to_string())],
        &None,
        &Some(comparison("age", ">", "25")),
    );
    assert_eq!(reply.status, 200);
    assert_eq!(
        reply.body,
        Json::Array(vec![Json::Array(vec![text("name")]), Json::Array(vec![text("Bob")])])
    );
}

#[test]
fn a_select_reads_the_past() {
    let (schema, files) = people();
    let mut cache: Cache = StringMap::new();
    let reply = handle_select(
        &schema,
        &mut cache,
        &files,
        "people",
        &vec![Identifier::Star],
        &Some("2025-01-15 00:00:00".to_string()),
        &None,
    );
    match reply.body {
        Json::Array(rows) => assert_eq!(rows.len(), 2),
        _ => panic!("expected rows"),
    }
}

#[test]
fn a_select_of_no_table_fails() {
    let (schema, files) = people();
    let mut cache: Cache = StringMap::new();
    let reply = handle_select(
        &schema,
        &mut cache,
        &files,
        "pets",
        &vec![Identifier::Star],
        &None,
        &None,
    );
    assert_ne!(reply.status, 200);
    let failed: Result<Vec<Vec<String>>, DbError> =
        Err(DbError::new(ErrorKind::Other, "x".to_string()));
    let reply = select_reply(&schema, "people", &vec![Identifier::Star], &None, &failed);
    assert_ne!(reply.status, 200);
}

#[test]
fn selected_cells_become_values() {
    let (schema, _) = people();
    let rows = process_select(
        &schema,
        "people",
        &vec![Identifier::Name("age".to_string()), Identifier::Name("name".to_string())],
        &vec![
            texts(&["UUID", "age", "name", "timestamp"]),
            texts(&["\"u1\"", "20", "\"Ann\"", "\"2025-01-01 00:00:00\""]),
        ],
    );
    assert_eq!(rows, vec![vec![text("age"), text("name")], vec![Json::Int(20), text("Ann")]]);
    assert_eq!(
        to_array_of_arrays(vec![vec![Json::Int(1)], vec![]]),
        Json::Array(vec![Json::Array(vec![Json::Int(1)]), Json::Array(vec![])])
    );
}

#[test]
fn the_table_of_users_is_reserved() {
    assert!(check_for_reserved_words("SELECT * FROM t").is_ok());
    let reply = check_for_reserved_words("SELECT * FROM Users").err().unwrap();
    assert_eq!(reply.status, 403);
    assert_eq!(
        reply.body,
        Json::Object(vec![(
            "error".to_string(),
            text("Query contains reserved keyword: users")
        )])
    );
}

/// A run over the rows of a table with one column whose age is over 18.
fn adults(change: RowsChange) -> RowsRun {
    let mut schema = Schema::default();
    let age = Column { name: "age".to_string(), data_type: DataType::Int, rules: vec![] };
    create_table(&mut schema, &Table { name: "t".to_string(), columns: vec![age] });
    let initial = Ok(vec![
        texts(&["\"a\"", "20"]),
        texts(&["\"b\"", "10"]),
        texts(&["\"c\"", "30"]),
    ]);
    RowsRun::plan(change, &schema, "t", &initial, &comparison("age", ">", "18")).unwrap()
}

#[test]
fn every_matching_row_is_deleted_in_order() {
    let mut run = adults(RowsChange::Delete);
    assert_eq!(run.begin(), RowsAction::Change("\"a\"".to_string()));
    assert_eq!(run.changed(&None), RowsAction::Change("\"c\"".to_string()));
    assert_eq!(
        run.changed(&None),
        RowsAction::Finish(reply_message(200, "Deleted 2 rows".to_string()))
    );
}

#[test]
fn a_table_is_computed_anew_after_an_update() {
    let mut run = adults(RowsChange::Update);
    assert_eq!(run.begin(), RowsAction::Change("\"a\"".to_string()));
    run.changed(&None);
    assert_eq!(run.changed(&None), RowsAction::Recalculate);
    assert_eq!(run.recalculated(&None), reply_message(200, "Rows updated".to_string()));
    let error = DbError::new(ErrorKind::Other, "disk".to_string());
    assert_eq!(
        run.recalculated(&Some(error)),
        reply_error(500, "Error recalculating data: disk".to_string())
    );
}

#[test]
fn the_first_row_that_fails_ends_the_query() {
    let error = || Some(DbError::new(ErrorKind::Other, "disk".to_string()));
    let mut run = adults(RowsChange::Update);
    run.begin();
    assert_eq!(
        run.changed(&error()),
        RowsAction::Finish(reply_error(500, "Error updating row: disk".to_string()))
    );
    let mut run = adults(RowsChange::Delete);
    run.begin();
    run.changed(&None);
    assert_eq!(
        run.changed(&error()),
        RowsAction::Finish(reply_error(500, "Error deleting row: disk".to_string()))
    );
}

#[test]
fn a_query_that_no_row_matches_is_answered() {
    let initial = Ok(vec![texts(&["\"a\"", "20"])]);
    let condition = comparison("age", "=", "1");
    let none = RowsRun::plan(RowsChange::Update, &Schema::default(), "t", &initial, &condition);
    assert_eq!(
        none.unwrap_err(),
        reply_error(404, "No rows matched the specified condition".to_string())
    );
    let unread = Err(DbError::new(ErrorKind::Other, "disk".to_string()));
    let failed = RowsRun::plan(RowsChange::Delete, &Schema::default(), "t", &unread, &condition);
    assert_eq!(
        failed.unwrap_err(),
        reply_error(500, "Error loading initial data: disk".to_string())
    );
}
