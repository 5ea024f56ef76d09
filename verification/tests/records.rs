use rust_db_engine::errors::{DbError, ErrorKind};
use rust_db_engine::executer::replies::{
    columns_reply, created_reply, deleted_reply, dropped_reply, failure_reply,
    find_rows_concerned, inserted_reply, list_tables, parse_error_reply, past_table_reply,
    table_reply, updated_reply, Change,
};
use rust_db_engine::executer::executer::{plan_query, QueryPlan};
use rust_db_engine::json::Json;
use rust_db_engine::query::parser::{sql_parser, Expression, Identifier};
use rust_db_engine::records::changes::{
    delete_row, delete_row_with, insert_row, insert_row_with, try_update_row,
    try_update_row_with, NewRow,
};
use rust_db_engine::records::rows::{
    is_earlier, merge_row_with_updates, merge_table_and_update, needs_line_break, parse_line,
    parse_lines, parse_timestamp_from_row, quote_if_needed, quote_row,
    row_timestamp_is_before, row_written_at, serialize_cells, sort_earliest_first,
};
use rust_db_engine::records::table::{
    add_row_to_cache, check_row_updates_fit, get_column_names, get_table_at_timestamp,
    get_table_data, recalculate_row, recalculate_table, Cache, TableFiles,
};
use rust_db_engine::records::validation::{check_column_rules, get_column_values};
use rust_db_engine::schema::schema::{
    create_table, drop_table, Column, ConstraintType, DataType, Rule, RuleAction, Schema, Table,
};
use rust_db_engine::string_map::StringMap;

const NOW: &str = "2025-03-01 10:00:00";
const ALICE: &str = "9fe085ca-6e32-4757-86aa-b3774eb6561f";
const BOB: &str = "b42cd5b1-b732-427a-8bdb-a6aad547c168";

/// A database in memory: what the files hold is kept as lines.
struct Db {
    schema: Schema,
    cache: Cache,
    initial: Vec<String>,
    updates: Vec<String>,
}

fn texts(cells: &[&str]) -> Vec<String> {
    cells.iter().map(|c| c.to_string()).collect()
}

fn column(name: &str, data_type: DataType, rules: Vec<Rule>) -> Column {
    Column { name: name.to_string(), data_type, rules }
}

impl Db {
    fn new(columns: Vec<Column>) -> Db {
        let mut schema = Schema::default();
        create_table(&mut schema, &Table { name: "people".to_string(), columns });
        Db { schema, cache: StringMap::new(), initial: vec![], updates: vec![] }
    }

    fn people() -> Db {
        Db::new(vec![
            column("id", DataType::Int, vec![]),
            column("name", DataType::String, vec![]),
        ])
    }

    fn files(&self) -> TableFiles {
        TableFiles {
            initial: Ok(parse_lines(&self.initial)),
            updates: Ok(parse_lines(&self.updates)),
        }
    }

    fn insert(&mut self, values: &[&str], names: Option<Vec<String>>) -> Result<NewRow, DbError> {
        let files = self.files();
        let row = insert_row_with(
            &self.schema,
            &mut self.cache,
            &files,
            "people",
            &texts(values),
            &names,
            BOB,
            NOW,
        )?;
        self.initial.push(serialize_cells(&row.cells));
        let files = self.files();
        add_row_to_cache(&mut self.cache, &files, "people", row.cells.clone())?;
        Ok(row)
    }

    fn update(&mut self, uuid: &str, values: &[(&str, &str)], now: &str) -> Result<(), DbError> {
        let files = self.files();
        let mut map = StringMap::new();
        for (k, v) in values {
            map.insert(k.to_string(), v.to_string());
        }
        let row = try_update_row_with(
            &self.schema,
            &mut self.cache,
            &files,
            "people",
            uuid,
            map,
            now,
        )
        .unwrap()?;
        self.updates.push(serialize_cells(&row));
        let files = self.files();
        recalculate_row(&mut self.cache, &files, "people", uuid)
    }

    fn rows(&mut self) -> Vec<Vec<String>> {
        let files = self.files();
        get_table_data(&self.schema, &mut self.cache, &files, "people").unwrap()
    }
}

fn quoted(s: &str) -> String {
    format!("\"{}\"", s)
}

#[test]
fn test_application() {
    let mut db = Db::people();
    db.insert(&[ALICE, "1", "Alice", "2025-02-17 11:39:41"], None).unwrap();
    db.insert(&[BOB, "2", "Bob", "2025-02-17 11:39:41"], None).unwrap();
    let reply = table_reply(&Ok(db.rows()));
    assert_eq!(reply.status, 200);
    let text = |s: &str| Json::Str(s.to_string());
    assert_eq!(
        reply.body,
        Json::Array(vec![
            Json::Array(vec![
                text("9fe085ca-6e32-4757-86aa-b3774eb6561f"),
                Json::Number("1".to_string()),
                text("Alice"),
                text("2025-02-17 11:39:41")
            ]),
            Json::Array(vec![
                text("b42cd5b1-b732-427a-8bdb-a6aad547c168"),
                Json::Number("2".to_string()),
                text("Bob"),
                text("2025-02-17 11:39:41")
            ]),
        ])
    );
}

#[test]
fn test_create_table_success() {
    let nodes = sql_parser(b"CREATE TABLE test_table (col1 Int, col2 String)").unwrap();
    let mut schema = Schema::default();
    match plan_query(&nodes) {
        QueryPlan::Create { table } => create_table(&mut schema, &table),
        _ => panic!("expected a table"),
    }
    let reply = created_reply();
    assert_eq!(reply.status, 200);
    assert_eq!(
        reply.body,
        Json::Object(vec![("message".to_string(), Json::Str("Table Created".to_string()))])
    );
    assert!(schema.tables.contains_key("test_table_initial"));
    let table = schema.tables.get("test_table_initial").unwrap();
    assert_eq!(table.name, "test_table_initial");
    assert_eq!(table.columns.len(), 4);
    assert_eq!(table.columns[1].name, "col1");
    assert_eq!(table.columns[2].name, "col2");
}

#[test]
fn test_get_table_failure() {
    let db = Db::people();
    let mut cache: Cache = StringMap::new();
    let data = get_table_data(&db.schema, &mut cache, &db.files(), "non_existent_table");
    assert_ne!(table_reply(&data).status, 200);
}

#[test]
fn test_create_table_failure() {
    let error = sql_parser(b"CREATE TABLE test_table col1 Int, col2 String").err().unwrap();
    assert_eq!(parse_error_reply(&error).status, 400);
}

#[test]
fn a_row_is_stored_with_quotes() {
    let mut db = Db::people();
    let row = db.insert(&[ALICE, "1", "Alice", "2025-02-17 11:39:41"], None).unwrap();
    assert_eq!(row.uuid, ALICE);
    assert_eq!(
        row.cells,
        vec![quoted(ALICE), "1".to_string(), quoted("Alice"), quoted("2025-02-17 11:39:41")]
    );
    assert_eq!(db.initial[0], format!("\"{}\",1,\"Alice\",\"2025-02-17 11:39:41\"", ALICE));
}

#[test]
fn an_added_row_is_read() {
    let mut db = Db::people();
    db.insert(&[ALICE, "1", "Alice", NOW], None).unwrap();
    let rows = db.rows();
    assert_eq!(rows.len(), 2);
    assert_eq!(rows[0], texts(&["UUID", "id", "name", "timestamp"]));
    assert_eq!(rows[1][2], quoted("Alice"));
    // The cache says what the files say.
    let cached = db.rows();
    db.cache = StringMap::new();
    assert_eq!(db.rows(), cached);
}

#[test]
fn an_added_row_leaves_others() {
    let mut db = Db::people();
    db.insert(&[ALICE, "1", "Alice", NOW], None).unwrap();
    let before = db.rows();
    db.insert(&[BOB, "2", "Bob", NOW], None).unwrap();
    let after = db.rows();
    assert_eq!(after[..2], before[..]);
    assert_eq!(after.len(), 3);
}

#[test]
fn values_are_given_by_name() {
    let mut db = Db::people();
    let row = db.insert(&["Carol", "3"], Some(texts(&["name", "id"]))).unwrap();
    assert_eq!(row.uuid, BOB);
    assert_eq!(
        row.cells,
        vec![quoted(BOB), "3".to_string(), quoted("Carol"), quoted(NOW)]
    );
}

#[test]
fn an_unknown_column_is_refused() {
    let mut db = Db::people();
    let e = db.insert(&["x"], Some(texts(&["colour"]))).err().unwrap();
    assert_eq!(e.kind, ErrorKind::InvalidInput);
    assert_eq!(e.message, "Invalid column name: 'colour'");
}

#[test]
fn an_unknown_table_is_refused() {
    let db = Db::people();
    let mut cache: Cache = StringMap::new();
    let e = insert_row(&db.schema, &mut cache, &db.files(), "pets", &texts(&["x"]), &None)
        .err()
        .unwrap();
    assert_eq!(e.kind, ErrorKind::NotFound);
    assert_eq!(e.message, "Table 'pets_initial' does not exist in schema");
    let e = get_column_names(&db.schema, "pets").err().unwrap();
    assert_eq!(e.message, "Table 'pets_initial' does not exist in the schema");
    let e = delete_row(&db.schema, "pets", ALICE).err().unwrap();
    assert_eq!(e.kind, ErrorKind::NotFound);
}

#[test]
fn a_value_of_the_wrong_type_is_refused() {
    let mut db = Db::people();
    let e = db.insert(&[ALICE, "one", "Alice", NOW], None).err().unwrap();
    assert_eq!(e.kind, ErrorKind::InvalidInput);
    assert_eq!(e.message, "Invalid data type for column 'id'. Expected: Int, Found: one");
}

#[test]
fn a_row_gets_a_uuid_and_a_time() {
    let db = Db::people();
    let mut cache: Cache = StringMap::new();
    let row = insert_row(
        &db.schema,
        &mut cache,
        &db.files(),
        "people",
        &texts(&["Dave", "4"]),
        &Some(texts(&["name", "id"])),
    )
    .unwrap();
    assert_eq!(row.uuid.len(), 36);
    assert_eq!(row.cells[0], quoted(&row.uuid));
    assert!(row_written_at(&row.cells).is_some());
}

#[test]
fn an_update_is_read() {
    let mut db = Db::people();
    db.insert(&[ALICE, "1", "Alice", NOW], None).unwrap();
    db.update(&quoted(ALICE), &[("name", "Alicia")], "2025-03-02 00:00:00").unwrap();
    assert_eq!(db.updates[0], format!("\"{}\",1,\"Alicia\",\"2025-03-02 00:00:00\"", ALICE));
    db.cache = StringMap::new();
    let rows = db.rows();
    assert_eq!(rows[1][2], quoted("Alicia"));
    assert_eq!(rows[1][1], "1");
}

#[test]
fn an_update_of_no_row_is_refused() {
    let mut db = Db::people();
    let e = db.update(BOB, &[("name", "x")], NOW).err().unwrap();
    assert_eq!(e.kind, ErrorKind::NotFound);
    assert_eq!(e.message, format!("Row with UUID '{}' not found", BOB));
}

#[test]
fn an_update_has_the_time_of_the_clock() {
    let mut db = Db::people();
    db.insert(&[ALICE, "1", "Alice", NOW], None).unwrap();
    let files = db.files();
    let mut values = StringMap::new();
    values.insert("id".to_string(), "5".to_string());
    let row = try_update_row(
        &db.schema,
        &mut db.cache,
        &files,
        "people",
        &quoted(ALICE),
        values,
    )
    .unwrap()
    .unwrap();
    assert_eq!(row[1], "5");
    let written = row_written_at(&texts(&[&quoted(NOW)])).unwrap();
    assert!(is_earlier(written, row_written_at(&row).unwrap()));
}

#[test]
fn an_update_needs_a_cell_for_each_column() {
    let mut db = Db::people();
    db.initial.push(format!("\"{}\",1", ALICE));
    let files = db.files();
    let outcome = try_update_row_with(
        &db.schema,
        &mut db.cache,
        &files,
        "people",
        &quoted(ALICE),
        StringMap::new(),
        NOW,
    );
    assert!(outcome.is_none());
    let mut cache: Cache = StringMap::new();
    let outcome = try_update_row(
        &db.schema,
        &mut cache,
        &files,
        "people",
        &quoted(ALICE),
        StringMap::new(),
    );
    assert!(outcome.is_none());
    assert_eq!(cache.len(), 0);
}

#[test]
fn a_deleted_row_reads_as_deleted() {
    let mut db = Db::people();
    db.insert(&[ALICE, "1", "Alice", NOW], None).unwrap();
    let cells = delete_row_with(&db.schema, "people", &quoted(ALICE), "2025-03-03 00:00:00").unwrap();
    assert_eq!(
        cells,
        vec![
            quoted(ALICE),
            "0".to_string(),
            quoted("ROW_REMOVED"),
            quoted("2025-03-03 00:00:00")
        ]
    );
    db.updates.push(serialize_cells(&cells));
    let files = db.files();
    assert!(check_row_updates_fit(&db.cache, &files, "people", &quoted(ALICE)));
    recalculate_row(&mut db.cache, &files, "people", &quoted(ALICE)).unwrap();
    let rows = db.rows();
    assert_eq!(rows[1], cells);
}

#[test]
fn a_row_that_was_updated_reads_as_deleted() {
    let mut db = Db::people();
    db.insert(&[ALICE, "1", "Alice", NOW], None).unwrap();
    db.update(&quoted(ALICE), &[("name", "A"), ("id", "7")], "2025-03-02 00:00:00").unwrap();
    let cells =
        delete_row_with(&db.schema, "people", &quoted(ALICE), "2025-03-03 00:00:00").unwrap();
    db.updates.push(serialize_cells(&cells));
    let files = db.files();
    recalculate_row(&mut db.cache, &files, "people", &quoted(ALICE)).unwrap();
    assert_eq!(db.rows()[1], cells);
    db.cache.remove("people");
    assert_eq!(db.rows()[1], cells);
}

#[test]
fn an_update_with_too_many_cells_fits_no_row_in_the_cache() {
    let mut db = Db::people();
    db.insert(&[ALICE, "1", "Alice", NOW], None).unwrap();
    db.updates.push(format!("{},1,A,b,c", quoted(ALICE)));
    let files = db.files();
    assert!(!check_row_updates_fit(&db.cache, &files, "people", &quoted(ALICE)));
    db.cache.remove("people");
    assert!(check_row_updates_fit(&db.cache, &files, "people", &quoted(ALICE)));
    recalculate_row(&mut db.cache, &files, "people", &quoted(ALICE)).unwrap();
    assert_eq!(db.rows()[1].len(), 5);
}

#[test]
fn an_update_keeps_the_columns_that_it_does_not_name() {
    let mut db = Db::new(vec![
        column("Age", DataType::Int, vec![]),
        column("name", DataType::String, vec![]),
        column("born", DataType::DateTime, vec![]),
    ]);
    let born = "1990-01-01 00:00:00";
    db.insert(&[ALICE, "7", "Alice", born, NOW], None).unwrap();
    db.update(&quoted(ALICE), &[("name", "A")], "2025-03-02 00:00:00").unwrap();
    let row = db.rows()[1].clone();
    assert_eq!(row[1..4], [texts(&["7"])[0].clone(), quoted("A"), quoted(born)]);
    db.update(
        &quoted(ALICE),
        &[("age", "8"), ("born", "1980-01-01 00:00:00")],
        "2025-03-03 00:00:00",
    )
    .unwrap();
    let row = db.rows()[1].clone();
    assert_eq!(row[1], "8");
    assert_eq!(row[2], quoted("A"));
    assert_eq!(row[3], quoted("1980-01-01 00:00:00"));
    assert_eq!(row[4], quoted("2025-03-03 00:00:00"));
}

#[test]
fn the_last_of_several_updates_counts() {
    let mut db = Db::people();
    db.insert(&[ALICE, "1", "Alice", NOW], None).unwrap();
    db.update(&quoted(ALICE), &[("name", "A")], "2025-03-02 00:00:00").unwrap();
    assert_eq!(db.rows()[1][2], quoted("A"));
    db.update(&quoted(ALICE), &[("name", "B")], "2025-03-03 00:00:00").unwrap();
    assert_eq!(db.rows()[1][2], quoted("B"));
    let files = db.files();
    recalculate_table(&mut db.cache, "people", &files.initial.unwrap(), &files.updates).unwrap();
    assert_eq!(db.rows()[1][2], quoted("B"));
}

#[test]
fn a_second_update_is_what_the_cache_holds() {
    let mut db = Db::new(vec![
        column("a", DataType::Int, vec![]),
        column("b", DataType::String, vec![]),
        column("c", DataType::String, vec![]),
    ]);
    db.insert(&[ALICE, "1", "x", "y", NOW], None).unwrap();
    db.insert(&[BOB, "2", "z", "w", NOW], None).unwrap();
    let bob = db.rows()[2].clone();
    db.update(&quoted(ALICE), &[("a", "3"), ("b", "u")], "2025-03-02 00:00:00").unwrap();
    db.update(&quoted(ALICE), &[("a", "4")], "2025-03-02 00:00:01").unwrap();
    assert_eq!(
        db.cache.get("people").unwrap().clone(),
        vec![
            vec![
                quoted(ALICE),
                "4".to_string(),
                quoted("u"),
                quoted("y"),
                quoted("2025-03-02 00:00:01"),
            ],
            bob,
        ]
    );
}

#[test]
fn a_row_that_is_not_there_is_not_recalculated() {
    let mut db = Db::people();
    db.rows();
    let files = db.files();
    let e = recalculate_row(&mut db.cache, &files, "people", BOB).err().unwrap();
    assert_eq!(e.kind, ErrorKind::NotFound);
    assert_eq!(e.message, format!("Row with UUID '{}' not found in the initial table", BOB));
}

#[test]
fn the_past_does_not_change() {
    let mut db = Db::people();
    db.insert(&[ALICE, "1", "Alice", "2025-01-01 00:00:00"], None).unwrap();
    db.insert(&[BOB, "2", "Bob", "2025-02-01 00:00:00"], None).unwrap();
    db.update(&quoted(ALICE), &[("name", "Alicia")], "2025-03-01 00:00:00").unwrap();
    let past = get_table_at_timestamp(&db.schema, &db.files(), "people", "2025-01-15 00:00:00")
        .unwrap();
    assert_eq!(past.len(), 2);
    assert_eq!(past[1][2], quoted("Alice"));
    let later = get_table_at_timestamp(&db.schema, &db.files(), "people", "2025-03-01 00:00:00")
        .unwrap();
    assert_eq!(later.len(), 3);
    assert_eq!(later[1][2], quoted("Alicia"));
    assert!(get_table_at_timestamp(&db.schema, &db.files(), "people", "yesterday").is_err());
}

#[test]
fn a_file_that_cannot_be_read_is_an_error() {
    let db = Db::people();
    let mut cache: Cache = StringMap::new();
    let files = TableFiles {
        initial: Err(DbError::new(ErrorKind::Other, "no disk".to_string())),
        updates: Ok(vec![]),
    };
    let e = get_table_data(&db.schema, &mut cache, &files, "people").err().unwrap();
    assert_eq!(e.message, "no disk");
}

#[test]
fn a_unique_value_is_taken_once() {
    let unique = Rule { constraint_type: ConstraintType::Unique, action: RuleAction::Reject };
    let mut db = Db::new(vec![column("name", DataType::String, vec![unique])]);
    db.insert(&[ALICE, "Alice", NOW], None).unwrap();
    let e = db.insert(&[BOB, "Alice", NOW], None).err().unwrap();
    assert_eq!(e.kind, ErrorKind::InvalidData);
    assert_eq!(
        e.message,
        "Unique constraint violated for column 'name', Value 'Alice' already exists in table."
    );
    db.insert(&[BOB, "Bob", NOW], None).unwrap();
}

#[test]
fn rules_reject_or_replace() {
    let db = Db::people();
    let mut cache: Cache = StringMap::new();
    let rule = |constraint_type: ConstraintType, action: RuleAction| Rule { constraint_type, action };
    let reject = column("name", DataType::String, vec![rule(ConstraintType::NotNull, RuleAction::Reject)]);
    let files = db.files();
    let e = check_column_rules(&db.schema, &mut cache, &files, &reject, "", "people", None)
        .err()
        .unwrap();
    assert_eq!(e.message, "NotNull constraint violated");
    let null = column("name", DataType::String, vec![rule(ConstraintType::NotNull, RuleAction::SetNull)]);
    assert_eq!(
        check_column_rules(&db.schema, &mut cache, &files, &null, "", "people", None).unwrap(),
        None
    );
    let default = column(
        "name",
        DataType::String,
        vec![rule(ConstraintType::NotNull, RuleAction::SetDefault("none".to_string()))],
    );
    assert_eq!(
        check_column_rules(&db.schema, &mut cache, &files, &default, "", "people", None).unwrap(),
        Some("none".to_string())
    );
    let adult = Expression::Comparison {
        left: Identifier::Name("age".to_string()),
        operator: ">".to_string(),
        right: Identifier::Literal("18".to_string(), Some(DataType::Int)),
    };
    let check = column("age", DataType::Int, vec![rule(ConstraintType::Check(adult), RuleAction::Reject)]);
    assert_eq!(
        check_column_rules(&db.schema, &mut cache, &files, &check, "20", "people", None).unwrap(),
        Some("20".to_string())
    );
    let e = check_column_rules(&db.schema, &mut cache, &files, &check, "10", "people", None)
        .err()
        .unwrap();
    assert_eq!(
        e.message,
        "Check constraint violated for column 'age'. Expression Comparison { left: Name(\"age\"), \
         operator: \">\", right: Literal(\"18\", Some(Int)) } does not hold."
    );
}

#[test]
fn the_values_of_a_column_are_read() {
    let mut db = Db::people();
    db.insert(&[ALICE, "1", "Alice", NOW], None).unwrap();
    db.insert(&[BOB, "2", "Bob", NOW], None).unwrap();
    let files = db.files();
    let mut values =
        get_column_values(&db.schema, &mut db.cache, &files, "people", "name", Some(BOB)).unwrap();
    values.sort();
    assert_eq!(values, texts(&["Alice", "name"]));
    let none =
        get_column_values(&db.schema, &mut db.cache, &files, "people", "name", None).unwrap();
    assert!(none.is_empty());
}

#[test]
fn lines_read_back() {
    let cells = texts(&["a", "b c", "3", "\"x\""]);
    assert_eq!(parse_line(&serialize_cells(&cells)), cells);
    assert_eq!(parse_line(" a , b "), texts(&["a", "b"]));
    assert_eq!(parse_line(""), texts(&[""]));
}

#[test]
fn values_are_quoted_unless_they_are_numbers() {
    assert_eq!(quote_if_needed("12"), "12");
    assert_eq!(quote_if_needed("1.5"), "1.5");
    assert_eq!(quote_if_needed("ab"), "\"ab\"");
    assert_eq!(quote_if_needed("a\"b"), "\"a\\\"b\"");
    assert_eq!(quote_row(&texts(&["1", "x"])), texts(&["1", "\"x\""]));
}

#[test]
fn rows_carry_times() {
    let early = texts(&["a", "2025-01-01 00:00:00"]);
    let late = texts(&["b", "2025-01-02 00:00:00"]);
    let none = texts(&["c"]);
    assert_eq!(parse_timestamp_from_row(&early), Some((1735689600, 0)));
    assert_eq!(
        parse_timestamp_from_row(&texts(&["\"2025-01-01 00:00:00\""])),
        Some((1735689600, 0))
    );
    assert!(row_timestamp_is_before(&early, (1735689600, 0)));
    assert!(!row_timestamp_is_before(&late, (1735689600, 0)));
    assert!(!row_timestamp_is_before(&none, (1735689600, 0)));
    let sorted = sort_earliest_first(&vec![late.clone(), early.clone(), none.clone()]);
    assert_eq!(sorted, vec![none, early, late]);
    let birthday = texts(&["d", "\"1990-01-01 00:00:00\"", "\"2025-01-02 00:00:00\""]);
    assert_eq!(parse_timestamp_from_row(&birthday), Some((631152000, 0)));
    assert_eq!(row_written_at(&birthday), Some((1735776000, 0)));
}

#[test]
fn sorting_is_stable() {
    let row = |id: &str, t: &str| texts(&[id, t]);
    let rows = vec![
        row("a", "2025-01-01 00:00:00"),
        row("b", "2025-01-02 00:00:00"),
        row("c", "2025-01-01 00:00:00"),
    ];
    let sorted = sort_earliest_first(&rows);
    assert_eq!(sorted, vec![rows[0].clone(), rows[2].clone(), rows[1].clone()]);
}

#[test]
fn updates_are_merged() {
    let initial = vec![texts(&["a", "1"]), texts(&["b", "2"])];
    let updates = vec![texts(&["b", "3"]), texts(&["b", "4"]), texts(&["c", "5"])];
    let merged = merge_table_and_update(&initial, &updates);
    assert_eq!(merged, vec![texts(&["a", "1"]), texts(&["b", "4"])]);
    let row = merge_row_with_updates(
        &texts(&["a", "1", "x"]),
        &vec![texts(&["a", "", "y"]), texts(&["a", "2", "ROW_REMOVED"])],
    );
    assert_eq!(row, texts(&["a", "2", "y"]));
}

#[test]
fn a_line_break_goes_before_a_line() {
    assert!(!needs_line_break(None));
    assert!(!needs_line_break(Some(b'\n')));
    assert!(needs_line_break(Some(b'x')));
}

#[test]
fn replies_say_what_was_done() {
    let body = |key: &str, text: &str| {
        Json::Object(vec![(key.to_string(), Json::Str(text.to_string()))])
    };
    let parts = |r: rust_db_engine::json::Reply| (r.status, r.body);
    assert_eq!(parts(updated_reply()), (200, body("message", "Rows updated")));
    assert_eq!(parts(deleted_reply(2)), (200, body("message", "Deleted 2 rows")));
    assert_eq!(
        parts(dropped_reply("t")),
        (200, body("message", "Table t dropped successfully"))
    );
    assert_eq!(
        parts(inserted_reply(ALICE)),
        (
            200,
            Json::Object(vec![
                ("message".to_string(), Json::Str("Row inserted".to_string())),
                ("uuid".to_string(), Json::Str(ALICE.to_string()))
            ])
        )
    );
    let e = DbError::new(ErrorKind::Other, "no".to_string());
    for (change, message) in [
        (Change::Create, "Error creating table: no"),
        (Change::Insert, "Error inserting row: no"),
        (Change::Update, "Error updating row: no"),
        (Change::Recalculate, "Error recalculating data: no"),
        (Change::Delete, "Error deleting row: no"),
        (Change::Drop, "Failed to drop table: no"),
    ] {
        assert_eq!(parts(failure_reply(change, &e)), (500, body("error", message)));
    }
    assert_eq!(
        parts(parse_error_reply("x")),
        (400, body("error", "Failed to parse query: x"))
    );
    assert_eq!(
        parts(columns_reply(&Ok(texts(&["a"])))),
        (200, Json::Array(vec![Json::Str("a".to_string())]))
    );
    assert_eq!(parts(columns_reply(&Err(e))), (500, body("error", "no")));
    let missing = DbError::new(ErrorKind::NotFound, "gone".to_string());
    assert_eq!(parts(columns_reply(&Err(missing))), (404, body("error", "gone")));
}

#[test]
fn tables_are_listed_once() {
    let mut schema = Schema::default();
    for name in ["b", "a"] {
        create_table(&mut schema, &Table { name: name.to_string(), columns: vec![] });
    }
    assert_eq!(list_tables(&schema), texts(&["a", "b"]));
    drop_table(&mut schema, "a");
    assert_eq!(list_tables(&schema), texts(&["b"]));
}

#[test]
fn a_table_without_rows_is_not_found() {
    let mut db = Db::people();
    let reply = table_reply(&Ok(db.rows()));
    assert_eq!(reply.status, 404);
    assert_eq!(
        reply.body.str_field("error").unwrap(),
        "Table not found or table data is empty"
    );
    let failed = table_reply(&Err(DbError::new(ErrorKind::Other, "no disk".to_string())));
    assert_eq!(failed.status, 500);
    assert_eq!(
        failed.body.str_field("error").unwrap(),
        "Error retrieving table data: no disk"
    );
}

#[test]
fn the_past_of_a_table_is_told() {
    let mut db = Db::people();
    db.insert(&[ALICE, "1", "Alice", "2025-01-01 00:00:00"], None).unwrap();
    let past = get_table_at_timestamp(&db.schema, &db.files(), "people", "2025-01-15 00:00:00");
    let reply = past_table_reply(&past).unwrap();
    assert_eq!(reply.status, 200);
    let failed = past_table_reply(&Err(DbError::new(ErrorKind::InvalidInput, "x".to_string())));
    assert_ne!(failed.unwrap().status, 200);
}

#[test]
fn conditions_choose_rows() {
    let mut db = Db::people();
    db.insert(&[ALICE, "1", "Alice", NOW], None).unwrap();
    db.insert(&[BOB, "2", "Bob", NOW], None).unwrap();
    let condition = Expression::Comparison {
        left: Identifier::Name("UUID".to_string()),
        operator: "=".to_string(),
        right: Identifier::Literal(ALICE.to_string(), Some(DataType::UUID)),
    };
    let initial = db.files().initial;
    let rows = find_rows_concerned(&db.schema, "people", &initial, &condition).unwrap();
    assert_eq!(rows.len(), 1);
    assert_eq!(rows[0][0], quoted(ALICE));
}
