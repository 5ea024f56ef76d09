use rust_db_engine::change_logging::change_logging::{
    created_data_json, dropped_data_at, dropped_data_json, entries_equal, entry_to_json,
    row_data_json, ChangeLogEntry, ChangeLogger, ChangeType,
};
use rust_db_engine::config::database_config::{DatabaseConfig, Environment};
use rust_db_engine::json::{object1, object2, string_array, Json};
use rust_db_engine::recovery::recovery::{
    can_recover_table, file_of_path, full_recovery_reply, get_log_timestamp, group_logs,
    handle_drop_table, handle_row_deletion, handle_row_insertion, handle_row_update,
    handle_table_creation, plan_recovery_since, recovery_action, recovery_since, select_logs,
    sort_log_entries, table_name_of_path, table_recovery_reply, timed_recovery_reply,
    RecoveryAction, RowChange, Since, TableRecovery,
};
use rust_db_engine::recovery::recovery_run::{choose_action, EntryAction, RecoveryStep, TableRun};
use rust_db_engine::query::parser::{Expression, Identifier};
use rust_db_engine::records::rows::serialize_cells;
use rust_db_engine::schema::schema::{
    create_table, Column, ConstraintType, DataType, Rule, RuleAction, Schema, Table,
};
use rust_db_engine::schema::schema_json::table_to_json;
use rust_db_engine::string_map::Duplicate;

fn texts(cells: &[&str]) -> Vec<String> {
    cells.iter().map(|c| c.to_string()).collect()
}

fn text(s: &str) -> Json {
    Json::Str(s.to_string())
}

fn entry(id: &str, table: &str) -> ChangeLogEntry {
    ChangeLogEntry {
        change_id: id.to_string(),
        change_type: ChangeType::Insert,
        table_name: table.to_string(),
        data: row_data_json(&texts(&["u", "1"])),
        user: None,
        origin_db: Some("main".to_string()),
    }
}

/// The entry of a log for a row.
fn row_entry(kind: &str, table: &str, cells: &[&str]) -> Json {
    Json::Object(vec![
        ("change_type".to_string(), text(kind)),
        ("data".to_string(), row_data_json(&texts(cells))),
        ("table_name".to_string(), text(table)),
    ])
}

#[test]
fn an_entry_is_written_as_json() {
    assert_eq!(
        entry_to_json(&entry("i", "t")),
        Json::Object(vec![
            ("change_id".to_string(), text("i")),
            ("change_type".to_string(), text("Insert")),
            ("data".to_string(), object1("row_data", Json::Array(vec![text("u"), text("1")]))),
            ("origin_db".to_string(), text("main")),
            ("table_name".to_string(), text("t")),
            ("user".to_string(), Json::Null),
        ])
    );
}

#[test]
fn a_change_gets_an_identifier() {
    let logger = ChangeLogger::new("logs", "log".to_string());
    let given = logger.log_change(
        Some("i".to_string()),
        ChangeType::Drop,
        "t".to_string(),
        Json::Null,
        None,
        None,
    );
    assert_eq!(given.change_id, "i");
    let made =
        logger.log_change(None, ChangeType::Create, "t".to_string(), Json::Null, None, None);
    assert_eq!(made.change_id.len(), 36);
    assert_eq!(made.change_type, ChangeType::Create);
}

#[test]
fn the_last_entry_is_the_first_read() {
    let logger = ChangeLogger::new("logs", "log".to_string());
    let entries = vec![entry("1", "a"), entry("2", "b"), entry("3", "a")];
    let recent = logger.read_recent_logs(&entries, 2);
    assert_eq!(recent.len(), 2);
    assert!(entries_equal(&recent[0], &entries[2]));
    let own = logger.read_logs_for_table(&entries, "a", 10);
    assert_eq!(own.len(), 2);
    assert!(entries_equal(&own[0], &entries[2]));
    assert!(entries_equal(&own[1], &entries[0]));
    assert!(!entries_equal(&own[1], &entries[1]));
}

#[test]
fn entries_are_sorted_by_their_timestamps() {
    let at = |t: &str, n: i64| {
        Json::Object(vec![
            ("data".to_string(), object1("timestamp", text(t))),
            ("n".to_string(), Json::Int(n)),
        ])
    };
    let sorted = sort_log_entries(&vec![at("2", 1), at("1", 2), at("2", 3)]);
    assert_eq!(sorted, vec![at("1", 2), at("2", 1), at("2", 3)]);
}

#[test]
fn the_time_of_an_entry_is_found() {
    let row = row_entry("Insert", "t", &["u", "\"2025-01-01 00:00:00\""]);
    assert_eq!(get_log_timestamp(&row), Some((1735689600, 0)));
    let direct = object1("data", object1("timestamp", text("2025-01-01T00:00:01")));
    assert_eq!(get_log_timestamp(&direct), Some((1735689601, 0)));
    let root = object1("timestamp", text("2025-01-01 00:00:00.5"));
    assert_eq!(get_log_timestamp(&root), Some((1735689600, 500000000)));
    assert_eq!(get_log_timestamp(&object1("data", Json::Null)), None);
}

#[test]
fn entries_are_grouped_by_table() {
    let logs = vec![
        row_entry("Insert", "a", &["1"]),
        row_entry("Insert", "b", &["2"]),
        row_entry("Update", "a", &["3"]),
    ];
    let groups = group_logs(&logs, true).unwrap();
    assert_eq!(groups.get("a").unwrap().len(), 2);
    assert_eq!(groups.get("b").unwrap().len(), 1);
    assert_eq!(select_logs(&logs, "b"), vec![logs[1].copy()]);
    let nameless = vec![object1("x", Json::Null)];
    assert_eq!(group_logs(&nameless, true).err().unwrap(), "Invalid table name in log entry");
    assert_eq!(group_logs(&nameless, false).unwrap().len(), 0);
}

#[test]
fn recovery_takes_what_is_later() {
    let logs = vec![
        row_entry("Update", "a", &["u", "2025-01-03 00:00:00"]),
        row_entry("Insert", "a", &["u", "2025-01-02 00:00:00"]),
        row_entry("Insert", "b", &["v", "2024-01-01 00:00:00"]),
    ];
    let plan = plan_recovery_since(&logs, (1735689600, 0));
    assert_eq!(plan.len(), 1);
    assert_eq!(plan.get("a").unwrap(), &vec![logs[1].copy(), logs[0].copy()]);
}

#[test]
fn each_kind_of_change_has_its_action() {
    let action = |kind: &str| recovery_action(&object1("change_type", text(kind)));
    assert_eq!(action("Create"), Ok(RecoveryAction::Create));
    assert_eq!(action("Insert"), Ok(RecoveryAction::Insert));
    assert_eq!(action("Update"), Ok(RecoveryAction::Update));
    assert_eq!(action("Delete"), Ok(RecoveryAction::Delete));
    assert_eq!(action("Drop"), Ok(RecoveryAction::Drop));
    assert_eq!(action("Merge"), Ok(RecoveryAction::Unknown("Merge".to_string())));
    assert_eq!(recovery_action(&Json::Null), Err("Invalid change type".to_string()));
}

#[test]
fn an_insertion_is_applied_once() {
    let log = row_entry("Insert", "t", &["u", "1", "x"]);
    let line = handle_row_insertion(&log, &vec![]).unwrap().unwrap();
    assert_eq!(line, "u,1,x");
    assert_eq!(handle_row_insertion(&log, &vec![line]), Ok(None));
    assert_eq!(
        handle_row_insertion(&object1("data", Json::Null), &vec![]),
        Err("Invalid row data".to_string())
    );
    assert_eq!(
        handle_row_insertion(&row_entry("Insert", "t", &[]), &vec![]),
        Err("No UUID found in row data".to_string())
    );
}

#[test]
fn an_update_is_applied_once() {
    let log = row_entry("Update", "t", &["u", "1", "2025-01-01 00:00:00"]);
    let line = handle_row_update(&log, &vec![]).unwrap().unwrap();
    assert_eq!(handle_row_update(&log, &vec![line.clone()]), Ok(None));
    let other = row_entry("Update", "t", &["u", "1", "2025-01-02 00:00:00"]);
    assert!(handle_row_update(&other, &vec![line]).unwrap().is_some());
}

#[test]
fn a_deletion_is_applied_once() {
    let log = row_entry("Delete", "t", &["u", "", "row_removed", "2025-01-01 00:00:00"]);
    let line = handle_row_deletion(&log, &vec![]).unwrap().unwrap();
    assert_eq!(line, "u,0,ROW_REMOVED,2025-01-01 00:00:00");
    assert_eq!(handle_row_deletion(&log, &vec![line]), Ok(None));
    let log = row_entry("Delete", "t", &["u", "0", "0", "ROW_REMOVED", "2025-01-01 00:00:00"]);
    let line = handle_row_deletion(&log, &vec![]).unwrap().unwrap();
    assert_eq!(handle_row_deletion(&log, &vec![line.clone()]), Ok(None));
    let later = row_entry("Delete", "t", &["u", "0", "0", "ROW_REMOVED", "2025-01-02 00:00:00"]);
    assert!(handle_row_deletion(&later, &vec![line]).unwrap().is_some());
}

#[test]
fn a_creation_is_applied_once() {
    let column = object2("data_type", text("Int"), "name", text("a"));
    let log = object1(
        "data",
        object1("table_definition", object1("columns", Json::Array(vec![column.copy()]))),
    );
    let schema = object1("tables", Json::Object(vec![]));
    assert!(can_recover_table(&schema, "t_initial", "t_updates"));
    let once = handle_table_creation(&schema, "t_initial", "t_updates", &log);
    let table = once.get("tables").unwrap().get("t_initial").unwrap();
    assert_eq!(table.str_field("name").unwrap(), "t_initial");
    let columns = table.get("columns").unwrap().as_array().unwrap();
    assert_eq!(columns.len(), 3);
    assert_eq!(columns[0].str_field("name").unwrap(), "UUID");
    assert_eq!(columns[1], column);
    assert_eq!(columns[2].str_field("data_type").unwrap(), "DateTime");
    assert!(once.get("tables").unwrap().get("t_updates").is_some());
    let twice = handle_table_creation(&once, "t_initial", "t_updates", &log);
    assert_eq!(twice, once);
    assert!(!can_recover_table(&Json::Int(1), "a", "b"));
    let broken = object1("tables", object1("a", Json::Int(1)));
    assert!(!can_recover_table(&broken, "a", "b"));
    assert!(can_recover_table(&broken, "c", "d"));
}

#[test]
fn a_drop_takes_the_table_out() {
    let mut schema = Schema::default();
    create_table(&mut schema, &Table { name: "t".to_string(), columns: vec![] });
    let before = schema.duplicate();
    assert_eq!(
        handle_drop_table(&mut schema, &Json::Null),
        Err("Invalid table name in drop log".to_string())
    );
    assert_eq!(schema.tables.len(), before.tables.len());
    assert_eq!(
        handle_drop_table(&mut schema, &object1("table_name", text("t"))),
        Ok("t".to_string())
    );
    assert_eq!(schema.tables.len(), 0);
}

#[test]
fn a_path_names_its_table() {
    assert_eq!(file_of_path("db/tables/t_initial"), "t_initial");
    assert_eq!(table_name_of_path("db/tables/t_initial", "_initial"), "t");
    assert_eq!(table_name_of_path("t_updates", "_updates"), "t");
}

#[test]
fn a_request_says_from_when_to_recover() {
    let time = Some("2025-01-01T01:00:00+01:00".to_string());
    assert_eq!(recovery_since(&time, None), Ok(Since::Time((1735689600, 0))));
    assert_eq!(recovery_since(&None, Some(3)), Ok(Since::Hours(3)));
    let refused = recovery_since(&Some("yesterday".to_string()), None).err().unwrap();
    assert_eq!(refused.status, 400);
    assert_eq!(
        refused.body,
        object2("message", text("Invalid timestamp format"), "status", text("error"))
    );
    for (t, h) in [(&time, Some(1)), (&None, None)] {
        let refused = recovery_since(t, h).err().unwrap();
        assert_eq!(
            refused.body.str_field("message").unwrap(),
            "Provide either timestamp or duration, not both"
        );
    }
}

#[test]
fn recoveries_are_answered() {
    let e = || Some("e".to_string());
    let message = |r: rust_db_engine::json::Reply| {
        (r.status, r.body.str_field("message").unwrap().to_string())
    };
    assert_eq!(message(full_recovery_reply(&None, &None)), (200, "Log recovery completed".to_string()));
    assert_eq!(
        message(full_recovery_reply(&None, &e())),
        (500, "Log recovery succeeded but table refresh failed: e".to_string())
    );
    assert_eq!(
        message(full_recovery_reply(&e(), &e())),
        (500, "Log recovery failed and table refresh failed: e".to_string())
    );
    assert_eq!(
        message(full_recovery_reply(&e(), &None)),
        (500, "Log recovery failed: e".to_string())
    );
    assert_eq!(
        message(timed_recovery_reply(&e(), &None)),
        (500, "Recovery failed: e".to_string())
    );
    let table = |end: TableRecovery| message(table_recovery_reply("t", &end));
    assert_eq!(table(TableRecovery::Done), (200, "Table t recovery completed".to_string()));
    assert_eq!(
        table(TableRecovery::RecalculationFailed("e".to_string())),
        (500, "Table t recalculation failed: e".to_string())
    );
    assert_eq!(
        table(TableRecovery::ReadFailed("e".to_string())),
        (500, "Failed to get table data for t: e".to_string())
    );
    assert_eq!(
        table(TableRecovery::RecoveryFailed("e".to_string())),
        (500, "Log recovery failed for table t: e".to_string())
    );
    assert_eq!(string_array(&texts(&[])), Json::Array(vec![]));
}

#[test]
fn a_logged_row_is_recovered_as_it_was_written() {
    let cells = texts(&["\"u\"", "1", "\"x y\""]);
    let logged = ChangeLogEntry { data: row_data_json(&cells), ..entry("i", "t") };
    let log = entry_to_json(&logged);
    let line = serialize_cells(&cells);
    assert_eq!(handle_row_insertion(&log, &vec![]), Ok(Some(line.clone())));
    assert_eq!(handle_row_update(&log, &vec![]), Ok(Some(line.clone())));
    assert_eq!(handle_row_deletion(&log, &vec![]), Ok(Some(line)));
}

#[test]
fn a_logged_table_is_recovered_as_it_was_created() {
    let rule = Rule {
        constraint_type: ConstraintType::Check(Expression::Comparison {
            left: Identifier::Name("age".to_string()),
            operator: ">".to_string(),
            right: Identifier::Literal("18".to_string(), Some(DataType::Int)),
        }),
        action: RuleAction::SetDefault("19".to_string()),
    };
    let column = Column { name: "age".to_string(), data_type: DataType::Int, rules: vec![rule] };
    let table = Table { name: "t".to_string(), columns: vec![column] };
    let mut schema = Schema::default();
    create_table(&mut schema, &table);
    let logged = ChangeLogEntry {
        change_type: ChangeType::Create,
        data: created_data_json(&table),
        ..entry("i", "t")
    };
    let log = entry_to_json(&logged);
    let empty = object1("tables", Json::Object(vec![]));
    let recovered = handle_table_creation(&empty, "t_initial", "t_updates", &log);
    for name in ["t_initial", "t_updates"] {
        assert_eq!(
            recovered.get("tables").unwrap().get(name).unwrap(),
            &table_to_json(schema.tables.get(name).unwrap())
        );
    }
}

#[test]
fn a_drop_is_logged_with_its_time() {
    assert_eq!(
        dropped_data_at("t", "2025-01-01 00:00:00"),
        object2(
            "dropped_tables",
            string_array(&texts(&["t_initial", "t_updates"])),
            "timestamp",
            text("2025-01-01 00:00:00")
        )
    );
    assert!(dropped_data_json("t").str_field("timestamp").is_some());
}

fn config() -> DatabaseConfig {
    DatabaseConfig::default_in(&Environment { database_name: None, port: None, hostname: None })
}

#[test]
fn entries_for_a_table_are_applied_in_order() {
    let logs = vec![
        row_entry("Create", "t", &[]),
        row_entry("Insert", "t", &["u", "1"]),
        row_entry("Rename", "t", &[]),
        row_entry("Delete", "t", &["u", "0"]),
    ];
    let initial = "my_rust_db/tables/t_initial".to_string();
    let updates = "my_rust_db/tables/t_updates".to_string();
    let (mut run, step) = TableRun::begin(&config(), "t", &logs);
    assert_eq!(
        step,
        RecoveryStep::Apply(EntryAction::Create {
            initial: initial.clone(),
            updates: updates.clone()
        })
    );
    assert_eq!(run.entry(), &logs[0]);
    assert_eq!(
        run.proceed(&None),
        RecoveryStep::Apply(EntryAction::Row { change: RowChange::Insertion, path: initial })
    );
    assert_eq!(run.proceed(&None), RecoveryStep::Skip("Rename".to_string()));
    assert_eq!(
        run.proceed(&None),
        RecoveryStep::Apply(EntryAction::Row { change: RowChange::Deletion, path: updates })
    );
    assert_eq!(run.entry(), &logs[3]);
    assert_eq!(run.proceed(&None), RecoveryStep::Finish);
}

#[test]
fn the_first_error_ends_a_recovery() {
    let logs = vec![row_entry("Update", "t", &["u", "1"]), row_entry("Insert", "t", &["v"])];
    let (mut run, step) = TableRun::begin(&config(), "t", &logs);
    assert_eq!(
        step,
        RecoveryStep::Apply(choose_action(&config(), "t", ChangeType::Update))
    );
    assert_eq!(run.proceed(&Some("disk".to_string())), RecoveryStep::Fail("disk".to_string()));
    let (_, step) = TableRun::begin(&config(), "t", &vec![Json::Null]);
    assert_eq!(step, RecoveryStep::Fail("Invalid change type".to_string()));
}
