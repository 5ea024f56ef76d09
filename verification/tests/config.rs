use rust_db_engine::app_state::AppState;
use rust_db_engine::change_logging::change_logging::ChangeLogger;
use rust_db_engine::config::database_config::{
    join_path, table_file_path, DatabaseConfig, Environment,
};
use rust_db_engine::recovery::recovery::LogRecoveryManager;
use rust_db_engine::schema::schema::Schema;
use rust_db_engine::string_map::StringMap;

fn environment(name: Option<&str>, port: Option<&str>, host: Option<&str>) -> Environment {
    Environment {
        database_name: name.map(|s| s.to_string()),
        port: port.map(|s| s.to_string()),
        hostname: host.map(|s| s.to_string()),
    }
}

#[test]
fn the_environment_overrides_the_configuration() {
    let config = DatabaseConfig::default_in(&environment(None, None, None));
    assert_eq!(config.db_dir, "my_rust_db");
    assert_eq!(config.schema_file, "schema.json");
    assert_eq!(config.table_dir, "tables");
    let env = environment(Some("main"), Some("9090"), Some("http://db"));
    let other = config.with_environment(&env);
    assert_eq!(other.database_name, "main");
    assert_eq!(other.node_port, 9090);
    assert_eq!(other.hostname(), "db");
    let again = other.with_environment(&env);
    assert_eq!(again, other);
}

#[test]
fn paths_are_joined() {
    assert_eq!(join_path("a", "b"), "a/b");
    assert_eq!(join_path("a/", "b"), "a/b");
    assert_eq!(join_path("a", "/b"), "/b");
    assert_eq!(join_path("", "b"), "b");
    let config = DatabaseConfig::default_in(&environment(None, None, None));
    assert_eq!(table_file_path(&config, "t_initial"), "my_rust_db/tables/t_initial");
}

#[test]
fn a_database_starts_with_an_empty_queue() {
    let make = || DatabaseConfig::default_in(&environment(None, None, None));
    let state = AppState::new(
        Schema::default(),
        make(),
        StringMap::new(),
        ChangeLogger::new("logs", "log.json".to_string()),
        LogRecoveryManager::new(make()),
    );
    assert!(state.passive_replication_queue.queue.is_empty());
    assert!(state.user_cache.get("admin").is_none());
    assert_eq!(state.change_logger.log_file_path(), "logs/log.json");
}
