//! The configuration of a node, and what the environment overrides in it.

use crate::numbers;
use crate::numbers::parse_u16;
use crate::text;
use crate::text::{chars_of, concat2, concat3, replace_all, Text};
use vstd::prelude::*;
use vstd::string::*;

verus! {

/// The directory of the database where no other is configured.
pub const DB_DIR: &'static str = "my_rust_db";

/// The file of the schema where no other is configured.
pub const SCHEMA_FILE: &'static str = "schema.json";

/// The directory of the tables where no other is configured.
pub const TABLE_DIR: &'static str = "tables";

/// How replication to other nodes is done.
#[derive(Clone, Copy, Debug, PartialEq, Eq)]
pub struct ReplicationConfig {
    /// Seconds.
    pub max_offline_duration: i64,
    pub max_replication_attempts: u32,
    /// Seconds.
    pub retry_interval: i64,
    /// Minutes; 0 where no synchronisation is configured.
    pub sync_interval: u64,
}

impl Default for ReplicationConfig {
    fn default() -> (r: Self)
        ensures
            r.max_offline_duration == 86400,
            r.max_replication_attempts == 3,
            r.retry_interval == 300,
            r.sync_interval == 0,
    {
        ReplicationConfig {
            max_offline_duration: 86400,
            max_replication_attempts: 3,
            retry_interval: 300,
            sync_interval: 0,
        }
    }
}

/// The configuration of a node. The paths are texts.
#[derive(Debug, PartialEq, Eq)]
pub struct DatabaseConfig {
    pub db_dir: String,
    pub schema_file: String,
    pub table_dir: String,
    pub database_name: String,
    pub log_dir: String,
    pub log_file: String,
    pub repl_node_file: String,
    pub replication: ReplicationConfig,
    pub node_url: String,
    pub node_port: u16,
}

/// A [`DatabaseConfig`] as a mathematical value.
pub struct ConfigView {
    pub db_dir: Text,
    pub schema_file: Text,
    pub table_dir: Text,
    pub database_name: Text,
    pub log_dir: Text,
    pub log_file: Text,
    pub repl_node_file: Text,
    pub replication: ReplicationConfig,
    pub node_url: Text,
    pub node_port: u16,
}

impl DeepView for DatabaseConfig {
    type V = ConfigView;

    open spec fn deep_view(&self) -> ConfigView {
        ConfigView {
            db_dir: self.db_dir@,
            schema_file: self.schema_file@,
            table_dir: self.table_dir@,
            database_name: self.database_name@,
            log_dir: self.log_dir@,
            log_file: self.log_file@,
            repl_node_file: self.repl_node_file@,
            replication: self.replication,
            node_url: self.node_url@,
            node_port: self.node_port,
        }
    }
}

impl Clone for DatabaseConfig {
    fn clone(&self) -> (r: Self)
        ensures
            r.deep_view() == self.deep_view(),
    {
        DatabaseConfig {
            db_dir: self.db_dir.clone(),
            schema_file: self.schema_file.clone(),
            table_dir: self.table_dir.clone(),
            database_name: self.database_name.clone(),
            log_dir: self.log_dir.clone(),
            log_file: self.log_file.clone(),
            repl_node_file: self.repl_node_file.clone(),
            replication: self.replication,
            node_url: self.node_url.clone(),
            node_port: self.node_port,
        }
    }
}

/// What the environment says of a node, as far as it says anything.
#[derive(Debug, PartialEq, Eq)]
pub struct Environment {
    pub database_name: Option<String>,
    pub port: Option<String>,
    pub hostname: Option<String>,
}

/// An [`Environment`] as a mathematical value.
pub struct EnvironmentView {
    pub database_name: Option<Text>,
    pub port: Option<Text>,
    pub hostname: Option<Text>,
}

impl DeepView for Environment {
    type V = EnvironmentView;

    open spec fn deep_view(&self) -> EnvironmentView {
        EnvironmentView {
            database_name: self.database_name.deep_view(),
            port: self.port.deep_view(),
            hostname: self.hostname.deep_view(),
        }
    }
}

/// The port that the environment gives, where it is one; else `default`.
pub open spec fn port_or(port: Option<Text>, default: u16) -> u16 {
    match port {
        Some(p) => match numbers::u16_text(p) {
            Some(n) => n,
            None => default,
        },
        None => default,
    }
}

/// The text that the environment gives; else `default`.
pub open spec fn text_or(given: Option<Text>, default: Text) -> Text {
    match given {
        Some(t) => t,
        None => default,
    }
}

/// A configuration with what the environment overrides in it: the port, the
/// name of the database and the URL of the node.
pub open spec fn overridden(config: ConfigView, env: EnvironmentView) -> ConfigView {
    ConfigView {
        node_port: port_or(env.port, config.node_port),
        database_name: text_or(env.database_name, config.database_name),
        node_url: text_or(env.hostname, config.node_url),
        ..config
    }
}

/// The configuration where no file gives one, without what the environment
/// says.
pub open spec fn builtin_config() -> ConfigView {
    ConfigView {
        db_dir: DB_DIR@,
        schema_file: SCHEMA_FILE@,
        table_dir: TABLE_DIR@,
        database_name: "my_rust_db"@,
        log_dir: "logs"@,
        log_file: "change_log.json"@,
        repl_node_file: "nodes.json"@,
        replication: ReplicationConfig {
            max_offline_duration: 86400,
            max_replication_attempts: 3,
            retry_interval: 300,
            sync_interval: 0,
        },
        node_url: "http://0.0.0.0"@,
        node_port: 8080,
    }
}

fn choose_text(given: &Option<String>, default: &str) -> (r: String)
    ensures
        r@ == text_or(given.deep_view(), default@),
{
    match given {
        Some(t) => t.clone(),
        None => default.to_owned(),
    }
}

fn choose_port(given: &Option<String>, default: u16) -> (r: u16)
    ensures
        r == port_or(given.deep_view(), default),
{
    match given {
        Some(p) => match parse_u16(p.as_str()) {
            Some(n) => n,
            None => default,
        },
        None => default,
    }
}

impl DatabaseConfig {
    /// The configuration where no file gives one.
    pub fn default_in(env: &Environment) -> (r: Self)
        ensures
            r.deep_view() == overridden(builtin_config(), env.deep_view()),
    {
        DatabaseConfig {
            db_dir: DB_DIR.to_owned(),
            schema_file: SCHEMA_FILE.to_owned(),
            table_dir: TABLE_DIR.to_owned(),
            database_name: choose_text(&env.database_name, "my_rust_db"),
            log_dir: "logs".to_owned(),
            log_file: "change_log.json".to_owned(),
            repl_node_file: "nodes.json".to_owned(),
            replication: ReplicationConfig::default(),
            node_url: choose_text(&env.hostname, "http://0.0.0.0"),
            node_port: choose_port(&env.port, 8080),
        }
    }

    /// This configuration with what the environment overrides in it.
    pub fn with_environment(&self, env: &Environment) -> (r: Self)
        ensures
            r.deep_view() == overridden(self.deep_view(), env.deep_view()),
    {
        let mut r = self.clone();
        r.node_port = choose_port(&env.port, self.node_port);
        r.database_name = choose_text(&env.database_name, self.database_name.as_str());
        r.node_url = choose_text(&env.hostname, self.node_url.as_str());
        r
    }

    /// The host that the node listens on: its URL without `http://`.
    pub fn hostname(&self) -> (r: String)
        ensures
            r@ == text::replaced(self.node_url@, "http://"@, Seq::empty()),
    {
        proof {
            reveal_strlit("http://");
            reveal_strlit("");
            assert(""@ =~= Seq::<char>::empty());
        }
        replace_all(self.node_url.as_str(), "http://", "")
    }
}

/// What the environment overrides does not change where it is applied again.
pub proof fn law_overriding_is_idempotent(config: ConfigView, env: EnvironmentView)
    ensures
        overridden(overridden(config, env), env) == overridden(config, env),
{
}

// ---------------------------------------------------------------------------
// Paths
// ---------------------------------------------------------------------------

/// The path of `b` in the directory `a`. An absolute `b` stands for itself.
pub open spec fn joined(a: Text, b: Text) -> Text {
    if a.len() == 0 || (b.len() > 0 && b[0] == '/') {
        b
    } else if a.last() == '/' {
        a + b
    } else {
        a + "/"@ + b
    }
}

/// The path of `b` in the directory `a`.
pub fn join_path(a: &str, b: &str) -> (r: String)
    ensures
        r@ == joined(a@, b@),
{
    let x = chars_of(a);
    let y = chars_of(b);
    if x.len() == 0 || (y.len() > 0 && y[0] == '/') {
        b.to_owned()
    } else if x[x.len() - 1] == '/' {
        concat2(a, b)
    } else {
        concat3(a, "/", b)
    }
}

/// The path of a file of a table, in the form that recovery and replication
/// use.
pub open spec fn table_file(config: ConfigView, file: Text) -> Text {
    config.db_dir + "/"@ + config.table_dir + "/"@ + file
}

/// The path of a file of a table, in the form that recovery and replication
/// use.
pub fn table_file_path(config: &DatabaseConfig, file: &str) -> (r: String)
    ensures
        r@ == table_file(config.deep_view(), file@),
{
    let mut r = concat3(config.db_dir.as_str(), "/", config.table_dir.as_str());
    r.append("/");
    r.append(file);
    r
}

} // verus!
