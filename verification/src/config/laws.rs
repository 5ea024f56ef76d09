//! What the configuration of a node promises.

use crate::config::database_config;
use crate::config::database_config::{ConfigView, EnvironmentView};
use crate::numbers;
use crate::text::Text;
use vstd::prelude::*;

verus! {

/// The environment overrides the port, where it gives one, the name of the
/// database and the URL of the node; everything else is as it is configured.
pub proof fn law_environment_comes_first(config: ConfigView, env: EnvironmentView)
    ensures
        ({
            let used = database_config::overridden(config, env);
            &&& env.port matches Some(p) ==> (numbers::u16_text(p) matches Some(n) ==> used.node_port
                == n)
            &&& (env.port matches Some(p) ==> numbers::u16_text(p) is None) ==> used.node_port
                == config.node_port
            &&& env.database_name matches Some(name) ==> used.database_name == name
            &&& env.database_name is None ==> used.database_name == config.database_name
            &&& env.hostname matches Some(url) ==> used.node_url == url
            &&& env.hostname is None ==> used.node_url == config.node_url
            &&& used.db_dir == config.db_dir
            &&& used.schema_file == config.schema_file
            &&& used.table_dir == config.table_dir
            &&& used.log_dir == config.log_dir
            &&& used.log_file == config.log_file
            &&& used.repl_node_file == config.repl_node_file
            &&& used.replication == config.replication
        }),
{
}

/// A path in a directory is the directory and the path with one slash between
/// them; an absolute path stands for itself.
pub proof fn law_paths_are_joined(directory: Text, file: Text)
    requires
        directory.len() > 0,
        directory.last() != '/',
        file.len() > 0,
        file[0] != '/',
    ensures
        database_config::joined(directory, file) == directory + seq!['/'] + file,
        database_config::joined(directory + seq!['/'], file) == directory + seq!['/'] + file,
        database_config::joined(directory, seq!['/'] + file) == seq!['/'] + file,
        database_config::joined(Seq::empty(), file) == file,
{
    reveal_strlit("/");
    assert("/"@ =~= seq!['/']);
}

/// The files of tables are in the directory for tables in that of the database.
pub proof fn law_table_files_have_their_place(config: ConfigView, file: Text)
    ensures
        database_config::table_file(config, file) == config.db_dir + seq!['/'] + config.table_dir
            + seq!['/'] + file,
{
    reveal_strlit("/");
    assert("/"@ =~= seq!['/']);
}

} // verus!
