//! The state of a running database.

use crate::auth::auth::{UserCache, UserView};
use crate::change_logging::change_logging::ChangeLogger;
use crate::config::database_config::DatabaseConfig;
use crate::records::table::Cache;
use crate::recovery::recovery::LogRecoveryManager;
use crate::replication::passive_replication::{PassiveReplicationQueue, QueuedView};
use crate::schema::schema::Schema;
use crate::text::Text;
use vstd::prelude::*;

verus! {

/// The state of a running database.
#[derive(Debug)]
pub struct AppState {
    pub schema: Schema,
    pub config: DatabaseConfig,
    /// The present rows of tables, by the names of the tables.
    pub cache: Cache,
    pub change_logger: ChangeLogger,
    pub log_recovery_manager: LogRecoveryManager,
    pub passive_replication_queue: PassiveReplicationQueue,
    pub user_cache: UserCache,
}

impl AppState {
    /// The state with which a database starts: with no request in the queue and
    /// no user looked up.
    pub fn new(
        schema: Schema,
        config: DatabaseConfig,
        cache: Cache,
        change_logger: ChangeLogger,
        log_recovery_manager: LogRecoveryManager,
    ) -> (r: Self)
        ensures
            r.schema == schema,
            r.config == config,
            r.cache == cache,
            r.change_logger == change_logger,
            r.log_recovery_manager == log_recovery_manager,
            r.passive_replication_queue.deep_view() == Seq::<QueuedView>::empty(),
            r.user_cache.deep_view() == Map::<Text, UserView>::empty(),
    {
        AppState {
            schema,
            config,
            cache,
            change_logger,
            log_recovery_manager,
            passive_replication_queue: PassiveReplicationQueue::default(),
            user_cache: UserCache::new(),
        }
    }
}

} // verus!
