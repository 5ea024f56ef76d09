use rust_db_engine::change_logging::change_logging::{ChangeLogEntry, ChangeType};
use rust_db_engine::config::database_config::{DatabaseConfig, Environment};
use rust_db_engine::json::{object1, Json};
use rust_db_engine::recovery::recovery::RowChange;
use rust_db_engine::recovery::recovery_run::EntryAction;
use rust_db_engine::replication::active_replication::{
    action_log_entry, compare_schemas, fallback_to_passive_replication, is_log_already_present,
    plan_push, replicate_change_to_nodes, replicate_to_single_node, PushAction, PushEvent,
    PushPlan, PushReply, ReplicationRequest, ReplicationResponse,
};
use rust_db_engine::replication::passive_replication::{
    applicable_nodes, get_replication_queue_status, outcome_of_sending,
    queue_passive_replication, scheduler_tick, try_replicate_request, FailureCounts,
    PassiveReplicationQueue, ReplicationError, SendResult, StaleReplicationQueue, Tick,
};
use rust_db_engine::replication::replication;
use rust_db_engine::replication::replication_nodes::{
    check_source_node, load_local_node_config, register_node, registered_reply,
    registration_outcome, registration_request, registration_request_with,
    update_local_node_configuration, update_node_replication, CrossNodeRegistrationRequest,
    NodeRegistrationRequest, NodesConfig, ReplicationMode, ReplicationNode,
    UpdateNodeReplicationRequest,
};
use rust_db_engine::replication::replication_sync_checker::{
    changes_request, check_status, compare_logs, compare_table, current_table_values,
    outcome_of_sync, replicate_changes_to_node, should_replicate_to_node, table_in_file,
    trigger_replication_sync, try_perform_replication_sync, Comparison, FetchAction, FetchRun,
    SyncAction, SyncRun, TableData,
};
use rust_db_engine::schema::schema::{create_table, Schema, Table};
use rust_db_engine::string_map::{Duplicate, StringMap};

fn texts(cells: &[&str]) -> Vec<String> {
    cells.iter().map(|c| c.to_string()).collect()
}

fn text(s: &str) -> Json {
    Json::Str(s.to_string())
}

fn node(name: &str, url: &str, tables: Option<&[&str]>) -> ReplicationNode {
    ReplicationNode {
        name: name.to_string(),
        node_url: url.to_string(),
        description: "a node".to_string(),
        replication_mode: match tables {
            None => ReplicationMode::All,
            Some(tables) => ReplicationMode::Specific(texts(tables)),
        },
        shared_secret: "secret".to_string(),
    }
}

fn entry(id: &str, change_type: ChangeType, table: &str) -> ChangeLogEntry {
    ChangeLogEntry {
        change_id: id.to_string(),
        change_type,
        table_name: table.to_string(),
        data: Json::Null,
        user: None,
        origin_db: None,
    }
}

fn request(entries: Vec<ChangeLogEntry>, target_node: ReplicationNode) -> ReplicationRequest {
    ReplicationRequest { schema: Schema::default(), entries, target_node }
}

fn config(port: u16) -> DatabaseConfig {
    let mut config = DatabaseConfig::default_in(&Environment {
        database_name: Some("main".to_string()),
        port: None,
        hostname: None,
    });
    config.node_url = "http://here".to_string();
    config.node_port = port;
    config
}

// --- nodes ---

#[test]
fn a_node_takes_its_tables() {
    assert!(node("n", "u", None).should_replicate("any"));
    let some = node("n", "u", Some(&["a", "b"]));
    assert!(some.should_replicate("b"));
    assert!(!some.should_replicate("c"));
}

#[test]
fn the_host_of_a_node_is_read_from_its_url() {
    let host = |url: &str| node("n", url, None).host();
    assert_eq!(host("http://db:8080/api"), "db:8080");
    assert_eq!(host("https://db"), "db");
    assert_eq!(host("db:8080"), "db:8080");
    assert_eq!(host("http://a://b"), "a");
    let url = |u: &str| node("n", u, None).endpoint_url("1.2.3.4:80", "/x");
    assert_eq!(url("https://db"), "https://1.2.3.4:80/x");
    assert_eq!(url("db"), "http://1.2.3.4:80/x");
    assert_eq!(node("n", "u", None).first_address(&texts(&["a", "b"])), Ok("a".to_string()));
    assert_eq!(
        node("n", "u", None).first_address(&vec![]),
        Err("No addresses found for u".to_string())
    );
}

#[test]
fn a_node_is_registered_with_the_secret_of_the_request() {
    let mut nodes = NodesConfig::default();
    register_node(
        &mut nodes,
        &NodeRegistrationRequest { node: node("n", "u", None), shared_secret: "new".to_string() },
    );
    assert_eq!(nodes.nodes.len(), 1);
    assert_eq!(nodes.nodes[0].shared_secret, "new");
    assert_eq!(registered_reply(&None).body, text("Node registered successfully"));
    let failed = registered_reply(&Some("disk".to_string()));
    assert_eq!((failed.status, failed.body), (500, text("Failed to save nodes: disk")));
}

#[test]
fn the_mode_of_a_node_is_changed_with_its_secret() {
    let mut nodes = NodesConfig { nodes: vec![node("a", "ua", None), node("b", "ub", None)] };
    let update = |url: &str, secret: &str| UpdateNodeReplicationRequest {
        node_url: url.to_string(),
        replication_mode: ReplicationMode::Specific(texts(&["t"])),
        shared_secret: secret.to_string(),
    };
    let refused = update_node_replication(&mut nodes, &update("uc", "secret")).err().unwrap();
    assert_eq!((refused.status, refused.body), (404, text("Node not found")));
    let refused = update_node_replication(&mut nodes, &update("ub", "wrong")).err().unwrap();
    assert_eq!((refused.status, refused.body), (401, text("Invalid shared secret")));
    let changed = update_node_replication(&mut nodes, &update("ub", "secret")).unwrap();
    assert_eq!(changed.replication_mode, ReplicationMode::Specific(texts(&["t"])));
    assert_eq!(nodes.nodes[1], changed);
    assert_eq!(nodes.nodes[0], node("a", "ua", None));
}

#[test]
fn a_registered_node_is_found_once() {
    let mut nodes = NodesConfig { nodes: vec![node("a", "ua", None)] };
    update_local_node_configuration(&mut nodes, &node("b", "ub", None), "s1");
    assert_eq!(nodes.nodes.len(), 2);
    update_local_node_configuration(&mut nodes, &node("b2", "ub", None), "s2");
    assert_eq!(nodes.nodes.len(), 2);
    assert_eq!(nodes.nodes[1].name, "b2");
    assert_eq!(nodes.nodes[1].shared_secret, "s2");
    assert_eq!(nodes.nodes[0], node("a", "ua", None));
}

#[test]
fn a_node_registers_itself_with_its_own_url() {
    assert_eq!(load_local_node_config(&config(0)).node_url, "http://here");
    let made = registration_request_with(&node("n", "there", None), &config(8080), "s");
    assert_eq!(made.node.node_url, "http://here:8080");
    assert_eq!(made.node.shared_secret, "s");
    assert_eq!(made.shared_secret, "s");
    let fresh = registration_request(&node("n", "there", None), &config(8080));
    assert_eq!(fresh.shared_secret.len(), 36);
    assert_eq!(fresh.node.shared_secret, fresh.shared_secret);
    let accepted = registration_outcome(made, 200, "200 OK").unwrap();
    assert_eq!(accepted.accepted_shared_secret, "s");
    let failed = registration_outcome(fresh, 500, "500 Internal Server Error").err().unwrap();
    assert_eq!(failed, "Target node registration failed: 500 Internal Server Error");
}

#[test]
fn a_source_node_has_a_url() {
    let ask = |url: &str| CrossNodeRegistrationRequest {
        source_node: node("n", url, None),
        proposed_shared_secret: String::new(),
    };
    assert!(check_source_node(&ask("u")).is_ok());
    let refused = check_source_node(&ask("")).err().unwrap();
    assert_eq!((refused.status, refused.body), (400, text("Invalid source node")));
}

// --- sending and taking changes ---

#[test]
fn a_change_goes_to_its_nodes() {
    let nodes = NodesConfig {
        nodes: vec![
            node("a", "ua", None),
            node("b", "ub", Some(&["t"])),
            node("c", "uc", Some(&["x"])),
        ],
    };
    let requests =
        replicate_change_to_nodes(&nodes, &Schema::default(), &entry("i", ChangeType::Insert, "t"));
    let names: Vec<&str> = requests.iter().map(|r| r.target_node.name.as_str()).collect();
    assert_eq!(names, vec!["a", "b"]);
    assert_eq!(requests[0].entries[0].change_id, "i");
}

#[test]
fn a_change_that_was_not_taken_waits() {
    let answer = |status: &str| -> Result<ReplicationResponse, String> {
        Ok(ReplicationResponse { status: status.to_string(), message: None })
    };
    assert_eq!(replicate_to_single_node(200, "200 OK", &answer("success")), Ok(true));
    assert_eq!(replicate_to_single_node(200, "200 OK", &answer("failed")), Ok(false));
    assert_eq!(
        replicate_to_single_node(400, "400 Bad Request", &answer("success")),
        Err("HTTP error: 400 Bad Request".to_string())
    );
    assert_eq!(
        replicate_to_single_node(200, "200 OK", &Err("no json".to_string())),
        Err("no json".to_string())
    );
    assert!(!fallback_to_passive_replication(&Ok(true)));
    assert!(fallback_to_passive_replication(&Ok(false)));
    assert!(fallback_to_passive_replication(&Err("e".to_string())));
}

#[test]
fn a_change_is_taken_once() {
    let lines = texts(&["{\"change_id\":\"abc\"}", "x"]);
    assert!(is_log_already_present(&lines, "abc"));
    assert!(!is_log_already_present(&lines, "abd"));
}

#[test]
fn each_change_goes_to_its_file() {
    let act = |t: ChangeType| action_log_entry(&config(0), &entry("i", t, "t"));
    let initial = "my_rust_db/tables/t_initial".to_string();
    let updates = "my_rust_db/tables/t_updates".to_string();
    assert_eq!(
        act(ChangeType::Insert),
        EntryAction::Row { change: RowChange::Insertion, path: initial.clone() }
    );
    assert_eq!(
        act(ChangeType::Update),
        EntryAction::Row { change: RowChange::Update, path: updates.clone() }
    );
    assert_eq!(
        act(ChangeType::Delete),
        EntryAction::Row { change: RowChange::Deletion, path: updates.clone() }
    );
    assert_eq!(
        act(ChangeType::Create),
        EntryAction::Create { initial: initial.clone(), updates: updates.clone() }
    );
    assert_eq!(act(ChangeType::Drop), EntryAction::Drop { initial, updates });
}

fn schema_json(tables: &[(&str, i64)]) -> Json {
    object1(
        "tables",
        Json::Object(tables.iter().map(|(n, v)| (n.to_string(), Json::Int(*v))).collect()),
    )
}

#[test]
fn schemas_are_compared_on_the_tables_of_a_node() {
    let a = schema_json(&[("t_initial", 1), ("t_updates", 2), ("x_initial", 3)]);
    let b = schema_json(&[("t_initial", 1), ("t_updates", 2)]);
    let c = schema_json(&[("t_initial", 1), ("t_updates", 9)]);
    let n = node("n", "u", Some(&["t"]));
    let all = node("n", "u", None);
    assert_eq!(compare_schemas(&a, &b, Some(&n)), Ok(true));
    assert_eq!(compare_schemas(&a, &c, Some(&n)), Ok(false));
    assert_eq!(compare_schemas(&a, &b, Some(&node("n", "u", Some(&["x"])))), Ok(false));
    assert_eq!(compare_schemas(&a, &b, Some(&node("n", "u", Some(&["y"])))), Ok(false));
    assert_eq!(compare_schemas(&a, &a, Some(&all)), Ok(true));
    assert_eq!(compare_schemas(&a, &b, Some(&all)), Ok(false));
    assert_eq!(compare_schemas(&b, &a, Some(&all)), Ok(false));
    assert_eq!(compare_schemas(&b, &c, Some(&all)), Ok(false));
    assert_eq!(compare_schemas(&a, &b, None), Ok(false));
    assert_eq!(
        compare_schemas(&Json::Null, &b, Some(&n)),
        Err("Could not extract tables from incoming schema".to_string())
    );
    assert_eq!(
        compare_schemas(&a, &Json::Null, Some(&n)),
        Err("Could not extract tables from current schema".to_string())
    );
}

fn response(reply: PushReply) -> (u16, String, Option<String>) {
    (reply.code, reply.response.status, reply.response.message)
}

#[test]
fn changes_are_applied_in_order() {
    let nodes = Some(NodesConfig { nodes: vec![node("n", "u", None)] });
    let payload = request(
        vec![entry("1", ChangeType::Insert, "t"), entry("2", ChangeType::Update, "t")],
        node("n", "u", None),
    );
    let empty = schema_json(&[]);
    let mut run = match plan_push(&nodes, &payload, &empty, &empty) {
        PushPlan::Run(run) => run,
        _ => panic!("expected a run"),
    };
    assert_eq!(run.begin(), PushAction::Apply(0));
    assert_eq!(run.entry(0).change_id, "1");
    assert_eq!(run.proceed(&PushEvent::Applied(None)), PushAction::Apply(1));
    match run.proceed(&PushEvent::Applied(None)) {
        PushAction::Finish(reply) => {
            assert_eq!(response(reply), (200, "success".to_string(), None))
        }
        _ => panic!("expected an answer"),
    }
}

#[test]
fn changes_to_the_schema_are_taken_by_force() {
    let nodes = Some(NodesConfig { nodes: vec![node("n", "u", Some(&["t"]))] });
    let payload = request(
        vec![
            entry("1", ChangeType::Insert, "t"),
            entry("2", ChangeType::Create, "t"),
            entry("3", ChangeType::Create, "other"),
        ],
        node("n", "u", None),
    );
    let mut run = match plan_push(&nodes, &payload, &Json::Null, &Json::Null) {
        PushPlan::Run(run) => run,
        _ => panic!("expected a run"),
    };
    assert_eq!(run.begin(), PushAction::Apply(0));
    assert_eq!(run.entry(0).change_id, "2");
    assert_eq!(run.proceed(&PushEvent::Applied(None)), PushAction::Refresh);
    match run.proceed(&PushEvent::Refreshed(true)) {
        PushAction::Finish(reply) => assert_eq!(
            response(reply),
            (
                200,
                "force_success".to_string(),
                Some("Forced replication for CREATE completed for node n".to_string())
            )
        ),
        _ => panic!("expected an answer"),
    }
}

#[test]
fn a_failed_change_ends_the_run() {
    let nodes = Some(NodesConfig { nodes: vec![node("n", "u", None)] });
    let empty = schema_json(&[]);
    let run = |kind: ChangeType| {
        let payload = request(vec![entry("1", kind, "t")], node("n", "u", None));
        match plan_push(&nodes, &payload, &empty, &empty) {
            PushPlan::Run(run) => run,
            _ => panic!("expected a run"),
        }
    };
    let end = |action: PushAction| match action {
        PushAction::Finish(reply) => response(reply),
        _ => panic!("expected an answer"),
    };
    let error = PushEvent::Applied(Some("E".to_string()));
    assert_eq!(
        end(run(ChangeType::Insert).proceed(&error)),
        (500, "failed".to_string(), Some("Replication failed at entry 0: E".to_string()))
    );
    assert_eq!(
        end(run(ChangeType::Drop).proceed(&error)),
        (500, "forced_failed".to_string(), Some("Forced replication failed: E".to_string()))
    );
    let mut forced = run(ChangeType::Drop);
    assert_eq!(forced.proceed(&PushEvent::Applied(None)), PushAction::Refresh);
    assert_eq!(
        end(forced.proceed(&PushEvent::Refreshed(false))),
        (
            500,
            "forced_schema_refresh_failed".to_string(),
            Some("Forced schema refresh failed".to_string())
        )
    );
}

#[test]
fn a_schema_change_for_another_table_is_refreshed_too() {
    let nodes = Some(NodesConfig { nodes: vec![node("n", "u", Some(&["t"]))] });
    let payload = request(vec![entry("1", ChangeType::Create, "x")], node("n", "u", None));
    let empty = schema_json(&[]);
    let mut run = match plan_push(&nodes, &payload, &empty, &empty) {
        PushPlan::Run(run) => run,
        _ => panic!("expected a run"),
    };
    assert_eq!(run.proceed(&PushEvent::Applied(None)), PushAction::Refresh);
    match run.proceed(&PushEvent::Refreshed(false)) {
        PushAction::Finish(reply) => assert_eq!(
            response(reply),
            (500, "failed".to_string(), Some("Unable to refresh schema".to_string()))
        ),
        _ => panic!("expected an answer"),
    }
}

#[test]
fn requests_that_do_not_fit_are_refused() {
    let nodes = || Some(NodesConfig { nodes: vec![node("n", "u", Some(&["t"]))] });
    let payload = |name: &str| {
        request(vec![entry("1", ChangeType::Insert, "t")], node(name, "u", Some(&["t"])))
    };
    let empty = schema_json(&[]);
    match plan_push(&nodes(), &payload("m"), &empty, &empty) {
        PushPlan::BadRequest(message) => assert_eq!(message, "Invalid target node"),
        _ => panic!("expected a refusal"),
    }
    let answer = |plan: PushPlan| match plan {
        PushPlan::Answer(reply) => response(reply),
        _ => panic!("expected an answer"),
    };
    assert_eq!(
        answer(plan_push(&None, &payload("n"), &empty, &empty)),
        (500, "failed".to_string(), Some("Could not load nodes configuration".to_string()))
    );
    assert_eq!(
        answer(plan_push(&nodes(), &payload("n"), &empty, &empty)),
        (400, "failed".to_string(), Some("Schema mismatch".to_string()))
    );
    assert_eq!(
        answer(plan_push(&nodes(), &payload("n"), &Json::Null, &empty)),
        (
            500,
            "failed".to_string(),
            Some(
                "Schema comparison error: Could not extract tables from incoming schema"
                    .to_string()
            )
        )
    );
}

#[test]
fn nodes_that_share_everything_compare_whole_schemas() {
    let mut schema = Schema::default();
    create_table(&mut schema, &Table { name: "t".to_string(), columns: vec![] });
    let payload = |kind: ChangeType| replication::ReplicationRequest {
        schema: Schema::default(),
        entries: vec![entry("1", kind, "t")],
    };
    let (code, refused) =
        replication::replication_push(&schema, &payload(ChangeType::Insert)).unwrap();
    assert_eq!(code, 400);
    assert_eq!(refused.message, Some("Schema mismatch".to_string()));
    assert!(replication::replication_push(&schema, &payload(ChangeType::Create)).is_none());
    assert!(replication::replication_push(&Schema::default(), &payload(ChangeType::Insert))
        .is_none());
    let one = replication::replicate_change_to_nodes(&schema, &entry("i", ChangeType::Drop, "t"));
    assert!(replication::replication_push(&schema, &one).is_none());
    assert_eq!(one.entries.len(), 1);
    let (code, done) = replication::pushed_response(&None);
    assert_eq!((code, done.status.as_str()), (200, "success"));
    let (code, failed) = replication::pushed_response(&Some("E".to_string()));
    assert_eq!((code, failed.message), (500, Some("Replication failed: E".to_string())));
    let n = replication::ReplicationNode {
        name: "n".to_string(),
        url: "http://n".to_string(),
        description: String::new(),
    };
    assert_eq!(replication::push_url(&n), "http://n/api/replication/push");
}

// --- the queue ---

#[test]
fn errors_say_what_went_wrong() {
    let e = || "x".to_string();
    assert_eq!(
        ReplicationError::ConfigLoadError(e()).to_text(),
        "Failed to load configuration: x"
    );
    assert_eq!(
        ReplicationError::NetworkError(e()).to_text(),
        "Network error during replication: x"
    );
    assert_eq!(ReplicationError::ReplicationFailure(e()).to_text(), "Replication failed: x");
    assert_eq!(
        ReplicationError::SerializationError(e()).to_text(),
        "Replication Serail failed: x"
    );
}

#[test]
fn the_queue_keeps_the_order() {
    let mut queue = PassiveReplicationQueue::default();
    for id in ["1", "2"] {
        queue.enqueue_as(
            request(vec![entry(id, ChangeType::Insert, "t")], node("n", "u", None)),
            id.to_string(),
        );
    }
    let (id, reply) =
        queue_passive_replication(&mut queue, request(vec![], node("n", "u", None)));
    assert_eq!(id.len(), 36);
    assert_eq!(reply.status, 200);
    assert_eq!(reply.body.str_field("request_id").unwrap(), &id);
    assert_eq!(reply.body.str_field("status").unwrap(), "queued");
    let status = get_replication_queue_status(&queue);
    assert_eq!(status.body.get("queue_length").unwrap(), &Json::Int(3));
    let listed = status.body.get("requests").unwrap().as_array().unwrap();
    assert_eq!(listed[0].str_field("id").unwrap(), "1");
    assert_eq!(listed[0].get("attempts").unwrap(), &Json::Int(0));
    assert_eq!(listed[0].get("last_attempt").unwrap(), &Json::Null);
    let taken = queue.get_requests();
    let ids: Vec<&str> = taken.iter().map(|q| q.id.as_str()).collect();
    assert_eq!(ids, vec!["1", "2", id.as_str()]);
    assert!(queue.get_requests().is_empty());
}

#[test]
fn stale_requests_wait_for_their_node() {
    let mut queue = PassiveReplicationQueue::default();
    queue.enqueue_as(request(vec![], node("n", "u", None)), "1".to_string());
    queue.enqueue_as(request(vec![], node("n", "u", None)), "2".to_string());
    let mut stale = StaleReplicationQueue::default();
    for q in queue.get_requests() {
        stale.add_stale_request("n".to_string(), q);
    }
    assert!(stale.get_stale_requests_for_node("m").is_empty());
    let waiting = stale.get_stale_requests_for_node("n");
    let ids: Vec<&str> = waiting.iter().map(|q| q.id.as_str()).collect();
    assert_eq!(ids, vec!["1", "2"]);
    assert!(stale.get_stale_requests_for_node("n").is_empty());
}

#[test]
fn a_request_goes_to_nodes_that_take_all_of_it() {
    let nodes = NodesConfig {
        nodes: vec![node("a", "ua", None), node("b", "ub", Some(&["t"]))],
    };
    let r = request(
        vec![entry("1", ChangeType::Insert, "t"), entry("2", ChangeType::Insert, "x")],
        node("n", "u", None),
    );
    let names: Vec<String> =
        applicable_nodes(&nodes, &r).iter().map(|n| n.name.clone()).collect();
    assert_eq!(names, texts(&["a"]));
}

#[test]
fn the_first_error_is_told() {
    let n = node("n", "url", None);
    assert_eq!(
        outcome_of_sending(&n, &SendResult::Answered(200, "200 OK".to_string())),
        Ok(())
    );
    assert_eq!(
        outcome_of_sending(&n, &SendResult::Answered(500, "500 X".to_string())),
        Err(ReplicationError::NetworkError("HTTP error to url: 500 X".to_string()))
    );
    assert_eq!(
        outcome_of_sending(&n, &SendResult::Unanswered("gone".to_string())),
        Err(ReplicationError::NetworkError("Replication error to url: gone".to_string()))
    );
    assert_eq!(
        outcome_of_sending(&n, &SendResult::Unresolved("dns".to_string())),
        Err(ReplicationError::NetworkError("dns".to_string()))
    );
    let e = |s: &str| Some(ReplicationError::NetworkError(s.to_string()));
    assert_eq!(try_replicate_request(&vec![None, None]), Ok(()));
    assert_eq!(
        try_replicate_request(&vec![None, e("a"), e("b")]),
        Err(ReplicationError::NetworkError("a".to_string()))
    );
}

#[test]
fn the_schedule_is_kept() {
    assert_eq!(scheduler_tick(60, 60, 60, 60), Tick::Sync);
    assert_eq!(scheduler_tick(59, 60, 60, 60), Tick::Passive);
    assert_eq!(scheduler_tick(59, 60, 59, 60), Tick::Nothing);
    assert_eq!(scheduler_tick(60, 0, 60, 0), Tick::Nothing);
    assert_eq!(scheduler_tick(60, 0, 60, -1), Tick::Nothing);
    assert_eq!(scheduler_tick(60, 0, 60, 5), Tick::Passive);
}

#[test]
fn failures_are_counted_until_success() {
    let mut counts = FailureCounts::default();
    assert!(!counts.record_failure("a", 2));
    assert!(counts.record_failure("a", 2));
    assert_eq!(counts.failures("a"), 2);
    counts.record_success("a");
    assert_eq!(counts.failures("a"), 0);
}

#[test]
fn a_request_is_tried_as_often_as_allowed() {
    let mut queue = PassiveReplicationQueue::default();
    let mut counts = FailureCounts::default();
    queue.enqueue_as(request(vec![], node("n", "u", None)), "a".to_string());
    for attempt in 1..4 {
        let mut waiting = queue.get_requests();
        assert_eq!(waiting.len(), 1);
        assert_eq!(waiting[0].id, "a");
        let given_up = queue.sending_done(&mut counts, waiting.remove(0), false, 3);
        assert_eq!(given_up, attempt == 3);
    }
    assert!(queue.get_requests().is_empty());
    queue.enqueue_as(request(vec![], node("n", "u", None)), "b".to_string());
    let waiting = queue.get_requests().remove(0);
    assert!(!queue.sending_done(&mut counts, waiting, false, 3));
    let waiting = queue.get_requests().remove(0);
    assert!(!queue.sending_done(&mut counts, waiting, true, 3));
    assert!(queue.get_requests().is_empty());
    assert_eq!(counts.failures("b"), 0);
}

// --- comparing nodes ---

#[test]
fn files_name_their_tables() {
    assert_eq!(table_in_file("t_initial"), Some("t".to_string()));
    assert_eq!(table_in_file("t_updates"), None);
    assert_eq!(
        current_table_values(&vec![texts(&["UUID"]), texts(&["u"])]),
        vec![Json::Array(vec![text("u")])]
    );
    assert!(current_table_values(&vec![]).is_empty());
}

#[test]
fn logs_are_compared() {
    let e = |id: &str, kind: ChangeType, table: &str| entry(id, kind, table);
    let logs = vec![e("1", ChangeType::Insert, "t"), e("2", ChangeType::Insert, "t"),
        e("3", ChangeType::Insert, "x")];
    let other = vec![e("1", ChangeType::Insert, "t"), e("2", ChangeType::Update, "t")];
    let ids = |v: Vec<ChangeLogEntry>| -> Vec<String> {
        v.iter().map(|e| e.change_id.clone()).collect()
    };
    assert_eq!(ids(compare_logs(&logs, &other, "t")), texts(&["2"]));
    assert_eq!(ids(compare_logs(&logs, &vec![], "t")), texts(&["1", "2"]));
    assert!(compare_logs(&logs, &logs, "t").is_empty());
    assert!(should_replicate_to_node(&logs, &other));
    assert!(!should_replicate_to_node(&other, &logs));
    assert!(!should_replicate_to_node(&logs, &logs));
}

fn data(tables: &[(&str, i64)]) -> TableData {
    let mut map: TableData = StringMap::new();
    for (name, value) in tables {
        map.insert(name.to_string(), vec![Json::Int(*value)]);
    }
    map
}

#[test]
fn tables_are_compared() {
    let here = data(&[("a", 1), ("b", 1), ("c", 1)]);
    let there = data(&[("a", 1), ("b", 2), ("d", 1)]);
    assert_eq!(compare_table(&here, &there, "a"), Comparison::Same);
    assert_eq!(compare_table(&here, &there, "b"), Comparison::Differs);
    assert_eq!(compare_table(&here, &there, "c"), Comparison::OnlyHere);
    assert_eq!(compare_table(&here, &there, "d"), Comparison::OnlyThere);
    assert_eq!(compare_table(&here, &there, "e"), Comparison::Nowhere);
}

#[test]
fn same_data_needs_nothing() {
    let (_, action) = SyncRun::begin(&node("n", "u", None), &data(&[("a", 1)]), &data(&[("a", 1)]));
    assert_eq!(action, SyncAction::Finish);
}

#[test]
fn a_node_with_more_entries_sends_them() {
    let (mut run, action) = SyncRun::begin(
        &node("n", "u", None),
        &data(&[("a", 1), ("b", 1), ("c", 1)]),
        &data(&[("a", 1), ("b", 2), ("c", 2)]),
    );
    assert_eq!(
        action,
        SyncAction::FetchLogs { table: "b".to_string(), here: true, there: true }
    );
    let logs = vec![entry("1", ChangeType::Insert, "b")];
    match run.logs_fetched(&logs, &vec![]) {
        SyncAction::Push(entries) => assert_eq!(entries, logs),
        _ => panic!("expected changes"),
    }
    assert_eq!(
        run.pushed(),
        SyncAction::FetchLogs { table: "c".to_string(), here: true, there: true }
    );
    assert_eq!(run.logs_fetched(&vec![], &vec![]), SyncAction::Pull);
    assert_eq!(run.pulled(), SyncAction::Finish);
}

#[test]
fn a_node_with_its_own_tables_goes_on_after_asking() {
    let (mut run, action) = SyncRun::begin(
        &node("n", "u", Some(&["a", "b"])),
        &data(&[]),
        &data(&[("a", 1), ("b", 2)]),
    );
    assert_eq!(
        action,
        SyncAction::FetchLogs { table: "a".to_string(), here: false, there: true }
    );
    let logs = vec![entry("1", ChangeType::Insert, "a")];
    // What this node has of a table that it has not does not count.
    assert_eq!(run.logs_fetched(&logs, &vec![]), SyncAction::Pull);
    assert_eq!(
        run.pulled(),
        SyncAction::FetchLogs { table: "b".to_string(), here: false, there: true }
    );
}

#[test]
fn a_node_that_takes_all_tables_stops_after_asking() {
    let (mut run, action) =
        SyncRun::begin(&node("n", "u", None), &data(&[]), &data(&[("a", 1), ("b", 2)]));
    assert_eq!(
        action,
        SyncAction::FetchLogs { table: "a".to_string(), here: false, there: true }
    );
    assert_eq!(run.logs_fetched(&vec![], &vec![]), SyncAction::Pull);
    assert_eq!(run.pulled(), SyncAction::Finish);
}

#[test]
fn the_tables_of_a_node_are_fetched() {
    let (mut run, action) = FetchRun::begin(&node("n", "https://u", None), "1.2.3.4:80");
    assert_eq!(
        action,
        FetchAction::List {
            url: "https://1.2.3.4:80/api/tables".to_string(),
            authorization: "Basic bjpzZWNyZXQ=".to_string()
        }
    );
    assert_eq!(
        run.list_fetched(200, "200 OK", &texts(&["a", "b"])),
        FetchAction::Table { url: "https://1.2.3.4:80/api/tables/a".to_string() }
    );
    assert_eq!(
        run.table_fetched(200, &vec![vec![Json::Int(1)]]),
        FetchAction::Table { url: "https://1.2.3.4:80/api/tables/b".to_string() }
    );
    assert_eq!(run.unreachable("gone"), "gone");
    assert_eq!(run.table_fetched(404, &vec![]), FetchAction::Finish);
    let fetched = run.into_data();
    assert_eq!(fetched.len(), 1);
    assert_eq!(fetched.get("a").unwrap(), &vec![Json::Array(vec![Json::Int(1)])]);
    let (mut run, _) = FetchRun::begin(&node("n", "u", None), "a");
    assert_eq!(
        run.list_fetched(500, "500 X", &vec![]),
        FetchAction::Fail("Failed to fetch table list: 500 X".to_string())
    );
    let (run, action) = FetchRun::begin(&node("n", "u", Some(&["t"])), "a");
    assert_eq!(action, FetchAction::Table { url: "http://a/api/tables/t".to_string() });
    assert_eq!(run.unreachable("gone"), "Failed to fetch table list: gone");
}

#[test]
fn synchronisations_are_answered() {
    let n = node("n", "url", None);
    assert_eq!(outcome_of_sync(&n, "U", &SendResult::Answered(200, "200 OK".to_string())), Ok(()));
    let failed = outcome_of_sync(&n, "U", &SendResult::Answered(500, "500 X".to_string()));
    let gone = outcome_of_sync(&n, "U", &SendResult::Unanswered("gone".to_string()));
    let lost = outcome_of_sync(&n, "U", &SendResult::Unresolved("dns".to_string()));
    assert_eq!(
        try_perform_replication_sync(&vec![None, failed.err(), gone.err(), lost.err()]),
        Err("Replication sync failed: Replication failed: Sync check failed for U: 500 X; \
             Replication failed: Network error on url: gone; \
             Network error during replication: dns"
            .to_string())
    );
    assert_eq!(try_perform_replication_sync(&vec![None]), Ok(()));
    let done = trigger_replication_sync(&None);
    assert_eq!(done.message, "Replication sync check completed successfully");
    let failed = trigger_replication_sync(&Some("x".to_string()));
    assert_eq!((failed.status, failed.message.as_str()), (500, "Replication sync check failed: x"));
    assert_eq!(check_status("What: ", 200, "200 OK"), Ok(()));
    assert_eq!(check_status("What: ", 404, "404 Not Found"), Err("What: 404 Not Found".to_string()));
    assert_eq!(replicate_changes_to_node(&Ok(true)), Ok(()));
    assert_eq!(
        replicate_changes_to_node(&Ok(false)),
        Err("Failed to replicate changes to node".to_string())
    );
    assert_eq!(replicate_changes_to_node(&Err("e".to_string())), Err("e".to_string()));
    let r = changes_request(&Schema::default(), &n, vec![entry("1", ChangeType::Drop, "t")]);
    assert_eq!(r.target_node, n.duplicate());
}
