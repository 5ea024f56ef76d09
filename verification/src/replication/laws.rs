//! What goes to which node, what a node takes, and what brings two nodes in
//! step.

use crate::change_logging::change_logging;
use crate::change_logging::change_logging::{ChangeType, EntryView};
use crate::config::database_config::ConfigView;
use crate::json;
use crate::json::{Fields, JsonView};
use crate::replication::active_replication;
use crate::replication::active_replication::{
    PushActionView, PushEvent, PushPlanView, RequestView, RunView,
};
use crate::replication::passive_replication;
use crate::replication::passive_replication::{
    QueuedView, ReplicationErrorView, SendResult, Tick,
};
use crate::replication::replication_nodes;
use crate::replication::replication_nodes::{ModeView, NodeView};
use crate::replication::replication_sync_checker;
use crate::replication::replication_sync_checker::{
    Comparison, DataView, FetchActionView, FetchView, SyncActionView, SyncStage, SyncView,
};
use crate::schema::schema::SchemaView;
use crate::text;
use crate::text::Text;
use crate::text_laws;
use vstd::prelude::*;

verus! {

// ---------------------------------------------------------------------------
// Nodes
// ---------------------------------------------------------------------------

/// Whether a node takes the changes to a table: all of them, or those to one of
/// its own tables.
pub open spec fn takes(node: NodeView, table: Text) -> bool {
    match node.replication_mode {
        ModeView::All => true,
        ModeView::Specific(tables) => exists|i: int|
            0 <= i < tables.len() && #[trigger] tables[i] == table,
    }
}

proof fn lemma_takes(node: NodeView, table: Text)
    ensures
        replication_nodes::replicates(node.replication_mode, table) == takes(node, table),
{
    if let ModeView::Specific(tables) = node.replication_mode {
        if tables.contains(table) {
            let i = choose|i: int| 0 <= i < tables.len() && tables[i] == table;
            assert(tables[i] == table);
        }
    }
}

/// A change is sent to just the nodes that take it, each of them once and in
/// their order, and every request carries just that change and the schema.
pub proof fn law_change_is_sent_to_the_nodes_that_take_it(
    nodes: Seq<NodeView>,
    schema: SchemaView,
    entry: EntryView,
)
    ensures
        active_replication::change_requests(nodes, schema, entry) == nodes.filter(
            |node: NodeView| takes(node, entry.table_name),
        ).map_values(
            |node: NodeView| RequestView { schema, entries: seq![entry], target_node: node },
        ),
    decreases nodes.len(),
{
    reveal(Seq::filter);
    let p = |node: NodeView| takes(node, entry.table_name);
    let f = |node: NodeView| RequestView { schema, entries: seq![entry], target_node: node };
    if nodes.len() > 0 {
        let d = nodes.drop_last();
        law_change_is_sent_to_the_nodes_that_take_it(d, schema, entry);
        lemma_takes(nodes.last(), entry.table_name);
        if p(nodes.last()) {
            assert(d.filter(p).push(nodes.last()).map_values(f) =~= d.filter(p).map_values(f).push(
                f(nodes.last()),
            ));
        }
    } else {
        assert(nodes.filter(p).map_values(f) =~= Seq::empty());
    }
}

/// Changes that wait are sent to just the nodes that take all of them, in their
/// order.
pub proof fn law_waiting_changes_go_to_nodes_that_take_all(
    nodes: Seq<NodeView>,
    entries: Seq<EntryView>,
)
    ensures
        passive_replication::nodes_for(nodes, entries) == nodes.filter(
            |node: NodeView|
                forall|i: int|
                    0 <= i < entries.len() ==> takes(node, (#[trigger] entries[i]).table_name),
        ),
    decreases nodes.len(),
{
    reveal(Seq::filter);
    if nodes.len() > 0 {
        law_waiting_changes_go_to_nodes_that_take_all(nodes.drop_last(), entries);
        let node = nodes.last();
        assert forall|i: int| 0 <= i < entries.len() implies replication_nodes::replicates(
            node.replication_mode,
            (#[trigger] entries[i]).table_name,
        ) == takes(node, entries[i].table_name) by {
            lemma_takes(node, entries[i].table_name);
        }
    }
}

/// A node is looked up by its name, or by its URL, and of several the first
/// counts.
pub proof fn law_node_is_the_first_of_its_name(nodes: Seq<NodeView>, key: Text)
    ensures
        match replication_nodes::position_of_name(nodes, key) {
            Some(i) => 0 <= i < nodes.len() && nodes[i].name == key && forall|k: int|
                0 <= k < i ==> (#[trigger] nodes[k]).name != key,
            None => forall|k: int| 0 <= k < nodes.len() ==> (#[trigger] nodes[k]).name != key,
        },
        match replication_nodes::position_of_url(nodes, key) {
            Some(i) => 0 <= i < nodes.len() && nodes[i].node_url == key && forall|k: int|
                0 <= k < i ==> (#[trigger] nodes[k]).node_url != key,
            None => forall|k: int| 0 <= k < nodes.len() ==> (#[trigger] nodes[k]).node_url != key,
        },
    decreases nodes.len(),
{
    if nodes.len() > 0 {
        let d = nodes.drop_last();
        law_node_is_the_first_of_its_name(d, key);
        assert(forall|k: int| 0 <= k < d.len() ==> d[k] == nodes[k]);
        assert(nodes[nodes.len() - 1] == nodes.last());
    }
}

/// The mode of a node is changed without anything else of it or of the others.
pub proof fn law_only_the_mode_is_changed(nodes: Seq<NodeView>, i: int, mode: ModeView)
    requires
        0 <= i < nodes.len(),
    ensures
        ({
            let after = replication_nodes::with_mode(nodes, i, mode);
            &&& after.len() == nodes.len()
            &&& after[i].replication_mode == mode
            &&& after[i].name == nodes[i].name
            &&& after[i].node_url == nodes[i].node_url
            &&& after[i].description == nodes[i].description
            &&& after[i].shared_secret == nodes[i].shared_secret
            &&& forall|k: int|
                0 <= k < nodes.len() && k != i ==> #[trigger] after[k] == nodes[k]
        }),
{
}

/// A node that is registered anew is added at the end, and the others stay.
pub proof fn law_new_node_is_added(nodes: Seq<NodeView>, node: NodeView, secret: Text)
    requires
        forall|k: int| 0 <= k < nodes.len() ==> (#[trigger] nodes[k]).node_url != node.node_url,
    ensures
        replication_nodes::with_node(nodes, node, secret) == nodes.push(
            NodeView { shared_secret: secret, ..node },
        ),
{
    law_node_is_the_first_of_its_name(nodes, node.node_url);
    if let Some(i) = replication_nodes::position_of_url(nodes, node.node_url) {
        assert(nodes[i].node_url != node.node_url);
    }
}

/// The host and the port of a node are what stands in its URL between the scheme
/// and the path.
pub proof fn law_host_stands_between_scheme_and_path(host: Text, path: Text)
    requires
        !host.contains('/'),
        !host.contains(':'),
        !path.contains(':'),
    ensures
        replication_nodes::host_of("http://"@ + host + "/"@ + path) == host,
        replication_nodes::host_of("https://"@ + host + "/"@ + path) == host,
{
    reveal_strlit("http://");
    reveal_strlit("https://");
    reveal_strlit("://");
    reveal_strlit("/");
    let rest = host + "/"@ + path;
    let a = "http://"@ + host + "/"@ + path;
    let b = "https://"@ + host + "/"@ + path;
    assert("http://"@.is_prefix_of(a)) by {
        assert(a.subrange(0, 7) =~= "http://"@);
    }
    assert("https://"@.is_prefix_of(b)) by {
        assert(b.subrange(0, 8) =~= "https://"@);
    }
    assert(!"http://"@.is_prefix_of(b)) by {
        assert(b[4] == 's' && "http://"@[4] == ':');
        if "http://"@.is_prefix_of(b) {
            assert(b.subrange(0, 7)[4] == "http://"@[4]);
        }
    }
    assert(a.skip(7) =~= rest);
    assert(b.skip(8) =~= rest);
    assert forall|i: int| !text::occurs_at(rest, "://"@, i) by {
        if text::occurs_at(rest, "://"@, i) {
            assert(rest.subrange(i, i + 3)[0] == rest[i]);
            assert(rest[i] == ':');
            if i < host.len() {
                assert(host[i] == ':');
            } else if i > host.len() {
                assert(path[i - host.len() - 1] == ':');
            }
        }
    }
    lemma_before_absent(rest, "://"@);
    assert forall|i: int| 0 <= i < host.len() implies !text::occurs_at(rest, "/"@, i) by {
        if text::occurs_at(rest, "/"@, i) {
            assert(rest.subrange(i, i + 1)[0] == rest[i]);
            assert(host[i] == '/');
        }
    }
    text_laws::law_before_the_first_occurrence(host, "/"@, path);
}

proof fn lemma_before_absent(s: Text, p: Text)
    requires
        forall|i: int| !text::occurs_at(s, p, i),
    ensures
        text::before(s, p) == s,
    decreases s.len(),
{
    if s.len() > 0 {
        assert(!text::occurs_at(s, p, 0));
        let r = s.skip(1);
        assert forall|i: int| !text::occurs_at(r, p, i) by {
            if text::occurs_at(r, p, i) {
                assert(r.subrange(i, i + p.len()) =~= s.subrange(i + 1, i + 1 + p.len()));
                assert(text::occurs_at(s, p, i + 1));
            }
        }
        lemma_before_absent(r, p);
        assert(seq![s[0]] + r =~= s);
    } else {
        assert(text::before(s, p) =~= s);
    }
}

/// A node with a secure URL is called with the secure scheme, and any other with
/// the plain one; the address and the path follow.
pub proof fn law_node_is_called_with_its_scheme(url: Text, address: Text, path: Text)
    ensures
        "https"@.is_prefix_of(url) ==> replication_nodes::endpoint(url, address, path)
            == "https://"@ + address + path,
        !"https"@.is_prefix_of(url) ==> replication_nodes::endpoint(url, address, path)
            == "http://"@ + address + path,
{
}

// ---------------------------------------------------------------------------
// Taking changes
// ---------------------------------------------------------------------------

/// A change is known just where its identifier stands in a line of the log.
pub proof fn law_change_is_known_where_it_is_logged(lines: Seq<Text>, id: Text)
    ensures
        active_replication::log_mentions(lines, id) <==> exists|i: int, a: Text, b: Text|
            0 <= i < lines.len() && #[trigger] lines[i] == #[trigger] (a + id + b),
{
    if active_replication::log_mentions(lines, id) {
        let i = choose|i: int|
            0 <= i < lines.len() && text::contains_text(#[trigger] lines[i], id);
        let s = lines[i];
        let k = choose|k: int| text::occurs_at(s, id, k);
        let a = s.take(k);
        let b = s.skip(k + id.len());
        assert(s =~= a + s.subrange(k, k + id.len()) + b);
        assert(lines[i] == a + id + b);
    }
    if exists|i: int, a: Text, b: Text|
        0 <= i < lines.len() && #[trigger] lines[i] == #[trigger] (a + id + b) {
        let (i, a, b) = choose|i: int, a: Text, b: Text|
            0 <= i < lines.len() && #[trigger] lines[i] == #[trigger] (a + id + b);
        let s = lines[i];
        assert(s.subrange(a.len() as int, a.len() as int + id.len()) =~= id);
        assert(text::occurs_at(s, id, a.len() as int));
        assert(text::contains_text(lines[i], id));
    }
}

/// Two schemas agree for a node that takes everything just where they have the
/// same tables, each the same in both; and for a node with tables of its own,
/// where both parts of each of them are in both, and the same.
pub proof fn law_schemas_agree_on_what_a_node_takes(
    incoming: JsonView,
    current: JsonView,
    a: Fields,
    b: Fields,
    tables: Seq<Text>,
)
    requires
        json::get(incoming, "tables"@) == Some(JsonView::Object(a)),
        json::get(current, "tables"@) == Some(JsonView::Object(b)),
    ensures
        active_replication::schemas_agree(incoming, current, Some(ModeView::All)) == Ok::<_, Text>(
            forall|name: Text| #[trigger] json::field_of(a, name) == json::field_of(b, name),
        ),
        active_replication::schemas_agree(incoming, current, Some(ModeView::Specific(tables)))
            == Ok::<_, Text>(
            forall|i: int|
                0 <= i < tables.len() ==> {
                    let initial = #[trigger] tables[i] + "_initial"@;
                    let updates = tables[i] + "_updates"@;
                    &&& json::field_of(a, initial) is Some
                    &&& json::field_of(a, initial) == json::field_of(b, initial)
                    &&& json::field_of(a, updates) is Some
                    &&& json::field_of(a, updates) == json::field_of(b, updates)
                },
        ),
{
    if active_replication::agree_on_all(a, b) {
        assert forall|name: Text| #[trigger] json::field_of(a, name) == json::field_of(b, name) by {
            if json::field_of(a, name) is Some || json::field_of(b, name) is Some {
                assert(active_replication::same_table(a, b, name));
            }
        }
    }
    if active_replication::agree_on(a, b, tables) {
        assert forall|i: int| 0 <= i < tables.len() implies {
            let initial = #[trigger] tables[i] + "_initial"@;
            let updates = tables[i] + "_updates"@;
            &&& json::field_of(a, initial) is Some
            &&& json::field_of(a, initial) == json::field_of(b, initial)
            &&& json::field_of(a, updates) is Some
            &&& json::field_of(a, updates) == json::field_of(b, updates)
        } by {
            assert(active_replication::same_parts(a, b, tables[i]));
        }
    }
}

proof fn lemma_forced(mode: ModeView, entries: Seq<EntryView>, node: NodeView)
    requires
        node.replication_mode == mode,
    ensures
        active_replication::forced_entries(mode, entries) == entries.filter(
            |e: EntryView|
                (e.change_type == ChangeType::Create || e.change_type == ChangeType::Drop) && takes(
                    node,
                    e.table_name,
                ),
        ),
    decreases entries.len(),
{
    reveal(Seq::filter);
    if entries.len() > 0 {
        lemma_forced(mode, entries.drop_last(), node);
        lemma_takes(node, entries.last().table_name);
    }
}

/// A request for a node that is configured is taken: where it creates or drops
/// tables that the node takes, just these changes, and else, where the schemas
/// agree, all of its changes; each of them in its order. One for another node is
/// refused.
pub proof fn law_request_is_taken(
    nodes: Seq<NodeView>,
    request: RequestView,
    incoming: JsonView,
    current: JsonView,
    i: int,
)
    requires
        0 <= i < nodes.len(),
        nodes[i].name == request.target_node.name,
        forall|k: int| 0 <= k < i ==> (#[trigger] nodes[k]).name != request.target_node.name,
    ensures
        ({
            let plan = active_replication::push_plan(Some(nodes), request, incoming, current);
            let forced = request.entries.filter(
                |e: EntryView|
                    (e.change_type == ChangeType::Create || e.change_type == ChangeType::Drop)
                        && takes(nodes[i], e.table_name),
            );
            &&& forced.len() > 0 ==> plan == PushPlanView::Run(
                RunView {
                    forced: true,
                    target: request.target_node.name,
                    entries: forced,
                    at: 0,
                    refreshing: false,
                },
            )
            &&& forced.len() == 0 && active_replication::schemas_agree(
                incoming,
                current,
                Some(request.target_node.replication_mode),
            ) == Ok::<_, Text>(true) ==> plan == PushPlanView::Run(
                RunView {
                    forced: false,
                    target: request.target_node.name,
                    entries: request.entries,
                    at: 0,
                    refreshing: false,
                },
            )
        }),
{
    lemma_position(nodes, request.target_node.name, i);
    lemma_forced(nodes[i].replication_mode, request.entries, nodes[i]);
}

proof fn lemma_position(nodes: Seq<NodeView>, name: Text, i: int)
    requires
        0 <= i < nodes.len(),
        nodes[i].name == name,
        forall|k: int| 0 <= k < i ==> (#[trigger] nodes[k]).name != name,
    ensures
        replication_nodes::position_of_name(nodes, name) == Some(i),
{
    law_node_is_the_first_of_its_name(nodes, name);
    match replication_nodes::position_of_name(nodes, name) {
        Some(j) => {
            if j < i {
                assert(nodes[j].name != name);
            } else if i < j {
                assert(nodes[i].name != name);
            }
        },
        None => {
            assert(nodes[i].name != name);
        },
    }
}

/// A request for a node that is not configured is refused, and so is every request
/// where the nodes cannot be read.
pub proof fn law_request_for_another_node_is_refused(
    nodes: Seq<NodeView>,
    request: RequestView,
    incoming: JsonView,
    current: JsonView,
)
    requires
        forall|k: int|
            0 <= k < nodes.len() ==> (#[trigger] nodes[k]).name != request.target_node.name,
    ensures
        active_replication::push_plan(Some(nodes), request, incoming, current) is BadRequest,
        active_replication::push_plan(None, request, incoming, current) matches PushPlanView::Answer(
            reply,
        ) && reply.code == 500,
{
    law_node_is_the_first_of_its_name(nodes, request.target_node.name);
    if let Some(i) = replication_nodes::position_of_name(nodes, request.target_node.name) {
        assert(nodes[i].name != request.target_node.name);
    }
}

/// The first change that cannot be applied, or the first schema that cannot be
/// read again, ends a run without success.
pub proof fn law_failure_ends_a_run(run: RunView, e: String)
    ensures
        active_replication::after_event(run, PushEvent::Applied(Some(e))).1 matches
            PushActionView::Finish(reply) && reply.code == 500,
        active_replication::after_event(run, PushEvent::Refreshed(false)).1 matches
            PushActionView::Finish(reply) && reply.code == 500,
        active_replication::done_answer(run).code == 200,
        !run.forced ==> active_replication::done_answer(run).response.status == "success"@,
{
}

// ---------------------------------------------------------------------------
// The queue
// ---------------------------------------------------------------------------

/// Sending succeeds just where an answer of success came.
pub proof fn law_sending_succeeds_with_an_answer(url: Text, result: SendResult)
    ensures
        passive_replication::send_outcome(url, result) is Ok <==> (
        result matches SendResult::Answered(status, _) && 200 <= status < 300),
        forall|other: Text|
            #[trigger] replication_sync_checker::sync_outcome(url, other, result) is Ok <==> (
            result matches SendResult::Answered(status, _) && 200 <= status < 300),
{
}

/// Sending to several nodes fails with the first error among them, and succeeds
/// where there is none.
pub proof fn law_first_error_counts(results: Seq<Option<ReplicationErrorView>>)
    ensures
        match passive_replication::first_error(results) {
            Some(e) => exists|i: int|
                0 <= i < results.len() && #[trigger] results[i] == Some(e) && forall|k: int|
                    0 <= k < i ==> (#[trigger] results[k]) is None,
            None => forall|k: int| 0 <= k < results.len() ==> (#[trigger] results[k]) is None,
        },
    decreases results.len(),
{
    if results.len() > 0 {
        if let Some(e) = results[0] {
            assert(results[0] == Some(e));
        } else {
            let rest = results.skip(1);
            law_first_error_counts(rest);
            match passive_replication::first_error(rest) {
                Some(e) => {
                    let i = choose|i: int|
                        0 <= i < rest.len() && #[trigger] rest[i] == Some(e) && forall|k: int|
                            0 <= k < i ==> (#[trigger] rest[k]) is None;
                    assert(results[i + 1] == Some(e));
                    assert forall|k: int| 0 <= k < i + 1 implies (#[trigger] results[k]) is None by {
                        if k > 0 {
                            assert(rest[k - 1] == results[k]);
                        }
                    }
                },
                None => {
                    assert forall|k: int| 0 <= k < results.len() implies (
                    #[trigger] results[k]) is None by {
                        if k > 0 {
                            assert(rest[k - 1] == results[k]);
                        }
                    }
                },
            }
        }
    }
}

/// A part is due once its interval has passed, never where its interval is zero,
/// and the comparison of nodes comes first.
pub proof fn law_parts_are_due_in_time(se: int, si: int, pe: int, pi: int)
    ensures
        ({
            let sync = si > 0 && se >= si;
            let passive = pi > 0 && pe >= pi;
            let tick = passive_replication::due(se, si, pe, pi);
            &&& tick == Tick::Sync <==> sync
            &&& tick == Tick::Passive <==> passive && !sync
            &&& tick == Tick::Nothing <==> !passive && !sync
        }),
{
}

/// A request that comes has not been tried yet, and is what was asked for.
pub proof fn law_new_request_is_untried(request: RequestView, id: Text)
    ensures
        ({
            let q = passive_replication::fresh_request(request, id);
            q.request == request && q.id == id && q.attempts == 0 && q.last_attempt is None
        }),
{
}

/// A request that was sent leaves the queue and its failures are forgotten; one
/// that failed goes to the end of the queue, with one failure more, unless that
/// was the last that is allowed; and nothing else in the queue changes.
pub proof fn law_failed_request_waits_again(
    queue: Seq<QueuedView>,
    counts: Map<Text, u32>,
    request: QueuedView,
    max_attempts: u32,
)
    requires
        passive_replication::failures_of(counts, request.id) < u32::MAX,
    ensures
        ({
            let n = passive_replication::failures_of(counts, request.id) + 1;
            let (sent, forgotten, _) = passive_replication::after_sending(
                queue,
                counts,
                request,
                true,
                max_attempts,
            );
            let (waiting, counted, given_up) = passive_replication::after_sending(
                queue,
                counts,
                request,
                false,
                max_attempts,
            );
            &&& sent == queue
            &&& !forgotten.contains_key(request.id)
            &&& passive_replication::failures_of(counted, request.id) == n
            &&& given_up == (n >= max_attempts)
            &&& waiting == if given_up {
                queue
            } else {
                queue.push(request)
            }
            &&& forall|other: Text|
                other != request.id ==> #[trigger] passive_replication::failures_of(counted, other)
                    == passive_replication::failures_of(counts, other)
        }),
{
}

/// The status of the queue says how many requests wait, and of each its
/// identifier, in their order.
pub proof fn law_status_tells_the_queue(queue: Seq<QueuedView>)
    requires
        queue.len() <= i64::MAX,
    ensures
        ({
            let reply = passive_replication::queue_status(queue);
            &&& reply.status == 200
            &&& json::get(reply.body, "queue_length"@) == Some(JsonView::Int(queue.len() as i64))
            &&& json::get(reply.body, "requests"@) matches Some(JsonView::Array(all))
            &&& all.len() == queue.len()
            &&& forall|i: int|
                0 <= i < queue.len() ==> json::get(#[trigger] all[i], "id"@) == Some(
                    JsonView::Str(queue[i].id),
                )
        }),
{
    let reply = passive_replication::queue_status(queue);
    let fields = reply.body->Object_0;
    reveal_strlit("queue_length");
    reveal_strlit("requests");
    reveal_strlit("attempts");
    reveal_strlit("id");
    assert("queue_length"@.len() == 12 && "requests"@.len() == 8 && "attempts"@.len() == 8
        && "id"@.len() == 2);
    reveal_with_fuel(json::field_of, 3);
    assert(fields.skip(1)[0] == fields[1]);
    let all = passive_replication::request_statuses(queue);
    assert forall|i: int| 0 <= i < queue.len() implies json::get(#[trigger] all[i], "id"@) == Some(
        JsonView::Str(queue[i].id),
    ) by {
        let f = passive_replication::request_status(queue[i])->Object_0;
        assert(f.skip(1)[0] == f[1]);
    }
}

// ---------------------------------------------------------------------------
// Bringing nodes in step
// ---------------------------------------------------------------------------

proof fn lemma_entries_for_table(entries: Seq<EntryView>, table: Text)
    ensures
        change_logging::entries_for_table(entries, table) == entries.filter(
            |e: EntryView| e.table_name == table,
        ),
    decreases entries.len(),
{
    reveal(Seq::filter);
    if entries.len() > 0 {
        lemma_entries_for_table(entries.drop_last(), table);
    }
}

/// The entries for a table are read back as they were logged: just those of the
/// table, each of them once and in their order.
pub proof fn law_entries_of_a_table_are_read_back(entries: Seq<EntryView>, table: Text)
    ensures
        change_logging::entries_for_table(entries, table) == entries.filter(
            |e: EntryView| e.table_name == table,
        ),
{
    lemma_entries_for_table(entries, table);
}

/// The entries that were logged last are read back, from the last one on, and no
/// more than were asked for.
pub proof fn law_last_entries_are_read_back(entries: Seq<EntryView>, limit: int)
    requires
        limit >= 0,
    ensures
        ({
            let read = change_logging::recent(entries, limit);
            &&& read.len() <= limit
            &&& read.len() <= entries.len()
            &&& read.len() == limit || read.len() == entries.len()
            &&& forall|i: int|
                0 <= i < read.len() ==> #[trigger] read[i] == entries[entries.len() - 1 - i]
        }),
{
}

proof fn lemma_last_with_id(logs: Seq<EntryView>, entry: EntryView)
    requires
        forall|i: int, j: int|
            0 <= i < j < logs.len() ==> (#[trigger] logs[i]).change_id != (
            #[trigger] logs[j]).change_id,
    ensures
        (replication_sync_checker::last_with_id(logs, entry.change_id) == Some(entry))
            == logs.contains(entry),
    decreases logs.len(),
{
    if logs.len() > 0 {
        let d = logs.drop_last();
        assert(forall|i: int| 0 <= i < d.len() ==> d[i] == logs[i]);
        lemma_last_with_id(d, entry);
        assert(logs[logs.len() - 1] == logs.last());
        if d.contains(entry) {
            let i = choose|i: int| 0 <= i < d.len() && d[i] == entry;
            assert(logs[i] == entry);
            assert(logs[i].change_id != logs[logs.len() - 1].change_id);
        } else if logs.contains(entry) {
            let i = choose|i: int| 0 <= i < logs.len() && logs[i] == entry;
            if i < d.len() {
                assert(d[i] == entry);
            }
        }
    }
}

proof fn lemma_difference(logs1: Seq<EntryView>, logs2: Seq<EntryView>)
    requires
        forall|i: int, j: int|
            0 <= i < j < logs2.len() ==> (#[trigger] logs2[i]).change_id != (
            #[trigger] logs2[j]).change_id,
    ensures
        replication_sync_checker::difference(logs1, logs2) == logs1.filter(
            |e: EntryView| !logs2.contains(e),
        ),
    decreases logs1.len(),
{
    reveal(Seq::filter);
    if logs1.len() > 0 {
        lemma_difference(logs1.drop_last(), logs2);
        lemma_last_with_id(logs2, logs1.last());
    }
}

/// What one node sends another of a table is just what the other does not have of
/// it, in the order of the log, where no identifier occurs twice there.
pub proof fn law_difference_is_what_is_missing(
    logs1: Seq<EntryView>,
    logs2: Seq<EntryView>,
    table: Text,
)
    requires
        forall|i: int, j: int|
            0 <= i < j < logs2.len() ==> (#[trigger] logs2[i]).change_id != (
            #[trigger] logs2[j]).change_id,
    ensures
        replication_sync_checker::log_difference(logs1, logs2, table) == logs1.filter(
            |e: EntryView| e.table_name == table,
        ).filter(|e: EntryView| !logs2.contains(e)),
{
    let p = |e: EntryView| e.table_name == table;
    lemma_entries_for_table(logs1, table);
    lemma_entries_for_table(logs2, table);
    let a = logs1.filter(p);
    let b = logs2.filter(p);
    lemma_filter_ids(logs2, table);
    lemma_difference(a, b);
    assert forall|i: int| 0 <= i < a.len() implies b.contains(#[trigger] a[i]) == logs2.contains(
        a[i],
    ) by {
        logs1.lemma_filter_pred(p, i);
        if b.contains(a[i]) {
            logs2.lemma_filter_contains_rev(p, a[i]);
        }
        if logs2.contains(a[i]) {
            let k = choose|k: int| 0 <= k < logs2.len() && logs2[k] == a[i];
            assert(p(logs2[k]));
            logs2.lemma_filter_contains(p, k);
        }
    }
    lemma_same_filter(a, |e: EntryView| !b.contains(e), |e: EntryView| !logs2.contains(e));
}

proof fn lemma_same_filter(
    a: Seq<EntryView>,
    p: spec_fn(EntryView) -> bool,
    q: spec_fn(EntryView) -> bool,
)
    requires
        forall|i: int| 0 <= i < a.len() ==> p(#[trigger] a[i]) == q(a[i]),
    ensures
        a.filter(p) == a.filter(q),
    decreases a.len(),
{
    reveal(Seq::filter);
    if a.len() > 0 {
        let d = a.drop_last();
        assert(forall|i: int| 0 <= i < d.len() ==> d[i] == a[i]);
        lemma_same_filter(d, p, q);
        assert(p(a[a.len() - 1]) == q(a[a.len() - 1]));
    }
}

proof fn lemma_filter_ids(logs: Seq<EntryView>, table: Text)
    requires
        forall|i: int, j: int|
            0 <= i < j < logs.len() ==> (#[trigger] logs[i]).change_id != (
            #[trigger] logs[j]).change_id,
    ensures
        ({
            let b = logs.filter(|e: EntryView| e.table_name == table);
            &&& forall|i: int, j: int|
                0 <= i < j < b.len() ==> (#[trigger] b[i]).change_id != (#[trigger] b[j]).change_id
            &&& forall|i: int|
                0 <= i < b.len() ==> exists|k: int|
                    0 <= k < logs.len() && #[trigger] logs[k] == #[trigger] b[i]
        }),
    decreases logs.len(),
{
    reveal(Seq::filter);
    let p = |e: EntryView| e.table_name == table;
    let b = logs.filter(p);
    if logs.len() > 0 {
        let d = logs.drop_last();
        assert(forall|i: int| 0 <= i < d.len() ==> d[i] == logs[i]);
        lemma_filter_ids(d, table);
        let c = d.filter(p);
        assert(logs[logs.len() - 1] == logs.last());
        assert forall|i: int, j: int| 0 <= i < j < b.len() implies (#[trigger] b[i]).change_id != (
        #[trigger] b[j]).change_id by {
            assert(b[i] == c[i]);
            if j < c.len() {
                assert(b[j] == c[j]);
            } else {
                let k = choose|k: int| 0 <= k < d.len() && #[trigger] d[k] == c[i];
                assert(logs[k].change_id != logs[logs.len() - 1].change_id);
            }
        }
        assert forall|i: int| 0 <= i < b.len() implies exists|k: int|
            0 <= k < logs.len() && #[trigger] logs[k] == #[trigger] b[i] by {
            if i < c.len() {
                assert(b[i] == c[i]);
                let k = choose|k: int| 0 <= k < d.len() && #[trigger] d[k] == c[i];
                assert(logs[k] == b[i]);
            } else {
                assert(logs[logs.len() - 1] == b[i]);
            }
        }
    }
}

/// A table of two nodes is the same where both have it with the same rows, and
/// otherwise differs, or is on one of them alone, or on neither.
pub proof fn law_tables_are_compared(current: DataView, other: DataView, table: Text)
    ensures
        ({
            let here = current.contains_key(table);
            let there = other.contains_key(table);
            let c = replication_sync_checker::compared(current, other, table);
            &&& c == Comparison::Same <==> here && there && current[table] == other[table]
            &&& c == Comparison::Differs <==> here && there && current[table] != other[table]
            &&& c == Comparison::OnlyHere <==> here && !there
            &&& c == Comparison::OnlyThere <==> !here && there
            &&& replication_sync_checker::is_out_of_step(c) <==> (here || there) && c
                != Comparison::Same
        }),
{
}

/// A node is compared on its own tables, where it has some, and else on all.
pub proof fn law_tables_of_a_comparison(mode: ModeView, current: Seq<Text>, other: Seq<Text>)
    ensures
        mode matches ModeView::Specific(tables) ==> replication_sync_checker::tables_to_compare(
            mode,
            current,
            other,
        ) == tables,
        mode is All && current.len() >= other.len()
            ==> replication_sync_checker::tables_to_compare(mode, current, other) == current,
        mode is All && current.len() < other.len()
            ==> replication_sync_checker::tables_to_compare(mode, current, other) == other,
{
}

/// For a table that is out of step the entries are read of just the nodes that
/// have it.
pub proof fn law_entries_are_read_of_nodes_with_the_table(run: SyncView, i: int)
    requires
        0 <= i < run.comparisons.len() == run.tables.len(),
        replication_sync_checker::is_out_of_step(run.comparisons[i]),
    ensures
        replication_sync_checker::turn_to_table(run, i).1 == (SyncActionView::FetchLogs {
            table: run.tables[i],
            here: run.comparisons[i] != Comparison::OnlyThere,
            there: run.comparisons[i] != Comparison::OnlyHere,
        }),
        replication_sync_checker::turn_to_table(run, i).0.at == i,
{
}

/// The node with more entries for a table sends what the other does not have;
/// with as many or fewer it asks the other. A node without the table has none.
pub proof fn law_node_with_more_entries_sends(
    run: SyncView,
    logs1: Seq<EntryView>,
    logs2: Seq<EntryView>,
)
    requires
        replication_sync_checker::waits_for(run, SyncStage::Logs),
    ensures
        ({
            let own = if run.comparisons[run.at] == Comparison::OnlyThere {
                Seq::empty()
            } else {
                logs1
            };
            let others = if run.comparisons[run.at] == Comparison::OnlyHere {
                Seq::empty()
            } else {
                logs2
            };
            replication_sync_checker::after_logs(run, logs1, logs2).1 == if own.len()
                > others.len() {
                SyncActionView::Push(
                    replication_sync_checker::log_difference(own, others, run.tables[run.at]),
                )
            } else {
                SyncActionView::Pull
            }
        }),
{
}

/// Reading the tables of another node goes from one to the next, in their order,
/// and keeps the rows of each that came.
pub proof fn law_tables_are_fetched_in_order(
    run: FetchView,
    status: u16,
    rows: Seq<Seq<JsonView>>,
)
    requires
        0 <= run.at < run.tables.len(),
    ensures
        ({
            let (next, action) = replication_sync_checker::after_table(run, status, rows);
            let table = run.tables[run.at];
            &&& next.at == run.at + 1
            &&& next.tables == run.tables
            &&& run.at + 1 == run.tables.len() ==> action is Finish
            &&& run.at + 1 < run.tables.len() ==> action == (FetchActionView::Table {
                url: replication_nodes::endpoint(
                    run.node.node_url,
                    run.address,
                    "/api/tables/"@ + run.tables[run.at + 1],
                ),
            })
            &&& 200 <= status < 300 ==> {
                &&& next.data.contains_key(table)
                &&& next.data[table].len() == rows.len()
                &&& forall|i: int|
                    0 <= i < rows.len() ==> #[trigger] next.data[table][i] == JsonView::Array(
                        rows[i],
                    )
            }
            &&& !(200 <= status < 300) ==> next.data == run.data
            &&& forall|other: Text|
                other != table ==> next.data.contains_key(other) == run.data.contains_key(other) && (
                run.data.contains_key(other) ==> #[trigger] next.data[other] == run.data[other])
        }),
{
}

/// The rows of a table of this node are compared without the header, cell by
/// cell.
pub proof fn law_own_rows_are_compared_without_header(rows: Seq<Seq<Text>>)
    requires
        rows.len() > 0,
    ensures
        ({
            let shown = replication_sync_checker::row_arrays(rows);
            &&& shown.len() == rows.len() - 1
            &&& forall|i: int|
                0 <= i < shown.len() ==> ((#[trigger] shown[i]) matches JsonView::Array(cells)
                    && cells.len() == rows[i + 1].len() && forall|k: int|
                    0 <= k < cells.len() ==> #[trigger] cells[k] == JsonView::Str(rows[i + 1][k]))
        }),
{
}

/// A node that takes everything is first asked for the names of its tables, with
/// its credentials, and is then read table by table as they came; a node with
/// tables of its own is read table by table at once.
pub proof fn law_fetching_begins_with_the_tables(
    node: NodeView,
    address: Text,
    status: u16,
    words: Text,
    names: Seq<Text>,
)
    ensures
        ({
            let (run, action) = replication_sync_checker::first_question(node, address);
            &&& run.data == Map::<Text, Seq<JsonView>>::empty()
            &&& run.at == 0
            &&& match node.replication_mode {
                ModeView::All => action == (FetchActionView::List {
                    url: replication_nodes::endpoint(node.node_url, address, "/api/tables"@),
                    authorization: replication_nodes::node_header(node),
                }),
                ModeView::Specific(tables) => run.tables == tables && action == if tables.len()
                    == 0 {
                    FetchActionView::Finish
                } else {
                    FetchActionView::Table {
                        url: replication_nodes::endpoint(
                            node.node_url,
                            address,
                            "/api/tables/"@ + tables[0],
                        ),
                    }
                },
            }
            &&& {
                let (next, following) = replication_sync_checker::after_list(
                    run,
                    status,
                    words,
                    names,
                );
                if 200 <= status < 300 {
                    next.tables == names && next.at == 0 && (following is Finish <==> names.len()
                        == 0)
                } else {
                    following is Fail
                }
            }
        }),
{
}

/// A file holds the initial rows of the table whose name it has before the
/// suffix, and any other file of none.
pub proof fn law_table_of_a_file(table: Text, file: Text)
    requires
        forall|i: int|
            0 <= i < table.len() ==> !text::occurs_at(table + "_initial"@, "_initial"@, i),
        !"_initial"@.is_suffix_of(file),
    ensures
        replication_sync_checker::table_of_file(table + "_initial"@) == Some(table),
        replication_sync_checker::table_of_file(file) is None,
{
    reveal_strlit("_initial");
    reveal_strlit("");
    let whole = table + "_initial"@;
    assert(whole.subrange(whole.len() - 8, whole.len() as int) =~= "_initial"@);
    assert(""@ =~= Seq::<char>::empty());
    text_laws::law_replacing_goes_on(table, "_initial"@, Seq::empty(), ""@);
    assert(table + "_initial"@ + Seq::<char>::empty() =~= whole);
    assert(text::replaced(Seq::empty(), "_initial"@, ""@) =~= Seq::empty());
    assert(table + ""@ + Seq::<char>::empty() =~= table);
}

/// After another node was asked, the run is at its end for a node that takes
/// everything and for a table that both have; else it goes on with the next
/// table.
pub proof fn law_asking_ends_the_run(run: SyncView)
    requires
        0 <= run.at < run.comparisons.len(),
    ensures
        run.all || run.comparisons[run.at] == Comparison::Differs
            ==> replication_sync_checker::after_pull(run).1 == SyncActionView::Finish,
        !run.all && run.comparisons[run.at] != Comparison::Differs
            ==> replication_sync_checker::after_pull(run) == replication_sync_checker::turn_to_table(
            run,
            run.at + 1,
        ),
{
}

/// What is told of several errors is each of them, in their order.
pub proof fn law_every_error_is_told(errors: Seq<ReplicationErrorView>)
    ensures
        replication_sync_checker::error_texts(
            errors.map_values(|e: ReplicationErrorView| Some(e)),
        ) == errors.map_values(|e: ReplicationErrorView| passive_replication::error_text(e)),
    decreases errors.len(),
{
    let f = |e: ReplicationErrorView| Some(e);
    let g = |e: ReplicationErrorView| passive_replication::error_text(e);
    let all = errors.map_values(f);
    if errors.len() > 0 {
        let d = errors.drop_last();
        law_every_error_is_told(d);
        assert(all.drop_last() =~= d.map_values(f));
        assert(d.map_values(g).push(g(errors.last())) =~= errors.map_values(g));
    } else {
        assert(errors.map_values(g) =~= Seq::empty());
    }
}

/// A success among several results is told nowhere.
pub proof fn law_success_is_not_told(
    before: Seq<Option<ReplicationErrorView>>,
    after: Seq<Option<ReplicationErrorView>>,
)
    ensures
        replication_sync_checker::error_texts(before + seq![None] + after)
            == replication_sync_checker::error_texts(before + after),
    decreases after.len(),
{
    let whole = before + seq![None] + after;
    if after.len() == 0 {
        assert(whole.drop_last() =~= before + after);
    } else {
        let d = after.drop_last();
        law_success_is_not_told(before, d);
        assert(whole.drop_last() =~= before + seq![None] + d);
        assert((before + after).drop_last() =~= before + d);
    }
}

/// The requests that wait for a node are those that were kept for it, and none
/// for another.
pub proof fn law_waiting_requests_of_a_node(queue: Map<Text, Seq<QueuedView>>, node: Text)
    ensures
        queue.contains_key(node) ==> passive_replication::stale_for(queue, node) == queue[node],
        !queue.contains_key(node) ==> passive_replication::stale_for(queue, node).len() == 0,
{
}

/// A node gives of itself the URL and the port of its configuration, and asks to
/// be registered under them with everything else as it is.
pub proof fn law_node_gives_its_own_url(source: NodeView, config: ConfigView, secret: Text)
    ensures
        ({
            let own = replication_nodes::own_node(source, config, secret);
            &&& own.node_url == if config.node_port == 0 {
                config.node_url
            } else {
                config.node_url + ":"@ + crate::numbers::decimal(config.node_port as nat)
            }
            &&& own.shared_secret == secret
            &&& own.name == source.name
            &&& own.description == source.description
            &&& own.replication_mode == source.replication_mode
        }),
{
}

/// A node authenticates itself with its name and its secret.
pub proof fn law_node_header_tells_name_and_secret(node: NodeView)
    ensures
        replication_nodes::node_header(node) == "Basic "@ + crate::outside::base64_of(
            vstd::utf8::encode_utf8(node.name + ":"@ + node.shared_secret),
        ),
{
}

/// A run that brings nodes in step looks at each of its tables, and takes it for
/// what it is on the two nodes.
pub proof fn law_run_compares_its_tables(
    run: SyncView,
    mode: ModeView,
    current: DataView,
    other: DataView,
    tables: Seq<Text>,
    i: int,
)
    requires
        replication_sync_checker::is_sync_run(run, mode, current, other, tables),
        0 <= i < tables.len(),
    ensures
        run.tables == tables,
        run.comparisons.len() == tables.len(),
        run.all <==> mode is All,
        run.comparisons[i] == Comparison::Same <==> current.contains_key(tables[i])
            && other.contains_key(tables[i]) && current[tables[i]] == other[tables[i]],
        run.comparisons[i] == Comparison::Nowhere <==> !current.contains_key(tables[i])
            && !other.contains_key(tables[i]),
        run.comparisons[i] == Comparison::OnlyHere <==> current.contains_key(tables[i])
            && !other.contains_key(tables[i]),
        run.comparisons[i] == Comparison::OnlyThere <==> !current.contains_key(tables[i])
            && other.contains_key(tables[i]),
{
}

} // verus!
