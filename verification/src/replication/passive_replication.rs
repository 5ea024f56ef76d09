//! Changes that wait until they can be sent, and the schedule on which that is
//! tried.

use crate::change_logging::change_logging;
use crate::change_logging::change_logging::{to_optional_text, ChangeLogEntry, EntryView};
use crate::json;
use crate::json::{is_success, object2, object3, Json, JsonView, Reply, ReplyView};
use crate::numbers;
use crate::numbers::u64_to_string;
use crate::outside;
use crate::outside::new_uuid;
use crate::replication::active_replication::{ReplicationRequest, RequestView};
use crate::replication::replication_nodes;
use crate::replication::replication_nodes::{NodeView, NodesConfig, ReplicationNode};
use crate::string_map::{Duplicate, StringMap};
use crate::text::{concat2, concat4, Text};
use vstd::prelude::*;

verus! {

// ---------------------------------------------------------------------------
// Errors
// ---------------------------------------------------------------------------

/// What went wrong with a replication.
#[derive(Debug, PartialEq, Eq)]
pub enum ReplicationError {
    ConfigLoadError(String),
    NetworkError(String),
    ReplicationFailure(String),
    SerializationError(String),
}

/// A [`ReplicationError`] as a mathematical value.
pub enum ReplicationErrorView {
    ConfigLoadError(Text),
    NetworkError(Text),
    ReplicationFailure(Text),
    SerializationError(Text),
}

impl DeepView for ReplicationError {
    type V = ReplicationErrorView;

    open spec fn deep_view(&self) -> ReplicationErrorView {
        match self {
            ReplicationError::ConfigLoadError(e) => ReplicationErrorView::ConfigLoadError(e@),
            ReplicationError::NetworkError(e) => ReplicationErrorView::NetworkError(e@),
            ReplicationError::ReplicationFailure(e) => ReplicationErrorView::ReplicationFailure(e@),
            ReplicationError::SerializationError(e) => ReplicationErrorView::SerializationError(e@),
        }
    }
}

impl Duplicate for ReplicationError {
    fn duplicate(&self) -> (r: Self) {
        match self {
            ReplicationError::ConfigLoadError(e) => ReplicationError::ConfigLoadError(e.clone()),
            ReplicationError::NetworkError(e) => ReplicationError::NetworkError(e.clone()),
            ReplicationError::ReplicationFailure(e) => ReplicationError::ReplicationFailure(
                e.clone(),
            ),
            ReplicationError::SerializationError(e) => ReplicationError::SerializationError(
                e.clone(),
            ),
        }
    }
}

/// What is said of an error.
pub open spec fn error_text(e: ReplicationErrorView) -> Text {
    match e {
        ReplicationErrorView::ConfigLoadError(t) => "Failed to load configuration: "@ + t,
        ReplicationErrorView::NetworkError(t) => "Network error during replication: "@ + t,
        ReplicationErrorView::ReplicationFailure(t) => "Replication failed: "@ + t,
        ReplicationErrorView::SerializationError(t) => "Replication Serail failed: "@ + t,
    }
}

impl ReplicationError {
    /// What is said of the error.
    pub fn to_text(&self) -> (r: String)
        ensures
            r@ == error_text(self.deep_view()),
    {
        match self {
            ReplicationError::ConfigLoadError(e) => concat2(
                "Failed to load configuration: ",
                e.as_str(),
            ),
            ReplicationError::NetworkError(e) => concat2(
                "Network error during replication: ",
                e.as_str(),
            ),
            ReplicationError::ReplicationFailure(e) => concat2("Replication failed: ", e.as_str()),
            ReplicationError::SerializationError(e) => concat2(
                "Replication Serail failed: ",
                e.as_str(),
            ),
        }
    }
}

// ---------------------------------------------------------------------------
// Queues
// ---------------------------------------------------------------------------

/// A request that waits to be sent.
#[derive(Debug)]
pub struct QueuedReplicationRequest {
    pub request: ReplicationRequest,
    pub attempts: u32,
    /// A date and time in the format of RFC 3339.
    pub last_attempt: Option<String>,
    /// A date and time in the format of RFC 3339.
    pub first_failed_attempt: Option<String>,
    /// A UUID in the hyphenated form.
    pub id: String,
}

/// A [`QueuedReplicationRequest`] as a mathematical value.
pub struct QueuedView {
    pub request: RequestView,
    pub attempts: u32,
    pub last_attempt: Option<Text>,
    pub first_failed_attempt: Option<Text>,
    pub id: Text,
}

impl DeepView for QueuedReplicationRequest {
    type V = QueuedView;

    open spec fn deep_view(&self) -> QueuedView {
        QueuedView {
            request: self.request.deep_view(),
            attempts: self.attempts,
            last_attempt: self.last_attempt.deep_view(),
            first_failed_attempt: self.first_failed_attempt.deep_view(),
            id: self.id@,
        }
    }
}

/// Requests by the names of the nodes that they could not be sent to.
#[derive(Debug)]
pub struct StaleReplicationQueue {
    pub queue: StringMap<Vec<QueuedReplicationRequest>>,
}

impl DeepView for StaleReplicationQueue {
    type V = Map<Text, Seq<QueuedView>>;

    open spec fn deep_view(&self) -> Map<Text, Seq<QueuedView>> {
        self.queue.deep_view()
    }
}

impl Default for StaleReplicationQueue {
    fn default() -> (r: Self)
        ensures
            r.deep_view() == Map::<Text, Seq<QueuedView>>::empty(),
    {
        StaleReplicationQueue { queue: StringMap::new() }
    }
}

/// The requests for a node.
pub open spec fn stale_for(queue: Map<Text, Seq<QueuedView>>, node: Text) -> Seq<QueuedView> {
    if queue.contains_key(node) {
        queue[node]
    } else {
        Seq::empty()
    }
}

impl StaleReplicationQueue {
    /// Adds a request for a node, after the others for it.
    pub fn add_stale_request(&mut self, node_name: String, request: QueuedReplicationRequest)
        ensures
            final(self).deep_view() == old(self).deep_view().insert(
                node_name@,
                stale_for(old(self).deep_view(), node_name@).push(request.deep_view()),
            ),
    {
        let ghost before = self.deep_view();
        let ghost v = request.deep_view();
        let ghost others = stale_for(before, node_name@);
        let mut requests: Vec<QueuedReplicationRequest> = self.get_stale_requests_for_node(
            node_name.as_str(),
        );
        requests.push(request);
        assert(requests.deep_view() =~= others.push(v));
        let ghost name = node_name@;
        self.queue.insert(node_name, requests);
        assert(before.remove(name).insert(name, others.push(v)) =~= before.insert(
            name,
            others.push(v),
        ));
    }

    /// Takes out the requests for a node.
    pub fn get_stale_requests_for_node(&mut self, node_name: &str) -> (r: Vec<
        QueuedReplicationRequest,
    >)
        ensures
            r.deep_view() == stale_for(old(self).deep_view(), node_name@),
            final(self).deep_view() == old(self).deep_view().remove(node_name@),
    {
        match self.queue.remove(node_name) {
            Some(requests) => requests,
            None => {
                let none: Vec<QueuedReplicationRequest> = Vec::new();
                assert(none.deep_view() =~= Seq::<QueuedView>::empty());
                none
            },
        }
    }
}

/// The requests that wait, in the order in which they came.
#[derive(Debug)]
pub struct PassiveReplicationQueue {
    pub queue: Vec<QueuedReplicationRequest>,
}

impl DeepView for PassiveReplicationQueue {
    type V = Seq<QueuedView>;

    open spec fn deep_view(&self) -> Seq<QueuedView> {
        self.queue.deep_view()
    }
}

impl Default for PassiveReplicationQueue {
    fn default() -> (r: Self)
        ensures
            r.deep_view() == Seq::<QueuedView>::empty(),
    {
        let r = PassiveReplicationQueue { queue: Vec::new() };
        assert(r.deep_view() =~= Seq::<QueuedView>::empty());
        r
    }
}

/// A request that has just come.
pub open spec fn fresh_request(request: RequestView, id: Text) -> QueuedView {
    QueuedView { request, attempts: 0, last_attempt: None, first_failed_attempt: None, id }
}

impl PassiveReplicationQueue {
    /// Adds a request with a given identifier at the end.
    pub fn enqueue_as(&mut self, request: ReplicationRequest, id: String)
        ensures
            final(self).deep_view() == old(self).deep_view().push(
                fresh_request(request.deep_view(), id@),
            ),
    {
        let ghost before = self.deep_view();
        let queued = QueuedReplicationRequest {
            request,
            attempts: 0,
            last_attempt: None,
            first_failed_attempt: None,
            id,
        };
        let ghost v = queued.deep_view();
        self.queue.push(queued);
        assert(self.deep_view() =~= before.push(v));
    }

    /// Adds a request at the end, and gives back its identifier.
    pub fn enqueue(&mut self, request: ReplicationRequest) -> (id: String)
        ensures
            outside::is_hyphenated_uuid(id@),
            final(self).deep_view() == old(self).deep_view().push(
                fresh_request(request.deep_view(), id@),
            ),
    {
        let id = new_uuid();
        self.enqueue_as(request, id.clone());
        id
    }

    /// Takes all requests out of the queue.
    pub fn get_requests(&mut self) -> (r: Vec<QueuedReplicationRequest>)
        ensures
            r.deep_view() == old(self).deep_view(),
            final(self).deep_view() == Seq::<QueuedView>::empty(),
    {
        let mut r: Vec<QueuedReplicationRequest> = Vec::new();
        std::mem::swap(&mut r, &mut self.queue);
        assert(self.deep_view() =~= Seq::<QueuedView>::empty());
        r
    }
}

/// The queue after requests came in, one after another.
pub open spec fn after_requests(
    queue: Seq<QueuedView>,
    requests: Seq<(RequestView, Text)>,
) -> Seq<QueuedView>
    decreases requests.len(),
{
    if requests.len() == 0 {
        queue
    } else {
        after_requests(queue, requests.drop_last()).push(
            fresh_request(requests.last().0, requests.last().1),
        )
    }
}

/// Requests leave the queue in the order in which they came, and none is lost:
/// what is taken from an empty queue after requests came in is these requests.
pub proof fn law_queue_keeps_order(requests: Seq<(RequestView, Text)>)
    ensures
        after_requests(Seq::empty(), requests).len() == requests.len(),
        forall|i: int|
            0 <= i < requests.len() ==> #[trigger] after_requests(Seq::empty(), requests)[i]
                == fresh_request(requests[i].0, requests[i].1),
    decreases requests.len(),
{
    if requests.len() > 0 {
        law_queue_keeps_order(requests.drop_last());
    }
}

// ---------------------------------------------------------------------------
// Sending
// ---------------------------------------------------------------------------

/// Whether all of the given changes go to a node.
pub open spec fn takes_all(node: NodeView, entries: Seq<EntryView>) -> bool {
    forall|i: int|
        0 <= i < entries.len() ==> replication_nodes::replicates(
            node.replication_mode,
            (#[trigger] entries[i]).table_name,
        )
}

/// The nodes that all of the given changes go to, in their order.
pub open spec fn nodes_for(nodes: Seq<NodeView>, entries: Seq<EntryView>) -> Seq<NodeView>
    decreases nodes.len(),
{
    if nodes.len() == 0 {
        Seq::empty()
    } else {
        let before = nodes_for(nodes.drop_last(), entries);
        if takes_all(nodes.last(), entries) {
            before.push(nodes.last())
        } else {
            before
        }
    }
}

fn node_takes_all(node: &ReplicationNode, entries: &Vec<ChangeLogEntry>) -> (r: bool)
    ensures
        r == takes_all(node.deep_view(), entries.deep_view()),
{
    let ghost es = entries.deep_view();
    let mut i: usize = 0;
    while i < entries.len()
        invariant
            i <= entries@.len(),
            es == entries.deep_view(),
            forall|k: int|
                0 <= k < i ==> replication_nodes::replicates(
                    node.deep_view().replication_mode,
                    (#[trigger] es[k]).table_name,
                ),
        decreases entries@.len() - i,
    {
        assert(es[i as int] == entries@[i as int].deep_view());
        if !node.should_replicate(entries[i].table_name.as_str()) {
            return false;
        }
        i = i + 1;
    }
    true
}

/// The nodes that a request is sent to: those that all of its changes go to.
pub fn applicable_nodes(nodes: &NodesConfig, request: &ReplicationRequest) -> (r: Vec<
    ReplicationNode,
>)
    ensures
        r.deep_view() == nodes_for(nodes.deep_view(), request.deep_view().entries),
{
    let list = &nodes.nodes;
    let ghost ns = list.deep_view();
    let mut r: Vec<ReplicationNode> = Vec::new();
    let mut i: usize = 0;
    assert(ns.take(0) =~= Seq::<NodeView>::empty());
    assert(r.deep_view() =~= Seq::<NodeView>::empty());
    while i < list.len()
        invariant
            i <= list@.len(),
            ns == list.deep_view(),
            r.deep_view() == nodes_for(ns.take(i as int), request.deep_view().entries),
        decreases list@.len() - i,
    {
        let ghost before = r.deep_view();
        assert(ns.take(i as int + 1).drop_last() =~= ns.take(i as int));
        assert(ns.take(i as int + 1).last() == list@[i as int].deep_view());
        if node_takes_all(&list[i], &request.entries) {
            r.push(list[i].duplicate());
            assert(r.deep_view() =~= before.push(ns[i as int]));
        }
        i = i + 1;
    }
    assert(ns.take(i as int) =~= ns);
    r
}

/// What a node answered to a request that was sent.
#[derive(Debug, PartialEq, Eq)]
pub enum SendResult {
    /// The address of the node could not be found.
    Unresolved(String),
    /// The node answered with a status, also given in words.
    Answered(u16, String),
    /// There was no answer.
    Unanswered(String),
}

/// What came of sending a request to a node.
pub open spec fn send_outcome(node_url: Text, result: SendResult) -> Result<
    (),
    ReplicationErrorView,
> {
    match result {
        SendResult::Unresolved(e) => Err(ReplicationErrorView::NetworkError(e@)),
        SendResult::Answered(status, words) => if json::success(status) {
            Ok(())
        } else {
            Err(
                ReplicationErrorView::NetworkError(
                    "HTTP error to "@ + node_url + ": "@ + words@,
                ),
            )
        },
        SendResult::Unanswered(e) => Err(
            ReplicationErrorView::NetworkError(
                "Replication error to "@ + node_url + ": "@ + e@,
            ),
        ),
    }
}

fn error_about(what: &str, node: &ReplicationNode, error: &str) -> (r: String)
    ensures
        r@ == what@ + node.node_url@ + ": "@ + error@,
{
    concat4(what, node.node_url.as_str(), ": ", error)
}

/// What came of sending a request to a node.
pub fn outcome_of_sending(node: &ReplicationNode, result: &SendResult) -> (r: Result<
    (),
    ReplicationError,
>)
    ensures
        match r {
            Ok(_) => send_outcome(node.node_url@, *result) is Ok,
            Err(e) => send_outcome(node.node_url@, *result) == Err::<(), _>(e.deep_view()),
        },
{
    match result {
        SendResult::Unresolved(e) => Err(ReplicationError::NetworkError(e.clone())),
        SendResult::Answered(status, words) => if is_success(*status) {
            Ok(())
        } else {
            Err(
                ReplicationError::NetworkError(
                    error_about("HTTP error to ", node, words.as_str()),
                ),
            )
        },
        SendResult::Unanswered(e) => Err(
            ReplicationError::NetworkError(
                error_about("Replication error to ", node, e.as_str()),
            ),
        ),
    }
}

/// The first error among some results.
pub open spec fn first_error(results: Seq<Option<ReplicationErrorView>>) -> Option<
    ReplicationErrorView,
>
    decreases results.len(),
{
    if results.len() == 0 {
        None
    } else {
        match results[0] {
            Some(e) => Some(e),
            None => first_error(results.skip(1)),
        }
    }
}

/// What came of sending a request to all its nodes: the first of the errors,
/// where there is one. With no nodes there is none.
pub fn try_replicate_request(errors: &Vec<Option<ReplicationError>>) -> (r: Result<
    (),
    ReplicationError,
>)
    ensures
        match r {
            Ok(_) => first_error(errors.deep_view()) is None,
            Err(e) => first_error(errors.deep_view()) == Some(e.deep_view()),
        },
{
    let ghost es = errors.deep_view();
    let mut i: usize = 0;
    assert(es.skip(0) =~= es);
    while i < errors.len()
        invariant
            i <= errors@.len(),
            es == errors.deep_view(),
            first_error(es) == first_error(es.skip(i as int)),
        decreases errors@.len() - i,
    {
        assert(es.skip(i as int)[0] == errors@[i as int].deep_view());
        assert(es.skip(i as int).skip(1) =~= es.skip(i as int + 1));
        match &errors[i] {
            Some(e) => return Err(e.duplicate()),
            None => {},
        }
        i = i + 1;
    }
    Ok(())
}

// ---------------------------------------------------------------------------
// The schedule
// ---------------------------------------------------------------------------

/// What is due on the schedule.
#[derive(Debug, Clone, Copy, PartialEq, Eq, Structural)]
pub enum Tick {
    Sync,
    Passive,
    Nothing,
}

/// What is due, given the seconds since the last time and the intervals in
/// seconds. The comparison of nodes comes before the queue, and an interval
/// that is not positive switches its part off.
pub open spec fn due(
    sync_elapsed: int,
    sync_interval: int,
    passive_elapsed: int,
    passive_interval: int,
) -> Tick {
    if sync_interval > 0 && sync_elapsed >= sync_interval {
        Tick::Sync
    } else if passive_interval > 0 && passive_elapsed >= passive_interval {
        Tick::Passive
    } else {
        Tick::Nothing
    }
}

/// What is due on the schedule.
pub fn scheduler_tick(
    sync_elapsed: u64,
    sync_interval: u64,
    passive_elapsed: u64,
    passive_interval: i64,
) -> (r: Tick)
    ensures
        r == due(
            sync_elapsed as int,
            sync_interval as int,
            passive_elapsed as int,
            passive_interval as int,
        ),
{
    if sync_interval > 0 && sync_elapsed >= sync_interval {
        Tick::Sync
    } else if passive_interval > 0 && passive_elapsed >= passive_interval as u64 {
        Tick::Passive
    } else {
        Tick::Nothing
    }
}

/// How often requests have failed, by their identifiers.
#[derive(Debug)]
pub struct FailureCounts {
    pub counts: StringMap<u32>,
}

impl DeepView for FailureCounts {
    type V = Map<Text, u32>;

    open spec fn deep_view(&self) -> Map<Text, u32> {
        self.counts.deep_view()
    }
}

impl Default for FailureCounts {
    fn default() -> (r: Self)
        ensures
            r.deep_view() == Map::<Text, u32>::empty(),
    {
        FailureCounts { counts: StringMap::new() }
    }
}

/// How often a request has failed.
pub open spec fn failures_of(counts: Map<Text, u32>, id: Text) -> u32 {
    if counts.contains_key(id) {
        counts[id]
    } else {
        0
    }
}

impl FailureCounts {
    /// How often a request has failed.
    pub fn failures(&self, id: &str) -> (r: u32)
        ensures
            r == failures_of(self.deep_view(), id@),
    {
        match self.counts.get(id) {
            Some(n) => *n,
            None => 0,
        }
    }

    /// Forgets the failures of a request that was sent.
    pub fn record_success(&mut self, id: &str)
        ensures
            final(self).deep_view() == old(self).deep_view().remove(id@),
    {
        let _ = self.counts.remove(id);
    }

    /// Counts a failure of a request. Tells whether it has failed too often.
    pub fn record_failure(&mut self, id: &str, max_attempts: u32) -> (r: bool)
        requires
            failures_of(old(self).deep_view(), id@) < u32::MAX,
        ensures
            final(self).deep_view() == old(self).deep_view().insert(
                id@,
                (failures_of(old(self).deep_view(), id@) + 1) as u32,
            ),
            r == (failures_of(old(self).deep_view(), id@) + 1 >= max_attempts),
    {
        let n = self.failures(id) + 1;
        self.counts.insert(id.to_owned(), n);
        n >= max_attempts
    }
}

/// The queue and the counts of failures after a request was sent or could not
/// be, and whether the request is given up: one that failed waits again, as long
/// as it has not failed too often.
pub open spec fn after_sending(
    queue: Seq<QueuedView>,
    counts: Map<Text, u32>,
    request: QueuedView,
    sent: bool,
    max_attempts: u32,
) -> (Seq<QueuedView>, Map<Text, u32>, bool) {
    if sent {
        (queue, counts.remove(request.id), false)
    } else {
        let n = failures_of(counts, request.id) + 1;
        let counted = counts.insert(request.id, n as u32);
        if n >= max_attempts {
            (queue, counted, true)
        } else {
            (queue.push(request), counted, false)
        }
    }
}

impl PassiveReplicationQueue {
    /// Takes note of what came of sending a request that was taken out of the
    /// queue. Tells whether it is given up.
    pub fn sending_done(
        &mut self,
        counts: &mut FailureCounts,
        request: QueuedReplicationRequest,
        sent: bool,
        max_attempts: u32,
    ) -> (r: bool)
        requires
            failures_of(old(counts).deep_view(), request.id@) < u32::MAX,
        ensures
            (final(self).deep_view(), final(counts).deep_view(), r) == after_sending(
                old(self).deep_view(),
                old(counts).deep_view(),
                request.deep_view(),
                sent,
                max_attempts,
            ),
    {
        if sent {
            counts.record_success(request.id.as_str());
            false
        } else if counts.record_failure(request.id.as_str(), max_attempts) {
            true
        } else {
            let ghost before = self.deep_view();
            let ghost v = request.deep_view();
            self.queue.push(request);
            assert(self.deep_view() =~= before.push(v));
            false
        }
    }
}

/// The queue, the counts of failures and whether a request was given up, after
/// it was tried `k` times without success and waited again in between.
pub open spec fn after_failures(
    counts: Map<Text, u32>,
    request: QueuedView,
    k: nat,
    max_attempts: u32,
) -> (Seq<QueuedView>, Map<Text, u32>, bool)
    decreases k,
{
    if k == 0 {
        (seq![request], counts, false)
    } else {
        let (queue, before, _) = after_failures(counts, request, (k - 1) as nat, max_attempts);
        after_sending(queue.drop_last(), before, request, false, max_attempts)
    }
}

/// A request is tried until it has failed as often as the configuration allows:
/// before that it is in the queue again, and then it is given up.
pub proof fn law_request_is_tried_max_times(request: QueuedView, k: nat, max_attempts: u32)
    requires
        0 < k <= max_attempts,
    ensures
        after_failures(Map::empty(), request, k, max_attempts).0 == if k < max_attempts {
            seq![request]
        } else {
            Seq::empty()
        },
        after_failures(Map::empty(), request, k, max_attempts).2 == (k == max_attempts),
        failures_of(after_failures(Map::empty(), request, k, max_attempts).1, request.id) == k,
    decreases k,
{
    if k > 1 {
        law_request_is_tried_max_times(request, (k - 1) as nat, max_attempts);
    }
    assert(after_failures(Map::empty(), request, 0, max_attempts).0 == seq![request]);
    assert(seq![request].drop_last() =~= Seq::<QueuedView>::empty());
    assert(Seq::<QueuedView>::empty().push(request) =~= seq![request]);
}

/// A request that was sent has no failures, however often it failed before.
pub proof fn law_success_clears_failures(counts: Map<Text, u32>, id: Text)
    ensures
        failures_of(counts.remove(id), id) == 0,
{
}

// ---------------------------------------------------------------------------
// Replies
// ---------------------------------------------------------------------------

/// The reply to a request that was put in the queue.
pub open spec fn queued(id: Text) -> ReplyView {
    ReplyView {
        status: 200,
        body: JsonView::Object(
            seq![("request_id"@, JsonView::Str(id)), ("status"@, JsonView::Str("queued"@))],
        ),
    }
}

/// The reply to a request that was put in the queue.
pub fn queue_passive_replication(
    queue: &mut PassiveReplicationQueue,
    payload: ReplicationRequest,
) -> (r: (String, Reply))
    ensures
        outside::is_hyphenated_uuid(r.0@),
        final(queue).deep_view() == old(queue).deep_view().push(
            fresh_request(payload.deep_view(), r.0@),
        ),
        r.1.deep_view() == queued(r.0@),
{
    let id = queue.enqueue(payload);
    let body = object2(
        "request_id",
        Json::Str(id.clone()),
        "status",
        Json::Str("queued".to_owned()),
    );
    (id, Reply { status: 200, body })
}

/// A count as a JSON value.
pub open spec fn count_json(n: nat) -> JsonView {
    if n <= i64::MAX {
        JsonView::Int(n as i64)
    } else {
        JsonView::Number(numbers::decimal(n))
    }
}

fn make_count(n: u64) -> (r: Json)
    ensures
        r.deep_view() == count_json(n as nat),
{
    if n <= i64::MAX as u64 {
        Json::Int(n as i64)
    } else {
        Json::Number(u64_to_string(n))
    }
}

/// What the status of the queue says of a request.
pub open spec fn request_status(q: QueuedView) -> JsonView {
    JsonView::Object(
        seq![
            ("attempts"@, count_json(q.attempts as nat)),
            ("id"@, JsonView::Str(q.id)),
            ("last_attempt"@, change_logging::optional_text(q.last_attempt)),
        ],
    )
}

fn make_request_status(queued: &QueuedReplicationRequest) -> (r: Json)
    ensures
        r.deep_view() == request_status(queued.deep_view()),
{
    object3(
        "attempts",
        make_count(queued.attempts as u64),
        "id",
        Json::Str(queued.id.clone()),
        "last_attempt",
        to_optional_text(&queued.last_attempt),
    )
}

/// What the status of the queue says of its requests.
pub open spec fn request_statuses(queue: Seq<QueuedView>) -> Seq<JsonView> {
    Seq::new(queue.len(), |i: int| request_status(queue[i]))
}

/// The status of the queue.
pub open spec fn queue_status(queue: Seq<QueuedView>) -> ReplyView {
    ReplyView {
        status: 200,
        body: JsonView::Object(
            seq![
                ("queue_length"@, count_json(queue.len())),
                ("requests"@, JsonView::Array(request_statuses(queue))),
            ],
        ),
    }
}

/// The status of the queue.
pub fn get_replication_queue_status(queue: &PassiveReplicationQueue) -> (r: Reply)
    ensures
        r.deep_view() == queue_status(queue.deep_view()),
{
    let list = &queue.queue;
    let ghost q = list.deep_view();
    let mut requests: Vec<Json> = Vec::new();
    let mut i: usize = 0;
    while i < list.len()
        invariant
            i <= list@.len(),
            q == list.deep_view(),
            requests@.len() == i,
            forall|k: int|
                0 <= k < i ==> (#[trigger] requests@[k]).deep_view() == request_status(q[k]),
        decreases list@.len() - i,
    {
        assert(q[i as int] == list@[i as int].deep_view());
        requests.push(make_request_status(&list[i]));
        i = i + 1;
    }
    proof {
        json::lemma_array_view(requests);
        assert(requests.deep_view() =~= request_statuses(q));
    }
    Reply {
        status: 200,
        body: object2(
            "queue_length",
            make_count(list.len() as u64),
            "requests",
            Json::Array(requests),
        ),
    }
}

} // verus!
