//! The nodes that a database replicates to.

use crate::config::database_config::{ConfigView, DatabaseConfig};
use crate::json;
use crate::json::{is_success, reply_text, Reply};
use crate::numbers;
use crate::numbers::u64_to_string;
use crate::outside;
use crate::outside::new_uuid;
use crate::string_map::Duplicate;
use crate::text;
use crate::text::{concat2, concat3, is_among, str_before, str_eq, str_starts_with, Text};
use vstd::prelude::*;

verus! {

/// Which tables go to a node.
#[derive(Debug, PartialEq, Eq)]
pub enum ReplicationMode {
    All,
    Specific(Vec<String>),
}

/// A [`ReplicationMode`] as a mathematical value.
pub enum ModeView {
    All,
    Specific(Seq<Text>),
}

impl DeepView for ReplicationMode {
    type V = ModeView;

    open spec fn deep_view(&self) -> ModeView {
        match self {
            ReplicationMode::All => ModeView::All,
            ReplicationMode::Specific(tables) => ModeView::Specific(tables.deep_view()),
        }
    }
}

impl Duplicate for ReplicationMode {
    fn duplicate(&self) -> (r: Self) {
        match self {
            ReplicationMode::All => ReplicationMode::All,
            ReplicationMode::Specific(tables) => ReplicationMode::Specific(tables.duplicate()),
        }
    }
}

/// A node that changes are sent to.
#[derive(Debug, PartialEq, Eq)]
pub struct ReplicationNode {
    pub name: String,
    pub node_url: String,
    pub description: String,
    pub replication_mode: ReplicationMode,
    pub shared_secret: String,
}

/// A [`ReplicationNode`] as a mathematical value.
pub struct NodeView {
    pub name: Text,
    pub node_url: Text,
    pub description: Text,
    pub replication_mode: ModeView,
    pub shared_secret: Text,
}

impl DeepView for ReplicationNode {
    type V = NodeView;

    open spec fn deep_view(&self) -> NodeView {
        NodeView {
            name: self.name@,
            node_url: self.node_url@,
            description: self.description@,
            replication_mode: self.replication_mode.deep_view(),
            shared_secret: self.shared_secret@,
        }
    }
}

impl Duplicate for ReplicationNode {
    fn duplicate(&self) -> (r: Self) {
        ReplicationNode {
            name: self.name.clone(),
            node_url: self.node_url.clone(),
            description: self.description.clone(),
            replication_mode: self.replication_mode.duplicate(),
            shared_secret: self.shared_secret.clone(),
        }
    }
}

/// The nodes that are configured.
#[derive(Debug, PartialEq, Eq)]
pub struct NodesConfig {
    pub nodes: Vec<ReplicationNode>,
}

impl DeepView for NodesConfig {
    type V = Seq<NodeView>;

    open spec fn deep_view(&self) -> Seq<NodeView> {
        self.nodes.deep_view()
    }
}

impl Default for NodesConfig {
    fn default() -> (r: Self)
        ensures
            r.deep_view() == Seq::<NodeView>::empty(),
    {
        let r = NodesConfig { nodes: Vec::new() };
        assert(r.deep_view() =~= Seq::<NodeView>::empty());
        r
    }
}

/// A request to register a node with another one.
#[derive(Debug, PartialEq, Eq)]
pub struct CrossNodeRegistrationRequest {
    pub source_node: ReplicationNode,
    pub proposed_shared_secret: String,
}

/// The reply to a [`CrossNodeRegistrationRequest`].
#[derive(Debug, PartialEq, Eq)]
pub struct CrossNodeRegistrationResponse {
    pub target_node: ReplicationNode,
    pub accepted_shared_secret: String,
}

/// A request to change what goes to a node.
#[derive(Debug, PartialEq, Eq)]
pub struct UpdateNodeReplicationRequest {
    pub node_url: String,
    pub replication_mode: ReplicationMode,
    pub shared_secret: String,
}

/// A request to register a node.
#[derive(Debug, PartialEq, Eq)]
pub struct NodeRegistrationRequest {
    pub node: ReplicationNode,
    pub shared_secret: String,
}

/// What a node says of itself.
#[derive(Debug, PartialEq, Eq)]
pub struct LocalNodeConfig {
    pub database_name: String,
    pub node_url: String,
    pub node_port: u16,
}

// ---------------------------------------------------------------------------
// Tables and addresses
// ---------------------------------------------------------------------------

/// Whether changes to a table go to a node of the given mode.
pub open spec fn replicates(mode: ModeView, table: Text) -> bool {
    match mode {
        ModeView::All => true,
        ModeView::Specific(tables) => tables.contains(table),
    }
}

/// The host and the port in the URL of a node: what stands between the scheme
/// and the path, or the whole where there is no scheme.
pub open spec fn host_of(url: Text) -> Text {
    if text::starts_with(url, "http://"@) {
        text::before(text::before(url.skip(7), "://"@), "/"@)
    } else if text::starts_with(url, "https://"@) {
        text::before(text::before(url.skip(8), "://"@), "/"@)
    } else {
        url
    }
}

/// The scheme with which a node is called.
pub open spec fn scheme_of(url: Text) -> Text {
    if text::starts_with(url, "https"@) {
        "https://"@
    } else {
        "http://"@
    }
}

/// The URL of an endpoint of a node at an address.
pub open spec fn endpoint(url: Text, address: Text, path: Text) -> Text {
    scheme_of(url) + address + path
}

impl ReplicationNode {
    /// Whether changes to a table go to this node.
    pub fn should_replicate(&self, table_name: &str) -> (r: bool)
        ensures
            r == replicates(self.deep_view().replication_mode, table_name@),
    {
        match &self.replication_mode {
            ReplicationMode::All => true,
            ReplicationMode::Specific(tables) => is_among(tables, table_name),
        }
    }

    /// The host and the port of the node, to be looked up.
    pub fn host(&self) -> (r: String)
        ensures
            r@ == host_of(self.node_url@),
    {
        let url = self.node_url.as_str();
        proof {
            reveal_strlit("http://");
            reveal_strlit("https://");
            reveal_strlit("/");
            assert("/"@ =~= seq!['/']);
        }
        if str_starts_with(url, "http://") {
            let rest = skip_chars(url, 7);
            str_before(str_before(rest.as_str(), "://").as_str(), "/")
        } else if str_starts_with(url, "https://") {
            let rest = skip_chars(url, 8);
            str_before(str_before(rest.as_str(), "://").as_str(), "/")
        } else {
            self.node_url.clone()
        }
    }

    /// The URL of an endpoint of the node at an address.
    pub fn endpoint_url(&self, address: &str, path: &str) -> (r: String)
        ensures
            r@ == endpoint(self.node_url@, address@, path@),
    {
        if str_starts_with(self.node_url.as_str(), "https") {
            concat3("https://", address, path)
        } else {
            concat3("http://", address, path)
        }
    }

    /// The first of the addresses that a lookup of the node gave.
    pub fn first_address(&self, addresses: &Vec<String>) -> (r: Result<String, String>)
        ensures
            match r {
                Ok(a) => addresses@.len() > 0 && a@ == addresses.deep_view()[0],
                Err(e) => addresses@.len() == 0 && e@ == "No addresses found for "@
                    + self.node_url@,
            },
    {
        if addresses.len() > 0 {
            Ok(addresses[0].clone())
        } else {
            Err(concat2("No addresses found for ", self.node_url.as_str()))
        }
    }
}

fn skip_chars(s: &str, n: usize) -> (r: String)
    requires
        n <= s@.len(),
    ensures
        r@ == s@.skip(n as int),
{
    let x = text::chars_of(s);
    assert(s@.subrange(n as int, s@.len() as int) =~= s@.skip(n as int));
    text::string_of(&x, n, x.len())
}

// ---------------------------------------------------------------------------
// Finding nodes
// ---------------------------------------------------------------------------

/// The position of the first node with a URL.
pub open spec fn position_of_url(nodes: Seq<NodeView>, url: Text) -> Option<int>
    decreases nodes.len(),
{
    if nodes.len() == 0 {
        None
    } else {
        match position_of_url(nodes.drop_last(), url) {
            Some(i) => Some(i),
            None => if nodes.last().node_url == url {
                Some(nodes.len() - 1)
            } else {
                None
            },
        }
    }
}

/// The position of the first node with a name.
pub open spec fn position_of_name(nodes: Seq<NodeView>, name: Text) -> Option<int>
    decreases nodes.len(),
{
    if nodes.len() == 0 {
        None
    } else {
        match position_of_name(nodes.drop_last(), name) {
            Some(i) => Some(i),
            None => if nodes.last().name == name {
                Some(nodes.len() - 1)
            } else {
                None
            },
        }
    }
}

proof fn lemma_position_of_url(nodes: Seq<NodeView>, url: Text, n: int)
    requires
        0 <= n <= nodes.len(),
    ensures
        position_of_url(nodes.take(n), url) matches Some(i) ==> position_of_url(nodes, url)
            == Some(i) && 0 <= i < n && nodes[i].node_url == url && forall|k: int|
            0 <= k < i ==> (#[trigger] nodes[k]).node_url != url,
        position_of_url(nodes, url) is None ==> forall|k: int|
            0 <= k < nodes.len() ==> (#[trigger] nodes[k]).node_url != url,
    decreases nodes.len(),
{
    if nodes.len() > 0 {
        let d = nodes.drop_last();
        assert(forall|k: int| 0 <= k < d.len() ==> d[k] == nodes[k]);
        if n < nodes.len() {
            assert(nodes.take(n) =~= d.take(n));
            lemma_position_of_url(d, url, n);
        } else {
            assert(nodes.take(n) =~= nodes);
            assert(d.take(d.len() as int) =~= d);
            lemma_position_of_url(d, url, d.len() as int);
        }
    } else {
        assert(nodes.take(n) =~= nodes);
    }
}

proof fn lemma_position_of_name(nodes: Seq<NodeView>, name: Text, n: int)
    requires
        0 <= n <= nodes.len(),
    ensures
        position_of_name(nodes.take(n), name) matches Some(i) ==> position_of_name(nodes, name)
            == Some(i) && 0 <= i < n && nodes[i].name == name,
    decreases nodes.len(),
{
    if nodes.len() > 0 {
        let d = nodes.drop_last();
        assert(forall|k: int| 0 <= k < d.len() ==> d[k] == nodes[k]);
        if n < nodes.len() {
            assert(nodes.take(n) =~= d.take(n));
            lemma_position_of_name(d, name, n);
        } else {
            assert(nodes.take(n) =~= nodes);
            assert(d.take(d.len() as int) =~= d);
            lemma_position_of_name(d, name, d.len() as int);
        }
    } else {
        assert(nodes.take(n) =~= nodes);
    }
}

impl NodesConfig {
    fn find_url(&self, url: &str) -> (r: Option<usize>)
        ensures
            match r {
                Some(i) => position_of_url(self.deep_view(), url@) == Some(i as int) && i
                    < self.nodes@.len(),
                None => position_of_url(self.deep_view(), url@) is None,
            },
    {
        let ghost v = self.deep_view();
        let mut i: usize = 0;
        while i < self.nodes.len()
            invariant
                i <= self.nodes@.len(),
                v == self.deep_view(),
                position_of_url(v.take(i as int), url@) is None,
            decreases self.nodes@.len() - i,
        {
            assert(v.take(i as int + 1).drop_last() =~= v.take(i as int));
            assert(v.take(i as int + 1).last() == self.nodes@[i as int].deep_view());
            if str_eq(self.nodes[i].node_url.as_str(), url) {
                proof {
                    lemma_position_of_url(v, url@, i as int + 1);
                }
                return Some(i);
            }
            i = i + 1;
        }
        assert(v.take(i as int) =~= v);
        None
    }

    /// The position of the first node with a name.
    pub fn find_name(&self, name: &str) -> (r: Option<usize>)
        ensures
            match r {
                Some(i) => position_of_name(self.deep_view(), name@) == Some(i as int) && i
                    < self.nodes@.len(),
                None => position_of_name(self.deep_view(), name@) is None,
            },
    {
        let ghost v = self.deep_view();
        let mut i: usize = 0;
        while i < self.nodes.len()
            invariant
                i <= self.nodes@.len(),
                v == self.deep_view(),
                position_of_name(v.take(i as int), name@) is None,
            decreases self.nodes@.len() - i,
        {
            assert(v.take(i as int + 1).drop_last() =~= v.take(i as int));
            assert(v.take(i as int + 1).last() == self.nodes@[i as int].deep_view());
            if str_eq(self.nodes[i].name.as_str(), name) {
                proof {
                    lemma_position_of_name(v, name@, i as int + 1);
                }
                return Some(i);
            }
            i = i + 1;
        }
        assert(v.take(i as int) =~= v);
        None
    }
}

// ---------------------------------------------------------------------------
// Registering and updating nodes
// ---------------------------------------------------------------------------

/// Adds the node of a request, with the secret of the request.
pub fn register_node(nodes_config: &mut NodesConfig, req: &NodeRegistrationRequest)
    ensures
        final(nodes_config).deep_view() == old(nodes_config).deep_view().push(
            (NodeView { shared_secret: req.shared_secret@, ..req.node.deep_view() }),
        ),
{
    let ghost before = nodes_config.deep_view();
    let mut new_node = req.node.duplicate();
    new_node.shared_secret = req.shared_secret.clone();
    let ghost v = new_node.deep_view();
    nodes_config.nodes.push(new_node);
    assert(nodes_config.deep_view() =~= before.push(v));
}

/// The reply to a registration, given the error with which the nodes could not
/// be saved.
pub fn registered_reply(save_error: &Option<String>) -> (r: Reply)
    ensures
        r.deep_view() == match save_error {
            None => json::text_reply(200, "Node registered successfully"@),
            Some(e) => json::text_reply(500, "Failed to save nodes: "@ + e@),
        },
{
    match save_error {
        None => reply_text(200, "Node registered successfully".to_owned()),
        Some(e) => reply_text(500, concat2("Failed to save nodes: ", e.as_str())),
    }
}

/// The nodes with another mode for the node at a position.
pub open spec fn with_mode(nodes: Seq<NodeView>, i: int, mode: ModeView) -> Seq<NodeView> {
    nodes.update(i, NodeView { replication_mode: mode, ..nodes[i] })
}

/// Changes what goes to the node with the URL of a request, where the request
/// has the secret of the node. Gives back the node as it then is, or the reply
/// to a request that is refused.
pub fn update_node_replication(
    nodes_config: &mut NodesConfig,
    req: &UpdateNodeReplicationRequest,
) -> (r: Result<ReplicationNode, Reply>)
    ensures
        match position_of_url(old(nodes_config).deep_view(), req.node_url@) {
            None => r matches Err(e) && e.deep_view() == json::text_reply(404, "Node not found"@)
                && final(nodes_config).deep_view() == old(nodes_config).deep_view(),
            Some(i) => if old(nodes_config).deep_view()[i].shared_secret != req.shared_secret@ {
                r matches Err(e) && e.deep_view() == json::text_reply(
                    401,
                    "Invalid shared secret"@,
                ) && final(nodes_config).deep_view() == old(nodes_config).deep_view()
            } else {
                &&& final(nodes_config).deep_view() == with_mode(
                    old(nodes_config).deep_view(),
                    i,
                    req.replication_mode.deep_view(),
                )
                &&& r matches Ok(node) && node.deep_view() == final(nodes_config).deep_view()[i]
            },
        },
{
    match nodes_config.find_url(req.node_url.as_str()) {
        None => Err(reply_text(404, "Node not found".to_owned())),
        Some(i) => {
            let ghost before = nodes_config.deep_view();
            let mut node = nodes_config.nodes[i].duplicate();
            if !str_eq(node.shared_secret.as_str(), req.shared_secret.as_str()) {
                return Err(reply_text(401, "Invalid shared secret".to_owned()));
            }
            node.replication_mode = req.replication_mode.duplicate();
            let r = node.duplicate();
            nodes_config.nodes.set(i, node);
            assert(nodes_config.deep_view() =~= with_mode(
                before,
                i as int,
                req.replication_mode.deep_view(),
            ));
            Ok(r)
        },
    }
}

/// The nodes after a node was registered with its target: the entry with its
/// URL takes its name, description and mode and the secret that was agreed on,
/// and where there is none, the node is added.
pub open spec fn with_node(nodes: Seq<NodeView>, node: NodeView, secret: Text) -> Seq<NodeView> {
    let entry = NodeView { shared_secret: secret, ..node };
    match position_of_url(nodes, node.node_url) {
        Some(i) => nodes.update(i, entry),
        None => nodes.push(entry),
    }
}

/// Updates the entry of a node that was registered with its target, or adds
/// one.
pub fn update_local_node_configuration(
    nodes_config: &mut NodesConfig,
    source_node: &ReplicationNode,
    shared_secret: &str,
)
    ensures
        final(nodes_config).deep_view() == with_node(
            old(nodes_config).deep_view(),
            source_node.deep_view(),
            shared_secret@,
        ),
{
    let ghost before = nodes_config.deep_view();
    let mut node = source_node.duplicate();
    node.shared_secret = shared_secret.to_owned();
    let ghost v = node.deep_view();
    match nodes_config.find_url(source_node.node_url.as_str()) {
        Some(i) => {
            nodes_config.nodes.set(i, node);
            assert(nodes_config.deep_view() =~= before.update(i as int, v));
        },
        None => {
            nodes_config.nodes.push(node);
            assert(nodes_config.deep_view() =~= before.push(v));
        },
    }
}

/// A node that was registered is found under its URL, with the secret that was
/// agreed on; registering it again with the same secret changes nothing; and
/// the entries with other URLs stay as they are.
pub proof fn law_registered_node_is_found(nodes: Seq<NodeView>, node: NodeView, secret: Text)
    ensures
        ({
            let after = with_node(nodes, node, secret);
            &&& position_of_url(after, node.node_url) matches Some(i) && after[i] == (NodeView {
                shared_secret: secret,
                ..node
            })
            &&& with_node(after, node, secret) == after
            &&& forall|k: int|
                0 <= k < nodes.len() && (#[trigger] nodes[k]).node_url != node.node_url
                    ==> after[k] == nodes[k]
        }),
{
    let after = with_node(nodes, node, secret);
    let entry = NodeView { shared_secret: secret, ..node };
    assert(nodes.take(nodes.len() as int) =~= nodes);
    lemma_position_of_url(nodes, node.node_url, nodes.len() as int);
    match position_of_url(nodes, node.node_url) {
        Some(i) => {
            lemma_first_position(after, node.node_url, i);
        },
        None => {
            lemma_first_position(after, node.node_url, nodes.len() as int);
        },
    }
    match position_of_url(after, node.node_url) {
        Some(i) => {
            assert(after.update(i, entry) =~= after);
        },
        None => {},
    }
}

proof fn lemma_first_position(nodes: Seq<NodeView>, url: Text, i: int)
    requires
        0 <= i < nodes.len(),
        nodes[i].node_url == url,
        forall|k: int| 0 <= k < i ==> (#[trigger] nodes[k]).node_url != url,
    ensures
        position_of_url(nodes, url) == Some(i),
    decreases nodes.len(),
{
    let d = nodes.drop_last();
    assert(forall|k: int| 0 <= k < d.len() ==> d[k] == nodes[k]);
    if i < d.len() {
        lemma_first_position(d, url, i);
    } else {
        assert(d.take(d.len() as int) =~= d);
        lemma_position_of_url(d, url, d.len() as int);
    }
}

/// The URL that a node gives of itself.
pub open spec fn local_url(config: ConfigView) -> Text {
    if config.node_port != 0 {
        config.node_url + ":"@ + numbers::decimal(config.node_port as nat)
    } else {
        config.node_url
    }
}

/// What a node says of itself.
pub fn load_local_node_config(config: &DatabaseConfig) -> (r: LocalNodeConfig)
    ensures
        r.database_name@ == config.deep_view().database_name,
        r.node_url@ == local_url(config.deep_view()),
        r.node_port == config.node_port,
{
    let node_url = if config.node_port != 0 {
        concat3(
            config.node_url.as_str(),
            ":",
            u64_to_string(config.node_port as u64).as_str(),
        )
    } else {
        config.node_url.clone()
    };
    LocalNodeConfig {
        database_name: config.database_name.clone(),
        node_url,
        node_port: config.node_port,
    }
}

/// What a node asks of its target: to register it under its own URL, with a
/// secret.
pub open spec fn own_node(source: NodeView, config: ConfigView, secret: Text) -> NodeView {
    NodeView { node_url: local_url(config), shared_secret: secret, ..source }
}

/// The request with which a node asks its target to register it, with a given
/// secret.
pub fn registration_request_with(
    source_node: &ReplicationNode,
    config: &DatabaseConfig,
    secret: &str,
) -> (r: NodeRegistrationRequest)
    ensures
        r.node.deep_view() == own_node(source_node.deep_view(), config.deep_view(), secret@),
        r.shared_secret@ == secret@,
{
    let mut node = source_node.duplicate();
    node.node_url = load_local_node_config(config).node_url;
    node.shared_secret = secret.to_owned();
    NodeRegistrationRequest { node, shared_secret: secret.to_owned() }
}

/// The request with which a node asks its target to register it, with a new
/// secret.
pub fn registration_request(source_node: &ReplicationNode, config: &DatabaseConfig) -> (r:
    NodeRegistrationRequest)
    ensures
        outside::is_hyphenated_uuid(r.shared_secret@),
        r.node.deep_view() == own_node(
            source_node.deep_view(),
            config.deep_view(),
            r.shared_secret@,
        ),
{
    let secret = new_uuid();
    registration_request_with(source_node, config, secret.as_str())
}

/// Whether a request to register with a target names a node; else the reply.
pub fn check_source_node(req: &CrossNodeRegistrationRequest) -> (r: Result<(), Reply>)
    ensures
        match r {
            Ok(_) => req.source_node.node_url@.len() > 0,
            Err(e) => req.source_node.node_url@.len() == 0 && e.deep_view() == json::text_reply(
                400,
                "Invalid source node"@,
            ),
        },
{
    if text::chars_of(req.source_node.node_url.as_str()).len() == 0 {
        Err(reply_text(400, "Invalid source node".to_owned()))
    } else {
        Ok(())
    }
}

/// What came of a request to a target, given the status of its reply and that
/// status in words.
pub fn registration_outcome(
    request: NodeRegistrationRequest,
    status: u16,
    status_text: &str,
) -> (r: Result<CrossNodeRegistrationResponse, String>)
    ensures
        match r {
            Ok(x) => json::success(status) && x.target_node.deep_view() == request.node.deep_view()
                && x.accepted_shared_secret@ == request.shared_secret@,
            Err(e) => !json::success(status) && e@ == "Target node registration failed: "@
                + status_text@,
        },
{
    if is_success(status) {
        Ok(
            CrossNodeRegistrationResponse {
                target_node: request.node,
                accepted_shared_secret: request.shared_secret,
            },
        )
    } else {
        Err(concat2("Target node registration failed: ", status_text))
    }
}

// ---------------------------------------------------------------------------
// Credentials
// ---------------------------------------------------------------------------

/// The header with which a node authenticates itself.
pub open spec fn node_header(node: NodeView) -> Text {
    "Basic "@ + outside::base64_of(
        vstd::utf8::encode_utf8(node.name + ":"@ + node.shared_secret),
    )
}

/// The header with which a node authenticates itself.
pub fn auth_header(node: &ReplicationNode) -> (r: String)
    ensures
        r@ == node_header(node.deep_view()),
{
    let credentials = concat3(node.name.as_str(), ":", node.shared_secret.as_str());
    let encoded = outside::base64_encode(credentials.as_str().as_bytes());
    concat2("Basic ", encoded.as_str())
}

} // verus!
