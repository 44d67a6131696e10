//! The persistent hierarchical session store: a tree of groups and saved
//! sessions with ordered children, stable identifiers, move and reparent
//! semantics, and credential presets.
//!
//! Parent information is computed by search rather than stored; the tree is
//! strictly downward, and every operation is specified against an abstract
//! forest of `NodeView` values.

use vstd::prelude::*;

use crate::ids::new_node_id;

verus! {

/// A saved credential preset for quick connection.
#[derive(Clone, Debug)]
pub struct CredentialPreset {
    pub id: u128,
    pub name: String,
    pub username: String,
    pub password: String,
}

/// Abstract value of a credential preset.
pub ghost struct PresetView {
    pub id: u128,
    pub name: Seq<char>,
    pub username: Seq<char>,
    pub password: Seq<char>,
}

impl View for CredentialPreset {
    type V = PresetView;

    open spec fn view(&self) -> PresetView {
        PresetView {
            id: self.id,
            name: self.name@,
            username: self.username@,
            password: self.password@,
        }
    }
}

impl CredentialPreset {
    /// A preset with a fresh identifier and the given fields.
    pub fn new(name: &str, username: &str, password: &str) -> (r: Self)
        ensures
            r.name@ == name@,
            r.username@ == username@,
            r.password@ == password@,
    {
        Self {
            id: new_node_id(),
            name: name.to_owned(),
            username: username.to_owned(),
            password: password.to_owned(),
        }
    }
}

/// Authentication method of a saved session.
#[derive(Clone, Debug)]
pub enum AuthMethod {
    Interactive,
    Password { password: String },
    PrivateKey { path: String, passphrase: Option<String> },
    Agent,
}

/// Abstract value of an authentication method.
pub ghost enum AuthMethodView {
    Interactive,
    Password(Seq<char>),
    PrivateKey { path: Seq<char>, passphrase: Option<Seq<char>> },
    Agent,
}

impl View for AuthMethod {
    type V = AuthMethodView;

    open spec fn view(&self) -> AuthMethodView {
        match self {
            AuthMethod::Interactive => AuthMethodView::Interactive,
            AuthMethod::Password { password } => AuthMethodView::Password(password@),
            AuthMethod::PrivateKey { path, passphrase } => AuthMethodView::PrivateKey {
                path: path@,
                passphrase: match passphrase {
                    Some(p) => Some(p@),
                    None => None,
                },
            },
            AuthMethod::Agent => AuthMethodView::Agent,
        }
    }
}

/// Saved configuration of an SSH session.
#[derive(Clone, Debug)]
pub struct SshSessionConfig {
    pub host: String,
    pub port: u16,
    pub username: Option<String>,
    pub auth: AuthMethod,
    pub env: Vec<(String, String)>,
    pub keepalive_interval_secs: Option<u64>,
    pub initial_command: Option<String>,
}

/// Abstract value of a saved SSH session configuration.
pub ghost struct SshSessionConfigView {
    pub host: Seq<char>,
    pub port: u16,
    pub username: Option<Seq<char>>,
    pub auth: AuthMethodView,
    pub env: Seq<(Seq<char>, Seq<char>)>,
    pub keepalive_interval_secs: Option<u64>,
    pub initial_command: Option<Seq<char>>,
}

/// Abstract value of an optional string.
pub open spec fn view_opt_string(o: Option<String>) -> Option<Seq<char>> {
    match o {
        Some(s) => Some(s@),
        None => None,
    }
}

/// Abstract value of an environment pair list.
pub open spec fn view_env(env: Seq<(String, String)>) -> Seq<(Seq<char>, Seq<char>)> {
    env.map_values(|p: (String, String)| (p.0@, p.1@))
}

impl View for SshSessionConfig {
    type V = SshSessionConfigView;

    open spec fn view(&self) -> SshSessionConfigView {
        SshSessionConfigView {
            host: self.host@,
            port: self.port,
            username: view_opt_string(self.username),
            auth: self.auth@,
            env: view_env(self.env@),
            keepalive_interval_secs: self.keepalive_interval_secs,
            initial_command: view_opt_string(self.initial_command),
        }
    }
}

impl SshSessionConfig {
    /// A saved SSH configuration for the given endpoint: interactive
    /// authentication, empty environment, a 30-second keepalive.
    pub fn new(host: &str, port: u16) -> (r: Self)
        ensures
            r@ == (SshSessionConfigView {
                host: host@,
                port,
                username: None,
                auth: AuthMethodView::Interactive,
                env: Seq::<(Seq<char>, Seq<char>)>::empty(),
                keepalive_interval_secs: Some(30u64),
                initial_command: None,
            }),
    {
        let r = Self {
            host: host.to_owned(),
            port,
            username: None,
            auth: AuthMethod::Interactive,
            env: Vec::new(),
            keepalive_interval_secs: Some(30),
            initial_command: None,
        };
        proof {
            assert(view_env(r.env@) =~= Seq::<(Seq<char>, Seq<char>)>::empty());
        }
        r
    }

    /// The same configuration with the username set.
    pub fn with_username(self, username: &str) -> (r: Self)
        ensures
            r@ == (SshSessionConfigView { username: Some(username@), ..self@ }),
    {
        let r = Self { username: Some(username.to_owned()), ..self };
        proof {
            assert(r@ =~= (SshSessionConfigView { username: Some(username@), ..self@ }));
        }
        r
    }

    /// The same configuration with the authentication method set.
    pub fn with_auth(self, auth: AuthMethod) -> (r: Self)
        ensures
            r@ == (SshSessionConfigView { auth: auth@, ..self@ }),
    {
        let r = Self { auth, ..self };
        proof {
            assert(r@ =~= (SshSessionConfigView { auth: r.auth@, ..self@ }));
        }
        r
    }
}

/// Saved configuration of a Telnet session.
#[derive(Clone, Debug)]
pub struct TelnetSessionConfig {
    pub host: String,
    pub port: u16,
    pub username: Option<String>,
    pub password: Option<String>,
    pub encoding: Option<String>,
}

/// Abstract value of a saved Telnet session configuration.
pub ghost struct TelnetSessionConfigView {
    pub host: Seq<char>,
    pub port: u16,
    pub username: Option<Seq<char>>,
    pub password: Option<Seq<char>>,
    pub encoding: Option<Seq<char>>,
}

impl View for TelnetSessionConfig {
    type V = TelnetSessionConfigView;

    open spec fn view(&self) -> TelnetSessionConfigView {
        TelnetSessionConfigView {
            host: self.host@,
            port: self.port,
            username: view_opt_string(self.username),
            password: view_opt_string(self.password),
            encoding: view_opt_string(self.encoding),
        }
    }
}

impl TelnetSessionConfig {
    /// A saved Telnet configuration for the given endpoint.
    pub fn new(host: &str, port: u16) -> (r: Self)
        ensures
            r@ == (TelnetSessionConfigView {
                host: host@,
                port,
                username: None,
                password: None,
                encoding: None,
            }),
    {
        Self { host: host.to_owned(), port, username: None, password: None, encoding: None }
    }

    /// The same configuration with both credentials set.
    pub fn with_credentials(self, username: &str, password: &str) -> (r: Self)
        ensures
            r@ == (TelnetSessionConfigView {
                username: Some(username@),
                password: Some(password@),
                ..self@
            }),
    {
        let r = Self {
            username: Some(username.to_owned()),
            password: Some(password.to_owned()),
            ..self
        };
        proof {
            assert(r@ =~= (TelnetSessionConfigView {
                username: Some(username@),
                password: Some(password@),
                ..self@
            }));
        }
        r
    }
}

/// Protocol-specific configuration of a saved session.
#[derive(Clone, Debug)]
pub enum ProtocolConfig {
    Ssh(SshSessionConfig),
    Telnet(TelnetSessionConfig),
}

/// Abstract value of a protocol configuration.
pub ghost enum ProtocolView {
    Ssh(SshSessionConfigView),
    Telnet(TelnetSessionConfigView),
}

impl View for ProtocolConfig {
    type V = ProtocolView;

    open spec fn view(&self) -> ProtocolView {
        match self {
            ProtocolConfig::Ssh(c) => ProtocolView::Ssh(c@),
            ProtocolConfig::Telnet(c) => ProtocolView::Telnet(c@),
        }
    }
}

/// A saved session: identifier, display name, tags, protocol configuration.
#[derive(Clone, Debug)]
pub struct SessionConfig {
    pub id: u128,
    pub name: String,
    pub tags: Vec<String>,
    pub protocol: ProtocolConfig,
}

/// Abstract value of a saved session.
pub ghost struct SessionView {
    pub id: u128,
    pub name: Seq<char>,
    pub tags: Seq<Seq<char>>,
    pub protocol: ProtocolView,
}

impl View for SessionConfig {
    type V = SessionView;

    open spec fn view(&self) -> SessionView {
        SessionView {
            id: self.id,
            name: self.name@,
            tags: self.tags.deep_view(),
            protocol: self.protocol@,
        }
    }
}

impl SessionConfig {
    /// A saved SSH session with a fresh identifier and no tags.
    pub fn new_ssh(name: &str, ssh_config: SshSessionConfig) -> (r: Self)
        ensures
            r.name@ == name@,
            r.tags@.len() == 0,
            r.protocol@ == ProtocolView::Ssh(ssh_config@),
    {
        Self {
            id: new_node_id(),
            name: name.to_owned(),
            tags: Vec::new(),
            protocol: ProtocolConfig::Ssh(ssh_config),
        }
    }

    /// A saved Telnet session with a fresh identifier and no tags.
    pub fn new_telnet(name: &str, telnet_config: TelnetSessionConfig) -> (r: Self)
        ensures
            r.name@ == name@,
            r.tags@.len() == 0,
            r.protocol@ == ProtocolView::Telnet(telnet_config@),
    {
        Self {
            id: new_node_id(),
            name: name.to_owned(),
            tags: Vec::new(),
            protocol: ProtocolConfig::Telnet(telnet_config),
        }
    }
}

/// A group of sessions; may contain other groups or sessions, in order.
pub struct SessionGroup {
    pub id: u128,
    pub name: String,
    pub expanded: bool,
    pub children: Vec<SessionNode>,
}

impl SessionGroup {
    /// An empty, expanded group with a fresh identifier.
    pub fn new(name: &str) -> (r: Self)
        ensures
            r.name@ == name@,
            r.expanded == true,
            r.children@.len() == 0,
    {
        Self { id: new_node_id(), name: name.to_owned(), expanded: true, children: Vec::new() }
    }
}

/// A node in the session tree: a group or a saved session.
pub enum SessionNode {
    Group(SessionGroup),
    Session(SessionConfig),
}

/// Abstract value of a node: the session tree as pure data.
pub ghost enum NodeView {
    Group { id: u128, name: Seq<char>, expanded: bool, children: Seq<NodeView> },
    Session(SessionView),
}

/// Abstract value of a node.
pub open spec fn view_node(n: SessionNode) -> NodeView
    decreases n,
{
    match n {
        SessionNode::Group(g) => NodeView::Group {
            id: g.id,
            name: g.name@,
            expanded: g.expanded,
            children: view_forest(g.children@),
        },
        SessionNode::Session(s) => NodeView::Session(s@),
    }
}

/// Abstract value of an ordered forest of nodes.
pub open spec fn view_forest(s: Seq<SessionNode>) -> Seq<NodeView>
    decreases s,
{
    if s.len() == 0 {
        Seq::empty()
    } else {
        seq![view_node(s[0])] + view_forest(s.drop_first())
    }
}

impl View for SessionNode {
    type V = NodeView;

    open spec fn view(&self) -> NodeView {
        view_node(*self)
    }
}

/// The identifier of an abstract node.
pub open spec fn spec_node_id(n: NodeView) -> u128 {
    match n {
        NodeView::Group { id, .. } => id,
        NodeView::Session(s) => s.id,
    }
}

impl SessionNode {
    /// The stable identifier of this node.
    pub fn id(&self) -> (r: u128)
        ensures
            r == spec_node_id(self@),
    {
        match self {
            SessionNode::Group(g) => g.id,
            SessionNode::Session(s) => s.id,
        }
    }

    /// The display name of this node.
    pub fn name(&self) -> (r: &str)
        ensures
            r@ == (match self@ {
                NodeView::Group { name, .. } => name,
                NodeView::Session(s) => s.name,
            }),
    {
        match self {
            SessionNode::Group(g) => g.name.as_str(),
            SessionNode::Session(s) => s.name.as_str(),
        }
    }
}

/// Height of a node: 1 for a session, 1 more than its children for a group.
/// Only termination measures use it.
pub open spec fn node_height(n: SessionNode) -> nat
    decreases n,
{
    match n {
        SessionNode::Group(g) => 1 + forest_height(g.children@),
        SessionNode::Session(_) => 1,
    }
}

/// Height of a forest: the largest height of its nodes.
pub open spec fn forest_height(s: Seq<SessionNode>) -> nat
    decreases s,
{
    if s.len() == 0 {
        0
    } else {
        let h = node_height(s[0]);
        let r = forest_height(s.drop_first());
        if h > r {
            h
        } else {
            r
        }
    }
}

/// Every node of a forest is bounded by the forest's height.
pub proof fn lemma_forest_height_elem(s: Seq<SessionNode>, i: int)
    requires
        0 <= i < s.len(),
    ensures
        node_height(s[i]) <= forest_height(s),
    decreases s.len(),
{
    if i > 0 {
        lemma_forest_height_elem(s.drop_first(), i - 1);
    }
}

/// The abstract forest has the same length as the concrete one and abstracts
/// it element by element.
pub proof fn lemma_view_forest(s: Seq<SessionNode>)
    ensures
        view_forest(s).len() == s.len(),
        forall|i: int| 0 <= i < s.len() ==> view_forest(s)[i] == view_node(s[i]),
    decreases s.len(),
{
    if s.len() > 0 {
        lemma_view_forest(s.drop_first());
    }
}

/// DFS lookup inside one node: the node itself when its identifier matches,
/// else its descendants for a group.
pub open spec fn find_in_node(n: NodeView, id: u128) -> Option<NodeView>
    decreases n,
{
    if spec_node_id(n) == id {
        Some(n)
    } else {
        match n {
            NodeView::Group { children, .. } => find_in_forest(children, id),
            NodeView::Session(_) => None,
        }
    }
}

/// DFS lookup in a forest: each node and its descendants, left to right;
/// the first match wins.
pub open spec fn find_in_forest(s: Seq<NodeView>, id: u128) -> Option<NodeView>
    decreases s,
{
    if s.len() == 0 {
        None
    } else {
        match find_in_node(s[0], id) {
            Some(x) => Some(x),
            None => find_in_forest(s.drop_first(), id),
        }
    }
}

/// Whether the identifier occurs anywhere in the forest.
pub open spec fn forest_contains(s: Seq<NodeView>, id: u128) -> bool {
    find_in_forest(s, id) is Some
}

/// Whether `ancestor_id` names a group whose descendants contain `node_id`.
pub open spec fn spec_is_ancestor(s: Seq<NodeView>, ancestor_id: u128, node_id: u128) -> bool {
    match find_in_forest(s, ancestor_id) {
        Some(NodeView::Group { children, .. }) => forest_contains(children, node_id),
        _ => false,
    }
}

/// Index of the first node with the identifier at this level only, or -1.
pub open spec fn level_index_of(s: Seq<NodeView>, id: u128) -> int
    decreases s.len(),
{
    if s.len() == 0 {
        -1
    } else if spec_node_id(s[0]) == id {
        0
    } else {
        let r = level_index_of(s.drop_first(), id);
        if r < 0 {
            -1
        } else {
            r + 1
        }
    }
}

/// The level index is a valid index of a node with the identifier, and -1
/// exactly when no node of the level carries it.
pub proof fn lemma_level_index_of(s: Seq<NodeView>, id: u128)
    ensures
        level_index_of(s, id) >= 0 ==> level_index_of(s, id) < s.len() && spec_node_id(
            s[level_index_of(s, id)],
        ) == id,
        level_index_of(s, id) < 0 ==> forall|i: int|
            0 <= i < s.len() ==> spec_node_id(s[i]) != id,
    decreases s.len(),
{
    if s.len() > 0 {
        lemma_level_index_of(s.drop_first(), id);
        if spec_node_id(s[0]) != id {
            let r = level_index_of(s.drop_first(), id);
            if r >= 0 {
                assert(s[r + 1] == s.drop_first()[r]);
            } else {
                assert forall|i: int| 0 <= i < s.len() implies spec_node_id(s[i]) != id by {
                    if i > 0 {
                        assert(s[i] == s.drop_first()[i - 1]);
                    }
                }
            }
        }
    }
}

/// Location search below the top level: for each group, in order, first its
/// immediate children, then their descendants.
pub open spec fn spec_location_rec(s: Seq<NodeView>, id: u128) -> Option<(Option<u128>, int)>
    decreases s,
{
    if s.len() == 0 {
        None
    } else {
        match s[0] {
            NodeView::Group { id: gid, children, .. } => {
                if level_index_of(children, id) >= 0 {
                    Some((Some(gid), level_index_of(children, id)))
                } else {
                    match spec_location_rec(children, id) {
                        Some(l) => Some(l),
                        None => spec_location_rec(s.drop_first(), id),
                    }
                }
            },
            NodeView::Session(_) => spec_location_rec(s.drop_first(), id),
        }
    }
}

/// Location of a node: its parent group (or `None` at the root) and its
/// index among that parent's children.
pub open spec fn spec_find_location(s: Seq<NodeView>, id: u128) -> Option<(Option<u128>, int)> {
    if level_index_of(s, id) >= 0 {
        Some((None, level_index_of(s, id)))
    } else {
        spec_location_rec(s, id)
    }
}

/// DFS lookup of a node reference by identifier, from position `i` on.
fn find_node_from<'a>(nodes: &'a Vec<SessionNode>, i: usize, id: u128) -> (r: Option<
    &'a SessionNode,
>)
    requires
        i <= nodes@.len(),
    ensures
        (match r {
            Some(n) => find_in_forest(view_forest(nodes@).skip(i as int), id) == Some(n@),
            None => find_in_forest(view_forest(nodes@).skip(i as int), id) is None,
        }),
    decreases forest_height(nodes@), nodes@.len() - i,
{
    proof {
        lemma_view_forest(nodes@);
    }
    if i == nodes.len() {
        proof {
            assert(view_forest(nodes@).skip(i as int) =~= Seq::<NodeView>::empty());
        }
        return None;
    }
    proof {
        assert(view_forest(nodes@).skip(i as int)[0] == view_node(nodes@[i as int]));
        assert(view_forest(nodes@).skip(i as int).drop_first() =~= view_forest(nodes@).skip(
            i + 1 as int,
        ));
    }
    let n = &nodes[i];
    proof {
        assert(*n == nodes@[i as int]);
        assert(n@ == view_forest(nodes@).skip(i as int)[0]);
        assert(view_forest(nodes@).skip(i as int).len() > 0);
    }
    if n.id() == id {
        proof {
            assert(find_in_node(n@, id) == Some(n@));
            assert(find_in_forest(view_forest(nodes@).skip(i as int), id) == Some(n@));
        }
        return Some(n);
    }
    match n {
        SessionNode::Group(g) => {
            proof {
                lemma_forest_height_elem(nodes@, i as int);
                assert(*n == SessionNode::Group(*g));
                assert(n@ matches NodeView::Group { children, .. } && children == view_forest(
                    g.children@,
                ));
            }
            let found = find_node_in_forest(&g.children, id);
            if found.is_some() {
                proof {
                    assert(found matches Some(x) ==> find_in_forest(
                        view_forest(nodes@).skip(i as int),
                        id,
                    ) == Some(x@));
                }
                return found;
            }
        },
        SessionNode::Session(_) => {},
    }
    let r = find_node_from(nodes, i + 1, id);
    proof {
        assert(find_in_node(n@, id) is None);
    }
    r
}

/// DFS lookup of a node reference by identifier.
fn find_node_in_forest<'a>(nodes: &'a Vec<SessionNode>, id: u128) -> (r: Option<&'a SessionNode>)
    ensures
        (match r {
            Some(n) => find_in_forest(view_forest(nodes@), id) == Some(n@),
            None => find_in_forest(view_forest(nodes@), id) is None,
        }),
    decreases forest_height(nodes@), nodes@.len() + 1,
{
    let r = find_node_from(nodes, 0, id);
    proof {
        assert(view_forest(nodes@).skip(0) =~= view_forest(nodes@));
    }
    r
}

/// If every identifier before `i` differs and the one at `i` matches, the
/// level index is `i`.
pub proof fn lemma_level_index_found(s: Seq<NodeView>, id: u128, i: int)
    requires
        0 <= i < s.len(),
        spec_node_id(s[i]) == id,
        forall|k: int| 0 <= k < i ==> spec_node_id(s[k]) != id,
    ensures
        level_index_of(s, id) == i,
    decreases i,
{
    if i > 0 {
        assert forall|k: int| 0 <= k < i - 1 implies spec_node_id(s.drop_first()[k]) != id by {
            assert(s.drop_first()[k] == s[k + 1]);
        }
        assert(s.drop_first()[i - 1] == s[i]);
        lemma_level_index_found(s.drop_first(), id, i - 1);
    }
}

/// If no identifier of the level matches, the level index is -1.
pub proof fn lemma_level_index_missing(s: Seq<NodeView>, id: u128)
    requires
        forall|k: int| 0 <= k < s.len() ==> spec_node_id(s[k]) != id,
    ensures
        level_index_of(s, id) == -1,
{
    lemma_level_index_of(s, id);
    if level_index_of(s, id) >= 0 {
        assert(spec_node_id(s[level_index_of(s, id)]) == id);
    }
}

/// Index of the identifier at this level only.
fn level_scan(nodes: &Vec<SessionNode>, id: u128) -> (r: Option<usize>)
    ensures
        (match r {
            Some(j) => j < nodes@.len() && level_index_of(view_forest(nodes@), id) == j as int,
            None => level_index_of(view_forest(nodes@), id) == -1,
        }),
{
    proof {
        lemma_view_forest(nodes@);
    }
    let mut i: usize = 0;
    while i < nodes.len()
        invariant
            i <= nodes@.len(),
            view_forest(nodes@).len() == nodes@.len(),
            forall|k: int|
                0 <= k < nodes@.len() ==> view_forest(nodes@)[k] == view_node(nodes@[k]),
            forall|k: int| 0 <= k < i ==> spec_node_id(view_forest(nodes@)[k]) != id,
        decreases nodes@.len() - i,
    {
        if nodes[i].id() == id {
            proof {
                lemma_level_index_found(view_forest(nodes@), id, i as int);
            }
            return Some(i);
        }
        i = i + 1;
    }
    proof {
        lemma_level_index_missing(view_forest(nodes@), id);
    }
    None
}

/// Location search below the top level, from position `i` on.
fn location_rec_from(nodes: &Vec<SessionNode>, i: usize, id: u128) -> (r: Option<
    (Option<u128>, usize),
>)
    requires
        i <= nodes@.len(),
    ensures
        (match r {
            Some((p, j)) => spec_location_rec(view_forest(nodes@).skip(i as int), id) == Some(
                (p, j as int),
            ),
            None => spec_location_rec(view_forest(nodes@).skip(i as int), id) is None,
        }),
    decreases forest_height(nodes@), nodes@.len() - i,
{
    proof {
        lemma_view_forest(nodes@);
    }
    if i == nodes.len() {
        proof {
            assert(view_forest(nodes@).skip(i as int) =~= Seq::<NodeView>::empty());
        }
        return None;
    }
    proof {
        assert(view_forest(nodes@).skip(i as int)[0] == view_node(nodes@[i as int]));
        assert(view_forest(nodes@).skip(i as int).drop_first() =~= view_forest(nodes@).skip(
            i + 1 as int,
        ));
    }
    let n = &nodes[i];
    proof {
        assert(*n == nodes@[i as int]);
    }
    match n {
        SessionNode::Group(g) => {
            proof {
                lemma_forest_height_elem(nodes@, i as int);
                assert(*n == SessionNode::Group(*g));
                assert(n@ matches NodeView::Group { children, .. } && children == view_forest(
                    g.children@,
                ));
            }
            if let Some(j) = level_scan(&g.children, id) {
                return Some((Some(g.id), j));
            }
            let below = location_rec_from(&g.children, 0, id);
            proof {
                assert(view_forest(g.children@).skip(0) =~= view_forest(g.children@));
            }
            if below.is_some() {
                return below;
            }
        },
        SessionNode::Session(_) => {},
    }
    location_rec_from(nodes, i + 1, id)
}

/// Abstraction commutes with push.
pub proof fn lemma_view_forest_push(s: Seq<SessionNode>, n: SessionNode)
    ensures
        view_forest(s.push(n)) =~= view_forest(s).push(view_node(n)),
{
    lemma_view_forest(s);
    lemma_view_forest(s.push(n));
}

/// Abstraction commutes with removal.
pub proof fn lemma_view_forest_remove(s: Seq<SessionNode>, i: int)
    requires
        0 <= i < s.len(),
    ensures
        view_forest(s.remove(i)) =~= view_forest(s).remove(i),
{
    lemma_view_forest(s);
    lemma_view_forest(s.remove(i));
}

/// Abstraction commutes with insertion.
pub proof fn lemma_view_forest_insert(s: Seq<SessionNode>, i: int, n: SessionNode)
    requires
        0 <= i <= s.len(),
    ensures
        view_forest(s.insert(i, n)) =~= view_forest(s).insert(i, view_node(n)),
{
    lemma_view_forest(s);
    lemma_view_forest(s.insert(i, n));
}

/// Dropping the first node cannot raise the height.
pub proof fn lemma_forest_height_drop(s: Seq<SessionNode>)
    requires
        s.len() > 0,
    ensures
        forest_height(s.drop_first()) <= forest_height(s),
{
}

/// Removal: the node at the level index when there is one; otherwise each
/// group's descendants, left to right, until one yields the node.
pub open spec fn spec_remove_forest(s: Seq<NodeView>, id: u128) -> (Seq<NodeView>, Option<NodeView>)
    decreases s, 1int,
{
    let li = level_index_of(s, id);
    if li >= 0 {
        (s.remove(li), Some(s[li]))
    } else {
        spec_remove_rec(s, id)
    }
}

/// Removal below the current level: rebuild each node in order; the first
/// subtree that yields the node stops the search.
pub open spec fn spec_remove_rec(s: Seq<NodeView>, id: u128) -> (Seq<NodeView>, Option<NodeView>)
    decreases s, 0int,
{
    if s.len() == 0 {
        (s, None)
    } else {
        match s[0] {
            NodeView::Group { id: gid, name, expanded, children } => {
                let (ch2, r) = spec_remove_forest(children, id);
                let rebuilt = NodeView::Group { id: gid, name, expanded, children: ch2 };
                if r is Some {
                    (seq![rebuilt] + s.drop_first(), r)
                } else {
                    let (rest, r2) = spec_remove_rec(s.drop_first(), id);
                    (seq![rebuilt] + rest, r2)
                }
            },
            NodeView::Session(_) => {
                let (rest, r2) = spec_remove_rec(s.drop_first(), id);
                (seq![s[0]] + rest, r2)
            },
        }
    }
}

/// Remove the first node carrying the identifier, searching the whole
/// current level first and then each subtree in order.
fn remove_in_forest(nodes: Vec<SessionNode>, id: u128) -> (r: (Vec<SessionNode>, Option<
    SessionNode,
>))
    ensures
        ({
            let (sv, rv) = spec_remove_forest(view_forest(nodes@), id);
            &&& view_forest(r.0@) == sv
            &&& (match r.1 {
                Some(n) => rv == Some(n@),
                None => rv is None,
            })
        }),
    decreases forest_height(nodes@), nodes@.len(), 1int,
{
    let ghost v0 = view_forest(nodes@);
    proof {
        lemma_view_forest(nodes@);
    }
    let scan = level_scan(&nodes, id);
    match scan {
        Some(p) => {
            let mut nodes = nodes;
            let ghost whole = nodes@;
            let n = nodes.remove(p);
            proof {
                lemma_view_forest_remove(whole, p as int);
                assert(v0[p as int] == view_node(n));
            }
            (nodes, Some(n))
        },
        None => remove_rec(nodes, id),
    }
}

/// Removal below the current level, rebuilding each node in order.
fn remove_rec(nodes: Vec<SessionNode>, id: u128) -> (r: (Vec<SessionNode>, Option<SessionNode>))
    ensures
        ({
            let (sv, rv) = spec_remove_rec(view_forest(nodes@), id);
            &&& view_forest(r.0@) == sv
            &&& (match r.1 {
                Some(n) => rv == Some(n@),
                None => rv is None,
            })
        }),
    decreases forest_height(nodes@), nodes@.len(), 0int,
{
    let ghost v0 = view_forest(nodes@);
    proof {
        lemma_view_forest(nodes@);
    }
    if nodes.len() == 0 {
        proof {
            assert(v0 =~= Seq::<NodeView>::empty());
        }
        return (nodes, None);
    }
    let mut nodes = nodes;
    let ghost whole = nodes@;
    let first = nodes.remove(0);
    let ghost rest0 = nodes@;
    proof {
        assert(rest0 =~= whole.drop_first());
        assert(view_forest(rest0) =~= v0.drop_first()) by {
            lemma_view_forest(whole);
            lemma_view_forest(rest0);
        }
        assert(v0[0] == view_node(first));
        lemma_forest_height_drop(whole);
        lemma_forest_height_elem(whole, 0);
    }
    match first {
        SessionNode::Group(mut g) => {
            let mut ch: Vec<SessionNode> = Vec::new();
            core::mem::swap(&mut ch, &mut g.children);
            let (ch2, r) = remove_in_forest(ch, id);
            g.children = ch2;
            let rebuilt = SessionNode::Group(g);
            if r.is_some() {
                let mut out = nodes;
                out.insert(0, rebuilt);
                proof {
                    lemma_view_forest_insert(rest0, 0, rebuilt);
                    assert(view_forest(out@) =~= seq![view_node(rebuilt)] + view_forest(rest0));
                }
                (out, r)
            } else {
                let (out_tail, r2) = remove_rec(nodes, id);
                let ghost tailv = out_tail@;
                let mut out = out_tail;
                out.insert(0, rebuilt);
                proof {
                    lemma_view_forest_insert(tailv, 0, rebuilt);
                    assert(view_forest(out@) =~= seq![view_node(rebuilt)] + view_forest(tailv));
                }
                (out, r2)
            }
        },
        other => {
            let (out_tail, r2) = remove_rec(nodes, id);
            let ghost tailv = out_tail@;
            let mut out = out_tail;
            out.insert(0, other);
            proof {
                lemma_view_forest_insert(tailv, 0, other);
                assert(view_forest(out@) =~= seq![view_node(other)] + view_forest(tailv));
            }
            (out, r2)
        },
    }
}

/// Appending under a parent, one node: a node carrying the parent identifier
/// ends the search, and when it is a group the new node is appended to its
/// children; any other carrier leaves the tree unchanged.
pub open spec fn spec_add_node(n: NodeView, pid: u128, node: NodeView) -> (NodeView, bool)
    decreases n, 1int,
{
    if spec_node_id(n) == pid {
        match n {
            NodeView::Group { id, name, expanded, children } => (
                NodeView::Group { id, name, expanded, children: children.push(node) },
                true,
            ),
            NodeView::Session(_) => (n, true),
        }
    } else {
        match n {
            NodeView::Group { id, name, expanded, children } => {
                let (ch2, f) = spec_add_forest(children, pid, node);
                (NodeView::Group { id, name, expanded, children: ch2 }, f)
            },
            NodeView::Session(_) => (n, false),
        }
    }
}

/// Appending under a parent, left to right; the first carrier of the parent
/// identifier ends the search.
pub open spec fn spec_add_forest(s: Seq<NodeView>, pid: u128, node: NodeView) -> (Seq<NodeView>, bool)
    decreases s, 0int,
{
    if s.len() == 0 {
        (s, false)
    } else {
        let (n2, f) = spec_add_node(s[0], pid, node);
        if f {
            (seq![n2] + s.drop_first(), true)
        } else {
            let (rest, f2) = spec_add_forest(s.drop_first(), pid, node);
            (seq![n2] + rest, f2)
        }
    }
}

/// Append under a parent inside one node; the node comes back when no
/// carrier of the parent identifier was found.
fn add_node_rec(n: SessionNode, pid: u128, node: SessionNode) -> (r: (SessionNode, Option<
    SessionNode,
>))
    ensures
        ({
            let (nv, f) = spec_add_node(view_node(n), pid, view_node(node));
            &&& view_node(r.0) == nv
            &&& (if f {
                r.1 is None
            } else {
                r.1 == Some(node)
            })
        }),
    decreases node_height(n), 0int, 1int,
{
    let matches_pid = n.id() == pid;
    if matches_pid {
        match n {
            SessionNode::Group(mut g) => {
                let ghost ch0 = g.children@;
                g.children.push(node);
                proof {
                    lemma_view_forest_push(ch0, node);
                }
                (SessionNode::Group(g), None)
            },
            s => (s, None),
        }
    } else {
        match n {
            SessionNode::Group(mut g) => {
                proof {
                    assert(node_height(n) == 1 + forest_height(g.children@));
                }
                let mut ch: Vec<SessionNode> = Vec::new();
                core::mem::swap(&mut ch, &mut g.children);
                let (ch2, back) = add_forest_rec(ch, pid, node);
                g.children = ch2;
                (SessionNode::Group(g), back)
            },
            s => (s, Some(node)),
        }
    }
}

/// Append under a parent in a forest, left to right; the node comes back
/// when no carrier of the parent identifier was found.
fn add_forest_rec(nodes: Vec<SessionNode>, pid: u128, node: SessionNode) -> (r: (Vec<SessionNode>,
    Option<SessionNode>,
))
    ensures
        ({
            let (sv, f) = spec_add_forest(view_forest(nodes@), pid, view_node(node));
            &&& view_forest(r.0@) == sv
            &&& (if f {
                r.1 is None
            } else {
                r.1 == Some(node)
            })
        }),
    decreases forest_height(nodes@), nodes@.len(), 0int,
{
    let ghost v0 = view_forest(nodes@);
    proof {
        lemma_view_forest(nodes@);
    }
    if nodes.len() == 0 {
        proof {
            assert(v0 =~= Seq::<NodeView>::empty());
        }
        return (nodes, Some(node));
    }
    let mut nodes = nodes;
    let ghost whole = nodes@;
    let first = nodes.remove(0);
    let ghost rest0 = nodes@;
    proof {
        assert(rest0 =~= whole.drop_first());
        assert(view_forest(rest0) =~= v0.drop_first()) by {
            lemma_view_forest(whole);
            lemma_view_forest(rest0);
        }
        assert(v0[0] == view_node(first));
        lemma_forest_height_drop(whole);
        lemma_forest_height_elem(whole, 0);
    }
    let (n2, back) = add_node_rec(first, pid, node);
    match back {
        None => {
            let mut out = nodes;
            out.insert(0, n2);
            proof {
                lemma_view_forest_insert(rest0, 0, n2);
                assert(view_forest(out@) =~= seq![view_node(n2)] + view_forest(rest0));
            }
            (out, None)
        },
        Some(node) => {
            let (out_tail, back2) = add_forest_rec(nodes, pid, node);
            let ghost tailv = out_tail@;
            let mut out = out_tail;
            out.insert(0, n2);
            proof {
                lemma_view_forest_insert(tailv, 0, n2);
                assert(view_forest(out@) =~= seq![view_node(n2)] + view_forest(tailv));
            }
            (out, back2)
        },
    }
}

/// Insertion at an index under a parent group, one node: the first group
/// carrying the parent identifier takes the new node at the index, clamped
/// to its child count.
pub open spec fn spec_insert_node(n: NodeView, pid: u128, node: NodeView, idx: int) -> (
    NodeView,
    bool,
)
    decreases n, 1int,
{
    match n {
        NodeView::Group { id, name, expanded, children } => {
            if id == pid {
                let at = if idx <= children.len() {
                    idx
                } else {
                    children.len() as int
                };
                (NodeView::Group { id, name, expanded, children: children.insert(at, node) }, true)
            } else {
                let (ch2, f) = spec_insert_forest(children, pid, node, idx);
                (NodeView::Group { id, name, expanded, children: ch2 }, f)
            }
        },
        NodeView::Session(_) => (n, false),
    }
}

/// Insertion at an index under a parent group, left to right.
pub open spec fn spec_insert_forest(s: Seq<NodeView>, pid: u128, node: NodeView, idx: int) -> (
    Seq<NodeView>,
    bool,
)
    decreases s, 0int,
{
    if s.len() == 0 {
        (s, false)
    } else {
        let (n2, f) = spec_insert_node(s[0], pid, node, idx);
        if f {
            (seq![n2] + s.drop_first(), true)
        } else {
            let (rest, f2) = spec_insert_forest(s.drop_first(), pid, node, idx);
            (seq![n2] + rest, f2)
        }
    }
}

/// Insert at an index under a parent group inside one node.
fn insert_node_rec(n: SessionNode, pid: u128, node: SessionNode, idx: usize) -> (r: (
    SessionNode,
    Option<SessionNode>,
))
    ensures
        ({
            let (nv, f) = spec_insert_node(view_node(n), pid, view_node(node), idx as int);
            &&& view_node(r.0) == nv
            &&& (if f {
                r.1 is None
            } else {
                r.1 == Some(node)
            })
        }),
    decreases node_height(n), 0int, 1int,
{
    match n {
        SessionNode::Group(mut g) => {
            proof {
                assert(node_height(n) == 1 + forest_height(g.children@));
            }
            if g.id == pid {
                let at = if idx <= g.children.len() {
                    idx
                } else {
                    g.children.len()
                };
                let ghost ch0 = g.children@;
                g.children.insert(at, node);
                proof {
                    lemma_view_forest_insert(ch0, at as int, node);
                    lemma_view_forest(ch0);
                }
                (SessionNode::Group(g), None)
            } else {
                let mut ch: Vec<SessionNode> = Vec::new();
                core::mem::swap(&mut ch, &mut g.children);
                let (ch2, back) = insert_forest_rec(ch, pid, node, idx);
                g.children = ch2;
                (SessionNode::Group(g), back)
            }
        },
        s => (s, Some(node)),
    }
}

/// Insert at an index under a parent group in a forest, left to right.
fn insert_forest_rec(nodes: Vec<SessionNode>, pid: u128, node: SessionNode, idx: usize) -> (r: (
    Vec<SessionNode>,
    Option<SessionNode>,
))
    ensures
        ({
            let (sv, f) = spec_insert_forest(view_forest(nodes@), pid, view_node(node), idx as int);
            &&& view_forest(r.0@) == sv
            &&& (if f {
                r.1 is None
            } else {
                r.1 == Some(node)
            })
        }),
    decreases forest_height(nodes@), nodes@.len(), 0int,
{
    let ghost v0 = view_forest(nodes@);
    proof {
        lemma_view_forest(nodes@);
    }
    if nodes.len() == 0 {
        proof {
            assert(v0 =~= Seq::<NodeView>::empty());
        }
        return (nodes, Some(node));
    }
    let mut nodes = nodes;
    let ghost whole = nodes@;
    let first = nodes.remove(0);
    let ghost rest0 = nodes@;
    proof {
        assert(rest0 =~= whole.drop_first());
        assert(view_forest(rest0) =~= v0.drop_first()) by {
            lemma_view_forest(whole);
            lemma_view_forest(rest0);
        }
        assert(v0[0] == view_node(first));
        lemma_forest_height_drop(whole);
        lemma_forest_height_elem(whole, 0);
    }
    let (n2, back) = insert_node_rec(first, pid, node, idx);
    match back {
        None => {
            let mut out = nodes;
            out.insert(0, n2);
            proof {
                lemma_view_forest_insert(rest0, 0, n2);
                assert(view_forest(out@) =~= seq![view_node(n2)] + view_forest(rest0));
            }
            (out, None)
        },
        Some(node) => {
            let (out_tail, back2) = insert_forest_rec(nodes, pid, node, idx);
            let ghost tailv = out_tail@;
            let mut out = out_tail;
            out.insert(0, n2);
            proof {
                lemma_view_forest_insert(tailv, 0, n2);
                assert(view_forest(out@) =~= seq![view_node(n2)] + view_forest(tailv));
            }
            (out, back2)
        },
    }
}

/// The session store: a version, the ordered root forest, and the
/// credential presets.
pub struct SessionStore {
    pub version: u32,
    pub root: Vec<SessionNode>,
    pub credential_presets: Vec<CredentialPreset>,
}

/// Abstract value of the session store.
pub ghost struct StoreView {
    pub version: u32,
    pub root: Seq<NodeView>,
    pub credential_presets: Seq<PresetView>,
}

impl View for SessionStore {
    type V = StoreView;

    open spec fn view(&self) -> StoreView {
        StoreView {
            version: self.version,
            root: view_forest(self.root@),
            credential_presets: self.credential_presets@.map_values(|p: CredentialPreset| p@),
        }
    }
}

/// The version written by this store.
pub const CURRENT_VERSION: u32 = 1;

/// Events emitted toward subscribers after a mutation of the store.
#[derive(Clone, Copy, Debug, PartialEq, Eq, Structural)]
pub enum SessionStoreEvent {
    Changed,
    SessionAdded(u128),
    SessionRemoved(u128),
    CredentialPresetChanged,
}

impl SessionStore {
    /// An empty store at the current version.
    pub fn new() -> (r: Self)
        ensures
            r@.version == CURRENT_VERSION,
            r@.root.len() == 0,
            r@.credential_presets.len() == 0,
    {
        let r = Self { version: CURRENT_VERSION, root: Vec::new(), credential_presets: Vec::new() };
        proof {
            assert(view_forest(r.root@) =~= Seq::<NodeView>::empty());
        }
        r
    }

    /// DFS search of the tree; the first node carrying the identifier.
    pub fn find_node(&self, id: u128) -> (r: Option<&SessionNode>)
        ensures
            (match r {
                Some(n) => find_in_forest(self@.root, id) == Some(n@),
                None => find_in_forest(self@.root, id) is None,
            }),
    {
        find_node_in_forest(&self.root, id)
    }

    /// Whether `ancestor_id` names a group whose descendants (directly or
    /// nested) contain `node_id`.
    pub fn is_ancestor_of(&self, ancestor_id: u128, node_id: u128) -> (r: bool)
        ensures
            r == spec_is_ancestor(self@.root, ancestor_id, node_id),
    {
        match find_node_in_forest(&self.root, ancestor_id) {
            Some(SessionNode::Group(g)) => find_node_in_forest(&g.children, node_id).is_some(),
            _ => false,
        }
    }

    /// The parent (or `None` at the root) and index of a node; `None` when
    /// the node is not in the tree.
    pub fn find_node_location(&self, id: u128) -> (r: Option<(Option<u128>, usize)>)
        ensures
            (match r {
                Some((p, j)) => spec_find_location(self@.root, id) == Some((p, j as int)),
                None => spec_find_location(self@.root, id) is None,
            }),
    {
        if let Some(j) = level_scan(&self.root, id) {
            return Some((None, j));
        }
        let r = location_rec_from(&self.root, 0, id);
        proof {
            assert(view_forest(self.root@).skip(0) =~= view_forest(self.root@));
        }
        r
    }

    /// Add a node: append to the root when `parent_id` is `None`, else to
    /// the children of the first node carrying `parent_id` when that node is
    /// a group.  Without such a group the tree is unchanged and the node is
    /// dropped.
    pub fn add_node(&mut self, node: SessionNode, parent_id: Option<u128>)
        ensures
            final(self)@.version == old(self)@.version,
            final(self)@.credential_presets == old(self)@.credential_presets,
            (match parent_id {
                None => final(self)@.root == old(self)@.root.push(node@),
                Some(pid) => final(self)@.root == spec_add_forest(
                    old(self)@.root,
                    pid,
                    node@,
                ).0,
            }),
    {
        match parent_id {
            None => {
                let ghost pre = self.root@;
                self.root.push(node);
                proof {
                    lemma_view_forest_push(pre, node);
                }
            },
            Some(pid) => {
                let mut root: Vec<SessionNode> = Vec::new();
                core::mem::swap(&mut root, &mut self.root);
                let (root2, _leftover) = add_forest_rec(root, pid, node);
                self.root = root2;
            },
        }
    }

    /// Remove the first node carrying the identifier; true when one was
    /// removed.
    pub fn remove_node(&mut self, id: u128) -> (r: bool)
        ensures
            final(self)@.version == old(self)@.version,
            final(self)@.credential_presets == old(self)@.credential_presets,
            final(self)@.root == spec_remove_forest(old(self)@.root, id).0,
            r == (spec_remove_forest(old(self)@.root, id).1 is Some),
    {
        let mut root: Vec<SessionNode> = Vec::new();
        core::mem::swap(&mut root, &mut self.root);
        let (root2, removed) = remove_in_forest(root, id);
        self.root = root2;
        removed.is_some()
    }
}

/// All identifiers of a node's subtree, the node's own first.
pub open spec fn node_ids(n: NodeView) -> Seq<u128>
    decreases n, 1int,
{
    match n {
        NodeView::Group { id, children, .. } => seq![id] + forest_ids(children),
        NodeView::Session(s) => seq![s.id],
    }
}

/// All identifiers of a forest, in DFS order.
pub open spec fn forest_ids(s: Seq<NodeView>) -> Seq<u128>
    decreases s, 0int,
{
    if s.len() == 0 {
        Seq::empty()
    } else {
        node_ids(s[0]) + forest_ids(s.drop_first())
    }
}

/// Well-formedness of the tree: all identifiers are unique.
pub open spec fn wf_forest(s: Seq<NodeView>) -> bool {
    forest_ids(s).no_duplicates()
}

/// Structural membership: `m` is `n` itself or sits in `n`'s subtree.
pub open spec fn in_node(n: NodeView, m: NodeView) -> bool
    decreases n, 1int,
{
    n == m || (match n {
        NodeView::Group { children, .. } => in_forest(children, m),
        NodeView::Session(_) => false,
    })
}

/// Structural membership in a forest.
pub open spec fn in_forest(s: Seq<NodeView>, m: NodeView) -> bool
    decreases s, 0int,
{
    if s.len() == 0 {
        false
    } else {
        in_node(s[0], m) || in_forest(s.drop_first(), m)
    }
}

/// Size of a node's subtree, counting nodes.
pub open spec fn node_size(n: NodeView) -> nat
    decreases n, 1int,
{
    match n {
        NodeView::Group { children, .. } => 1 + forest_size(children),
        NodeView::Session(_) => 1,
    }
}

/// Size of a forest, counting nodes.
pub open spec fn forest_size(s: Seq<NodeView>) -> nat
    decreases s, 0int,
{
    if s.len() == 0 {
        0
    } else {
        node_size(s[0]) + forest_size(s.drop_first())
    }
}

/// A concatenation without duplicates splits into duplicate-free, disjoint
/// parts.
pub proof fn lemma_no_dup_split(a: Seq<u128>, b: Seq<u128>)
    requires
        (a + b).no_duplicates(),
    ensures
        a.no_duplicates(),
        b.no_duplicates(),
        forall|x: u128| a.contains(x) ==> !b.contains(x),
{
    assert forall|i: int, j: int|
        0 <= i < a.len() && 0 <= j < a.len() && i != j implies a[i] != a[j] by {
        assert((a + b)[i] == a[i]);
        assert((a + b)[j] == a[j]);
    }
    assert forall|i: int, j: int|
        0 <= i < b.len() && 0 <= j < b.len() && i != j implies b[i] != b[j] by {
        assert((a + b)[a.len() + i] == b[i]);
        assert((a + b)[a.len() + j] == b[j]);
    }
    assert forall|x: u128| a.contains(x) implies !b.contains(x) by {
        if a.contains(x) && b.contains(x) {
            let i = choose|i: int| 0 <= i < a.len() && a[i] == x;
            let j = choose|j: int| 0 <= j < b.len() && b[j] == x;
            assert((a + b)[i] == x);
            assert((a + b)[a.len() + j] == x);
        }
    }
}

/// A member's identifier occurs among the subtree's identifiers.
pub proof fn lemma_in_node_id(n: NodeView, m: NodeView)
    requires
        in_node(n, m),
    ensures
        node_ids(n).contains(spec_node_id(m)),
    decreases n, 1int,
{
    if n == m {
        assert(node_ids(n)[0] == spec_node_id(m));
    } else {
        match n {
            NodeView::Group { id, children, .. } => {
                lemma_in_forest_id(children, m);
                let k = choose|k: int|
                    0 <= k < forest_ids(children).len() && forest_ids(children)[k] == spec_node_id(
                        m,
                    );
                assert(node_ids(n)[1 + k] == spec_node_id(m));
            },
            NodeView::Session(_) => {},
        }
    }
}

/// A member's identifier occurs among the forest's identifiers.
pub proof fn lemma_in_forest_id(s: Seq<NodeView>, m: NodeView)
    requires
        in_forest(s, m),
    ensures
        forest_ids(s).contains(spec_node_id(m)),
    decreases s, 0int,
{
    if s.len() > 0 {
        if in_node(s[0], m) {
            lemma_in_node_id(s[0], m);
            let k = choose|k: int|
                0 <= k < node_ids(s[0]).len() && node_ids(s[0])[k] == spec_node_id(m);
            assert(forest_ids(s)[k] == spec_node_id(m));
        } else {
            lemma_in_forest_id(s.drop_first(), m);
            let k = choose|k: int|
                0 <= k < forest_ids(s.drop_first()).len() && forest_ids(s.drop_first())[k]
                    == spec_node_id(m);
            assert(forest_ids(s)[node_ids(s[0]).len() + k] == spec_node_id(m));
        }
    }
}

/// Membership is transitive through a member node.
pub proof fn lemma_in_node_trans(n0: NodeView, n: NodeView, m: NodeView)
    requires
        in_node(n0, n),
        in_node(n, m),
    ensures
        in_node(n0, m),
    decreases n0, 1int,
{
    if n0 == n {
    } else {
        match n0 {
            NodeView::Group { children, .. } => {
                lemma_in_forest_trans(children, n, m);
            },
            NodeView::Session(_) => {},
        }
    }
}

/// Membership is transitive through a member node of a forest.
pub proof fn lemma_in_forest_trans(s: Seq<NodeView>, n: NodeView, m: NodeView)
    requires
        in_forest(s, n),
        in_node(n, m),
    ensures
        in_forest(s, m),
    decreases s, 0int,
{
    if s.len() > 0 {
        if in_node(s[0], n) {
            lemma_in_node_trans(s[0], n, m);
        } else {
            lemma_in_forest_trans(s.drop_first(), n, m);
        }
    }
}

/// What `find` returns is a member and carries the identifier looked for.
pub proof fn lemma_find_in_node(n: NodeView, id: u128)
    requires
        find_in_node(n, id) is Some,
    ensures
        in_node(n, find_in_node(n, id)->0),
        spec_node_id(find_in_node(n, id)->0) == id,
    decreases n, 1int,
{
    if spec_node_id(n) == id {
    } else {
        match n {
            NodeView::Group { children, .. } => {
                lemma_find_in_forest(children, id);
            },
            NodeView::Session(_) => {},
        }
    }
}

/// What `find` returns is a member of the forest and carries the identifier.
pub proof fn lemma_find_in_forest(s: Seq<NodeView>, id: u128)
    requires
        find_in_forest(s, id) is Some,
    ensures
        in_forest(s, find_in_forest(s, id)->0),
        spec_node_id(find_in_forest(s, id)->0) == id,
    decreases s, 0int,
{
    if s.len() > 0 {
        if find_in_node(s[0], id) is Some {
            lemma_find_in_node(s[0], id);
        } else {
            lemma_find_in_forest(s.drop_first(), id);
        }
    }
}

/// A member's subtree is no larger than the tree it sits in.
pub proof fn lemma_in_node_size(n: NodeView, m: NodeView)
    requires
        in_node(n, m),
    ensures
        node_size(m) <= node_size(n),
    decreases n, 1int,
{
    if n == m {
    } else {
        match n {
            NodeView::Group { children, .. } => {
                lemma_in_forest_size(children, m);
            },
            NodeView::Session(_) => {},
        }
    }
}

/// A member's subtree is no larger than the forest it sits in.
pub proof fn lemma_in_forest_size(s: Seq<NodeView>, m: NodeView)
    requires
        in_forest(s, m),
    ensures
        node_size(m) <= forest_size(s),
    decreases s, 0int,
{
    if s.len() > 0 {
        if in_node(s[0], m) {
            lemma_in_node_size(s[0], m);
        } else {
            lemma_in_forest_size(s.drop_first(), m);
        }
    }
}

/// Under unique identifiers, two members of a node's subtree with the same
/// identifier are the same node.
pub proof fn lemma_unique_in_node(n: NodeView, a: NodeView, b: NodeView)
    requires
        node_ids(n).no_duplicates(),
        in_node(n, a),
        in_node(n, b),
        spec_node_id(a) == spec_node_id(b),
    ensures
        a == b,
    decreases n, 1int,
{
    match n {
        NodeView::Group { id, children, .. } => {
            lemma_no_dup_split(seq![id], forest_ids(children));
            if n == a && n == b {
            } else if n == a {
                lemma_in_forest_id(children, b);
                assert(seq![id][0] == id);
                assert(seq![id].contains(spec_node_id(a)));
            } else if n == b {
                lemma_in_forest_id(children, a);
                assert(seq![id][0] == id);
                assert(seq![id].contains(spec_node_id(b)));
            } else {
                lemma_unique_in_forest(children, a, b);
            }
        },
        NodeView::Session(_) => {},
    }
}

/// Under unique identifiers, two members of a forest with the same
/// identifier are the same node.
pub proof fn lemma_unique_in_forest(s: Seq<NodeView>, a: NodeView, b: NodeView)
    requires
        forest_ids(s).no_duplicates(),
        in_forest(s, a),
        in_forest(s, b),
        spec_node_id(a) == spec_node_id(b),
    ensures
        a == b,
    decreases s, 0int,
{
    if s.len() > 0 {
        lemma_no_dup_split(node_ids(s[0]), forest_ids(s.drop_first()));
        if in_node(s[0], a) && in_node(s[0], b) {
            lemma_unique_in_node(s[0], a, b);
        } else if in_node(s[0], a) && in_forest(s.drop_first(), b) {
            lemma_in_node_id(s[0], a);
            lemma_in_forest_id(s.drop_first(), b);
        } else if in_forest(s.drop_first(), a) && in_node(s[0], b) {
            lemma_in_node_id(s[0], b);
            lemma_in_forest_id(s.drop_first(), a);
        } else {
            lemma_unique_in_forest(s.drop_first(), a, b);
        }
    }
}

/// Cycle-freedom: in a well-formed tree no two distinct nodes are each
/// other's ancestors.
pub proof fn lemma_no_mutual_ancestry(s: Seq<NodeView>, x: u128, y: u128)
    requires
        wf_forest(s),
        x != y,
    ensures
        !(spec_is_ancestor(s, x, y) && spec_is_ancestor(s, y, x)),
{
    if spec_is_ancestor(s, x, y) && spec_is_ancestor(s, y, x) {
        let gx = find_in_forest(s, x)->0;
        let gy = find_in_forest(s, y)->0;
        lemma_find_in_forest(s, x);
        lemma_find_in_forest(s, y);
        let cx = gx->Group_children;
        let cy = gy->Group_children;
        let ny = find_in_forest(cx, y)->0;
        let nx = find_in_forest(cy, x)->0;
        lemma_find_in_forest(cx, y);
        lemma_find_in_forest(cy, x);
        // Lift the members of the children forests to members of `s`.
        assert(in_node(gx, ny));
        assert(in_node(gy, nx));
        lemma_in_forest_trans(s, gx, ny);
        lemma_in_forest_trans(s, gy, nx);
        // Under unique identifiers the found nodes coincide.
        lemma_unique_in_forest(s, gy, ny);
        lemma_unique_in_forest(s, gx, nx);
        // Each group now sits strictly inside the other: impossible by size.
        lemma_in_forest_size(cx, gy);
        lemma_in_forest_size(cy, gx);
        assert(node_size(gy) <= forest_size(cx));
        assert(node_size(gx) == 1 + forest_size(cx));
        assert(node_size(gx) <= forest_size(cy));
        assert(node_size(gy) == 1 + forest_size(cy));
    }
}

/// Identifiers of a concatenation: the two parts' identifiers in order.
pub proof fn lemma_forest_ids_concat(a: Seq<NodeView>, b: Seq<NodeView>)
    ensures
        forest_ids(a + b) == forest_ids(a) + forest_ids(b),
    decreases a.len(),
{
    if a.len() == 0 {
        assert(a + b =~= b);
        assert(forest_ids(a) =~= Seq::<u128>::empty());
        assert(forest_ids(a + b) =~= forest_ids(a) + forest_ids(b));
    } else {
        assert((a + b).drop_first() =~= a.drop_first() + b);
        lemma_forest_ids_concat(a.drop_first(), b);
        assert((a + b)[0] == a[0]);
        assert(forest_ids(a + b) =~= forest_ids(a) + forest_ids(b));
    }
}

/// Identifiers of a single node as a forest.
pub proof fn lemma_forest_ids_single(n: NodeView)
    ensures
        forest_ids(seq![n]) == node_ids(n),
{
    reveal_with_fuel(forest_ids, 2);
    assert(seq![n].drop_first() =~= Seq::<NodeView>::empty());
    assert(forest_ids(seq![n]) =~= node_ids(n));
}

/// Identifiers of a forest split at a position.
pub proof fn lemma_forest_ids_at(s: Seq<NodeView>, i: int)
    requires
        0 <= i < s.len(),
    ensures
        forest_ids(s) == forest_ids(s.take(i)) + node_ids(s[i]) + forest_ids(s.skip(i + 1)),
{
    assert(s =~= s.take(i) + (seq![s[i]] + s.skip(i + 1)));
    lemma_forest_ids_concat(s.take(i), seq![s[i]] + s.skip(i + 1));
    lemma_forest_ids_concat(seq![s[i]], s.skip(i + 1));
    lemma_forest_ids_single(s[i]);
}

/// Removal keeps the tree's identifiers: the remaining forest and the
/// removed subtree together carry exactly the identifiers of the original,
/// and a failed removal leaves the forest untouched.
pub proof fn lemma_remove_ids(s: Seq<NodeView>, id: u128)
    ensures
        ({
            let (s2, r) = spec_remove_forest(s, id);
            match r {
                Some(n) => forest_ids(s2).to_multiset().add(node_ids(n).to_multiset())
                    == forest_ids(s).to_multiset(),
                None => s2 == s,
            }
        }),
    decreases s, 1int,
{
    broadcast use vstd::seq_lib::lemma_multiset_commutative;

    let li = level_index_of(s, id);
    if li >= 0 {
        lemma_level_index_of(s, id);
        let n = s[li];
        lemma_forest_ids_at(s, li);
        assert(s.remove(li) =~= s.take(li) + s.skip(li + 1));
        lemma_forest_ids_concat(s.take(li), s.skip(li + 1));
        let a = forest_ids(s.take(li));
        let b = node_ids(n);
        let c = forest_ids(s.skip(li + 1));
        assert(forest_ids(s) =~= (a + b) + c);
        assert(forest_ids(s.remove(li)).to_multiset().add(b.to_multiset()) =~= forest_ids(
            s,
        ).to_multiset()) by {
            assert(((a + b) + c).to_multiset() =~= a.to_multiset().add(b.to_multiset()).add(
                c.to_multiset(),
            ));
            assert((a + c).to_multiset() =~= a.to_multiset().add(c.to_multiset()));
        }
    } else {
        lemma_remove_rec_ids(s, id);
    }
}

/// The same for the search below the current level.
pub proof fn lemma_remove_rec_ids(s: Seq<NodeView>, id: u128)
    ensures
        ({
            let (s2, r) = spec_remove_rec(s, id);
            match r {
                Some(n) => forest_ids(s2).to_multiset().add(node_ids(n).to_multiset())
                    == forest_ids(s).to_multiset(),
                None => s2 == s,
            }
        }),
    decreases s, 0int,
{
    broadcast use vstd::seq_lib::lemma_multiset_commutative;

    if s.len() == 0 {
    } else {
        match s[0] {
            NodeView::Group { id: gid, name, expanded, children } => {
                lemma_remove_ids(children, id);
                let (ch2, r) = spec_remove_forest(children, id);
                let rebuilt = NodeView::Group { id: gid, name, expanded, children: ch2 };
                if r is Some {
                    let n = r->0;
                    let s2 = seq![rebuilt] + s.drop_first();
                    lemma_forest_ids_concat(seq![rebuilt], s.drop_first());
                    lemma_forest_ids_single(rebuilt);
                    lemma_forest_ids_concat(seq![s[0]], s.drop_first());
                    lemma_forest_ids_single(s[0]);
                    assert(s =~= seq![s[0]] + s.drop_first());
                    assert(node_ids(rebuilt) =~= seq![gid] + forest_ids(ch2));
                    assert(node_ids(s[0]) =~= seq![gid] + forest_ids(children));
                    let rest = forest_ids(s.drop_first());
                    assert(forest_ids(s2).to_multiset().add(node_ids(n).to_multiset())
                        =~= forest_ids(s).to_multiset()) by {
                        assert(forest_ids(s2) =~= (seq![gid] + forest_ids(ch2)) + rest);
                        assert(forest_ids(s) =~= (seq![gid] + forest_ids(children)) + rest);
                        assert(forest_ids(ch2).to_multiset().add(node_ids(n).to_multiset())
                            =~= forest_ids(children).to_multiset());
                        assert(((seq![gid] + forest_ids(ch2)) + rest).to_multiset()
                            =~= seq![gid].to_multiset().add(forest_ids(ch2).to_multiset()).add(
                            rest.to_multiset(),
                        ));
                        assert(((seq![gid] + forest_ids(children)) + rest).to_multiset()
                            =~= seq![gid].to_multiset().add(
                            forest_ids(children).to_multiset(),
                        ).add(rest.to_multiset()));
                    }
                } else {
                    assert(ch2 == children);
                    assert(rebuilt == s[0]);
                    lemma_remove_rec_ids(s.drop_first(), id);
                    let (rest2, r2) = spec_remove_rec(s.drop_first(), id);
                    if r2 is Some {
                        let n = r2->0;
                        let s2 = seq![rebuilt] + rest2;
                        lemma_forest_ids_concat(seq![rebuilt], rest2);
                        lemma_forest_ids_single(rebuilt);
                        lemma_forest_ids_concat(seq![s[0]], s.drop_first());
                        lemma_forest_ids_single(s[0]);
                        assert(s =~= seq![s[0]] + s.drop_first());
                        assert(forest_ids(s2).to_multiset().add(node_ids(n).to_multiset())
                            =~= forest_ids(s).to_multiset()) by {
                            assert(forest_ids(s2) =~= node_ids(s[0]) + forest_ids(rest2));
                            assert(forest_ids(s) =~= node_ids(s[0]) + forest_ids(s.drop_first()));
                            assert(forest_ids(rest2).to_multiset().add(node_ids(n).to_multiset())
                                =~= forest_ids(s.drop_first()).to_multiset());
                            assert((node_ids(s[0]) + forest_ids(rest2)).to_multiset()
                                =~= node_ids(s[0]).to_multiset().add(
                                forest_ids(rest2).to_multiset(),
                            ));
                            assert((node_ids(s[0]) + forest_ids(s.drop_first())).to_multiset()
                                =~= node_ids(s[0]).to_multiset().add(
                                forest_ids(s.drop_first()).to_multiset(),
                            ));
                        }
                    } else {
                        assert(rest2 == s.drop_first());
                        assert(seq![rebuilt] + rest2 =~= s);
                    }
                }
            },
            NodeView::Session(_) => {
                lemma_remove_rec_ids(s.drop_first(), id);
                let (rest2, r2) = spec_remove_rec(s.drop_first(), id);
                if r2 is Some {
                    let n = r2->0;
                    let s2 = seq![s[0]] + rest2;
                    lemma_forest_ids_concat(seq![s[0]], rest2);
                    lemma_forest_ids_concat(seq![s[0]], s.drop_first());
                    lemma_forest_ids_single(s[0]);
                    assert(s =~= seq![s[0]] + s.drop_first());
                    assert(forest_ids(s2).to_multiset().add(node_ids(n).to_multiset())
                        =~= forest_ids(s).to_multiset()) by {
                        assert(forest_ids(s2) =~= node_ids(s[0]) + forest_ids(rest2));
                        assert(forest_ids(s) =~= node_ids(s[0]) + forest_ids(s.drop_first()));
                        assert(forest_ids(rest2).to_multiset().add(node_ids(n).to_multiset())
                            =~= forest_ids(s.drop_first()).to_multiset());
                        assert((node_ids(s[0]) + forest_ids(rest2)).to_multiset()
                            =~= node_ids(s[0]).to_multiset().add(forest_ids(rest2).to_multiset()));
                        assert((node_ids(s[0]) + forest_ids(s.drop_first())).to_multiset()
                            =~= node_ids(s[0]).to_multiset().add(
                            forest_ids(s.drop_first()).to_multiset(),
                        ));
                    }
                } else {
                    assert(rest2 == s.drop_first());
                    assert(seq![s[0]] + rest2 =~= s);
                }
            },
        }
    }
}

/// Insertion keeps the tree's identifiers: a forest that took the node
/// carries exactly the original identifiers plus the node's, and one that
/// did not is untouched.
pub proof fn lemma_insert_node_ids(n: NodeView, pid: u128, node: NodeView, idx: int)
    requires
        idx >= 0,
    ensures
        ({
            let (n2, f) = spec_insert_node(n, pid, node, idx);
            if f {
                node_ids(n2).to_multiset() == node_ids(n).to_multiset().add(
                    node_ids(node).to_multiset(),
                )
            } else {
                n2 == n
            }
        }),
    decreases n, 1int,
{
    broadcast use vstd::seq_lib::lemma_multiset_commutative;

    match n {
        NodeView::Group { id: gid, name, expanded, children } => {
            if gid == pid {
                let at = if idx <= children.len() {
                    idx
                } else {
                    children.len() as int
                };
                let ch2 = children.insert(at, node);
                assert(ch2 =~= children.take(at) + (seq![node] + children.skip(at)));
                lemma_forest_ids_concat(children.take(at), seq![node] + children.skip(at));
                lemma_forest_ids_concat(seq![node], children.skip(at));
                lemma_forest_ids_single(node);
                assert(children =~= children.take(at) + children.skip(at));
                lemma_forest_ids_concat(children.take(at), children.skip(at));
                let (n2, _) = spec_insert_node(n, pid, node, idx);
                assert(node_ids(n2) =~= seq![gid] + forest_ids(ch2));
                assert(node_ids(n) =~= seq![gid] + forest_ids(children));
                let a = forest_ids(children.take(at));
                let b = forest_ids(children.skip(at));
                let nn = node_ids(node);
                assert(node_ids(n2).to_multiset() =~= node_ids(n).to_multiset().add(
                    nn.to_multiset(),
                )) by {
                    assert(forest_ids(ch2) =~= a + (nn + b));
                    assert((seq![gid] + (a + (nn + b))).to_multiset() =~= seq![gid].to_multiset()
                        .add(a.to_multiset()).add(nn.to_multiset()).add(b.to_multiset()));
                    assert((seq![gid] + (a + b)).to_multiset() =~= seq![gid].to_multiset().add(
                        a.to_multiset(),
                    ).add(b.to_multiset()));
                    assert(node_ids(n) =~= seq![gid] + (a + b));
                }
            } else {
                lemma_insert_ids(children, pid, node, idx);
                let (ch2, f) = spec_insert_forest(children, pid, node, idx);
                let (n2, _) = spec_insert_node(n, pid, node, idx);
                if f {
                    assert(node_ids(n2) =~= seq![gid] + forest_ids(ch2));
                    assert(node_ids(n) =~= seq![gid] + forest_ids(children));
                    assert(node_ids(n2).to_multiset() =~= node_ids(n).to_multiset().add(
                        node_ids(node).to_multiset(),
                    )) by {
                        assert((seq![gid] + forest_ids(ch2)).to_multiset() =~= seq![gid]
                            .to_multiset().add(forest_ids(ch2).to_multiset()));
                        assert((seq![gid] + forest_ids(children)).to_multiset() =~= seq![gid]
                            .to_multiset().add(forest_ids(children).to_multiset()));
                    }
                } else {
                    assert(n2 == n);
                }
            }
        },
        NodeView::Session(_) => {},
    }
}

/// The same for a whole forest.
pub proof fn lemma_insert_ids(s: Seq<NodeView>, pid: u128, node: NodeView, idx: int)
    requires
        idx >= 0,
    ensures
        ({
            let (s2, f) = spec_insert_forest(s, pid, node, idx);
            if f {
                forest_ids(s2).to_multiset() == forest_ids(s).to_multiset().add(
                    node_ids(node).to_multiset(),
                )
            } else {
                s2 == s
            }
        }),
    decreases s, 0int,
{
    broadcast use vstd::seq_lib::lemma_multiset_commutative;

    if s.len() == 0 {
    } else {
        lemma_insert_node_ids(s[0], pid, node, idx);
        let (n2, f) = spec_insert_node(s[0], pid, node, idx);
        assert(s =~= seq![s[0]] + s.drop_first());
        lemma_forest_ids_concat(seq![s[0]], s.drop_first());
        lemma_forest_ids_single(s[0]);
        if f {
            let s2 = seq![n2] + s.drop_first();
            lemma_forest_ids_concat(seq![n2], s.drop_first());
            lemma_forest_ids_single(n2);
            assert(forest_ids(s2).to_multiset() =~= forest_ids(s).to_multiset().add(
                node_ids(node).to_multiset(),
            )) by {
                assert(forest_ids(s2) =~= node_ids(n2) + forest_ids(s.drop_first()));
                assert(forest_ids(s) =~= node_ids(s[0]) + forest_ids(s.drop_first()));
                assert((node_ids(n2) + forest_ids(s.drop_first())).to_multiset() =~= node_ids(
                    n2,
                ).to_multiset().add(forest_ids(s.drop_first()).to_multiset()));
                assert((node_ids(s[0]) + forest_ids(s.drop_first())).to_multiset() =~= node_ids(
                    s[0],
                ).to_multiset().add(forest_ids(s.drop_first()).to_multiset()));
            }
        } else {
            lemma_insert_ids(s.drop_first(), pid, node, idx);
            let (rest2, f2) = spec_insert_forest(s.drop_first(), pid, node, idx);
            if f2 {
                let s2 = seq![n2] + rest2;
                lemma_forest_ids_concat(seq![n2], rest2);
                lemma_forest_ids_single(n2);
                assert(forest_ids(s2).to_multiset() =~= forest_ids(s).to_multiset().add(
                    node_ids(node).to_multiset(),
                )) by {
                    assert(forest_ids(s2) =~= node_ids(s[0]) + forest_ids(rest2));
                    assert(forest_ids(s) =~= node_ids(s[0]) + forest_ids(s.drop_first()));
                    assert((node_ids(s[0]) + forest_ids(rest2)).to_multiset() =~= node_ids(
                        s[0],
                    ).to_multiset().add(forest_ids(rest2).to_multiset()));
                    assert((node_ids(s[0]) + forest_ids(s.drop_first())).to_multiset()
                        =~= node_ids(s[0]).to_multiset().add(
                        forest_ids(s.drop_first()).to_multiset(),
                    ));
                }
            } else {
                assert(seq![n2] + rest2 =~= s);
            }
        }
    }
}

/// Appending under a parent keeps the tree's identifiers: the new forest
/// carries the original identifiers, plus the node's when a group took it.
pub proof fn lemma_add_node_ids(n: NodeView, pid: u128, node: NodeView)
    ensures
        ({
            let (n2, f) = spec_add_node(n, pid, node);
            if f {
                node_ids(n2).to_multiset() == node_ids(n).to_multiset() || node_ids(
                    n2,
                ).to_multiset() == node_ids(n).to_multiset().add(node_ids(node).to_multiset())
            } else {
                n2 == n
            }
        }),
    decreases n, 1int,
{
    broadcast use vstd::seq_lib::lemma_multiset_commutative;

    let (n2, f) = spec_add_node(n, pid, node);
    if spec_node_id(n) == pid {
        match n {
            NodeView::Group { id: gid, name, expanded, children } => {
                let ch2 = children.push(node);
                assert(ch2 =~= children + seq![node]);
                lemma_forest_ids_concat(children, seq![node]);
                lemma_forest_ids_single(node);
                assert(node_ids(n2) =~= seq![gid] + forest_ids(ch2));
                assert(node_ids(n) =~= seq![gid] + forest_ids(children));
                assert(node_ids(n2).to_multiset() =~= node_ids(n).to_multiset().add(
                    node_ids(node).to_multiset(),
                )) by {
                    assert(forest_ids(ch2) =~= forest_ids(children) + node_ids(node));
                    assert((seq![gid] + (forest_ids(children) + node_ids(node))).to_multiset()
                        =~= seq![gid].to_multiset().add(forest_ids(children).to_multiset()).add(
                        node_ids(node).to_multiset(),
                    ));
                    assert((seq![gid] + forest_ids(children)).to_multiset() =~= seq![gid]
                        .to_multiset().add(forest_ids(children).to_multiset()));
                }
            },
            NodeView::Session(_) => {},
        }
    } else {
        match n {
            NodeView::Group { id: gid, name, expanded, children } => {
                lemma_add_forest_ids(children, pid, node);
                let (ch2, f2) = spec_add_forest(children, pid, node);
                if f2 {
                    assert(node_ids(n2) =~= seq![gid] + forest_ids(ch2));
                    assert(node_ids(n) =~= seq![gid] + forest_ids(children));
                    assert((seq![gid] + forest_ids(ch2)).to_multiset() =~= seq![gid].to_multiset()
                        .add(forest_ids(ch2).to_multiset()));
                    assert((seq![gid] + forest_ids(children)).to_multiset() =~= seq![gid]
                        .to_multiset().add(forest_ids(children).to_multiset()));
                } else {
                    assert(ch2 == children);
                    assert(n2 == n);
                }
            },
            NodeView::Session(_) => {},
        }
    }
}

/// The same for a whole forest.
pub proof fn lemma_add_forest_ids(s: Seq<NodeView>, pid: u128, node: NodeView)
    ensures
        ({
            let (s2, f) = spec_add_forest(s, pid, node);
            if f {
                forest_ids(s2).to_multiset() == forest_ids(s).to_multiset() || forest_ids(
                    s2,
                ).to_multiset() == forest_ids(s).to_multiset().add(node_ids(node).to_multiset())
            } else {
                s2 == s
            }
        }),
    decreases s, 0int,
{
    broadcast use vstd::seq_lib::lemma_multiset_commutative;

    if s.len() == 0 {
    } else {
        lemma_add_node_ids(s[0], pid, node);
        let (n2, f) = spec_add_node(s[0], pid, node);
        assert(s =~= seq![s[0]] + s.drop_first());
        lemma_forest_ids_concat(seq![s[0]], s.drop_first());
        lemma_forest_ids_single(s[0]);
        lemma_forest_ids_single(n2);
        if f {
            lemma_forest_ids_concat(seq![n2], s.drop_first());
            assert(forest_ids(seq![n2] + s.drop_first()) =~= node_ids(n2) + forest_ids(
                s.drop_first(),
            ));
            assert((node_ids(n2) + forest_ids(s.drop_first())).to_multiset() =~= node_ids(
                n2,
            ).to_multiset().add(forest_ids(s.drop_first()).to_multiset()));
            assert((node_ids(s[0]) + forest_ids(s.drop_first())).to_multiset() =~= node_ids(
                s[0],
            ).to_multiset().add(forest_ids(s.drop_first()).to_multiset()));
            assert(forest_ids(s) =~= node_ids(s[0]) + forest_ids(s.drop_first()));
        } else {
            lemma_add_forest_ids(s.drop_first(), pid, node);
            let (rest2, f2) = spec_add_forest(s.drop_first(), pid, node);
            assert(n2 == s[0]);
            if f2 {
                lemma_forest_ids_concat(seq![n2], rest2);
                assert(forest_ids(seq![n2] + rest2) =~= node_ids(n2) + forest_ids(rest2));
                assert((node_ids(n2) + forest_ids(rest2)).to_multiset() =~= node_ids(
                    n2,
                ).to_multiset().add(forest_ids(rest2).to_multiset()));
                assert((node_ids(s[0]) + forest_ids(s.drop_first())).to_multiset() =~= node_ids(
                    s[0],
                ).to_multiset().add(forest_ids(s.drop_first()).to_multiset()));
                assert(forest_ids(s) =~= node_ids(s[0]) + forest_ids(s.drop_first()));
            } else {
                assert(rest2 == s.drop_first());
                assert(seq![n2] + rest2 =~= s);
            }
        }
    }
}

/// A sequence whose multiset is the sum of two duplicate-free, disjoint
/// parts is itself duplicate-free.
pub proof fn lemma_no_dup_from_parts(target: Seq<u128>, p1: Seq<u128>, p2: Seq<u128>)
    requires
        target.to_multiset() == p1.to_multiset().add(p2.to_multiset()),
        p1.no_duplicates(),
        p2.no_duplicates(),
        forall|x: u128| p1.contains(x) ==> !p2.contains(x),
    ensures
        target.no_duplicates(),
{
    broadcast use vstd::seq_lib::group_to_multiset_ensures;
    broadcast use vstd::multiset::group_multiset_axioms;

    p1.lemma_multiset_has_no_duplicates();
    p2.lemma_multiset_has_no_duplicates();
    assert forall|x: u128| target.to_multiset().contains(x) implies target.to_multiset().count(x)
        == 1 by {
        assert(target.to_multiset().count(x) == p1.to_multiset().count(x) + p2.to_multiset().count(
            x,
        ));
        if p1.to_multiset().count(x) > 0 {
            assert(p1.contains(x));
            assert(!p2.contains(x));
            assert(p2.to_multiset().count(x) == 0);
        }
    }
    target.lemma_multiset_has_no_duplicates_conv();
}

/// A duplicate-free sequence whose multiset is the sum of two parts splits
/// into duplicate-free, disjoint parts.
pub proof fn lemma_no_dup_to_parts(whole: Seq<u128>, p1: Seq<u128>, p2: Seq<u128>)
    requires
        whole.no_duplicates(),
        whole.to_multiset() == p1.to_multiset().add(p2.to_multiset()),
    ensures
        p1.no_duplicates(),
        p2.no_duplicates(),
        forall|x: u128| p1.contains(x) ==> !p2.contains(x),
{
    broadcast use vstd::seq_lib::group_to_multiset_ensures;
    broadcast use vstd::multiset::group_multiset_axioms;

    whole.lemma_multiset_has_no_duplicates();
    assert forall|x: u128| p1.to_multiset().contains(x) implies p1.to_multiset().count(x) == 1 by {
        assert(whole.to_multiset().count(x) == p1.to_multiset().count(x) + p2.to_multiset().count(
            x,
        ));
        assert(whole.to_multiset().count(x) > 0);
        assert(whole.contains(x));
    }
    assert forall|x: u128| p2.to_multiset().contains(x) implies p2.to_multiset().count(x) == 1 by {
        assert(whole.to_multiset().count(x) == p1.to_multiset().count(x) + p2.to_multiset().count(
            x,
        ));
        assert(whole.to_multiset().count(x) > 0);
        assert(whole.contains(x));
    }
    p1.lemma_multiset_has_no_duplicates_conv();
    p2.lemma_multiset_has_no_duplicates_conv();
    assert forall|x: u128| p1.contains(x) implies !p2.contains(x) by {
        if p1.contains(x) && p2.contains(x) {
            assert(whole.to_multiset().count(x) == p1.to_multiset().count(x)
                + p2.to_multiset().count(x));
            assert(whole.contains(x));
        }
    }
}

/// Removal preserves well-formedness, and the removed subtree is itself
/// well-formed with identifiers disjoint from the remaining tree.
pub proof fn lemma_remove_preserves_wf(s: Seq<NodeView>, id: u128)
    requires
        wf_forest(s),
    ensures
        ({
            let (s2, r) = spec_remove_forest(s, id);
            &&& wf_forest(s2)
            &&& (r matches Some(n) ==> node_ids(n).no_duplicates() && (forall|x: u128|
                node_ids(n).contains(x) ==> !forest_ids(s2).contains(x)))
        }),
{
    lemma_remove_ids(s, id);
    let (s2, r) = spec_remove_forest(s, id);
    match r {
        Some(n) => {
            lemma_no_dup_to_parts(forest_ids(s), forest_ids(s2), node_ids(n));
            assert forall|x: u128| node_ids(n).contains(x) implies !forest_ids(s2).contains(x) by {
            }
        },
        None => {},
    }
}

/// Adding a node whose identifiers are fresh preserves well-formedness, at
/// the root and under a parent alike.
pub proof fn lemma_add_preserves_wf(s: Seq<NodeView>, parent_id: Option<u128>, node: NodeView)
    requires
        wf_forest(s),
        node_ids(node).no_duplicates(),
        forall|x: u128| node_ids(node).contains(x) ==> !forest_ids(s).contains(x),
    ensures
        (match parent_id {
            None => wf_forest(s.push(node)),
            Some(pid) => wf_forest(spec_add_forest(s, pid, node).0),
        }),
{
    broadcast use vstd::seq_lib::lemma_multiset_commutative;

    match parent_id {
        None => {
            assert(s.push(node) =~= s + seq![node]);
            lemma_forest_ids_concat(s, seq![node]);
            lemma_forest_ids_single(node);
            lemma_no_dup_from_parts(
                forest_ids(s.push(node)),
                forest_ids(s),
                node_ids(node),
            );
        },
        Some(pid) => {
            lemma_add_forest_ids(s, pid, node);
            let (s2, f) = spec_add_forest(s, pid, node);
            if !f {
                assert(s2 == s);
            } else if forest_ids(s2).to_multiset() == forest_ids(s).to_multiset() {
                assert forall|x: u128| forest_ids(s2).to_multiset().contains(x) implies forest_ids(
                    s2,
                ).to_multiset().count(x) == 1 by {
                    broadcast use vstd::seq_lib::group_to_multiset_ensures;

                    forest_ids(s).lemma_multiset_has_no_duplicates();
                    assert(forest_ids(s).contains(x));
                }
                forest_ids(s2).lemma_multiset_has_no_duplicates_conv();
            } else {
                lemma_no_dup_from_parts(forest_ids(s2), forest_ids(s), node_ids(node));
            }
        },
    }
}

/// A location found below the top level has a non-negative child index.
pub proof fn lemma_location_rec_nonneg(s: Seq<NodeView>, id: u128)
    ensures
        spec_location_rec(s, id) matches Some((p, i)) ==> i >= 0,
    decreases s,
{
    if s.len() > 0 {
        match s[0] {
            NodeView::Group { id: gid, children, .. } => {
                lemma_location_rec_nonneg(children, id);
                lemma_location_rec_nonneg(s.drop_first(), id);
            },
            NodeView::Session(_) => {
                lemma_location_rec_nonneg(s.drop_first(), id);
            },
        }
    }
}

/// A found location has a non-negative child index.
pub proof fn lemma_location_nonneg(s: Seq<NodeView>, id: u128)
    ensures
        spec_find_location(s, id) matches Some((p, i)) ==> i >= 0,
{
    lemma_location_rec_nonneg(s, id);
}

/// A move preserves well-formedness: it only relocates one subtree, or drops
/// it when the destination has gone.
pub proof fn lemma_move_preserves_wf(
    root: Seq<NodeView>,
    node_id: u128,
    new_parent_id: Option<u128>,
    index: int,
)
    requires
        wf_forest(root),
        index >= 0,
    ensures
        wf_forest(spec_move_node(root, node_id, new_parent_id, index).0),
{
    broadcast use vstd::seq_lib::lemma_multiset_commutative;

    if new_parent_id matches Some(p) && spec_is_ancestor(root, node_id, p) {
    } else {
        match spec_find_location(root, node_id) {
            None => {},
            Some((old_parent, old_index)) => {
                lemma_location_nonneg(root, node_id);
                assert(old_index >= 0);
                lemma_remove_preserves_wf(root, node_id);
                lemma_remove_ids(root, node_id);
                let (root1, removed) = spec_remove_forest(root, node_id);
                match removed {
                    None => {},
                    Some(node) => {
                        let adj = if old_parent == new_parent_id && old_index < index {
                            index - 1
                        } else {
                            index
                        };
                        match new_parent_id {
                            None => {
                                let at = if adj <= root1.len() {
                                    adj
                                } else {
                                    root1.len() as int
                                };
                                let s2 = root1.insert(at, node);
                                assert(s2 =~= root1.take(at) + (seq![node] + root1.skip(at)));
                                lemma_forest_ids_concat(
                                    root1.take(at),
                                    seq![node] + root1.skip(at),
                                );
                                lemma_forest_ids_concat(seq![node], root1.skip(at));
                                lemma_forest_ids_single(node);
                                assert(root1 =~= root1.take(at) + root1.skip(at));
                                lemma_forest_ids_concat(root1.take(at), root1.skip(at));
                                let a = forest_ids(root1.take(at));
                                let b = forest_ids(root1.skip(at));
                                let nn = node_ids(node);
                                assert(forest_ids(s2).to_multiset() =~= forest_ids(
                                    root1,
                                ).to_multiset().add(nn.to_multiset())) by {
                                    assert(forest_ids(s2) =~= a + (nn + b));
                                    assert((a + (nn + b)).to_multiset() =~= a.to_multiset().add(
                                        nn.to_multiset(),
                                    ).add(b.to_multiset()));
                                    assert((a + b).to_multiset() =~= a.to_multiset().add(
                                        b.to_multiset(),
                                    ));
                                    assert(forest_ids(root1) =~= a + b);
                                }
                                lemma_no_dup_from_parts(
                                    forest_ids(s2),
                                    forest_ids(root1),
                                    node_ids(node),
                                );
                            },
                            Some(pid) => {
                                lemma_insert_ids(root1, pid, node, adj);
                                let (s2, f) = spec_insert_forest(root1, pid, node, adj);
                                if f {
                                    lemma_no_dup_from_parts(
                                        forest_ids(s2),
                                        forest_ids(root1),
                                        node_ids(node),
                                    );
                                }
                            },
                        }
                    },
                }
            },
        }
    }
}

/// An update applied to the first node carrying an identifier.
pub enum TreeUpdate {
    /// Flip a group's expanded flag.
    Toggle,
    /// Set a group's expanded flag.
    Expand,
    /// Replace a session's configuration, keeping its identifier.
    Replace(SessionConfig),
}

/// Abstract value of a tree update.
pub ghost enum TreeUpdateView {
    Toggle,
    Expand,
    Replace(SessionView),
}

impl View for TreeUpdate {
    type V = TreeUpdateView;

    open spec fn view(&self) -> TreeUpdateView {
        match self {
            TreeUpdate::Toggle => TreeUpdateView::Toggle,
            TreeUpdate::Expand => TreeUpdateView::Expand,
            TreeUpdate::Replace(c) => TreeUpdateView::Replace(c@),
        }
    }
}

/// The update applied at the node that carries the identifier: the new node
/// and whether anything changed.  An update meant for the other node kind
/// changes nothing.
pub open spec fn spec_apply_at(n: NodeView, u: TreeUpdateView) -> (NodeView, bool) {
    match u {
        TreeUpdateView::Toggle => match n {
            NodeView::Group { id, name, expanded, children } => (
                NodeView::Group { id, name, expanded: !expanded, children },
                true,
            ),
            NodeView::Session(_) => (n, false),
        },
        TreeUpdateView::Expand => match n {
            NodeView::Group { id, name, expanded, children } => (
                NodeView::Group { id, name, expanded: true, children },
                !expanded,
            ),
            NodeView::Session(_) => (n, false),
        },
        TreeUpdateView::Replace(sv) => match n {
            NodeView::Session(old) => (
                NodeView::Session(
                    SessionView { id: old.id, name: sv.name, tags: sv.tags, protocol: sv.protocol },
                ),
                true,
            ),
            NodeView::Group { .. } => (n, false),
        },
    }
}

/// An update inside one node: the first carrier of the identifier, in DFS
/// order, receives the update.
pub open spec fn spec_update_node(n: NodeView, id: u128, u: TreeUpdateView) -> (
    NodeView,
    bool,
    bool,
)
    decreases n, 1int,
{
    if spec_node_id(n) == id {
        let (n2, changed) = spec_apply_at(n, u);
        (n2, true, changed)
    } else {
        match n {
            NodeView::Group { id: gid, name, expanded, children } => {
                let (ch2, found, changed) = spec_update_forest(children, id, u);
                (NodeView::Group { id: gid, name, expanded, children: ch2 }, found, changed)
            },
            NodeView::Session(_) => (n, false, false),
        }
    }
}

/// An update in a forest, left to right; the first carrier of the
/// identifier ends the search.
pub open spec fn spec_update_forest(s: Seq<NodeView>, id: u128, u: TreeUpdateView) -> (
    Seq<NodeView>,
    bool,
    bool,
)
    decreases s, 0int,
{
    if s.len() == 0 {
        (s, false, false)
    } else {
        let (n2, found, changed) = spec_update_node(s[0], id, u);
        if found {
            (seq![n2] + s.drop_first(), true, changed)
        } else {
            let (rest, found2, changed2) = spec_update_forest(s.drop_first(), id, u);
            (seq![n2] + rest, found2, changed2)
        }
    }
}

/// Apply an update inside one node; the update comes back when no carrier
/// of the identifier was found.
fn update_node_rec(n: SessionNode, id: u128, u: TreeUpdate) -> (r: (SessionNode, Option<TreeUpdate>,
    bool,
))
    ensures
        ({
            let (nv, found, changed) = spec_update_node(view_node(n), id, u@);
            &&& view_node(r.0) == nv
            &&& (if found {
                r.1 is None
            } else {
                r.1 == Some(u)
            })
            &&& r.2 == changed
        }),
    decreases node_height(n), 0int, 1int,
{
    let matches_id = n.id() == id;
    if matches_id {
        match n {
            SessionNode::Group(mut g) => match u {
                TreeUpdate::Toggle => {
                    g.expanded = !g.expanded;
                    (SessionNode::Group(g), None, true)
                },
                TreeUpdate::Expand => {
                    let was = g.expanded;
                    g.expanded = true;
                    (SessionNode::Group(g), None, !was)
                },
                TreeUpdate::Replace(_) => (SessionNode::Group(g), None, false),
            },
            SessionNode::Session(old) => match u {
                TreeUpdate::Replace(c) => {
                    let replaced = SessionConfig {
                        id: old.id,
                        name: c.name,
                        tags: c.tags,
                        protocol: c.protocol,
                    };
                    (SessionNode::Session(replaced), None, true)
                },
                _ => (SessionNode::Session(old), None, false),
            },
        }
    } else {
        match n {
            SessionNode::Group(mut g) => {
                proof {
                    assert(node_height(n) == 1 + forest_height(g.children@));
                }
                let mut ch: Vec<SessionNode> = Vec::new();
                core::mem::swap(&mut ch, &mut g.children);
                let (ch2, back, changed) = update_forest_rec(ch, id, u);
                g.children = ch2;
                (SessionNode::Group(g), back, changed)
            },
            s => (s, Some(u), false),
        }
    }
}

/// Apply an update in a forest, left to right; the update comes back when
/// no carrier of the identifier was found.
fn update_forest_rec(nodes: Vec<SessionNode>, id: u128, u: TreeUpdate) -> (r: (Vec<SessionNode>,
    Option<TreeUpdate>,
    bool,
))
    ensures
        ({
            let (sv, found, changed) = spec_update_forest(view_forest(nodes@), id, u@);
            &&& view_forest(r.0@) == sv
            &&& (if found {
                r.1 is None
            } else {
                r.1 == Some(u)
            })
            &&& r.2 == changed
        }),
    decreases forest_height(nodes@), nodes@.len(), 0int,
{
    let ghost v0 = view_forest(nodes@);
    proof {
        lemma_view_forest(nodes@);
    }
    if nodes.len() == 0 {
        proof {
            assert(v0 =~= Seq::<NodeView>::empty());
        }
        return (nodes, Some(u), false);
    }
    let mut nodes = nodes;
    let ghost whole = nodes@;
    let first = nodes.remove(0);
    let ghost rest0 = nodes@;
    proof {
        assert(rest0 =~= whole.drop_first());
        assert(view_forest(rest0) =~= v0.drop_first()) by {
            lemma_view_forest(whole);
            lemma_view_forest(rest0);
        }
        assert(v0[0] == view_node(first));
        lemma_forest_height_drop(whole);
        lemma_forest_height_elem(whole, 0);
    }
    let (n2, back, changed) = update_node_rec(first, id, u);
    match back {
        None => {
            let mut out = nodes;
            out.insert(0, n2);
            proof {
                lemma_view_forest_insert(rest0, 0, n2);
                assert(view_forest(out@) =~= seq![view_node(n2)] + view_forest(rest0));
            }
            (out, None, changed)
        },
        Some(u) => {
            let (out_tail, back2, changed2) = update_forest_rec(nodes, id, u);
            let ghost tailv = out_tail@;
            let mut out = out_tail;
            out.insert(0, n2);
            proof {
                lemma_view_forest_insert(tailv, 0, n2);
                assert(view_forest(out@) =~= seq![view_node(n2)] + view_forest(tailv));
            }
            (out, back2, changed2)
        },
    }
}

/// An update keeps the tree's identifiers exactly: flags and session
/// payloads change, identifiers and structure do not.
pub proof fn lemma_update_node_ids(n: NodeView, id: u128, u: TreeUpdateView)
    ensures
        node_ids(spec_update_node(n, id, u).0) == node_ids(n),
    decreases n, 1int,
{
    if spec_node_id(n) == id {
        match n {
            NodeView::Group { .. } => {},
            NodeView::Session(_) => {},
        }
    } else {
        match n {
            NodeView::Group { id: gid, name, expanded, children } => {
                lemma_update_forest_ids(children, id, u);
            },
            NodeView::Session(_) => {},
        }
    }
}

/// The same for a whole forest.
pub proof fn lemma_update_forest_ids(s: Seq<NodeView>, id: u128, u: TreeUpdateView)
    ensures
        forest_ids(spec_update_forest(s, id, u).0) == forest_ids(s),
    decreases s, 0int,
{
    if s.len() == 0 {
    } else {
        lemma_update_node_ids(s[0], id, u);
        let (n2, found, _) = spec_update_node(s[0], id, u);
        assert(s =~= seq![s[0]] + s.drop_first());
        lemma_forest_ids_concat(seq![s[0]], s.drop_first());
        lemma_forest_ids_single(s[0]);
        lemma_forest_ids_single(n2);
        if found {
            lemma_forest_ids_concat(seq![n2], s.drop_first());
            assert(forest_ids(seq![n2] + s.drop_first()) =~= forest_ids(s));
        } else {
            lemma_update_forest_ids(s.drop_first(), id, u);
            let (rest2, _, _) = spec_update_forest(s.drop_first(), id, u);
            lemma_forest_ids_concat(seq![n2], rest2);
            assert(forest_ids(seq![n2] + rest2) =~= forest_ids(s));
        }
    }
}

/// Updates preserve well-formedness.
pub proof fn lemma_update_preserves_wf(s: Seq<NodeView>, id: u128, u: TreeUpdateView)
    requires
        wf_forest(s),
    ensures
        wf_forest(spec_update_forest(s, id, u).0),
{
    lemma_update_forest_ids(s, id, u);
}

/// The result of a move: the new forest and whether the move happened.
/// A move is refused when it would create a cycle or when the node is not
/// in the tree.  Otherwise the node is removed, the index is decremented by
/// one when the node moves later within its old parent (the hole closes
/// before insertion), and the node is inserted at that index, clamped to the
/// destination's child count.  A destination identifier that no group
/// carries loses the node, as the caller was moving it out of the tree.
pub open spec fn spec_move_node(
    root: Seq<NodeView>,
    node_id: u128,
    new_parent_id: Option<u128>,
    index: int,
) -> (Seq<NodeView>, bool) {
    if new_parent_id matches Some(p) && spec_is_ancestor(root, node_id, p) {
        (root, false)
    } else {
        match spec_find_location(root, node_id) {
            None => (root, false),
            Some((old_parent, old_index)) => {
                let (root1, removed) = spec_remove_forest(root, node_id);
                match removed {
                    None => (root1, false),
                    Some(node) => {
                        let adj = if old_parent == new_parent_id && old_index < index {
                            index - 1
                        } else {
                            index
                        };
                        match new_parent_id {
                            None => {
                                let at = if adj <= root1.len() {
                                    adj
                                } else {
                                    root1.len() as int
                                };
                                (root1.insert(at, node), true)
                            },
                            Some(pid) => (spec_insert_forest(root1, pid, node, adj).0, true),
                        }
                    },
                }
            },
        }
    }
}

impl SessionStore {
    /// Move a node to a new parent at the given index; true when the move
    /// happened.  A move that would make a node its own descendant is
    /// refused with no change; moving a node later within its own parent
    /// lands it at the index the caller saw before the node's old slot
    /// closed.
    pub fn move_node(&mut self, node_id: u128, new_parent_id: Option<u128>, index: usize) -> (r:
        bool)
        ensures
            final(self)@.version == old(self)@.version,
            final(self)@.credential_presets == old(self)@.credential_presets,
            ({
                let (root2, moved) = spec_move_node(
                    old(self)@.root,
                    node_id,
                    new_parent_id,
                    index as int,
                );
                &&& final(self)@.root == root2
                &&& r == moved
            }),
    {
        if let Some(p) = new_parent_id {
            if self.is_ancestor_of(node_id, p) {
                return false;
            }
        }
        let loc = self.find_node_location(node_id);
        let (old_parent, old_index) = match loc {
            Some(l) => l,
            None => {
                return false;
            },
        };
        let mut root: Vec<SessionNode> = Vec::new();
        core::mem::swap(&mut root, &mut self.root);
        let (root1, removed) = remove_in_forest(root, node_id);
        let node = match removed {
            Some(n) => n,
            None => {
                self.root = root1;
                return false;
            },
        };
        let same_parent = match (&old_parent, &new_parent_id) {
            (None, None) => true,
            (Some(a), Some(b)) => *a == *b,
            _ => false,
        };
        let adjusted_index = if same_parent && old_index < index {
            index - 1
        } else {
            index
        };
        match new_parent_id {
            None => {
                let mut root1 = root1;
                let ghost pre = root1@;
                let at = if adjusted_index <= root1.len() {
                    adjusted_index
                } else {
                    root1.len()
                };
                root1.insert(at, node);
                proof {
                    lemma_view_forest_insert(pre, at as int, node);
                    lemma_view_forest(pre);
                }
                self.root = root1;
            },
            Some(pid) => {
                let (root2, _leftover) = insert_forest_rec(root1, pid, node, adjusted_index);
                self.root = root2;
            },
        }
        true
    }

    /// Flip the expanded flag of the group carrying the identifier; true
    /// when a group was toggled.
    pub fn toggle_group_expanded(&mut self, id: u128) -> (r: bool)
        ensures
            final(self)@.version == old(self)@.version,
            final(self)@.credential_presets == old(self)@.credential_presets,
            final(self)@.root == spec_update_forest(old(self)@.root, id, TreeUpdateView::Toggle).0,
            r == spec_update_forest(old(self)@.root, id, TreeUpdateView::Toggle).2,
    {
        let mut root: Vec<SessionNode> = Vec::new();
        core::mem::swap(&mut root, &mut self.root);
        let (root2, _back, changed) = update_forest_rec(root, id, TreeUpdate::Toggle);
        self.root = root2;
        changed
    }

    /// Expand the group carrying the identifier; true when it was collapsed.
    pub fn expand_group(&mut self, id: u128) -> (r: bool)
        ensures
            final(self)@.version == old(self)@.version,
            final(self)@.credential_presets == old(self)@.credential_presets,
            final(self)@.root == spec_update_forest(old(self)@.root, id, TreeUpdateView::Expand).0,
            r == spec_update_forest(old(self)@.root, id, TreeUpdateView::Expand).2,
    {
        let mut root: Vec<SessionNode> = Vec::new();
        core::mem::swap(&mut root, &mut self.root);
        let (root2, _back, changed) = update_forest_rec(root, id, TreeUpdate::Expand);
        self.root = root2;
        changed
    }

    /// Replace the configuration of the session carrying the identifier,
    /// keeping its identifier; true when a session was updated.
    pub fn update_session(&mut self, id: u128, config: SessionConfig) -> (r: bool)
        ensures
            final(self)@.version == old(self)@.version,
            final(self)@.credential_presets == old(self)@.credential_presets,
            final(self)@.root == spec_update_forest(
                old(self)@.root,
                id,
                TreeUpdateView::Replace(config@),
            ).0,
            r == spec_update_forest(old(self)@.root, id, TreeUpdateView::Replace(config@)).2,
    {
        let mut root: Vec<SessionNode> = Vec::new();
        core::mem::swap(&mut root, &mut self.root);
        let (root2, _back, changed) = update_forest_rec(root, id, TreeUpdate::Replace(config));
        self.root = root2;
        changed
    }
}

/// Index of the first preset carrying the identifier, or -1.
pub open spec fn preset_index_of(s: Seq<PresetView>, id: u128) -> int
    decreases s.len(),
{
    if s.len() == 0 {
        -1
    } else if s[0].id == id {
        0
    } else {
        let r = preset_index_of(s.drop_first(), id);
        if r < 0 {
            -1
        } else {
            r + 1
        }
    }
}

/// The preset index is a valid index of a preset with the identifier, and
/// -1 exactly when no preset carries it.
pub proof fn lemma_preset_index_of(s: Seq<PresetView>, id: u128)
    ensures
        preset_index_of(s, id) >= 0 ==> preset_index_of(s, id) < s.len() && s[preset_index_of(
            s,
            id,
        )].id == id,
        preset_index_of(s, id) < 0 ==> forall|i: int| 0 <= i < s.len() ==> s[i].id != id,
    decreases s.len(),
{
    if s.len() > 0 {
        lemma_preset_index_of(s.drop_first(), id);
        if s[0].id != id {
            let r = preset_index_of(s.drop_first(), id);
            if r >= 0 {
                assert(s[r + 1] == s.drop_first()[r]);
            } else {
                assert forall|i: int| 0 <= i < s.len() implies s[i].id != id by {
                    if i > 0 {
                        assert(s[i] == s.drop_first()[i - 1]);
                    }
                }
            }
        }
    }
}

/// If every preset before `i` differs and the one at `i` matches, the
/// preset index is `i`.
pub proof fn lemma_preset_index_found(s: Seq<PresetView>, id: u128, i: int)
    requires
        0 <= i < s.len(),
        s[i].id == id,
        forall|k: int| 0 <= k < i ==> s[k].id != id,
    ensures
        preset_index_of(s, id) == i,
    decreases i,
{
    if i > 0 {
        assert forall|k: int| 0 <= k < i - 1 implies s.drop_first()[k].id != id by {
            assert(s.drop_first()[k] == s[k + 1]);
        }
        assert(s.drop_first()[i - 1] == s[i]);
        lemma_preset_index_found(s.drop_first(), id, i - 1);
    }
}

impl SessionStore {
    /// Append a credential preset.
    pub fn add_credential_preset(&mut self, preset: CredentialPreset)
        ensures
            final(self)@.version == old(self)@.version,
            final(self)@.root == old(self)@.root,
            final(self)@.credential_presets == old(self)@.credential_presets.push(preset@),
    {
        let ghost pre = self.credential_presets@;
        self.credential_presets.push(preset);
        proof {
            assert(self.credential_presets@.map_values(|p: CredentialPreset| p@) =~= pre
                .map_values(|p: CredentialPreset| p@).push(self.credential_presets@.last()@));
        }
    }

    /// Remove the first preset carrying the identifier; true when one was
    /// removed.
    pub fn remove_credential_preset(&mut self, id: u128) -> (r: bool)
        ensures
            final(self)@.version == old(self)@.version,
            final(self)@.root == old(self)@.root,
            ({
                let idx = preset_index_of(old(self)@.credential_presets, id);
                if idx >= 0 {
                    final(self)@.credential_presets == old(self)@.credential_presets.remove(idx)
                        && r == true
                } else {
                    final(self)@.credential_presets == old(self)@.credential_presets && r == false
                }
            }),
    {
        let ghost pv = self@.credential_presets;
        let mut i: usize = 0;
        while i < self.credential_presets.len()
            invariant
                i <= self.credential_presets@.len(),
                pv == self@.credential_presets,
                pv.len() == self.credential_presets@.len(),
                forall|k: int|
                    0 <= k < pv.len() ==> pv[k] == self.credential_presets@[k]@,
                forall|k: int| 0 <= k < i ==> pv[k].id != id,
                self@ == old(self)@,
            decreases self.credential_presets@.len() - i,
        {
            if self.credential_presets[i].id == id {
                proof {
                    lemma_preset_index_found(pv, id, i as int);
                }
                let ghost pre = self.credential_presets@;
                self.credential_presets.remove(i);
                proof {
                    assert(self.credential_presets@.map_values(|p: CredentialPreset| p@) =~= pv
                        .remove(i as int));
                }
                return true;
            }
            i = i + 1;
        }
        proof {
            if preset_index_of(pv, id) >= 0 {
                lemma_preset_index_of(pv, id);
            }
        }
        false
    }

    /// Update the name, username and password of the first preset carrying
    /// the identifier, keeping its identifier; true when one was updated.
    pub fn update_credential_preset(
        &mut self,
        id: u128,
        name: &str,
        username: &str,
        password: &str,
    ) -> (r: bool)
        ensures
            final(self)@.version == old(self)@.version,
            final(self)@.root == old(self)@.root,
            ({
                let idx = preset_index_of(old(self)@.credential_presets, id);
                if idx >= 0 {
                    final(self)@.credential_presets == old(self)@.credential_presets.update(
                        idx,
                        PresetView { id, name: name@, username: username@, password: password@ },
                    ) && r == true
                } else {
                    final(self)@.credential_presets == old(self)@.credential_presets && r == false
                }
            }),
    {
        let ghost pv = self@.credential_presets;
        let mut i: usize = 0;
        while i < self.credential_presets.len()
            invariant
                i <= self.credential_presets@.len(),
                pv == self@.credential_presets,
                pv.len() == self.credential_presets@.len(),
                forall|k: int|
                    0 <= k < pv.len() ==> pv[k] == self.credential_presets@[k]@,
                forall|k: int| 0 <= k < i ==> pv[k].id != id,
                self@ == old(self)@,
            decreases self.credential_presets@.len() - i,
        {
            if self.credential_presets[i].id == id {
                proof {
                    lemma_preset_index_found(pv, id, i as int);
                }
                let replaced = CredentialPreset {
                    id,
                    name: name.to_owned(),
                    username: username.to_owned(),
                    password: password.to_owned(),
                };
                let ghost pre = self.credential_presets@;
                self.credential_presets.remove(i);
                self.credential_presets.insert(i, replaced);
                proof {
                    assert(self.credential_presets@.map_values(|p: CredentialPreset| p@) =~= pv
                        .update(
                        i as int,
                        PresetView { id, name: name@, username: username@, password: password@ },
                    ));
                }
                return true;
            }
            i = i + 1;
        }
        proof {
            if preset_index_of(pv, id) >= 0 {
                lemma_preset_index_of(pv, id);
            }
        }
        false
    }
}

} // verus!
