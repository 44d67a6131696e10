//! SSH configuration, host identity, and authentication decisions.
//!
//! The network work — connecting, the SSH handshake, the channel requests —
//! stays with the caller; this module fixes the configuration values, the
//! host identity used to pool sessions, the username resolution precedence,
//! and what each authentication outcome means.

use vstd::prelude::*;
use vstd::string::StrSliceExecFns;
use vstd::string::StringExecFns;

use crate::ConnectionState;

verus! {

/// SSH authentication configuration.
#[derive(Clone, Debug)]
pub enum SshAuthConfig {
    /// Use password authentication.
    Password(String),
    /// Use a private key file, with an optional passphrase.
    PrivateKey { path: String, passphrase: Option<String> },
    /// Try the default key files in order.
    Auto,
}

/// Abstract value of an SSH authentication configuration.
pub ghost enum SshAuthView {
    Password(Seq<char>),
    PrivateKey { path: Seq<char>, passphrase: Option<Seq<char>> },
    Auto,
}

impl View for SshAuthConfig {
    type V = SshAuthView;

    open spec fn view(&self) -> SshAuthView {
        match self {
            SshAuthConfig::Password(p) => SshAuthView::Password(p@),
            SshAuthConfig::PrivateKey { path, passphrase } => SshAuthView::PrivateKey {
                path: path@,
                passphrase: match passphrase {
                    Some(p) => Some(p@),
                    None => None,
                },
            },
            SshAuthConfig::Auto => SshAuthView::Auto,
        }
    }
}

/// The authentication method that actually succeeded.
#[derive(Clone, Debug)]
pub enum SshAuthMethod {
    PrivateKey(String),
    Password,
    Unset,
}

/// Abstract value of an optional string.
pub open spec fn opt_str_view(o: Option<String>) -> Option<Seq<char>> {
    match o {
        Some(s) => Some(s@),
        None => None,
    }
}

/// Configuration for an SSH connection.
#[derive(Clone, Debug)]
pub struct SshConfig {
    pub host: String,
    pub port: u16,
    pub username: Option<String>,
    pub auth: SshAuthConfig,
    pub env: Vec<(String, String)>,
    pub keepalive_interval_secs: Option<u64>,
    pub initial_command: Option<String>,
}

impl SshConfig {
    /// A configuration for the given endpoint: no username, automatic
    /// authentication, no environment, a 30-second keepalive, no initial
    /// command.
    pub fn new(host: &str, port: u16) -> (r: Self)
        ensures
            r.host@ == host@,
            r.port == port,
            r.username is None,
            r.auth is Auto,
            r.env@ == Seq::<(String, String)>::empty(),
            r.keepalive_interval_secs == Some(30u64),
            r.initial_command is None,
    {
        Self {
            host: host.to_owned(),
            port,
            username: None,
            auth: SshAuthConfig::Auto,
            env: Vec::new(),
            keepalive_interval_secs: Some(30),
            initial_command: None,
        }
    }

    /// The same configuration with the username set.
    pub fn with_username(self, username: &str) -> (r: Self)
        ensures
            r.username matches Some(u) && u@ == username@,
            r.host == self.host,
            r.port == self.port,
            r.auth == self.auth,
            r.env == self.env,
            r.keepalive_interval_secs == self.keepalive_interval_secs,
            r.initial_command == self.initial_command,
    {
        Self { username: Some(username.to_owned()), ..self }
    }

    /// The same configuration with the authentication method set.
    pub fn with_auth(self, auth: SshAuthConfig) -> (r: Self)
        ensures
            r.auth == auth,
            r.host == self.host,
            r.port == self.port,
            r.username == self.username,
            r.env == self.env,
            r.keepalive_interval_secs == self.keepalive_interval_secs,
            r.initial_command == self.initial_command,
    {
        Self { auth, ..self }
    }

    /// The same configuration with the environment set.
    pub fn with_env(self, env: Vec<(String, String)>) -> (r: Self)
        ensures
            r.env == env,
            r.host == self.host,
            r.port == self.port,
            r.username == self.username,
            r.auth == self.auth,
            r.keepalive_interval_secs == self.keepalive_interval_secs,
            r.initial_command == self.initial_command,
    {
        Self { env, ..self }
    }

    /// The same configuration with the keepalive interval set, in seconds.
    pub fn with_keepalive(self, interval_secs: u64) -> (r: Self)
        ensures
            r.keepalive_interval_secs == Some(interval_secs),
            r.host == self.host,
            r.port == self.port,
            r.username == self.username,
            r.auth == self.auth,
            r.env == self.env,
            r.initial_command == self.initial_command,
    {
        Self { keepalive_interval_secs: Some(interval_secs), ..self }
    }

    /// The same configuration with the initial command set.
    pub fn with_initial_command(self, command: &str) -> (r: Self)
        ensures
            r.initial_command matches Some(c) && c@ == command@,
            r.host == self.host,
            r.port == self.port,
            r.username == self.username,
            r.auth == self.auth,
            r.env == self.env,
            r.keepalive_interval_secs == self.keepalive_interval_secs,
    {
        Self { initial_command: Some(command.to_owned()), ..self }
    }
}

/// Abstract value of a host key: what identifies an SSH host for pooling.
#[verifier::ext_equal]
pub ghost struct HostKeyView {
    pub host: Seq<char>,
    pub port: u16,
    pub username: Option<Seq<char>>,
}

/// The host identity a configuration maps to.
pub open spec fn spec_host_key(c: SshConfig) -> HostKeyView {
    HostKeyView { host: c.host@, port: c.port, username: opt_str_view(c.username) }
}

/// Identifies a unique SSH host for session reuse: host, port and username.
#[derive(Clone, Debug, Hash)]
pub struct SshHostKey {
    pub host: String,
    pub port: u16,
    pub username: Option<String>,
}

impl View for SshHostKey {
    type V = HostKeyView;

    open spec fn view(&self) -> HostKeyView {
        HostKeyView { host: self.host@, port: self.port, username: opt_str_view(self.username) }
    }
}

impl SshHostKey {
    /// The host key of a configuration: exactly its host, port and username.
    pub fn from_config(config: &SshConfig) -> (r: Self)
        ensures
            r@ == spec_host_key(*config),
    {
        Self {
            host: config.host.clone(),
            port: config.port,
            username: match &config.username {
                Some(u) => Some(u.clone()),
                None => None,
            },
        }
    }
}

impl PartialEq for SshHostKey {
    /// Two host keys are equal exactly when host, port and username agree.
    fn eq(&self, other: &Self) -> (r: bool) {
        let user_eq = match (&self.username, &other.username) {
            (Some(a), Some(b)) => *a == *b,
            (None, None) => true,
            _ => false,
        };
        let r = self.host == other.host && self.port == other.port && user_eq;
        proof {
            if r {
                assert(self@ =~= other@);
            }
        }
        r
    }
}

impl vstd::std_specs::cmp::PartialEqSpecImpl for SshHostKey {
    open spec fn obeys_eq_spec() -> bool {
        true
    }

    open spec fn eq_spec(&self, other: &Self) -> bool {
        self@ == other@
    }
}

impl Eq for SshHostKey {}

/// Host-key equality: two configurations yield equal host keys exactly when
/// their host, port and username agree.
pub proof fn lemma_host_key_equality(c1: SshConfig, c2: SshConfig)
    ensures
        (spec_host_key(c1) == spec_host_key(c2)) <==> (c1.host@ == c2.host@ && c1.port == c2.port
            && opt_str_view(c1.username) == opt_str_view(c2.username)),
{
}

/// Username resolution precedence: the configured name, then the `USER`
/// variable, then the `USERNAME` variable, then `root`.
pub open spec fn spec_resolve_username(
    configured: Option<Seq<char>>,
    env_user: Option<Seq<char>>,
    env_username: Option<Seq<char>>,
) -> Seq<char> {
    if configured is Some {
        configured->0
    } else if env_user is Some {
        env_user->0
    } else if env_username is Some {
        env_username->0
    } else {
        "root"@
    }
}

/// Resolve the username to authenticate with.  The caller reads the `USER`
/// and `USERNAME` environment variables and hands them in.
pub fn resolve_username(
    configured: &Option<String>,
    env_user: &Option<String>,
    env_username: &Option<String>,
) -> (r: String)
    ensures
        r@ == spec_resolve_username(
            opt_str_view(*configured),
            opt_str_view(*env_user),
            opt_str_view(*env_username),
        ),
{
    match configured {
        Some(u) => u.clone(),
        None => match env_user {
            Some(u) => u.clone(),
            None => match env_username {
                Some(u) => u.clone(),
                None => String::from_str("root"),
            },
        },
    }
}

/// Outcome of one authentication attempt, as the SSH transport reports it.
pub enum AuthOutcome {
    Success,
    Failure { remaining_methods: Vec<String>, partial_success: bool },
}

/// The authentication stage that produced an outcome.
#[derive(Clone, Copy, Debug, PartialEq, Eq, Structural)]
pub enum AuthStage {
    Password,
    PublicKey,
}

/// Name of an authentication stage as it appears in error messages.
pub open spec fn spec_stage_name(stage: AuthStage) -> Seq<char> {
    match stage {
        AuthStage::Password => "password"@,
        AuthStage::PublicKey => "public key"@,
    }
}

/// Strings joined with a separator, in order.
pub open spec fn join_with(parts: Seq<Seq<char>>, sep: Seq<char>) -> Seq<char>
    decreases parts.len(),
{
    if parts.len() == 0 {
        Seq::empty()
    } else if parts.len() == 1 {
        parts[0]
    } else {
        parts[0] + sep + join_with(parts.drop_first(), sep)
    }
}

/// Joining `parts + [last]` appends the separator and `last` unless `parts`
/// was empty.
pub proof fn lemma_join_with_snoc(parts: Seq<Seq<char>>, sep: Seq<char>, last: Seq<char>)
    ensures
        join_with(parts.push(last), sep) == if parts.len() == 0 {
            last
        } else {
            join_with(parts, sep) + sep + last
        },
    decreases parts.len(),
{
    reveal_with_fuel(join_with, 3);
    if parts.len() == 0 {
        assert(join_with(parts.push(last), sep) =~= last);
    } else if parts.len() == 1 {
        assert(parts.push(last).drop_first() =~= seq![last]);
        assert(join_with(parts.push(last), sep) =~= join_with(parts, sep) + sep + last);
    } else {
        lemma_join_with_snoc(parts.drop_first(), sep, last);
        assert(parts.push(last).drop_first() =~= parts.drop_first().push(last));
        assert(join_with(parts.push(last), sep) =~= join_with(parts, sep) + sep + last);
    }
}

/// Join strings with a separator.
pub fn join_strings(parts: &Vec<String>, sep: &str) -> (r: String)
    ensures
        r@ == join_with(parts.deep_view(), sep@),
{
    let mut r = String::new();
    let mut i: usize = 0;
    while i < parts.len()
        invariant
            i <= parts@.len(),
            parts.deep_view().len() == parts@.len(),
            forall|k: int| 0 <= k < parts@.len() ==> parts.deep_view()[k] == parts@[k]@,
            r@ == join_with(parts.deep_view().take(i as int), sep@),
        decreases parts@.len() - i,
    {
        if i > 0 {
            r.append(sep);
        }
        r.append(parts[i].as_str());
        proof {
            lemma_join_with_snoc(parts.deep_view().take(i as int), sep@, parts.deep_view()[i as int]);
            assert(parts.deep_view().take(i as int).push(parts.deep_view()[i as int])
                =~= parts.deep_view().take(i + 1 as int));
        }
        i = i + 1;
    }
    proof {
        assert(parts.deep_view().take(parts.deep_view().len() as int) =~= parts.deep_view());
    }
    r
}

/// The error message owed for a failed authentication attempt.
pub open spec fn spec_auth_error_message(
    stage: AuthStage,
    remaining: Seq<Seq<char>>,
    partial_success: bool,
) -> Seq<char> {
    spec_stage_name(stage) + (if partial_success {
        " authentication partial success, remaining methods: "@
    } else {
        " authentication rejected, remaining methods: "@
    }) + join_with(remaining, ", "@)
}

/// Interpret one authentication outcome: success is success, and a failure
/// carries the stage, the remaining methods, and whether the server reported
/// partial success.
pub fn check_auth_result(outcome: AuthOutcome, stage: AuthStage) -> (r: Result<(), String>)
    ensures
        r is Ok <==> outcome is Success,
        (outcome matches AuthOutcome::Failure { remaining_methods, partial_success } ==> (
        r matches Err(e) && e@ == spec_auth_error_message(
            stage,
            remaining_methods.deep_view(),
            partial_success,
        ))),
{
    match outcome {
        AuthOutcome::Success => Ok(()),
        AuthOutcome::Failure { remaining_methods, partial_success } => {
            let mut msg = match stage {
                AuthStage::Password => String::from_str("password"),
                AuthStage::PublicKey => String::from_str("public key"),
            };
            if partial_success {
                msg.append(" authentication partial success, remaining methods: ");
            } else {
                msg.append(" authentication rejected, remaining methods: ");
            }
            let joined = join_strings(&remaining_methods, ", ");
            msg.append(joined.as_str());
            Err(msg)
        },
    }
}

/// The error owed when no default key file could authenticate.
pub fn auto_auth_failure_message() -> (r: String)
    ensures
        r@ == "auto authentication failed: no default key files could authenticate"@,
{
    String::from_str("auto authentication failed: no default key files could authenticate")
}

/// The default key file names, in the canonical order in which automatic
/// authentication tries them.
pub fn default_ssh_key_names() -> (r: Vec<String>)
    ensures
        r.deep_view() =~= seq!["id_ed25519"@, "id_rsa"@, "id_ecdsa"@, "id_dsa"@],
{
    let mut r: Vec<String> = Vec::new();
    r.push(String::from_str("id_ed25519"));
    r.push(String::from_str("id_rsa"));
    r.push(String::from_str("id_ecdsa"));
    r.push(String::from_str("id_dsa"));
    r
}

/// The candidates that exist, keeping the canonical order.  `exists` gives,
/// for each candidate in order, whether its key file is present.
pub open spec fn spec_existing_in_order(names: Seq<Seq<char>>, exists: Seq<bool>) -> Seq<Seq<char>>
    decreases names.len(),
{
    if names.len() == 0 || exists.len() == 0 {
        Seq::empty()
    } else if exists[0] {
        seq![names[0]] + spec_existing_in_order(names.drop_first(), exists.drop_first())
    } else {
        spec_existing_in_order(names.drop_first(), exists.drop_first())
    }
}

/// Keep the key candidates whose files exist, in candidate order.
pub fn existing_in_order(names: &Vec<String>, exists: &Vec<bool>) -> (r: Vec<String>)
    requires
        names@.len() == exists@.len(),
    ensures
        r.deep_view() == spec_existing_in_order(names.deep_view(), exists@),
{
    let ghost gnames = names.deep_view();
    let mut r: Vec<String> = Vec::new();
    let mut i: usize = 0;
    while i < names.len()
        invariant
            i <= names@.len(),
            names@.len() == exists@.len(),
            gnames == names.deep_view(),
            gnames.len() == names@.len(),
            forall|k: int| 0 <= k < names@.len() ==> gnames[k] == names@[k]@,
            r.deep_view() == spec_existing_in_order(gnames.take(i as int), exists@.take(i as int)),
        decreases names@.len() - i,
    {
        if exists[i] {
            r.push(names[i].clone());
        }
        proof {
            lemma_existing_in_order_snoc(gnames.take(i as int), exists@.take(i as int), gnames[i as int], exists@[i as int]);
            assert(gnames.take(i as int).push(gnames[i as int]) =~= gnames.take(i + 1 as int));
            assert(exists@.take(i as int).push(exists@[i as int]) =~= exists@.take(i + 1 as int));
            if exists@[i as int] {
                assert(r.deep_view() =~= spec_existing_in_order(gnames.take(i as int), exists@.take(i as int)).push(gnames[i as int]));
            }
        }
        i = i + 1;
    }
    proof {
        assert(gnames.take(gnames.len() as int) =~= gnames);
        assert(exists@.take(exists@.len() as int) =~= exists@);
    }
    r
}

/// Filtering `names + [n]` keeps the filtered prefix and appends `n` when
/// its file exists.
pub proof fn lemma_existing_in_order_snoc(names: Seq<Seq<char>>, exists: Seq<bool>, n: Seq<char>, e: bool)
    requires
        names.len() == exists.len(),
    ensures
        spec_existing_in_order(names.push(n), exists.push(e)) == if e {
            spec_existing_in_order(names, exists).push(n)
        } else {
            spec_existing_in_order(names, exists)
        },
    decreases names.len(),
{
    reveal_with_fuel(spec_existing_in_order, 3);
    if names.len() == 0 {
        if e {
            assert(spec_existing_in_order(names.push(n), exists.push(e))
                =~= spec_existing_in_order(names, exists).push(n));
        } else {
            assert(spec_existing_in_order(names.push(n), exists.push(e))
                =~= spec_existing_in_order(names, exists));
        }
    } else {
        lemma_existing_in_order_snoc(names.drop_first(), exists.drop_first(), n, e);
        assert(names.push(n).drop_first() =~= names.drop_first().push(n));
        assert(exists.push(e).drop_first() =~= exists.drop_first().push(e));
        if e {
            assert(spec_existing_in_order(names.push(n), exists.push(e))
                =~= spec_existing_in_order(names, exists).push(n));
        } else {
            assert(spec_existing_in_order(names.push(n), exists.push(e))
                =~= spec_existing_in_order(names, exists));
        }
    }
}

/// Pool decision: an existing session is reused exactly when it is still
/// connected; otherwise a new one is built and takes its place.
pub fn should_reuse_session(existing: Option<&ConnectionState>) -> (r: bool)
    ensures
        r == (existing matches Some(s) && s@ is Connected),
{
    match existing {
        Some(s) => s.is_connected(),
        None => false,
    }
}

} // verus!
