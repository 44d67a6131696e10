//! Conversions between the saved session configurations of the store and
//! the live connection configurations.

use vstd::prelude::*;

use crate::ssh::SshAuthConfig;
use crate::ssh::SshAuthView;
use crate::ssh::SshConfig;
use crate::store::view_env;
use crate::store::view_opt_string;
use crate::store::AuthMethod;
use crate::store::AuthMethodView;
use crate::store::SshSessionConfig;
use crate::store::TelnetSessionConfig;
use crate::telnet::TelnetConfig;

verus! {

/// The live authentication configuration a saved method maps to:
/// Interactive and Agent both fall back to automatic key discovery.
pub open spec fn spec_auth_to_connection(a: AuthMethodView) -> SshAuthView {
    match a {
        AuthMethodView::Interactive => SshAuthView::Auto,
        AuthMethodView::Password(p) => SshAuthView::Password(p),
        AuthMethodView::PrivateKey { path, passphrase } => SshAuthView::PrivateKey {
            path,
            passphrase,
        },
        AuthMethodView::Agent => SshAuthView::Auto,
    }
}

/// The saved method a live authentication configuration maps back to.
pub open spec fn spec_auth_to_session(a: SshAuthView) -> AuthMethodView {
    match a {
        SshAuthView::Auto => AuthMethodView::Interactive,
        SshAuthView::Password(p) => AuthMethodView::Password(p),
        SshAuthView::PrivateKey { path, passphrase } => AuthMethodView::PrivateKey {
            path,
            passphrase,
        },
    }
}

/// Round trip of the authentication conversions: every method except Agent
/// comes back unchanged; Agent comes back as Interactive, since both map to
/// automatic key discovery.
pub proof fn lemma_auth_conversion_round_trip(a: AuthMethodView)
    ensures
        spec_auth_to_session(spec_auth_to_connection(a)) == (match a {
            AuthMethodView::Agent => AuthMethodView::Interactive,
            other => other,
        }),
{
}

/// Clone an optional string.
fn clone_opt_string(o: &Option<String>) -> (r: Option<String>)
    ensures
        view_opt_string(r) == view_opt_string(*o),
{
    match o {
        Some(s) => Some(s.clone()),
        None => None,
    }
}

/// Clone an environment pair list.
fn clone_env(env: &Vec<(String, String)>) -> (r: Vec<(String, String)>)
    ensures
        view_env(r@) == view_env(env@),
{
    let mut r: Vec<(String, String)> = Vec::new();
    let mut i: usize = 0;
    while i < env.len()
        invariant
            i <= env@.len(),
            r@.len() == i,
            forall|k: int| 0 <= k < i ==> (r@[k].0@, r@[k].1@) == (env@[k].0@, env@[k].1@),
        decreases env@.len() - i,
    {
        let pair = (env[i].0.clone(), env[i].1.clone());
        r.push(pair);
        i = i + 1;
    }
    proof {
        assert(view_env(r@) =~= view_env(env@));
    }
    r
}

/// Convert a saved authentication method into the live configuration.
pub fn auth_to_connection(a: &AuthMethod) -> (r: SshAuthConfig)
    ensures
        r@ == spec_auth_to_connection(a@),
{
    match a {
        AuthMethod::Interactive => SshAuthConfig::Auto,
        AuthMethod::Password { password } => SshAuthConfig::Password(password.clone()),
        AuthMethod::PrivateKey { path, passphrase } => SshAuthConfig::PrivateKey {
            path: path.clone(),
            passphrase: match passphrase {
                Some(p) => Some(p.clone()),
                None => None,
            },
        },
        AuthMethod::Agent => SshAuthConfig::Auto,
    }
}

/// Convert a live authentication configuration back into a saved method.
pub fn auth_to_session(a: &SshAuthConfig) -> (r: AuthMethod)
    ensures
        r@ == spec_auth_to_session(a@),
{
    match a {
        SshAuthConfig::Auto => AuthMethod::Interactive,
        SshAuthConfig::Password(password) => AuthMethod::Password {
            password: password.clone(),
        },
        SshAuthConfig::PrivateKey { path, passphrase } => AuthMethod::PrivateKey {
            path: path.clone(),
            passphrase: match passphrase {
                Some(p) => Some(p.clone()),
                None => None,
            },
        },
    }
}

/// Build the live SSH configuration a saved session asks for: the same
/// endpoint, username, environment, keepalive and initial command, with the
/// authentication method mapped by `spec_auth_to_connection`.
pub fn ssh_session_to_connection(c: &SshSessionConfig) -> (r: SshConfig)
    ensures
        r.host@ == c.host@,
        r.port == c.port,
        view_opt_string(r.username) == view_opt_string(c.username),
        r.auth@ == spec_auth_to_connection(c.auth@),
        view_env(r.env@) == view_env(c.env@),
        r.keepalive_interval_secs == c.keepalive_interval_secs,
        view_opt_string(r.initial_command) == view_opt_string(c.initial_command),
{
    SshConfig {
        host: c.host.clone(),
        port: c.port,
        username: clone_opt_string(&c.username),
        auth: auth_to_connection(&c.auth),
        env: clone_env(&c.env),
        keepalive_interval_secs: c.keepalive_interval_secs,
        initial_command: clone_opt_string(&c.initial_command),
    }
}

/// Build the saved session configuration a live SSH configuration maps to.
pub fn ssh_connection_to_session(c: &SshConfig) -> (r: SshSessionConfig)
    ensures
        r.host@ == c.host@,
        r.port == c.port,
        view_opt_string(r.username) == view_opt_string(c.username),
        r.auth@ == spec_auth_to_session(c.auth@),
        view_env(r.env@) == view_env(c.env@),
        r.keepalive_interval_secs == c.keepalive_interval_secs,
        view_opt_string(r.initial_command) == view_opt_string(c.initial_command),
{
    SshSessionConfig {
        host: c.host.clone(),
        port: c.port,
        username: clone_opt_string(&c.username),
        auth: auth_to_session(&c.auth),
        env: clone_env(&c.env),
        keepalive_interval_secs: c.keepalive_interval_secs,
        initial_command: clone_opt_string(&c.initial_command),
    }
}

/// Build the live Telnet configuration a saved session asks for: the same
/// endpoint, credentials and encoding, with the default terminal type.
pub fn telnet_session_to_connection(c: &TelnetSessionConfig) -> (r: TelnetConfig)
    ensures
        r.host@ == c.host@,
        r.port == c.port,
        view_opt_string(r.username) == view_opt_string(c.username),
        view_opt_string(r.password) == view_opt_string(c.password),
        view_opt_string(r.encoding) == view_opt_string(c.encoding),
        r.terminal_type@ == "xterm-256color"@,
{
    TelnetConfig {
        host: c.host.clone(),
        port: c.port,
        username: clone_opt_string(&c.username),
        password: clone_opt_string(&c.password),
        encoding: clone_opt_string(&c.encoding),
        terminal_type: "xterm-256color".to_owned(),
    }
}

} // verus!
