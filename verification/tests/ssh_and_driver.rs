use remote_term::convert::auth_to_connection;
use remote_term::convert::auth_to_session;
use remote_term::convert::ssh_session_to_connection;
use remote_term::convert::telnet_session_to_connection;
use remote_term::driver::initial_command_payload;
use remote_term::driver::ChannelCommand;
use remote_term::driver::InboundBuffer;
use remote_term::driver::SshChannelEvent;
use remote_term::driver::SshDriver;
use remote_term::driver::TelnetChannelCommand;
use remote_term::driver::TelnetDriver;
use remote_term::driver::TerminalEvent;
use remote_term::ssh::auto_auth_failure_message;
use remote_term::ssh::check_auth_result;
use remote_term::ssh::default_ssh_key_names;
use remote_term::ssh::existing_in_order;
use remote_term::ssh::resolve_username;
use remote_term::ssh::should_reuse_session;
use remote_term::ssh::AuthOutcome;
use remote_term::ssh::AuthStage;
use remote_term::ssh::SshAuthConfig;
use remote_term::ssh::SshConfig;
use remote_term::ssh::SshHostKey;
use remote_term::store::AuthMethod;
use remote_term::store::SshSessionConfig;
use remote_term::store::TelnetSessionConfig;
use remote_term::telnet::WinSize;
use remote_term::telnet::DO;
use remote_term::telnet::IAC;
use remote_term::telnet::OPT_NAWS;
use remote_term::telnet::SB;
use remote_term::telnet::SE;
use remote_term::telnet::WILL;
use remote_term::ConnectionState;

#[test]
fn test_ssh_config_conversion() {
    let session_config = SshSessionConfig {
        host: "example.com".into(),
        port: 22,
        username: Some("user".into()),
        auth: AuthMethod::Password { password: "pass".into() },
        env: vec![("TERM".into(), "xterm".into())],
        keepalive_interval_secs: Some(60),
        initial_command: Some("htop".into()),
    };

    let ssh_config: SshConfig = ssh_session_to_connection(&session_config);

    assert_eq!(ssh_config.host, "example.com");
    assert_eq!(ssh_config.port, 22);
    assert_eq!(ssh_config.username, Some("user".into()));
    assert!(matches!(ssh_config.auth, SshAuthConfig::Password(_)));
    assert_eq!(ssh_config.keepalive_interval_secs, Some(60));
    assert_eq!(ssh_config.initial_command, Some("htop".into()));
}

#[test]
fn test_auth_method_conversion_roundtrip() {
    let methods = vec![
        AuthMethod::Interactive,
        AuthMethod::Password { password: "secret".into() },
        AuthMethod::PrivateKey {
            path: "/home/user/.ssh/id_rsa".into(),
            passphrase: Some("phrase".into()),
        },
        AuthMethod::Agent,
    ];

    for method in methods {
        let ssh_auth: SshAuthConfig = auth_to_connection(&method);
        let back: AuthMethod = auth_to_session(&ssh_auth);

        match (&method, &back) {
            (AuthMethod::Interactive, AuthMethod::Interactive) => {}
            (AuthMethod::Agent, AuthMethod::Interactive) => {}
            (AuthMethod::Password { password: p1 }, AuthMethod::Password { password: p2 }) => {
                assert_eq!(p1, p2);
            }
            (
                AuthMethod::PrivateKey { path: p1, passphrase: pp1 },
                AuthMethod::PrivateKey { path: p2, passphrase: pp2 },
            ) => {
                assert_eq!(p1, p2);
                assert_eq!(pp1, pp2);
            }
            _ => panic!("Conversion mismatch"),
        }
    }
}

#[test]
fn test_telnet_session_config_conversion() {
    let config = TelnetSessionConfig::new("legacy.host.com", 23).with_credentials(
        "admin", "secret",
    );
    let telnet = telnet_session_to_connection(&config);
    assert_eq!(telnet.host, "legacy.host.com");
    assert_eq!(telnet.port, 23);
    assert_eq!(telnet.username, Some("admin".to_string()));
    assert_eq!(telnet.password, Some("secret".to_string()));
    assert_eq!(telnet.terminal_type, "xterm-256color");
}

#[test]
fn test_host_key_equality() {
    let a = SshConfig::new("example.com", 22).with_username("root");
    let b = SshConfig::new("example.com", 22).with_username("root");
    let c = SshConfig::new("example.com", 2222).with_username("root");
    let d = SshConfig::new("example.com", 22);
    assert_eq!(SshHostKey::from_config(&a), SshHostKey::from_config(&b));
    assert_ne!(SshHostKey::from_config(&a), SshHostKey::from_config(&c));
    assert_ne!(SshHostKey::from_config(&a), SshHostKey::from_config(&d));
}

#[test]
fn test_resolve_username_precedence() {
    let configured = Some("cfg".to_string());
    let user = Some("env_user".to_string());
    let username = Some("env_username".to_string());
    assert_eq!(resolve_username(&configured, &user, &username), "cfg");
    assert_eq!(resolve_username(&None, &user, &username), "env_user");
    assert_eq!(resolve_username(&None, &None, &username), "env_username");
    assert_eq!(resolve_username(&None, &None, &None), "root");
}

#[test]
fn test_check_auth_result_messages() {
    assert!(check_auth_result(AuthOutcome::Success, AuthStage::Password).is_ok());

    let rejected = check_auth_result(
        AuthOutcome::Failure {
            remaining_methods: vec!["publickey".to_string(), "password".to_string()],
            partial_success: false,
        },
        AuthStage::Password,
    );
    assert_eq!(
        rejected.unwrap_err(),
        "password authentication rejected, remaining methods: publickey, password",
    );

    let partial = check_auth_result(
        AuthOutcome::Failure { remaining_methods: vec!["password".to_string()], partial_success: true },
        AuthStage::PublicKey,
    );
    assert_eq!(
        partial.unwrap_err(),
        "public key authentication partial success, remaining methods: password",
    );

    assert_eq!(
        auto_auth_failure_message(),
        "auto authentication failed: no default key files could authenticate",
    );
}

#[test]
fn test_auto_key_discovery_order() {
    let names = default_ssh_key_names();
    assert_eq!(names, vec!["id_ed25519", "id_rsa", "id_ecdsa", "id_dsa"]);

    // Only id_rsa present: id_ed25519 is skipped, id_rsa is tried first.
    let exists = vec![false, true, false, false];
    let candidates = existing_in_order(&names, &exists);
    assert_eq!(candidates, vec!["id_rsa"]);

    // None present: nothing to try.
    let none = vec![false, false, false, false];
    assert!(existing_in_order(&names, &none).is_empty());
}

#[test]
fn test_pool_reuse_decision() {
    assert!(should_reuse_session(Some(&ConnectionState::Connected)));
    assert!(!should_reuse_session(Some(&ConnectionState::Disconnected)));
    assert!(!should_reuse_session(Some(&ConnectionState::Connecting)));
    assert!(!should_reuse_session(None));
}

#[test]
fn test_telnet_driver_write_ordering() {
    // Ordering: Write(a) then Write(b) reach the peer as
    // escape(a) ++ escape(b).
    let size = WinSize { num_cols: 80, num_lines: 24, cell_width: 8, cell_height: 16 };
    let mut driver = TelnetDriver::new("xterm-256color", size);
    let a = driver.on_command(TelnetChannelCommand::Write(vec![b'x', 0xFF]));
    let b = driver.on_command(TelnetChannelCommand::Write(vec![b'y']));
    assert!(!a.exit);
    assert!(!b.exit);
    let mut sent = a.to_peer;
    sent.extend(b.to_peer);
    assert_eq!(sent, vec![b'x', 0xFF, 0xFF, b'y']);
}

#[test]
fn test_telnet_driver_initial_naws_once() {
    let size = WinSize { num_cols: 80, num_lines: 24, cell_width: 8, cell_height: 16 };
    let mut driver = TelnetDriver::new("xterm-256color", size);

    // Resize before negotiation sends nothing.
    let early = driver.on_command(TelnetChannelCommand::Resize(size));
    assert!(early.to_peer.is_empty());

    // DO NAWS answers WILL NAWS and sends the initial size exactly once.
    let ingest = driver.on_socket_bytes(&[IAC, DO, OPT_NAWS]);
    let mut expected = vec![IAC, WILL, OPT_NAWS];
    expected.extend([IAC, SB, OPT_NAWS, 0, 80, 0, 24, IAC, SE]);
    assert_eq!(ingest.to_peer, expected);
    assert!(ingest.to_grid.is_empty());
    assert!(!ingest.wakeup);

    // The close command disconnects and ends the task.
    let close = driver.on_command(TelnetChannelCommand::Close);
    assert!(close.exit);
    assert!(matches!(driver.state(), ConnectionState::Disconnected));
}

#[test]
fn test_telnet_driver_data_reaches_grid() {
    let size = WinSize { num_cols: 80, num_lines: 24, cell_width: 8, cell_height: 16 };
    let mut driver = TelnetDriver::new("xterm-256color", size);
    let ingest = driver.on_socket_bytes(b"hello");
    assert!(ingest.to_peer.is_empty());
    assert_eq!(ingest.to_grid, b"hello");
    assert!(ingest.wakeup);
}

#[test]
fn test_ssh_driver_events() {
    let mut driver = SshDriver::new();
    assert!(matches!(driver.state(), ConnectionState::Connected));

    let write = driver.on_command(ChannelCommand::Write(vec![1, 2, 3]));
    assert_eq!(write.data, Some(vec![1, 2, 3]));
    assert!(!write.exit);

    let data = driver.on_event(SshChannelEvent::Data(vec![4, 5]));
    assert_eq!(data.to_grid, vec![4, 5]);
    assert_eq!(data.event, Some(TerminalEvent::Wakeup));
    assert!(!data.exit);

    let status = driver.on_event(SshChannelEvent::ExitStatus(3));
    assert_eq!(status.event, Some(TerminalEvent::ChildExit(3)));
    assert!(!status.exit);

    let eof = driver.on_event(SshChannelEvent::Eof);
    assert_eq!(eof.event, Some(TerminalEvent::Exit));
    assert!(eof.exit);
    assert!(matches!(driver.state(), ConnectionState::Disconnected));
}

#[test]
fn test_initial_command_payload() {
    let payload = initial_command_payload(&"htop".to_string());
    assert_eq!(payload, b"htop\n");
}

#[test]
fn test_inbound_buffer_drains_destructively() {
    let mut buffer = InboundBuffer::new();
    assert_eq!(buffer.drain(), None);
    buffer.append_bytes(&[1, 2]);
    buffer.append_bytes(&[3]);
    assert_eq!(buffer.drain(), Some(vec![1, 2, 3]));
    assert_eq!(buffer.drain(), None);
}

#[test]
fn test_connection_state_is_connected() {
    assert!(ConnectionState::Connected.is_connected());
    assert!(!ConnectionState::Connecting.is_connected());
    assert!(!ConnectionState::Disconnected.is_connected());
    assert!(!ConnectionState::Error("boom".to_string()).is_connected());
}
