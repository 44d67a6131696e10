use remote_term::parse::parse_connection_text;
use remote_term::parse::parse_ssh_host_string;
use remote_term::parse::parse_ssh_string;

#[test]
fn test_parse_ssh_string_basic() {
    let config = parse_ssh_string("root@192.168.1.100").unwrap();
    assert_eq!(config.host, "192.168.1.100");
    assert_eq!(config.port, 22);
    assert_eq!(config.username, Some("root".to_string()));
}

#[test]
fn test_parse_ssh_string_with_port() {
    let config = parse_ssh_string("admin@example.com:2222").unwrap();
    assert_eq!(config.host, "example.com");
    assert_eq!(config.port, 2222);
    assert_eq!(config.username, Some("admin".to_string()));
}

#[test]
fn test_parse_ssh_string_empty() {
    let result = parse_ssh_string("");
    assert!(result.is_err());
    assert_eq!(result.unwrap_err(), "Connection string required");
}

#[test]
fn test_parse_ssh_string_no_at() {
    let result = parse_ssh_string("hostname");
    assert!(result.is_err());
    assert_eq!(result.unwrap_err(), "Format: user@host[:port]");
}

#[test]
fn test_parse_ssh_string_invalid_port() {
    let result = parse_ssh_string("user@host:notaport");
    assert!(result.is_err());
    assert_eq!(result.unwrap_err(), "Invalid port number");
}

#[test]
fn test_parse_ssh_string_empty_username() {
    let result = parse_ssh_string("@host");
    assert!(result.is_err());
    assert_eq!(result.unwrap_err(), "Username and host required");
}

#[test]
fn test_parse_ssh_string_empty_host() {
    let result = parse_ssh_string("user@");
    assert!(result.is_err());
    assert_eq!(result.unwrap_err(), "Username and host required");
}

#[test]
fn test_parse_ssh_string_whitespace() {
    let config = parse_ssh_string("  user@host  ").unwrap();
    assert_eq!(config.host, "host");
    assert_eq!(config.username, Some("user".to_string()));
}

#[test]
fn test_parse_ssh_string_port_overflow() {
    let result = parse_ssh_string("user@host:65536");
    assert!(result.is_err());
    assert_eq!(result.unwrap_err(), "Invalid port number");
    let config = parse_ssh_string("user@host:65535").unwrap();
    assert_eq!(config.port, 65535);
}

#[test]
fn test_parse_connection_text_forms() {
    let text = "10.0.0.1\n192.168.1.5:2323\n172.16.0.9 admin secret\nnot an entry\nhello";
    let found = parse_connection_text(text);
    assert_eq!(found.len(), 3);
    assert_eq!(found[0].host, "10.0.0.1");
    assert_eq!(found[0].port, None);
    assert_eq!(found[1].host, "192.168.1.5");
    assert_eq!(found[1].port, Some(2323));
    assert_eq!(found[2].host, "172.16.0.9");
    assert_eq!(found[2].port, None);
    assert_eq!(found[2].username, Some("admin".to_string()));
    assert_eq!(found[2].password, Some("secret".to_string()));
}

#[test]
fn test_parse_connection_text_rejects_non_addresses() {
    assert!(parse_connection_text("").is_empty());
    assert!(parse_connection_text("hostname\nfoo bar\n1.2.3").is_empty());
    assert!(parse_connection_text("999.1.1.1").is_empty());
    assert!(parse_connection_text("1.2.3.4 too many tokens here").is_empty());
}

#[test]
fn test_parse_ssh_host_string_forms() {
    assert_eq!(parse_ssh_host_string("10.0.0.1"), ("10.0.0.1".to_string(), 22, None));
    assert_eq!(
        parse_ssh_host_string("10.0.0.1:2222"),
        ("10.0.0.1".to_string(), 2222, None),
    );
    assert_eq!(
        parse_ssh_host_string("admin@10.0.0.1:23"),
        ("10.0.0.1".to_string(), 23, Some("admin".to_string())),
    );
    // A colon suffix that is no port keeps the whole string as the host.
    assert_eq!(
        parse_ssh_host_string("host:notaport"),
        ("host:notaport".to_string(), 22, None),
    );
    assert_eq!(
        parse_ssh_host_string("  user@box  "),
        ("box".to_string(), 22, Some("user".to_string())),
    );
}
