use remote_term::telnet::TelnetNegotiator;
use remote_term::telnet::WinSize;
use remote_term::telnet::escape_data_for_send;
use remote_term::telnet::DO;
use remote_term::telnet::DONT;
use remote_term::telnet::IAC;
use remote_term::telnet::OPT_ECHO;
use remote_term::telnet::OPT_NAWS;
use remote_term::telnet::OPT_TERMINAL_TYPE;
use remote_term::telnet::SB;
use remote_term::telnet::SB_IS;
use remote_term::telnet::SB_SEND;
use remote_term::telnet::SE;
use remote_term::telnet::WILL;
use remote_term::telnet::WONT;

#[test]
fn test_plain_data_passes_through() {
    let mut negotiator = TelnetNegotiator::new("xterm-256color");
    let result = negotiator.process_incoming(b"hello world");
    assert_eq!(result.data, b"hello world");
    assert!(result.responses.is_empty());
}

#[test]
fn test_iac_escape() {
    let mut negotiator = TelnetNegotiator::new("xterm-256color");
    let result = negotiator.process_incoming(&[b'a', IAC, IAC, b'b']);
    assert_eq!(result.data, &[b'a', IAC, b'b']);
}

#[test]
fn test_will_echo_response() {
    let mut negotiator = TelnetNegotiator::new("xterm-256color");
    let result = negotiator.process_incoming(&[IAC, WILL, OPT_ECHO]);
    assert!(result.data.is_empty());
    assert_eq!(result.responses, &[IAC, DO, OPT_ECHO]);
}

#[test]
fn test_do_terminal_type_response() {
    let mut negotiator = TelnetNegotiator::new("xterm-256color");
    let result = negotiator.process_incoming(&[IAC, DO, OPT_TERMINAL_TYPE]);
    assert!(result.data.is_empty());
    assert_eq!(result.responses, &[IAC, WILL, OPT_TERMINAL_TYPE]);
}

#[test]
fn test_terminal_type_subnegotiation() {
    let mut negotiator = TelnetNegotiator::new("xterm-256color");
    // First enable terminal type
    let _ = negotiator.process_incoming(&[IAC, DO, OPT_TERMINAL_TYPE]);

    // Then request terminal type
    let result = negotiator.process_incoming(&[IAC, SB, OPT_TERMINAL_TYPE, SB_SEND, IAC, SE]);

    let mut expected = vec![IAC, SB, OPT_TERMINAL_TYPE, SB_IS];
    expected.extend(b"xterm-256color");
    expected.extend([IAC, SE]);

    assert_eq!(result.responses, expected);
}

#[test]
fn test_naws_negotiation() {
    let mut negotiator = TelnetNegotiator::new("xterm-256color");

    // Server sends DO NAWS
    let result = negotiator.process_incoming(&[IAC, DO, OPT_NAWS]);
    assert_eq!(result.responses, &[IAC, WILL, OPT_NAWS]);
    assert!(negotiator.is_naws_enabled());

    // Build NAWS packet
    let size = WinSize { num_cols: 80, num_lines: 24, cell_width: 8, cell_height: 16 };
    let naws = negotiator.build_naws(size);

    // Expected: IAC SB NAWS 0 80 0 24 IAC SE
    assert_eq!(naws, &[IAC, SB, OPT_NAWS, 0, 80, 0, 24, IAC, SE]);
}

#[test]
fn test_escape_data_for_send() {
    let data = &[b'a', IAC, b'b'];
    let escaped = escape_data_for_send(data);
    assert_eq!(escaped, &[b'a', IAC, IAC, b'b']);
}

#[test]
fn test_naws_before_negotiation_is_empty() {
    let negotiator = TelnetNegotiator::new("xterm-256color");
    let size = WinSize { num_cols: 80, num_lines: 24, cell_width: 8, cell_height: 16 };
    assert!(negotiator.build_naws(size).is_empty());
    assert!(!negotiator.is_naws_enabled());
}

#[test]
fn test_naws_escapes_dimension_bytes() {
    let mut negotiator = TelnetNegotiator::new("xterm-256color");
    let _ = negotiator.process_incoming(&[IAC, DO, OPT_NAWS]);
    // 0xFF00 columns: the high byte 0xFF must be doubled inside the packet.
    let size = WinSize { num_cols: 0xFF00, num_lines: 24, cell_width: 8, cell_height: 16 };
    let naws = negotiator.build_naws(size);
    assert_eq!(naws, &[IAC, SB, OPT_NAWS, 0xFF, 0xFF, 0, 0, 24, IAC, SE]);
}

#[test]
fn test_escaped_iac_in_data_with_neighbors() {
    let mut negotiator = TelnetNegotiator::new("xterm-256color");
    let result = negotiator.process_incoming(&[0x61, 0xFF, 0xFF, 0x62]);
    assert_eq!(result.data, &[0x61, 0xFF, 0x62]);
    assert!(result.responses.is_empty());
}

#[test]
fn test_will_unknown_option_refused() {
    let mut negotiator = TelnetNegotiator::new("xterm-256color");
    let result = negotiator.process_incoming(&[IAC, WILL, 42]);
    assert!(result.data.is_empty());
    assert_eq!(result.responses, &[IAC, DONT, 42]);
}

#[test]
fn test_do_unknown_option_refused() {
    let mut negotiator = TelnetNegotiator::new("xterm-256color");
    let result = negotiator.process_incoming(&[IAC, DO, 42]);
    assert!(result.data.is_empty());
    assert_eq!(result.responses, &[IAC, WONT, 42]);
}

#[test]
fn test_wont_and_dont_are_silent() {
    let mut negotiator = TelnetNegotiator::new("xterm-256color");
    let result = negotiator.process_incoming(&[IAC, WONT, OPT_ECHO, IAC, DONT, OPT_NAWS]);
    assert!(result.data.is_empty());
    assert!(result.responses.is_empty());
}

#[test]
fn test_unknown_iac_command_ignored() {
    let mut negotiator = TelnetNegotiator::new("xterm-256color");
    let result = negotiator.process_incoming(&[IAC, 0x80, b'x']);
    assert_eq!(result.data, &[b'x']);
    assert!(result.responses.is_empty());
}

#[test]
fn test_unfinished_subnegotiation_discards_payload() {
    let mut negotiator = TelnetNegotiator::new("xterm-256color");
    // A subnegotiation that never ends: its payload must never reach the data.
    let result = negotiator.process_incoming(&[IAC, SB, OPT_TERMINAL_TYPE, 1, 2, 3]);
    assert!(result.data.is_empty());
    assert!(result.responses.is_empty());
    // Once IAC SE arrives, parsing resumes with the terminal-type answer.
    let result = negotiator.process_incoming(&[IAC, SE, b'z']);
    assert_eq!(result.data, &[b'z']);
}

#[test]
fn test_other_subnegotiations_are_dropped() {
    let mut negotiator = TelnetNegotiator::new("xterm-256color");
    let result = negotiator.process_incoming(&[IAC, SB, OPT_NAWS, 0, 80, 0, 24, IAC, SE]);
    assert!(result.data.is_empty());
    assert!(result.responses.is_empty());
}

#[test]
fn test_transparency_of_plain_bytes() {
    // Negotiator transparency: bytes without 0xFF pass through unchanged
    // with no responses.
    let mut negotiator = TelnetNegotiator::new("xterm-256color");
    let input: Vec<u8> = (0u8..=0xFEu8).collect();
    let result = negotiator.process_incoming(&input);
    assert_eq!(result.data, input);
    assert!(result.responses.is_empty());
}

#[test]
fn test_escape_round_trip_through_negotiator() {
    // IAC round-trip: feeding escape(B) back yields exactly B.
    let mut negotiator = TelnetNegotiator::new("xterm-256color");
    let payload: Vec<u8> = vec![0x00, 0xFF, b'a', 0xFF, 0xFF, b'b', 0x7F];
    let escaped = escape_data_for_send(&payload);
    let result = negotiator.process_incoming(&escaped);
    assert_eq!(result.data, payload);
    assert!(result.responses.is_empty());
}
