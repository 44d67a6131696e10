//! Connection and session-management core for a terminal application that
//! attaches local interactive terminals to remote hosts over SSH or Telnet.
//!
//! The crate covers the Telnet option-negotiation state machine, the
//! connection and driver decision logic, the SSH configuration and
//! authentication decisions, the hierarchical session store, and the
//! connection-string parsers.

use vstd::prelude::*;

pub mod convert;
pub mod driver;
pub mod ids;
pub mod parse;
pub mod ssh;
pub mod store;
pub mod telnet;

verus! {

/// Abstract value of a `ConnectionState`.
pub ghost enum ConnState {
    Connecting,
    Connected,
    Disconnected,
    Error(Seq<char>),
}

/// A terminal state: once it is reached, `Connected` never returns for the
/// same connection.
pub open spec fn conn_failed(s: ConnState) -> bool {
    s is Disconnected || s is Error
}

/// State of a terminal connection.
#[derive(Clone, Debug)]
pub enum ConnectionState {
    Connecting,
    Connected,
    Disconnected,
    Error(String),
}

impl View for ConnectionState {
    type V = ConnState;

    open spec fn view(&self) -> ConnState {
        match self {
            ConnectionState::Connecting => ConnState::Connecting,
            ConnectionState::Connected => ConnState::Connected,
            ConnectionState::Disconnected => ConnState::Disconnected,
            ConnectionState::Error(msg) => ConnState::Error(msg@),
        }
    }
}

impl ConnectionState {
    /// True exactly on the `Connected` variant.
    pub fn is_connected(&self) -> (r: bool)
        ensures
            r == (self@ is Connected),
    {
        match self {
            ConnectionState::Connected => true,
            _ => false,
        }
    }
}

} // verus!
