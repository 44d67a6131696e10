//! Decision logic of the connection driver tasks.
//!
//! Each transport-bound connection owns one background task that multiplexes
//! a command channel (user actions) with the peer side (socket reads or SSH
//! channel messages).  The outside work — sockets, channels, awaits — stays
//! with the caller; the functions here decide, for each command or peer
//! event, which bytes to send, which bytes to hand to the terminal grid,
//! which event to raise, and whether the task is done.

use vstd::prelude::*;
use vstd::string::StrSliceExecFns;
use vstd::string::StringExecFns;
use vstd::string::StringSliceAdditionalSpecFns;
use vstd::utf8::encode_utf8;

use crate::conn_failed;
use crate::telnet::NegotiatorModel;
use crate::telnet::ParserState;
use crate::telnet::TelnetNegotiator;
use crate::telnet::WinSize;
use crate::telnet::escape_data_for_send;
use crate::telnet::escaped;
use crate::telnet::naws_packet;
use crate::telnet::run;
use crate::ConnState;
use crate::ConnectionState;

verus! {

/// Event a driver raises toward the terminal grid.
#[derive(Clone, Copy, Debug, PartialEq, Eq, Structural)]
pub enum TerminalEvent {
    /// Inbound bytes were buffered; the grid should drain them.
    Wakeup,
    /// The peer side closed; the connection is over.
    Exit,
    /// The remote child exited with the given status.
    ChildExit(i32),
}

/// Commands sent from the UI to a Telnet driver task.
pub enum TelnetChannelCommand {
    Write(Vec<u8>),
    Resize(WinSize),
    Close,
}

/// Abstract value of a Telnet driver command.
pub ghost enum TelnetCommandView {
    Write(Seq<u8>),
    Resize(WinSize),
    Close,
}

impl View for TelnetChannelCommand {
    type V = TelnetCommandView;

    open spec fn view(&self) -> TelnetCommandView {
        match self {
            TelnetChannelCommand::Write(d) => TelnetCommandView::Write(d@),
            TelnetChannelCommand::Resize(s) => TelnetCommandView::Resize(*s),
            TelnetChannelCommand::Close => TelnetCommandView::Close,
        }
    }
}

/// Mathematical state of a Telnet driver.
pub ghost struct TelnetDriverModel {
    pub neg: NegotiatorModel,
    pub state: ConnState,
    pub sent_initial_naws: bool,
    pub initial_size: WinSize,
}

/// What one command does to a Telnet driver: the new driver state, the bytes
/// owed to the peer, and whether the task exits.
pub open spec fn telnet_on_command_spec(m: TelnetDriverModel, c: TelnetCommandView) -> (
    TelnetDriverModel,
    Seq<u8>,
    bool,
) {
    match c {
        TelnetCommandView::Write(d) => (m, escaped(d), false),
        TelnetCommandView::Resize(s) => (
            m,
            naws_packet(m.neg.naws_enabled, s.num_cols, s.num_lines),
            false,
        ),
        TelnetCommandView::Close => (
            TelnetDriverModel { state: ConnState::Disconnected, ..m },
            Seq::empty(),
            true,
        ),
    }
}

/// What one batch of socket bytes does to a Telnet driver: the new driver
/// state, the bytes owed to the peer (option responses, and the one-time
/// initial NAWS packet right after NAWS becomes enabled), the application
/// bytes owed to the grid, and whether the grid must be woken.
pub open spec fn telnet_on_bytes_spec(m: TelnetDriverModel, input: Seq<u8>) -> (
    TelnetDriverModel,
    Seq<u8>,
    Seq<u8>,
    bool,
) {
    let out = run(m.neg, input);
    let send_naws = out.resp.len() > 0 && !m.sent_initial_naws && out.m.naws_enabled;
    let naws = if send_naws {
        naws_packet(true, m.initial_size.num_cols, m.initial_size.num_lines)
    } else {
        Seq::empty()
    };
    (
        TelnetDriverModel {
            neg: out.m,
            sent_initial_naws: m.sent_initial_naws || send_naws,
            ..m
        },
        out.resp + naws,
        out.data,
        out.data.len() > 0,
    )
}

/// Bytes to send and exit flag decided for one command.
pub struct CommandAction {
    pub to_peer: Vec<u8>,
    pub exit: bool,
}

/// Peer bytes, grid bytes and wakeup flag decided for one socket read.
pub struct IngestAction {
    pub to_peer: Vec<u8>,
    pub to_grid: Vec<u8>,
    pub wakeup: bool,
}

/// The decision core of a Telnet driver task: the negotiator, the connection
/// state, the initial window size, and whether the one-time initial NAWS
/// packet has been sent.
pub struct TelnetDriver {
    negotiator: TelnetNegotiator,
    state: ConnectionState,
    sent_initial_naws: bool,
    initial_size: WinSize,
}

impl View for TelnetDriver {
    type V = TelnetDriverModel;

    closed spec fn view(&self) -> TelnetDriverModel {
        TelnetDriverModel {
            neg: self.negotiator@,
            state: self.state@,
            sent_initial_naws: self.sent_initial_naws,
            initial_size: self.initial_size,
        }
    }
}

impl TelnetDriver {
    /// A fresh driver for a just-connected session.
    pub fn new(terminal_type: &str, initial_size: WinSize) -> (r: Self)
        ensures
            r@ == (TelnetDriverModel {
                neg: NegotiatorModel {
                    state: ParserState::Data,
                    terminal_type: terminal_type.spec_bytes(),
                    sb_option: 0,
                    sb_data: Seq::<u8>::empty(),
                    naws_enabled: false,
                },
                state: ConnState::Connected,
                sent_initial_naws: false,
                initial_size,
            }),
    {
        Self {
            negotiator: TelnetNegotiator::new(terminal_type),
            state: ConnectionState::Connected,
            sent_initial_naws: false,
            initial_size,
        }
    }

    /// The current connection state.
    pub fn state(&self) -> (r: &ConnectionState)
        ensures
            r@ == self@.state,
    {
        &self.state
    }

    /// Decide one user command: Write sends the escaped bytes, Resize sends
    /// the NAWS packet (empty while NAWS is not negotiated), Close
    /// disconnects and ends the task.
    pub fn on_command(&mut self, cmd: TelnetChannelCommand) -> (r: CommandAction)
        ensures
            ({
                let (m2, out, exit) = telnet_on_command_spec(old(self)@, cmd@);
                &&& final(self)@ == m2
                &&& r.to_peer@ == out
                &&& r.exit == exit
            }),
    {
        match cmd {
            TelnetChannelCommand::Write(d) => {
                let to_peer = escape_data_for_send(d.as_slice());
                CommandAction { to_peer, exit: false }
            },
            TelnetChannelCommand::Resize(s) => {
                let to_peer = self.negotiator.build_naws(s);
                CommandAction { to_peer, exit: false }
            },
            TelnetChannelCommand::Close => {
                self.state = ConnectionState::Disconnected;
                CommandAction { to_peer: Vec::new(), exit: true }
            },
        }
    }

    /// Decide one batch of socket bytes: feed them through the negotiator,
    /// return its responses (plus the one-time initial NAWS packet right
    /// after NAWS becomes enabled) for the peer and the application data for
    /// the grid.
    pub fn on_socket_bytes(&mut self, data: &[u8]) -> (r: IngestAction)
        ensures
            ({
                let (m2, to_peer, to_grid, wakeup) = telnet_on_bytes_spec(old(self)@, data@);
                &&& final(self)@ == m2
                &&& r.to_peer@ == to_peer
                &&& r.to_grid@ == to_grid
                &&& r.wakeup == wakeup
            }),
    {
        let result = self.negotiator.process_incoming(data);
        let mut to_peer = result.responses;
        if to_peer.len() > 0 && !self.sent_initial_naws && self.negotiator.is_naws_enabled() {
            let mut naws = self.negotiator.build_naws(self.initial_size);
            to_peer.append(&mut naws);
            self.sent_initial_naws = true;
        }
        let wakeup = result.data.len() > 0;
        proof {
            let (_, spec_to_peer, _, _) = telnet_on_bytes_spec(old(self)@, data@);
            assert(to_peer@ =~= spec_to_peer);
        }
        IngestAction { to_peer, to_grid: result.data, wakeup }
    }

    /// The peer closed the connection: record the disconnect; the caller
    /// raises `Exit` and ends the task.
    pub fn on_peer_eof(&mut self)
        ensures
            final(self)@ == (TelnetDriverModel { state: ConnState::Disconnected, ..old(self)@ }),
    {
        self.state = ConnectionState::Disconnected;
    }

    /// A socket read or write failed: record the error message; the caller
    /// ends the task.
    pub fn on_error(&mut self, msg: String)
        ensures
            final(self)@ == (TelnetDriverModel { state: ConnState::Error(msg@), ..old(self)@ }),
    {
        self.state = ConnectionState::Error(msg);
    }
}

/// The peer bytes that a sequence of commands makes the driver send, in
/// command order.
pub open spec fn telnet_commands_to_peer(m: TelnetDriverModel, cmds: Seq<TelnetCommandView>) -> Seq<
    u8,
>
    decreases cmds.len(),
{
    if cmds.len() == 0 {
        Seq::empty()
    } else {
        let (m2, out, _) = telnet_on_command_spec(m, cmds[0]);
        out + telnet_commands_to_peer(m2, cmds.drop_first())
    }
}

/// The escapings of a sequence of buffers, concatenated in order.
pub open spec fn escaped_concat(ws: Seq<Seq<u8>>) -> Seq<u8>
    decreases ws.len(),
{
    if ws.len() == 0 {
        Seq::empty()
    } else {
        escaped(ws[0]) + escaped_concat(ws.drop_first())
    }
}

/// Ordering: a driver that receives `Write(a1), Write(a2), ...` in that
/// order and no interleaved Close sends the peer exactly
/// `escape(a1) ++ escape(a2) ++ ...` — user writes reach the peer complete
/// and in submission order.
pub proof fn lemma_write_ordering(m: TelnetDriverModel, ws: Seq<Seq<u8>>)
    ensures
        telnet_commands_to_peer(m, ws.map_values(|d: Seq<u8>| TelnetCommandView::Write(d)))
            == escaped_concat(ws),
    decreases ws.len(),
{
    let cmds = ws.map_values(|d: Seq<u8>| TelnetCommandView::Write(d));
    if ws.len() == 0 {
        assert(telnet_commands_to_peer(m, cmds) =~= escaped_concat(ws));
    } else {
        lemma_write_ordering(m, ws.drop_first());
        assert(cmds.drop_first() =~= ws.drop_first().map_values(
            |d: Seq<u8>| TelnetCommandView::Write(d),
        ));
        assert(telnet_commands_to_peer(m, cmds) =~= escaped_concat(ws));
    }
}

/// Failure is terminal for the Telnet driver: no command brings a
/// disconnected or failed driver back to `Connected`.
pub proof fn lemma_telnet_failure_monotonic(m: TelnetDriverModel, c: TelnetCommandView, input: Seq<u8>)
    ensures
        conn_failed(m.state) ==> conn_failed(telnet_on_command_spec(m, c).0.state),
        conn_failed(m.state) ==> conn_failed(telnet_on_bytes_spec(m, input).0.state),
{
}

/// Commands sent from the UI to an SSH channel driver task.
pub enum ChannelCommand {
    Write(Vec<u8>),
    Resize(WinSize),
    Close,
}

/// Abstract value of an SSH driver command.
pub ghost enum ChannelCommandView {
    Write(Seq<u8>),
    Resize(WinSize),
    Close,
}

impl View for ChannelCommand {
    type V = ChannelCommandView;

    open spec fn view(&self) -> ChannelCommandView {
        match self {
            ChannelCommand::Write(d) => ChannelCommandView::Write(d@),
            ChannelCommand::Resize(s) => ChannelCommandView::Resize(*s),
            ChannelCommand::Close => ChannelCommandView::Close,
        }
    }
}

/// A message from the peer side of an SSH channel, as the driver reads it.
pub enum SshChannelEvent {
    /// Ordinary channel data.
    Data(Vec<u8>),
    /// Extended channel data (stderr).
    ExtendedData(Vec<u8>),
    /// The peer sent EOF.
    Eof,
    /// The remote process exited with a status.
    ExitStatus(u32),
    /// The peer closed the channel.
    Closed,
    /// The channel message stream ended.
    Finished,
    /// Any other channel message; ignored.
    Other,
}

/// Abstract value of an SSH channel event.
pub ghost enum SshChannelEventView {
    Data(Seq<u8>),
    ExtendedData(Seq<u8>),
    Eof,
    ExitStatus(u32),
    Closed,
    Finished,
    Other,
}

impl View for SshChannelEvent {
    type V = SshChannelEventView;

    open spec fn view(&self) -> SshChannelEventView {
        match self {
            SshChannelEvent::Data(d) => SshChannelEventView::Data(d@),
            SshChannelEvent::ExtendedData(d) => SshChannelEventView::ExtendedData(d@),
            SshChannelEvent::Eof => SshChannelEventView::Eof,
            SshChannelEvent::ExitStatus(n) => SshChannelEventView::ExitStatus(*n),
            SshChannelEvent::Closed => SshChannelEventView::Closed,
            SshChannelEvent::Finished => SshChannelEventView::Finished,
            SshChannelEvent::Other => SshChannelEventView::Other,
        }
    }
}

/// The channel operation decided for one SSH command.
pub struct SshCommandAction {
    /// Bytes to hand to the channel, unchanged and in order.
    pub data: Option<Vec<u8>>,
    /// A window-change request to make.
    pub window_change: Option<WinSize>,
    /// Close the channel and end the task.
    pub exit: bool,
}

/// The effect decided for one SSH channel message.
pub struct SshEventAction {
    /// Bytes to append to the inbound buffer.
    pub to_grid: Vec<u8>,
    /// Event to raise toward the grid.
    pub event: Option<TerminalEvent>,
    /// End the task.
    pub exit: bool,
}

/// What one command does to an SSH driver: the new connection state and the
/// channel operation owed.  Writes pass through unchanged; Resize asks for a
/// window change; Close disconnects and ends the task.
pub open spec fn ssh_on_command_spec(state: ConnState, c: ChannelCommandView) -> (
    ConnState,
    Option<Seq<u8>>,
    Option<WinSize>,
    bool,
) {
    match c {
        ChannelCommandView::Write(d) => (state, Some(d), None, false),
        ChannelCommandView::Resize(s) => (state, None, Some(s), false),
        ChannelCommandView::Close => (ConnState::Disconnected, None, None, true),
    }
}

/// What one channel message does to an SSH driver: Data and ExtendedData go
/// to the inbound buffer with a Wakeup; Eof, Closed and a finished stream
/// disconnect and end the task (the first two with an Exit event);
/// ExitStatus forwards the status; everything else is ignored.
pub open spec fn ssh_on_event_spec(state: ConnState, ev: SshChannelEventView) -> (
    ConnState,
    Seq<u8>,
    Option<TerminalEvent>,
    bool,
) {
    match ev {
        SshChannelEventView::Data(d) => (state, d, Some(TerminalEvent::Wakeup), false),
        SshChannelEventView::ExtendedData(d) => (state, d, Some(TerminalEvent::Wakeup), false),
        SshChannelEventView::Eof => (ConnState::Disconnected, Seq::empty(), Some(TerminalEvent::Exit), true),
        SshChannelEventView::ExitStatus(n) => (
            state,
            Seq::empty(),
            Some(TerminalEvent::ChildExit(n as i32)),
            false,
        ),
        SshChannelEventView::Closed => (
            ConnState::Disconnected,
            Seq::empty(),
            Some(TerminalEvent::Exit),
            true,
        ),
        SshChannelEventView::Finished => (ConnState::Disconnected, Seq::empty(), None, true),
        SshChannelEventView::Other => (state, Seq::empty(), None, false),
    }
}

/// The decision core of an SSH channel driver task.
pub struct SshDriver {
    state: ConnectionState,
}

impl View for SshDriver {
    type V = ConnState;

    closed spec fn view(&self) -> ConnState {
        self.state@
    }
}

impl SshDriver {
    /// A fresh driver for a just-opened channel.
    pub fn new() -> (r: Self)
        ensures
            r@ == ConnState::Connected,
    {
        Self { state: ConnectionState::Connected }
    }

    /// The current connection state.
    pub fn state(&self) -> (r: &ConnectionState)
        ensures
            r@ == self@,
    {
        &self.state
    }

    /// Decide one user command.
    pub fn on_command(&mut self, cmd: ChannelCommand) -> (r: SshCommandAction)
        ensures
            ({
                let (s2, data, wc, exit) = ssh_on_command_spec(old(self)@, cmd@);
                &&& final(self)@ == s2
                &&& (match r.data {
                    Some(v) => data matches Some(d) && v@ == d,
                    None => data is None,
                })
                &&& r.window_change == wc
                &&& r.exit == exit
            }),
    {
        match cmd {
            ChannelCommand::Write(d) => SshCommandAction { data: Some(d), window_change: None, exit: false },
            ChannelCommand::Resize(s) => SshCommandAction { data: None, window_change: Some(s), exit: false },
            ChannelCommand::Close => {
                self.state = ConnectionState::Disconnected;
                SshCommandAction { data: None, window_change: None, exit: true }
            },
        }
    }

    /// Decide one channel message.
    pub fn on_event(&mut self, ev: SshChannelEvent) -> (r: SshEventAction)
        ensures
            ({
                let (s2, to_grid, event, exit) = ssh_on_event_spec(old(self)@, ev@);
                &&& final(self)@ == s2
                &&& r.to_grid@ == to_grid
                &&& r.event == event
                &&& r.exit == exit
            }),
    {
        match ev {
            SshChannelEvent::Data(d) => SshEventAction {
                to_grid: d,
                event: Some(TerminalEvent::Wakeup),
                exit: false,
            },
            SshChannelEvent::ExtendedData(d) => SshEventAction {
                to_grid: d,
                event: Some(TerminalEvent::Wakeup),
                exit: false,
            },
            SshChannelEvent::Eof => {
                self.state = ConnectionState::Disconnected;
                SshEventAction { to_grid: Vec::new(), event: Some(TerminalEvent::Exit), exit: true }
            },
            SshChannelEvent::ExitStatus(n) => SshEventAction {
                to_grid: Vec::new(),
                event: Some(TerminalEvent::ChildExit(n as i32)),
                exit: false,
            },
            SshChannelEvent::Closed => {
                self.state = ConnectionState::Disconnected;
                SshEventAction { to_grid: Vec::new(), event: Some(TerminalEvent::Exit), exit: true }
            },
            SshChannelEvent::Finished => {
                self.state = ConnectionState::Disconnected;
                SshEventAction { to_grid: Vec::new(), event: None, exit: true }
            },
            SshChannelEvent::Other => SshEventAction { to_grid: Vec::new(), event: None, exit: false },
        }
    }

    /// A write failed: record the error message; the caller ends the task.
    pub fn on_error(&mut self, msg: String)
        ensures
            final(self)@ == ConnState::Error(msg@),
    {
        self.state = ConnectionState::Error(msg);
    }

    /// The connection is shut down from the UI side.
    pub fn shutdown(&mut self)
        ensures
            final(self)@ == ConnState::Disconnected,
    {
        self.state = ConnectionState::Disconnected;
    }
}

/// Failure is terminal for the SSH driver as well.
pub proof fn lemma_ssh_failure_monotonic(s: ConnState, c: ChannelCommandView, ev: SshChannelEventView)
    ensures
        conn_failed(s) ==> conn_failed(ssh_on_command_spec(s, c).0),
        conn_failed(s) ==> conn_failed(ssh_on_event_spec(s, ev).0),
{
}

/// The payload an SSH driver writes before entering its loop when an
/// initial command is configured: the command with a trailing newline.
pub fn initial_command_payload(cmd: &String) -> (r: Vec<u8>)
    ensures
        r@ == encode_utf8(cmd@ + "\n"@),
{
    let with_newline = cmd.clone().concat("\n");
    let bytes = with_newline.as_str().as_bytes_vec();
    bytes
}

/// Inbound bytes buffered between the driver task and the terminal grid.
/// The driver appends in receive order; the grid drains destructively.
pub struct InboundBuffer {
    buf: Vec<u8>,
}

impl View for InboundBuffer {
    type V = Seq<u8>;

    closed spec fn view(&self) -> Seq<u8> {
        self.buf@
    }
}

impl InboundBuffer {
    /// An empty buffer.
    pub fn new() -> (r: Self)
        ensures
            r@ == Seq::<u8>::empty(),
    {
        Self { buf: Vec::new() }
    }

    /// Append received bytes, keeping everything already buffered in order.
    pub fn append_bytes(&mut self, data: &[u8])
        ensures
            final(self)@ == old(self)@ + data@,
    {
        let mut i: usize = 0;
        while i < data.len()
            invariant
                i <= data.len(),
                self@ == old(self)@ + data@.take(i as int),
            decreases data.len() - i,
        {
            self.buf.push(data[i]);
            proof {
                assert(old(self)@ + data@.take(i + 1 as int) =~= (old(self)@ + data@.take(
                    i as int,
                )).push(data@[i as int]));
            }
            i = i + 1;
        }
        proof {
            assert(data@.take(data@.len() as int) =~= data@);
        }
    }

    /// Drain the buffer: `None` when it is empty, otherwise all buffered
    /// bytes in receive order, and the buffer is empty afterwards.
    pub fn drain(&mut self) -> (r: Option<Vec<u8>>)
        ensures
            final(self)@ == Seq::<u8>::empty(),
            (match r {
                Some(v) => old(self)@.len() > 0 && v@ == old(self)@,
                None => old(self)@.len() == 0,
            }),
    {
        if self.buf.len() == 0 {
            None
        } else {
            let mut taken: Vec<u8> = Vec::new();
            core::mem::swap(&mut taken, &mut self.buf);
            Some(taken)
        }
    }
}

} // verus!
