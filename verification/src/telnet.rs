//! Telnet option negotiation (RFC 854, RFC 1073, RFC 1091).
//!
//! The negotiator is a one-pass byte scanner.  For each input buffer it
//! produces the application data (protocol bytes removed, `IAC IAC`
//! un-escaped) and the protocol responses to send back to the peer.

use vstd::prelude::*;
use vstd::string::StrSliceExecFns;
use vstd::string::StringSliceAdditionalSpecFns;

verus! {

/// Interpret-As-Command byte introducing a Telnet control sequence.
pub const IAC: u8 = 255;
pub const DONT: u8 = 254;
pub const DO: u8 = 253;
pub const WONT: u8 = 252;
pub const WILL: u8 = 251;
/// Subnegotiation begin.
pub const SB: u8 = 250;
/// Subnegotiation end.
pub const SE: u8 = 240;

pub const OPT_ECHO: u8 = 1;
pub const OPT_SUPPRESS_GO_AHEAD: u8 = 3;
pub const OPT_TERMINAL_TYPE: u8 = 24;
/// Negotiate About Window Size.
pub const OPT_NAWS: u8 = 31;

pub const SB_IS: u8 = 0;
pub const SB_SEND: u8 = 1;

/// Scanner state of the negotiator; transitions depend only on the current
/// state and the incoming byte.
#[derive(Clone, Copy, Debug, PartialEq, Eq, Structural)]
pub enum ParserState {
    Data,
    Iac,
    Will,
    Wont,
    Do,
    Dont,
    Sb,
    SbData,
    SbIac,
}

/// Mathematical state of a negotiator.
pub ghost struct NegotiatorModel {
    pub state: ParserState,
    pub terminal_type: Seq<u8>,
    pub sb_option: u8,
    pub sb_data: Seq<u8>,
    pub naws_enabled: bool,
}

/// Result of one or more negotiation steps: the new state, the application
/// data emitted, and the responses emitted.
pub ghost struct StepOut {
    pub m: NegotiatorModel,
    pub data: Seq<u8>,
    pub resp: Seq<u8>,
}

/// Response owed to `IAC WILL option`: accept ECHO and SUPPRESS-GO-AHEAD,
/// refuse everything else.
pub open spec fn will_response(option: u8) -> Seq<u8> {
    if option == OPT_ECHO || option == OPT_SUPPRESS_GO_AHEAD {
        seq![IAC, DO, option]
    } else {
        seq![IAC, DONT, option]
    }
}

/// Response owed to `IAC DO option`: accept TERMINAL-TYPE and NAWS, refuse
/// everything else.
pub open spec fn do_response(option: u8) -> Seq<u8> {
    if option == OPT_TERMINAL_TYPE || option == OPT_NAWS {
        seq![IAC, WILL, option]
    } else {
        seq![IAC, WONT, option]
    }
}

/// Response owed at the end of a subnegotiation: only a TERMINAL-TYPE SEND
/// request is answered, with `IAC SB TERMINAL-TYPE IS <name> IAC SE`.
pub open spec fn subnegotiation_response(m: NegotiatorModel) -> Seq<u8> {
    if m.sb_option == OPT_TERMINAL_TYPE && m.sb_data.len() > 0 && m.sb_data[0] == SB_SEND {
        seq![IAC, SB, OPT_TERMINAL_TYPE, SB_IS] + m.terminal_type + seq![IAC, SE]
    } else {
        Seq::empty()
    }
}

/// One step of the negotiation state machine on a single incoming byte.
pub open spec fn step(m: NegotiatorModel, b: u8) -> StepOut {
    match m.state {
        ParserState::Data => {
            if b == IAC {
                StepOut { m: NegotiatorModel { state: ParserState::Iac, ..m }, data: Seq::empty(), resp: Seq::empty() }
            } else {
                StepOut { m, data: seq![b], resp: Seq::empty() }
            }
        },
        ParserState::Iac => {
            if b == IAC {
                StepOut { m: NegotiatorModel { state: ParserState::Data, ..m }, data: seq![IAC], resp: Seq::empty() }
            } else if b == WILL {
                StepOut { m: NegotiatorModel { state: ParserState::Will, ..m }, data: Seq::empty(), resp: Seq::empty() }
            } else if b == WONT {
                StepOut { m: NegotiatorModel { state: ParserState::Wont, ..m }, data: Seq::empty(), resp: Seq::empty() }
            } else if b == DO {
                StepOut { m: NegotiatorModel { state: ParserState::Do, ..m }, data: Seq::empty(), resp: Seq::empty() }
            } else if b == DONT {
                StepOut { m: NegotiatorModel { state: ParserState::Dont, ..m }, data: Seq::empty(), resp: Seq::empty() }
            } else if b == SB {
                StepOut { m: NegotiatorModel { state: ParserState::Sb, ..m }, data: Seq::empty(), resp: Seq::empty() }
            } else {
                // A stray SE or an unknown command is ignored.
                StepOut { m: NegotiatorModel { state: ParserState::Data, ..m }, data: Seq::empty(), resp: Seq::empty() }
            }
        },
        ParserState::Will => {
            StepOut { m: NegotiatorModel { state: ParserState::Data, ..m }, data: Seq::empty(), resp: will_response(b) }
        },
        ParserState::Wont => {
            StepOut { m: NegotiatorModel { state: ParserState::Data, ..m }, data: Seq::empty(), resp: Seq::empty() }
        },
        ParserState::Do => {
            StepOut {
                m: NegotiatorModel {
                    state: ParserState::Data,
                    naws_enabled: m.naws_enabled || b == OPT_NAWS,
                    ..m
                },
                data: Seq::empty(),
                resp: do_response(b),
            }
        },
        ParserState::Dont => {
            StepOut { m: NegotiatorModel { state: ParserState::Data, ..m }, data: Seq::empty(), resp: Seq::empty() }
        },
        ParserState::Sb => {
            StepOut {
                m: NegotiatorModel { state: ParserState::SbData, sb_option: b, sb_data: Seq::empty(), ..m },
                data: Seq::empty(),
                resp: Seq::empty(),
            }
        },
        ParserState::SbData => {
            if b == IAC {
                StepOut { m: NegotiatorModel { state: ParserState::SbIac, ..m }, data: Seq::empty(), resp: Seq::empty() }
            } else {
                StepOut { m: NegotiatorModel { sb_data: m.sb_data.push(b), ..m }, data: Seq::empty(), resp: Seq::empty() }
            }
        },
        ParserState::SbIac => {
            if b == SE {
                StepOut {
                    m: NegotiatorModel { state: ParserState::Data, ..m },
                    data: Seq::empty(),
                    resp: subnegotiation_response(m),
                }
            } else if b == IAC {
                StepOut {
                    m: NegotiatorModel { state: ParserState::SbData, sb_data: m.sb_data.push(IAC), ..m },
                    data: Seq::empty(),
                    resp: Seq::empty(),
                }
            } else {
                // Protocol error: reset to Data.
                StepOut { m: NegotiatorModel { state: ParserState::Data, ..m }, data: Seq::empty(), resp: Seq::empty() }
            }
        },
    }
}

/// The state machine run over a whole input, concatenating the outputs of
/// the individual steps in order.
pub open spec fn run(m: NegotiatorModel, input: Seq<u8>) -> StepOut
    decreases input.len(),
{
    if input.len() == 0 {
        StepOut { m, data: Seq::empty(), resp: Seq::empty() }
    } else {
        let first = step(m, input[0]);
        let rest = run(first.m, input.drop_first());
        StepOut { m: rest.m, data: first.data + rest.data, resp: first.resp + rest.resp }
    }
}

/// Running over `s + [b]` is running over `s` and then one step on `b`.
pub proof fn lemma_run_snoc(m: NegotiatorModel, s: Seq<u8>, b: u8)
    ensures
        ({
            let prefix = run(m, s);
            let last = step(prefix.m, b);
            run(m, s.push(b)) == (StepOut {
                m: last.m,
                data: prefix.data + last.data,
                resp: prefix.resp + last.resp,
            })
        }),
    decreases s.len(),
{
    reveal_with_fuel(run, 3);
    let prefix = run(m, s);
    let last = step(prefix.m, b);
    if s.len() == 0 {
        assert(s.push(b).drop_first() =~= Seq::<u8>::empty());
        assert(run(m, s.push(b)).data =~= prefix.data + last.data);
        assert(run(m, s.push(b)).resp =~= prefix.resp + last.resp);
    } else {
        let first = step(m, s[0]);
        assert(s.push(b).drop_first() =~= s.drop_first().push(b));
        lemma_run_snoc(first.m, s.drop_first(), b);
        assert(run(m, s.push(b)).data =~= prefix.data + last.data);
        assert(run(m, s.push(b)).resp =~= prefix.resp + last.resp);
    }
}

/// Running over `s1 + s2` is running over `s1` and then over `s2`.
pub proof fn lemma_run_concat(m: NegotiatorModel, s1: Seq<u8>, s2: Seq<u8>)
    ensures
        ({
            let a = run(m, s1);
            let b = run(a.m, s2);
            run(m, s1 + s2) == (StepOut { m: b.m, data: a.data + b.data, resp: a.resp + b.resp })
        }),
    decreases s1.len(),
{
    reveal_with_fuel(run, 3);
    let a = run(m, s1);
    let b = run(a.m, s2);
    if s1.len() == 0 {
        assert(s1 + s2 =~= s2);
        assert(run(m, s1 + s2).data =~= a.data + b.data);
        assert(run(m, s1 + s2).resp =~= a.resp + b.resp);
    } else {
        let first = step(m, s1[0]);
        assert((s1 + s2).drop_first() =~= s1.drop_first() + s2);
        lemma_run_concat(first.m, s1.drop_first(), s2);
        assert(run(m, s1 + s2).data =~= a.data + b.data);
        assert(run(m, s1 + s2).resp =~= a.resp + b.resp);
    }
}

/// A byte prepared for transmission: `0xFF` is doubled, anything else is
/// passed through.
pub open spec fn escaped_byte(b: u8) -> Seq<u8> {
    if b == IAC {
        seq![IAC, IAC]
    } else {
        seq![b]
    }
}

/// Outbound escaping: every application byte equal to `0xFF` is doubled.
pub open spec fn escaped(s: Seq<u8>) -> Seq<u8>
    decreases s.len(),
{
    if s.len() == 0 {
        Seq::empty()
    } else {
        escaped_byte(s[0]) + escaped(s.drop_first())
    }
}

/// Escaping `s + [b]` appends the escaping of `b`.
pub proof fn lemma_escaped_snoc(s: Seq<u8>, b: u8)
    ensures
        escaped(s.push(b)) == escaped(s) + escaped_byte(b),
    decreases s.len(),
{
    reveal_with_fuel(escaped, 3);
    if s.len() == 0 {
        assert(s.push(b).drop_first() =~= Seq::<u8>::empty());
        assert(escaped(s.push(b)) =~= escaped(s) + escaped_byte(b));
    } else {
        assert(s.push(b).drop_first() =~= s.drop_first().push(b));
        lemma_escaped_snoc(s.drop_first(), b);
        assert(escaped(s.push(b)) =~= escaped(s) + escaped_byte(b));
    }
}

/// Escape application data for transmission to the peer.
pub fn escape_data_for_send(data: &[u8]) -> (r: Vec<u8>)
    ensures
        r@ == escaped(data@),
{
    let mut result: Vec<u8> = Vec::new();
    let mut i: usize = 0;
    while i < data.len()
        invariant
            i <= data.len(),
            result@ == escaped(data@.take(i as int)),
        decreases data.len() - i,
    {
        let b = data[i];
        proof {
            lemma_escaped_snoc(data@.take(i as int), b);
            assert(data@.take(i as int).push(b) =~= data@.take(i + 1 as int));
        }
        result.push(b);
        if b == IAC {
            result.push(IAC);
        }
        assert(result@ =~= escaped(data@.take(i as int)) + escaped_byte(b));
        i = i + 1;
    }
    proof {
        assert(data@.take(data@.len() as int) =~= data@);
    }
    result
}

/// Window geometry handed to the negotiator when the terminal is resized.
#[derive(Clone, Copy, Debug, PartialEq, Eq, Structural)]
pub struct WinSize {
    pub num_cols: u16,
    pub num_lines: u16,
    pub cell_width: u16,
    pub cell_height: u16,
}

/// One 16-bit dimension split into its big-endian bytes, each escaped.
pub open spec fn naws_dimension(v: u16) -> Seq<u8> {
    escaped_byte((v >> 8) as u8) + escaped_byte((v & 0xFF) as u8)
}

/// The NAWS packet owed for a window size, empty when NAWS has not been
/// negotiated.
pub open spec fn naws_packet(naws_enabled: bool, cols: u16, rows: u16) -> Seq<u8> {
    if naws_enabled {
        seq![IAC, SB, OPT_NAWS] + naws_dimension(cols) + naws_dimension(rows) + seq![IAC, SE]
    } else {
        Seq::empty()
    }
}

/// Configuration of a Telnet connection.
#[derive(Clone, Debug)]
pub struct TelnetConfig {
    pub host: String,
    pub port: u16,
    pub username: Option<String>,
    pub password: Option<String>,
    pub encoding: Option<String>,
    pub terminal_type: String,
}

impl TelnetConfig {
    /// A configuration for the given endpoint: no credentials, no encoding,
    /// terminal type `xterm-256color`.
    pub fn new(host: &str, port: u16) -> (r: Self)
        ensures
            r.host@ == host@,
            r.port == port,
            r.username is None,
            r.password is None,
            r.encoding is None,
            r.terminal_type@ == "xterm-256color"@,
    {
        Self {
            host: host.to_owned(),
            port,
            username: None,
            password: None,
            encoding: None,
            terminal_type: "xterm-256color".to_owned(),
        }
    }

    /// The same configuration with the username set.
    pub fn with_username(self, username: &str) -> (r: Self)
        ensures
            r.username matches Some(u) && u@ == username@,
            r.host == self.host,
            r.port == self.port,
            r.password == self.password,
            r.encoding == self.encoding,
            r.terminal_type == self.terminal_type,
    {
        Self { username: Some(username.to_owned()), ..self }
    }

    /// The same configuration with the password set.
    pub fn with_password(self, password: &str) -> (r: Self)
        ensures
            r.password matches Some(p) && p@ == password@,
            r.host == self.host,
            r.port == self.port,
            r.username == self.username,
            r.encoding == self.encoding,
            r.terminal_type == self.terminal_type,
    {
        Self { password: Some(password.to_owned()), ..self }
    }

    /// The same configuration with the encoding set.
    pub fn with_encoding(self, encoding: &str) -> (r: Self)
        ensures
            r.encoding matches Some(e) && e@ == encoding@,
            r.host == self.host,
            r.port == self.port,
            r.username == self.username,
            r.password == self.password,
            r.terminal_type == self.terminal_type,
    {
        Self { encoding: Some(encoding.to_owned()), ..self }
    }

    /// The same configuration with another terminal type.
    pub fn with_terminal_type(self, terminal_type: &str) -> (r: Self)
        ensures
            r.terminal_type@ == terminal_type@,
            r.host == self.host,
            r.port == self.port,
            r.username == self.username,
            r.password == self.password,
            r.encoding == self.encoding,
    {
        Self { terminal_type: terminal_type.to_owned(), ..self }
    }
}

/// Application data and responses produced by one `process_incoming` call.
pub struct ProcessResult {
    pub data: Vec<u8>,
    pub responses: Vec<u8>,
}

/// Pure state machine translating the raw Telnet byte stream into terminal
/// data and synthesizing option responses.
pub struct TelnetNegotiator {
    state: ParserState,
    terminal_type: Vec<u8>,
    sb_option: u8,
    sb_data: Vec<u8>,
    naws_enabled: bool,
}

impl View for TelnetNegotiator {
    type V = NegotiatorModel;

    closed spec fn view(&self) -> NegotiatorModel {
        NegotiatorModel {
            state: self.state,
            terminal_type: self.terminal_type@,
            sb_option: self.sb_option,
            sb_data: self.sb_data@,
            naws_enabled: self.naws_enabled,
        }
    }
}

impl TelnetNegotiator {
    /// A fresh negotiator: Data state, nothing negotiated, with the
    /// terminal-type name that subnegotiation answers will carry.
    pub fn new(terminal_type: &str) -> (r: Self)
        ensures
            r@ == (NegotiatorModel {
                state: ParserState::Data,
                terminal_type: terminal_type.spec_bytes(),
                sb_option: 0,
                sb_data: Seq::<u8>::empty(),
                naws_enabled: false,
            }),
    {
        Self {
            state: ParserState::Data,
            terminal_type: terminal_type.as_bytes_vec(),
            sb_option: 0,
            sb_data: Vec::new(),
            naws_enabled: false,
        }
    }

    /// Feed raw bytes from the peer through the state machine; the result
    /// carries the application data and the responses of exactly those steps.
    pub fn process_incoming(&mut self, data: &[u8]) -> (r: ProcessResult)
        ensures
            ({
                let out = run(old(self)@, data@);
                &&& final(self)@ == out.m
                &&& r.data@ == out.data
                &&& r.responses@ == out.resp
            }),
    {
        let ghost m0 = self@;
        let mut output_data: Vec<u8> = Vec::new();
        let mut responses: Vec<u8> = Vec::new();
        let mut i: usize = 0;
        while i < data.len()
            invariant
                i <= data.len(),
                ({
                    let out = run(m0, data@.take(i as int));
                    &&& self@ == out.m
                    &&& output_data@ == out.data
                    &&& responses@ == out.resp
                }),
            decreases data.len() - i,
        {
            let byte = data[i];
            let ghost m_before = self@;
            proof {
                lemma_run_snoc(m0, data@.take(i as int), byte);
                assert(data@.take(i as int).push(byte) =~= data@.take(i + 1 as int));
            }
            match self.state {
                ParserState::Data => {
                    if byte == IAC {
                        self.state = ParserState::Iac;
                    } else {
                        output_data.push(byte);
                    }
                },
                ParserState::Iac => {
                    match byte {
                        IAC => {
                            output_data.push(IAC);
                            self.state = ParserState::Data;
                        },
                        WILL => {
                            self.state = ParserState::Will;
                        },
                        WONT => {
                            self.state = ParserState::Wont;
                        },
                        DO => {
                            self.state = ParserState::Do;
                        },
                        DONT => {
                            self.state = ParserState::Dont;
                        },
                        SB => {
                            self.state = ParserState::Sb;
                        },
                        _ => {
                            self.state = ParserState::Data;
                        },
                    }
                },
                ParserState::Will => {
                    let mut resp = self.handle_will(byte);
                    responses.append(&mut resp);
                    self.state = ParserState::Data;
                },
                ParserState::Wont => {
                    self.state = ParserState::Data;
                },
                ParserState::Do => {
                    let mut resp = self.handle_do(byte);
                    responses.append(&mut resp);
                    self.state = ParserState::Data;
                },
                ParserState::Dont => {
                    self.state = ParserState::Data;
                },
                ParserState::Sb => {
                    self.sb_option = byte;
                    self.sb_data.clear();
                    self.state = ParserState::SbData;
                },
                ParserState::SbData => {
                    if byte == IAC {
                        self.state = ParserState::SbIac;
                    } else {
                        self.sb_data.push(byte);
                    }
                },
                ParserState::SbIac => {
                    match byte {
                        SE => {
                            let mut resp = self.handle_subnegotiation();
                            responses.append(&mut resp);
                            self.state = ParserState::Data;
                        },
                        IAC => {
                            self.sb_data.push(IAC);
                            self.state = ParserState::SbData;
                        },
                        _ => {
                            self.state = ParserState::Data;
                        },
                    }
                },
            }
            proof {
                let one = step(m_before, byte);
                assert(self@ == one.m);
                assert(output_data@ =~= run(m0, data@.take(i as int)).data + one.data);
                assert(responses@ =~= run(m0, data@.take(i as int)).resp + one.resp);
            }
            i = i + 1;
        }
        proof {
            assert(data@.take(data@.len() as int) =~= data@);
        }
        ProcessResult { data: output_data, responses }
    }

    /// Answer to `WILL option`, leaving the negotiator unchanged.
    fn handle_will(&mut self, option: u8) -> (r: Vec<u8>)
        ensures
            r@ == will_response(option),
            final(self)@ == old(self)@,
    {
        let mut r: Vec<u8> = Vec::new();
        r.push(IAC);
        if option == OPT_ECHO || option == OPT_SUPPRESS_GO_AHEAD {
            r.push(DO);
        } else {
            r.push(DONT);
        }
        r.push(option);
        assert(r@ =~= will_response(option));
        r
    }

    /// Answer to `DO option`; `DO NAWS` additionally enables NAWS.
    fn handle_do(&mut self, option: u8) -> (r: Vec<u8>)
        ensures
            r@ == do_response(option),
            final(self)@ == (NegotiatorModel {
                naws_enabled: old(self)@.naws_enabled || option == OPT_NAWS,
                ..old(self)@
            }),
    {
        let mut r: Vec<u8> = Vec::new();
        r.push(IAC);
        if option == OPT_TERMINAL_TYPE || option == OPT_NAWS {
            if option == OPT_NAWS {
                self.naws_enabled = true;
            }
            r.push(WILL);
        } else {
            r.push(WONT);
        }
        r.push(option);
        assert(r@ =~= do_response(option));
        r
    }

    /// Answer owed at `IAC SE`: only a TERMINAL-TYPE SEND request is
    /// answered; every other subnegotiation is dropped.
    fn handle_subnegotiation(&mut self) -> (r: Vec<u8>)
        ensures
            r@ == subnegotiation_response(old(self)@),
            final(self)@ == old(self)@,
    {
        if self.sb_option == OPT_TERMINAL_TYPE && self.sb_data.len() > 0 && self.sb_data[0] == SB_SEND {
            let mut r: Vec<u8> = Vec::new();
            r.push(IAC);
            r.push(SB);
            r.push(OPT_TERMINAL_TYPE);
            r.push(SB_IS);
            let mut i: usize = 0;
            while i < self.terminal_type.len()
                invariant
                    i <= self.terminal_type@.len(),
                    self@ == old(self)@,
                    r@ == seq![IAC, SB, OPT_TERMINAL_TYPE, SB_IS] + self.terminal_type@.take(i as int),
                decreases self.terminal_type@.len() - i,
            {
                r.push(self.terminal_type[i]);
                proof {
                    assert(self.terminal_type@.take(i as int).push(self.terminal_type@[i as int])
                        =~= self.terminal_type@.take(i + 1 as int));
                    assert(r@ =~= seq![IAC, SB, OPT_TERMINAL_TYPE, SB_IS]
                        + self.terminal_type@.take(i + 1 as int));
                }
                i = i + 1;
            }
            r.push(IAC);
            r.push(SE);
            proof {
                assert(self.terminal_type@.take(self.terminal_type@.len() as int) =~= self.terminal_type@);
                assert(r@ =~= subnegotiation_response(old(self)@));
            }
            r
        } else {
            let r: Vec<u8> = Vec::new();
            assert(r@ =~= subnegotiation_response(old(self)@));
            r
        }
    }

    /// Build the NAWS packet for a window size: `IAC SB NAWS <w-hi> <w-lo>
    /// <h-hi> <h-lo> IAC SE`, dimension bytes escaped; empty while NAWS has
    /// not been negotiated.
    pub fn build_naws(&self, size: WinSize) -> (r: Vec<u8>)
        ensures
            r@ == naws_packet(self@.naws_enabled, size.num_cols, size.num_lines),
            r@.len() == 0 <==> !self@.naws_enabled,
    {
        if !self.naws_enabled {
            let r: Vec<u8> = Vec::new();
            return r;
        }

        let cols = size.num_cols;
        let rows = size.num_lines;

        let mut packet: Vec<u8> = Vec::new();
        packet.push(IAC);
        packet.push(SB);
        packet.push(OPT_NAWS);

        let width_hi = (cols >> 8) as u8;
        let width_lo = (cols & 0xFF) as u8;
        packet.push(width_hi);
        if width_hi == IAC {
            packet.push(IAC);
        }
        packet.push(width_lo);
        if width_lo == IAC {
            packet.push(IAC);
        }

        let height_hi = (rows >> 8) as u8;
        let height_lo = (rows & 0xFF) as u8;
        packet.push(height_hi);
        if height_hi == IAC {
            packet.push(IAC);
        }
        packet.push(height_lo);
        if height_lo == IAC {
            packet.push(IAC);
        }

        packet.push(IAC);
        packet.push(SE);
        assert(packet@ =~= naws_packet(true, cols, rows));
        packet
    }

    /// Whether the peer has sent `DO NAWS`; never reverts to false.
    pub fn is_naws_enabled(&self) -> (r: bool)
        ensures
            r == self@.naws_enabled,
    {
        self.naws_enabled
    }
}

/// Negotiator transparency: from the Data state, a byte sequence containing
/// no `0xFF` passes through unchanged, produces no responses, and leaves the
/// negotiator exactly as it was.
pub proof fn lemma_negotiator_transparency(m: NegotiatorModel, input: Seq<u8>)
    requires
        m.state is Data,
        forall|i: int| 0 <= i < input.len() ==> input[i] != IAC,
    ensures
        run(m, input) == (StepOut { m, data: input, resp: Seq::<u8>::empty() }),
    decreases input.len(),
{
    if input.len() == 0 {
        assert(run(m, input).data =~= input);
    } else {
        lemma_negotiator_transparency(m, input.drop_first());
        assert(run(m, input).data =~= input);
        assert(run(m, input).resp =~= Seq::<u8>::empty());
    }
}

/// Escaping round-trip: from the Data state, feeding `escaped(bs)` back
/// through the negotiator yields application data `bs`, no responses, and
/// the unchanged negotiator state.
pub proof fn lemma_escape_round_trip(m: NegotiatorModel, bs: Seq<u8>)
    requires
        m.state is Data,
    ensures
        run(m, escaped(bs)) == (StepOut { m, data: bs, resp: Seq::<u8>::empty() }),
    decreases bs.len(),
{
    reveal_with_fuel(run, 4);
    if bs.len() == 0 {
        assert(run(m, escaped(bs)).data =~= bs);
    } else {
        let head = escaped_byte(bs[0]);
        let tail = escaped(bs.drop_first());
        lemma_run_concat(m, head, tail);
        assert(run(m, head) == (StepOut { m, data: seq![bs[0]], resp: Seq::<u8>::empty() })) by {
            if bs[0] == IAC {
                assert(head =~= seq![IAC, IAC]);
                assert(head.drop_first() =~= seq![IAC]);
                assert(seq![IAC].drop_first() =~= Seq::<u8>::empty());
                assert(run(m, head).data =~= seq![bs[0]]);
                assert(run(m, head).resp =~= Seq::<u8>::empty());
            } else {
                assert(head.drop_first() =~= Seq::<u8>::empty());
                assert(run(m, head).data =~= seq![bs[0]]);
                assert(run(m, head).resp =~= Seq::<u8>::empty());
            }
        }
        lemma_escape_round_trip(m, bs.drop_first());
        assert(run(m, escaped(bs)).data =~= bs);
        assert(run(m, escaped(bs)).resp =~= Seq::<u8>::empty());
    }
}

/// Option refusal: from the Data state, `IAC WILL o` is answered with
/// `IAC DO o` only for ECHO and SUPPRESS-GO-AHEAD and with `IAC DONT o`
/// otherwise; `IAC DO o` is answered with `IAC WILL o` only for
/// TERMINAL-TYPE and NAWS and with `IAC WONT o` otherwise.  Neither
/// sequence yields application data.
pub proof fn lemma_option_refusal(m: NegotiatorModel, o: u8)
    requires
        m.state is Data,
    ensures
        run(m, seq![IAC, WILL, o]).resp == if o == OPT_ECHO || o == OPT_SUPPRESS_GO_AHEAD {
            seq![IAC, DO, o]
        } else {
            seq![IAC, DONT, o]
        },
        run(m, seq![IAC, WILL, o]).data == Seq::<u8>::empty(),
        run(m, seq![IAC, DO, o]).resp == if o == OPT_TERMINAL_TYPE || o == OPT_NAWS {
            seq![IAC, WILL, o]
        } else {
            seq![IAC, WONT, o]
        },
        run(m, seq![IAC, DO, o]).data == Seq::<u8>::empty(),
{
    reveal_with_fuel(run, 5);
    let will = seq![IAC, WILL, o];
    assert(will.drop_first() =~= seq![WILL, o]);
    assert(seq![WILL, o].drop_first() =~= seq![o]);
    assert(seq![o].drop_first() =~= Seq::<u8>::empty());
    assert(run(m, will).resp =~= will_response(o));
    assert(run(m, will).data =~= Seq::<u8>::empty());
    let wish = seq![IAC, DO, o];
    assert(wish.drop_first() =~= seq![DO, o]);
    assert(seq![DO, o].drop_first() =~= seq![o]);
    assert(run(m, wish).resp =~= do_response(o));
    assert(run(m, wish).data =~= Seq::<u8>::empty());
}

/// Whether a run makes the peer's `IAC DO NAWS` request land: true when some
/// step of the run handles the option byte NAWS in the Do state.
pub open spec fn saw_do_naws(m: NegotiatorModel, input: Seq<u8>) -> bool
    decreases input.len(),
{
    if input.len() == 0 {
        false
    } else {
        (m.state is Do && input[0] == OPT_NAWS) || saw_do_naws(step(m, input[0]).m, input.drop_first())
    }
}

/// NAWS gating: after any run, NAWS is enabled exactly when it already was
/// or the run contained a `DO NAWS`.  With the `build_naws` contract this
/// says that the packet is empty exactly until `IAC DO NAWS` was received.
pub proof fn lemma_naws_gating(m: NegotiatorModel, input: Seq<u8>)
    ensures
        run(m, input).m.naws_enabled == (m.naws_enabled || saw_do_naws(m, input)),
    decreases input.len(),
{
    if input.len() == 0 {
    } else {
        lemma_naws_gating(step(m, input[0]).m, input.drop_first());
    }
}

/// The NAWS packet after any run is empty exactly until the negotiator has
/// received `DO NAWS`.
pub proof fn lemma_naws_packet_gating(m: NegotiatorModel, input: Seq<u8>, cols: u16, rows: u16)
    ensures
        (naws_packet(run(m, input).m.naws_enabled, cols, rows).len() == 0) <==> !(m.naws_enabled
            || saw_do_naws(m, input)),
{
    lemma_naws_gating(m, input);
}

} // verus!
