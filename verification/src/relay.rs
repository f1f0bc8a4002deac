//! Sessions outside the local network, through a relay: which relay, the handshake with
//! it, and the pump that carries bytes between the relay and the session.
use crate::text::{
    bytes_of, chars_of, from_utf8_lossy, lossy_text, number_in, parse_number, same_str, string_of,
    trim, trimmed,
};
use vstd::prelude::*;
use vstd::utf8::{decode_utf8, encode_utf8, valid_utf8};

verus! {

// ---- The relay's address ---------------------------------------------------

/// Port of a relay that none is given for.
pub const RELAY_PORT: u16 = 443;

/// Bytes of the socket buffers on the way to the relay. Small ones keep frames from
/// piling up.
pub const SOCKET_BUFFER: usize = 98_304;

/// Seconds after which an idle connection is probed.
pub const KEEPALIVE_SECS: u64 = 15;

/// Seconds between two probes.
pub const KEEPALIVE_INTERVAL_SECS: u64 = 5;

/// Position of the last `c`, or -1.
pub open spec fn last_at(s: Seq<char>, c: char) -> int
    decreases s.len(),
{
    if s.len() == 0 {
        -1
    } else if s.last() == c {
        s.len() - 1
    } else {
        last_at(s.drop_last(), c)
    }
}

/// Host and port in an address: what stands before and after the last colon. A port
/// that is missing or no number below 65536 is the default.
pub open spec fn target_in(address: Seq<char>) -> (Seq<char>, int) {
    let at = last_at(address, ':');
    if at < 0 {
        (address, RELAY_PORT as int)
    } else {
        (
            address.take(at),
            match number_in(address.skip(at + 1), 65535) {
                Some(port) => port,
                None => RELAY_PORT as int,
            },
        )
    }
}

/// Address of the relay where none is configured.
pub open spec fn default_relay() -> Seq<char> {
    "otiscorp-relay.fly.dev:443"@
}

/// Host and port of the relay, given the configured address, if there is one.
pub fn relay_target(configured: Option<&str>) -> (out: (String, u16))
    ensures
        (out.0@, out.1 as int) == target_in(
            if let Some(address) = configured {
                address@
            } else {
                default_relay()
            },
        ),
{
    let address = match configured {
        Some(address) => chars_of(address),
        None => chars_of("otiscorp-relay.fly.dev:443"),
    };
    let n: usize = address.len();
    let cs: &[char] = address.as_slice();
    let mut at: usize = n;
    assert(cs@.take(n as int) =~= cs@);
    while at > 0
        invariant
            n == cs@.len(),
            cs@ == if let Some(address) = configured {
                address@
            } else {
                default_relay()
            },
            at <= n,
            last_at(cs@, ':') == last_at(cs@.take(at as int), ':'),
        decreases at,
    {
        assert(cs@.take(at as int).last() == cs@[at - 1]);
        assert(cs@.take(at as int).drop_last() =~= cs@.take(at - 1));
        if cs[at - 1] == ':' {
            let host = string_of(&cs[0..at - 1]);
            assert(host@ =~= cs@.take(at - 1));
            let rest: &[char] = &cs[at..n];
            assert(rest@ =~= cs@.skip(at as int));
            let port: u16 = match parse_number(rest, 65535) {
                Some(port) => port as u16,
                None => RELAY_PORT,
            };
            return (host, port);
        }
        at = at - 1;
    }
    (string_of(cs), RELAY_PORT)
}

/// An address made of a host and a port gives that host and that port.
pub proof fn law_target_reads_back(host: Seq<char>, port: nat)
    requires
        port <= 65535,
    ensures
        target_in(host + seq![':'] + crate::text::decimal_text(port)) == (host, port as int),
{
    let digits = crate::text::decimal_text(port);
    let s = host + seq![':'] + digits;
    crate::text::law_decimal_reads_back(port, 65535);
    lemma_last_at(s, host.len() as int);
    assert(s.take(host.len() as int) =~= host);
    assert(s.skip(host.len() as int + 1) =~= digits);
}

/// The last colon is the one that only digits follow.
proof fn lemma_last_at(s: Seq<char>, at: int)
    requires
        0 <= at < s.len(),
        s[at] == ':',
        forall|j: int| at < j < s.len() ==> crate::text::digit(#[trigger] s[j]),
    ensures
        last_at(s, ':') == at,
    decreases s.len(),
{
    if at < s.len() - 1 {
        assert(crate::text::digit(s[s.len() - 1]));
        let t = s.drop_last();
        assert forall|j: int| at < j < t.len() implies crate::text::digit(#[trigger] t[j]) by {
            assert(t[j] == s[j]);
        }
        lemma_last_at(t, at);
    }
}

/// The name that a TLS client expects of the server at a host, in the form in which
/// rustls gives it; none where the host is neither a DNS name nor an IP address.
pub uninterp spec fn server_name_at(host: Seq<char>) -> Option<Seq<char>>;

/// `rustls::pki_types::ServerName::try_from` and `to_str`: whether a host names a server
/// and what the name reads depends on the host alone.
#[verifier::external_body]
fn tls_server_name(host: &str) -> (out: Option<String>)
    ensures
        (out is Some) == (server_name_at(host@) is Some),
        out is Some ==> server_name_at(host@) == Some(out->0@),
{
    match rustls::pki_types::ServerName::try_from(String::from(host)) {
        Ok(name) => Some(name.to_str().into_owned()),
        Err(_) => None,
    }
}

/// The server's name that was found, or the error for a host that has none.
pub fn named_server(found: Option<String>) -> (out: Result<String, String>)
    ensures
        match found {
            Some(name) => out == Ok::<String, String>(name),
            None => out is Err && out->Err_0@ == "nombre de servidor invalido"@,
        },
{
    match found {
        Some(name) => Ok(name),
        None => Err("nombre de servidor invalido".to_owned()),
    }
}

/// The name that a TLS client expects of the server at a host.
pub fn server_name(host: &str) -> (out: Result<String, String>)
    ensures
        match server_name_at(host@) {
            Some(name) => out is Ok && out->Ok_0@ == name,
            None => out is Err && out->Err_0@ == "nombre de servidor invalido"@,
        },
{
    named_server(tls_server_name(host))
}

// ---- The handshake ---------------------------------------------------------

/// The two ends of a relayed session.
#[derive(Clone, Copy, PartialEq, Eq, Debug, Structural)]
pub enum TunnelSide {
    Host,
    Viewer,
}

/// Word that an end announces itself with.
pub open spec fn tunnel_word(side: TunnelSide) -> Seq<char> {
    match side {
        TunnelSide::Host => "HOST"@,
        TunnelSide::Viewer => "JOIN"@,
    }
}

/// The line that opens the handshake for an ID.
pub fn handshake_line(side: TunnelSide, id: &str) -> (out: Vec<u8>)
    ensures
        out@ == encode_utf8(tunnel_word(side) + " "@ + id@ + "\n"@),
{
    let word = match side {
        TunnelSide::Host => "HOST",
        TunnelSide::Viewer => "JOIN",
    };
    let line = word.to_owned().concat(" ").concat(id).concat("\n");
    bytes_of(line.as_str())
}

/// Bytes that a line of the relay has at most.
pub const LINE_LIMIT: usize = 64;

/// How reading a line goes on.
pub enum LineStep {
    /// More bytes have to be read.
    More,
    /// The line is complete.
    Line(String),
    /// There is no line.
    Failed(String),
}

/// Line of the relay made of the text of its bytes.
pub fn clean_line(text: &str) -> (out: String)
    ensures
        out@ == trimmed(text@),
{
    let cs = chars_of(text);
    string_of(trim(cs.as_slice()))
}

/// Contents of a step of reading a line.
pub enum LineOutcome {
    More,
    Line(Seq<char>),
    Failed(Seq<char>),
}

/// Contents of a step.
pub open spec fn line_view(step: LineStep) -> LineOutcome {
    match step {
        LineStep::More => LineOutcome::More,
        LineStep::Line(line) => LineOutcome::Line(line@),
        LineStep::Failed(e) => LineOutcome::Failed(e@),
    }
}

/// How reading a line goes on after its bytes so far and the next byte, or the end of the
/// stream. A line ends with a line feed; more bytes than the limit are no line, nor is a
/// stream that ends before.
pub open spec fn line_step(acc: Seq<u8>, byte: Option<u8>) -> LineOutcome {
    match byte {
        None => LineOutcome::Failed("relay cerro"@),
        Some(b) => if b == 10 {
            LineOutcome::Line(trimmed(lossy_text(acc)))
        } else if acc.len() < LINE_LIMIT {
            LineOutcome::More
        } else {
            LineOutcome::Failed("linea demasiado larga"@)
        },
    }
}

/// The bytes of a line after the next byte.
pub open spec fn line_acc(acc: Seq<u8>, byte: Option<u8>) -> Seq<u8> {
    match byte {
        Some(b) => if b == 10 {
            acc
        } else {
            acc.push(b)
        },
        None => acc,
    }
}

/// What reading a stream comes to, after the bytes of the line so far.
pub open spec fn line_in(acc: Seq<u8>, stream: Seq<u8>) -> LineOutcome
    decreases stream.len(),
{
    if stream.len() == 0 {
        line_step(acc, None)
    } else {
        match line_step(acc, Some(stream[0])) {
            LineOutcome::More => line_in(
                line_acc(acc, Some(stream[0])),
                stream.drop_first(),
            ),
            done => done,
        }
    }
}

/// A line that keeps to the limit is read up to its line feed, whatever follows.
pub proof fn law_short_lines_are_read(acc: Seq<u8>, line: Seq<u8>, rest: Seq<u8>)
    requires
        acc.len() + line.len() <= LINE_LIMIT,
        forall|i: int| 0 <= i < line.len() ==> #[trigger] line[i] != 10,
    ensures
        line_in(acc, line + seq![10u8] + rest) == LineOutcome::Line(
            trimmed(lossy_text(acc + line)),
        ),
    decreases line.len(),
{
    let stream = line + seq![10u8] + rest;
    if line.len() == 0 {
        assert(stream[0] == 10);
        assert(acc + line =~= acc);
    } else {
        let tail = line.drop_first();
        assert(stream[0] == line[0]);
        assert(line[0] != 10);
        assert forall|i: int| 0 <= i < tail.len() implies #[trigger] tail[i] != 10 by {
            assert(tail[i] == line[i + 1]);
        }
        law_short_lines_are_read(acc.push(line[0]), tail, rest);
        assert(stream.drop_first() =~= tail + seq![10u8] + rest);
        assert(acc.push(line[0]) + tail =~= acc + line);
    }
}

/// A line that goes over the limit is refused, whatever follows.
pub proof fn law_long_lines_are_refused(acc: Seq<u8>, line: Seq<u8>, rest: Seq<u8>)
    requires
        acc.len() <= LINE_LIMIT,
        acc.len() + line.len() > LINE_LIMIT,
        forall|i: int| 0 <= i < line.len() ==> #[trigger] line[i] != 10,
    ensures
        line_in(acc, line + rest) == LineOutcome::Failed("linea demasiado larga"@),
    decreases line.len(),
{
    let stream = line + rest;
    assert(stream[0] == line[0]);
    assert(line[0] != 10);
    if acc.len() < LINE_LIMIT {
        let tail = line.drop_first();
        assert forall|i: int| 0 <= i < tail.len() implies #[trigger] tail[i] != 10 by {
            assert(tail[i] == line[i + 1]);
        }
        law_long_lines_are_refused(acc.push(line[0]), tail, rest);
        assert(stream.drop_first() =~= tail + rest);
    }
}

/// Reads a line byte by byte, and keeps what it has read of it.
pub struct LineReader {
    acc: Vec<u8>,
}

impl View for LineReader {
    type V = Seq<u8>;

    closed spec fn view(&self) -> Seq<u8> {
        self.acc@
    }
}

impl LineReader {
    /// A reader that has read nothing.
    pub fn new() -> (out: LineReader)
        ensures
            out@ == Seq::<u8>::empty(),
    {
        LineReader { acc: Vec::new() }
    }

    /// Takes the next byte, or the end of the stream.
    pub fn read_line(&mut self, byte: Option<u8>) -> (step: LineStep)
        requires
            old(self)@.len() <= LINE_LIMIT,
        ensures
            line_view(step) == line_step(old(self)@, byte),
            final(self)@ == line_acc(old(self)@, byte),
            byte == Some(10u8) && valid_utf8(old(self)@) ==> lossy_text(old(self)@)
                == decode_utf8(old(self)@),
    {
        match byte {
            None => LineStep::Failed("relay cerro".to_owned()),
            Some(b) => {
                if b == 10 {
                    let text = from_utf8_lossy(self.acc.as_slice());
                    return LineStep::Line(clean_line(text.as_str()));
                }
                self.acc.push(b);
                if self.acc.len() > LINE_LIMIT {
                    LineStep::Failed("linea demasiado larga".to_owned())
                } else {
                    LineStep::More
                }
            },
        }
    }
}

/// Takes the relay's line to a host: a viewer has come, or something is wrong.
pub fn host_tunnel(line: &str) -> (out: Result<(), String>)
    ensures
        out is Ok <==> line@ == "PEER"@,
        out is Err ==> out->Err_0@ == "respuesta inesperada del relay: "@ + line@,
{
    if same_str(line, "PEER") {
        Ok(())
    } else {
        Err("respuesta inesperada del relay: ".to_owned().concat(line))
    }
}

/// What has kept a viewer from a session through the relay.
pub enum TunnelFailure {
    /// The relay could not be reached.
    Contact(String),
    /// No line could be read.
    Read(String),
}

/// Message for the relay's line to a viewer that does not get a session.
pub open spec fn refusal_text(line: Seq<char>) -> Seq<char> {
    if line == "NOHOST"@ {
        "El equipo no está conectado al servidor (¿está encendido y con OtisCorp abierto?)"@
    } else {
        "respuesta del relay: "@ + line
    }
}

/// Takes the relay's line to a viewer, or what kept it from coming.
pub fn viewer_tunnel(reply: Result<String, TunnelFailure>) -> (out: Result<(), String>)
    ensures
        match reply {
            Ok(line) => {
                &&& out is Ok <==> line@ == "OK"@
                &&& out is Err ==> out->Err_0@ == refusal_text(line@)
            },
            Err(TunnelFailure::Contact(e)) => out is Err && out->Err_0@
                == "No se pudo contactar el servidor: "@ + e@,
            Err(TunnelFailure::Read(e)) => out is Err && out->Err_0@ == "relay: "@ + e@,
        },
{
    match reply {
        Ok(line) => {
            if same_str(line.as_str(), "OK") {
                Ok(())
            } else if same_str(line.as_str(), "NOHOST") {
                Err(
                    "El equipo no está conectado al servidor (¿está encendido y con OtisCorp abierto?)".to_owned(),
                )
            } else {
                Err("respuesta del relay: ".to_owned().concat(line.as_str()))
            }
        },
        Err(failure) => match failure {
            TunnelFailure::Contact(e) => Err(
                "No se pudo contactar el servidor: ".to_owned().concat(e.as_str()),
            ),
            TunnelFailure::Read(e) => Err("relay: ".to_owned().concat(e.as_str())),
        },
    }
}

/// Message for a session that could not be bridged to the viewer.
pub fn bridge_error(detail: &str) -> (out: String)
    ensures
        out@ == "puente: "@ + detail@,
{
    "puente: ".to_owned().concat(detail)
}

// ---- The pump --------------------------------------------------------------

/// Milliseconds that a read of the pump waits at most.
pub const PUMP_WAIT_MS: u64 = 5;

/// Milliseconds that the pump rests when nothing has moved.
pub const PUMP_REST_MS: u64 = 1;

/// Blocks that the pump moves in one direction before it turns to the other.
pub const BURST: u32 = 8;

/// Bytes of a block.
pub const BLOCK: usize = 131_072;

/// Why a read has failed.
#[derive(Clone, Copy, PartialEq, Eq, Debug, Structural)]
pub enum ReadFailure {
    WouldBlock,
    TimedOut,
    Other,
}

/// Whether a failed read only means that there is nothing to read yet.
pub fn is_would_block(failure: ReadFailure) -> (out: bool)
    ensures
        out == (failure is WouldBlock || failure is TimedOut),
{
    failure == ReadFailure::WouldBlock || failure == ReadFailure::TimedOut
}

/// Where the pump stands. The number is how many blocks the burst has moved.
#[derive(Clone, Copy, PartialEq, Eq, Debug, Structural)]
pub enum PumpPhase {
    /// Reading from the session.
    ReadSession(u32),
    /// Writing to the relay.
    WriteRelay(u32),
    /// Flushing what was written to the relay.
    FlushRelay,
    /// Reading from the relay.
    ReadRelay(u32),
    /// Writing to the session.
    WriteSession(u32),
    /// Resting, since nothing has moved.
    Resting,
    /// Both ends are closed.
    Closed,
}

/// What has happened in a phase.
#[derive(PartialEq, Eq, Debug)]
pub enum PumpEvent {
    /// A block of bytes has been read.
    Block(Vec<u8>),
    /// The stream has ended.
    End,
    /// A read has failed.
    NotRead(ReadFailure),
    /// What the phase asks for is done.
    Done,
    /// What the phase asks for has failed.
    Failed,
}

/// The event of a read that has put `n` bytes into `buf`. A read of nothing is the end of
/// the stream.
pub fn read_event(buf: &[u8], n: usize) -> (out: PumpEvent)
    requires
        n <= buf@.len(),
    ensures
        n == 0 ==> out is End,
        n > 0 ==> out is Block && out->Block_0@ == buf@.take(n as int),
{
    if n == 0 {
        PumpEvent::End
    } else {
        let mut block: Vec<u8> = Vec::new();
        block.extend_from_slice(&buf[0..n]);
        PumpEvent::Block(block)
    }
}

/// What the pump asks for.
#[derive(PartialEq, Eq, Debug)]
pub enum PumpAction<'a> {
    /// Read a block from the session.
    ReadSession,
    /// Write all of these bytes to the relay.
    WriteRelay(&'a [u8]),
    /// Flush the relay.
    FlushRelay,
    /// Read a block from the relay.
    ReadRelay,
    /// Write all of these bytes to the session.
    WriteSession(&'a [u8]),
    /// Rest for this many milliseconds.
    Rest(u64),
    /// Shut down the session's socket and the relay's, both ways, and end.
    ShutDown,
}

/// A pump as the laws see it: its phase, whether nothing has moved in this round, and the
/// bytes that have been read and are not yet written.
#[verifier::ext_equal]
pub struct PumpState {
    pub phase: PumpPhase,
    pub idle: bool,
    pub block: Seq<u8>,
}

/// The pump at the start of a round.
pub open spec fn round_start() -> PumpState {
    PumpState { phase: PumpPhase::ReadSession(0), idle: true, block: Seq::empty() }
}

/// The pump once it has read enough from the session.
pub open spec fn session_read(idle: bool) -> PumpState {
    PumpState {
        phase: if idle {
            PumpPhase::ReadRelay(0)
        } else {
            PumpPhase::FlushRelay
        },
        idle,
        block: Seq::empty(),
    }
}

/// The pump once it has read enough from the relay.
pub open spec fn relay_read(idle: bool) -> PumpState {
    if idle {
        PumpState { phase: PumpPhase::Resting, idle, block: Seq::empty() }
    } else {
        round_start()
    }
}

/// The pump after an event. A read that brings a block is followed by writing it; one
/// that only finds nothing yet ends the burst; the end of a stream and any other failure
/// close both ends, but a flush may fail.
pub open spec fn pump_after(s: PumpState, event: PumpEvent) -> PumpState {
    let closed = PumpState { phase: PumpPhase::Closed, idle: s.idle, block: Seq::empty() };
    match s.phase {
        PumpPhase::ReadSession(k) => match event {
            PumpEvent::Block(block) => PumpState {
                phase: PumpPhase::WriteRelay(k),
                idle: false,
                block: block@,
            },
            PumpEvent::NotRead(f) => if f is Other {
                closed
            } else {
                session_read(s.idle)
            },
            _ => closed,
        },
        PumpPhase::WriteRelay(k) => match event {
            PumpEvent::Done => if k + 1 < BURST {
                PumpState {
                    phase: PumpPhase::ReadSession((k + 1) as u32),
                    idle: s.idle,
                    block: Seq::empty(),
                }
            } else {
                session_read(s.idle)
            },
            _ => closed,
        },
        PumpPhase::FlushRelay => PumpState {
            phase: PumpPhase::ReadRelay(0),
            idle: s.idle,
            block: Seq::empty(),
        },
        PumpPhase::ReadRelay(k) => match event {
            PumpEvent::Block(block) => PumpState {
                phase: PumpPhase::WriteSession(k),
                idle: false,
                block: block@,
            },
            PumpEvent::NotRead(f) => if f is Other {
                closed
            } else {
                relay_read(s.idle)
            },
            _ => closed,
        },
        PumpPhase::WriteSession(k) => match event {
            PumpEvent::Done => if k + 1 < BURST {
                PumpState {
                    phase: PumpPhase::ReadRelay((k + 1) as u32),
                    idle: s.idle,
                    block: Seq::empty(),
                }
            } else {
                relay_read(s.idle)
            },
            _ => closed,
        },
        PumpPhase::Resting => round_start(),
        PumpPhase::Closed => closed,
    }
}

/// Blocks that the current burst has moved, or is about to have.
pub open spec fn moved(phase: PumpPhase) -> int {
    match phase {
        PumpPhase::ReadSession(k) => k as int,
        PumpPhase::WriteRelay(k) => k as int,
        PumpPhase::ReadRelay(k) => k as int,
        PumpPhase::WriteSession(k) => k as int,
        _ => 0,
    }
}

/// Contents of what the pump asks for.
pub enum PumpRequest {
    ReadSession,
    WriteRelay(Seq<u8>),
    FlushRelay,
    ReadRelay,
    WriteSession(Seq<u8>),
    Rest(u64),
    ShutDown,
}

/// Contents of an action.
pub open spec fn contents(action: PumpAction<'_>) -> PumpRequest {
    match action {
        PumpAction::ReadSession => PumpRequest::ReadSession,
        PumpAction::WriteRelay(bytes) => PumpRequest::WriteRelay(bytes@),
        PumpAction::FlushRelay => PumpRequest::FlushRelay,
        PumpAction::ReadRelay => PumpRequest::ReadRelay,
        PumpAction::WriteSession(bytes) => PumpRequest::WriteSession(bytes@),
        PumpAction::Rest(ms) => PumpRequest::Rest(ms),
        PumpAction::ShutDown => PumpRequest::ShutDown,
    }
}

/// What a pump asks for.
pub open spec fn pump_request(s: PumpState) -> PumpRequest {
    match s.phase {
        PumpPhase::ReadSession(_) => PumpRequest::ReadSession,
        PumpPhase::WriteRelay(_) => PumpRequest::WriteRelay(s.block),
        PumpPhase::FlushRelay => PumpRequest::FlushRelay,
        PumpPhase::ReadRelay(_) => PumpRequest::ReadRelay,
        PumpPhase::WriteSession(_) => PumpRequest::WriteSession(s.block),
        PumpPhase::Resting => PumpRequest::Rest(PUMP_REST_MS),
        PumpPhase::Closed => PumpRequest::ShutDown,
    }
}

/// The pump: its phase, whether nothing has moved in this round, and the block that it is
/// writing.
#[derive(PartialEq, Eq, Debug)]
pub struct Pump {
    phase: PumpPhase,
    idle: bool,
    block: Vec<u8>,
}

impl View for Pump {
    type V = PumpState;

    closed spec fn view(&self) -> PumpState {
        PumpState { phase: self.phase, idle: self.idle, block: self.block@ }
    }
}

impl Pump {
    /// Whether the burst has not run over.
    pub open spec fn well_formed(&self) -> bool {
        moved(self@.phase) < BURST
    }

    /// A pump about to begin.
    pub fn new() -> (out: Pump)
        ensures
            out@ == round_start(),
            out.well_formed(),
    {
        Pump { phase: PumpPhase::ReadSession(0), idle: true, block: Vec::new() }
    }

    /// Where the pump stands.
    pub fn phase(&self) -> (out: PumpPhase)
        ensures
            out == self@.phase,
    {
        self.phase
    }

    /// What the pump asks for now.
    pub fn action(&self) -> (out: PumpAction<'_>)
        ensures
            match self@.phase {
                PumpPhase::ReadSession(_) => out is ReadSession,
                PumpPhase::WriteRelay(_) => out is WriteRelay && out->WriteRelay_0@
                    == self@.block,
                PumpPhase::FlushRelay => out is FlushRelay,
                PumpPhase::ReadRelay(_) => out is ReadRelay,
                PumpPhase::WriteSession(_) => out is WriteSession && out->WriteSession_0@
                    == self@.block,
                PumpPhase::Resting => out == PumpAction::Rest(PUMP_REST_MS),
                PumpPhase::Closed => out is ShutDown,
            },
            contents(out) == pump_request(self@),
    {
        match self.phase {
            PumpPhase::ReadSession(_) => PumpAction::ReadSession,
            PumpPhase::WriteRelay(_) => PumpAction::WriteRelay(self.block.as_slice()),
            PumpPhase::FlushRelay => PumpAction::FlushRelay,
            PumpPhase::ReadRelay(_) => PumpAction::ReadRelay,
            PumpPhase::WriteSession(_) => PumpAction::WriteSession(self.block.as_slice()),
            PumpPhase::Resting => PumpAction::Rest(PUMP_REST_MS),
            PumpPhase::Closed => PumpAction::ShutDown,
        }
    }

    fn after_session(&self) -> (out: PumpPhase)
        ensures
            out == session_read(self@.idle).phase,
    {
        if self.idle {
            PumpPhase::ReadRelay(0)
        } else {
            PumpPhase::FlushRelay
        }
    }

    fn after_relay(&self) -> (out: PumpPhase)
        ensures
            out == relay_read(self@.idle).phase,
    {
        if self.idle {
            PumpPhase::Resting
        } else {
            PumpPhase::ReadSession(0)
        }
    }

    /// Takes the outcome of what the pump asked for.
    pub fn handle(&mut self, event: PumpEvent)
        requires
            old(self).well_formed(),
        ensures
            final(self)@ == pump_after(old(self)@, event),
            final(self).well_formed(),
    {
        let mut block: Vec<u8> = Vec::new();
        let phase = match self.phase {
            PumpPhase::ReadSession(k) => match event {
                PumpEvent::Block(read) => {
                    block = read;
                    PumpPhase::WriteRelay(k)
                },
                PumpEvent::NotRead(failure) => {
                    if is_would_block(failure) {
                        self.after_session()
                    } else {
                        PumpPhase::Closed
                    }
                },
                _ => PumpPhase::Closed,
            },
            PumpPhase::WriteRelay(k) => match event {
                PumpEvent::Done => {
                    if k + 1 < BURST {
                        PumpPhase::ReadSession(k + 1)
                    } else {
                        self.after_session()
                    }
                },
                _ => PumpPhase::Closed,
            },
            PumpPhase::FlushRelay => PumpPhase::ReadRelay(0),
            PumpPhase::ReadRelay(k) => match event {
                PumpEvent::Block(read) => {
                    block = read;
                    PumpPhase::WriteSession(k)
                },
                PumpEvent::NotRead(failure) => {
                    if is_would_block(failure) {
                        self.after_relay()
                    } else {
                        PumpPhase::Closed
                    }
                },
                _ => PumpPhase::Closed,
            },
            PumpPhase::WriteSession(k) => match event {
                PumpEvent::Done => {
                    if k + 1 < BURST {
                        PumpPhase::ReadRelay(k + 1)
                    } else {
                        self.after_relay()
                    }
                },
                _ => PumpPhase::Closed,
            },
            PumpPhase::Resting => PumpPhase::ReadSession(0),
            PumpPhase::Closed => PumpPhase::Closed,
        };
        self.idle = match phase {
            PumpPhase::ReadSession(k) => k == 0 || self.idle,
            PumpPhase::WriteRelay(_) => false,
            PumpPhase::WriteSession(_) => false,
            _ => self.idle,
        };
        self.phase = phase;
        self.block = block;
    }
}

/// A block that has been read is what the pump writes to the other end next, unchanged.
pub proof fn law_blocks_are_carried(s: PumpState, block: Vec<u8>)
    ensures
        s.phase is ReadSession ==> pump_after(s, PumpEvent::Block(block)).phase is WriteRelay,
        s.phase is ReadRelay ==> pump_after(s, PumpEvent::Block(block)).phase is WriteSession,
        s.phase is ReadSession || s.phase is ReadRelay ==> pump_after(
            s,
            PumpEvent::Block(block),
        ).block == block@,
{
}

/// A pump, and the bytes that it has read and written since it began.
pub struct PumpTrace {
    pub pump: PumpState,
    pub read_session: Seq<u8>,
    pub written_relay: Seq<u8>,
    pub read_relay: Seq<u8>,
    pub written_session: Seq<u8>,
}

/// The bytes that an event brings.
pub open spec fn bytes_read(event: PumpEvent) -> Seq<u8> {
    match event {
        PumpEvent::Block(block) => block@,
        _ => Seq::empty(),
    }
}

/// A pump that has taken a row of events, and the bytes that it has moved. What counts as
/// written are the blocks whose writing was done.
pub open spec fn pumped(events: Seq<PumpEvent>) -> PumpTrace
    decreases events.len(),
{
    if events.len() == 0 {
        PumpTrace {
            pump: round_start(),
            read_session: Seq::empty(),
            written_relay: Seq::empty(),
            read_relay: Seq::empty(),
            written_session: Seq::empty(),
        }
    } else {
        let t = pumped(events.drop_last());
        let event = events.last();
        PumpTrace {
            pump: pump_after(t.pump, event),
            read_session: if t.pump.phase is ReadSession {
                t.read_session + bytes_read(event)
            } else {
                t.read_session
            },
            written_relay: if t.pump.phase is WriteRelay && event is Done {
                t.written_relay + t.pump.block
            } else {
                t.written_relay
            },
            read_relay: if t.pump.phase is ReadRelay {
                t.read_relay + bytes_read(event)
            } else {
                t.read_relay
            },
            written_session: if t.pump.phase is WriteSession && event is Done {
                t.written_session + t.pump.block
            } else {
                t.written_session
            },
        }
    }
}

/// Whatever happens, the relay gets the bytes of the session and the session those of the
/// relay, all of them, unchanged and in order. While a block is being written, what was
/// read is what was written and that block; else, until the pump closes, the two are the
/// same. What a closed pump has written is a beginning of what it has read.
pub proof fn law_bytes_arrive_in_order(events: Seq<PumpEvent>)
    ensures
        ({
            let t = pumped(events);
            &&& t.pump.phase is WriteRelay ==> t.written_relay + t.pump.block == t.read_session
            &&& t.pump.phase !is WriteRelay && t.pump.phase !is Closed ==> t.written_relay
                == t.read_session
            &&& t.pump.phase is WriteSession ==> t.written_session + t.pump.block == t.read_relay
            &&& t.pump.phase !is WriteSession && t.pump.phase !is Closed ==> t.written_session
                == t.read_relay
            &&& t.written_relay.is_prefix_of(t.read_session)
            &&& t.written_session.is_prefix_of(t.read_relay)
        }),
    decreases events.len(),
{
    if events.len() > 0 {
        law_bytes_arrive_in_order(events.drop_last());
        let t = pumped(events.drop_last());
        let read = bytes_read(events.last());
        assert(t.read_session + Seq::<u8>::empty() =~= t.read_session);
        assert(t.read_relay + Seq::<u8>::empty() =~= t.read_relay);
        assert(t.written_relay.is_prefix_of(t.written_relay + read));
        assert(t.written_session.is_prefix_of(t.written_session + read));
    }
}

/// What closes a pump: the end of a stream, a read that fails for any other reason than
/// that there is nothing to read yet, and a write that fails. Nothing else does.
pub proof fn law_what_closes_the_pump(s: PumpState, event: PumpEvent)
    requires
        s.phase !is Closed,
    ensures
        s.phase is ReadSession || s.phase is ReadRelay ==> (pump_after(s, event).phase is Closed
            <==> match event {
            PumpEvent::Block(_) => false,
            PumpEvent::NotRead(failure) => failure is Other,
            _ => true,
        }),
        s.phase is WriteRelay || s.phase is WriteSession ==> (pump_after(s, event).phase is Closed
            <==> event !is Done),
        s.phase is FlushRelay || s.phase is Resting ==> pump_after(s, event).phase !is Closed,
{
}

/// What goes to the relay is flushed before the relay is read: a pump that leaves the
/// session's side after moving something flushes first.
pub proof fn law_relay_is_flushed(s: PumpState, event: PumpEvent)
    requires
        s.phase is ReadSession || s.phase is WriteRelay,
        pump_after(s, event).phase is ReadRelay,
    ensures
        s.idle,
{
}

/// The pump rests only in a round in which nothing has moved.
pub proof fn law_only_an_idle_pump_rests(s: PumpState, event: PumpEvent)
    requires
        pump_after(s, event).phase is Resting,
    ensures
        pump_after(s, event).idle,
        s.idle,
        s.phase is ReadRelay || s.phase is WriteSession,
{
}

/// A pump that is closed stays so.
pub proof fn law_closed_pump_stays_closed(s: PumpState, event: PumpEvent)
    requires
        s.phase is Closed,
    ensures
        pump_after(s, event).phase is Closed,
{
}

// ---- Laws of the handshake and the pump ------------------------------------

/// An address without a colon is a host, and the port is that of TLS. Where what stands behind
/// the last colon is no port, the port is that of TLS too.
pub proof fn law_missing_ports_are_that_of_tls(host: Seq<char>, rest: Seq<char>)
    requires
        !rest.contains(':'),
    ensures
        !host.contains(':') ==> target_in(host) == (host, 443int),
        number_in(rest, 65535) is None ==> target_in(host + seq![':'] + rest) == (host, 443int),
        number_in(rest, 65535) is Some ==> target_in(host + seq![':'] + rest) == (
            host,
            number_in(rest, 65535)->0,
        ),
        default_relay() == "otiscorp-relay.fly.dev"@ + seq![':', '4', '4', '3'],
{
    if !host.contains(':') {
        lemma_no_colon(host);
    }
    let s = host + seq![':'] + rest;
    lemma_colon_before(host, rest);
    assert(s.take(host.len() as int) =~= host);
    assert(s.skip(host.len() as int + 1) =~= rest);
    reveal_strlit("otiscorp-relay.fly.dev");
    reveal_strlit("otiscorp-relay.fly.dev:443");
    assert(default_relay() =~= "otiscorp-relay.fly.dev"@ + seq![':', '4', '4', '3']);
}

proof fn lemma_no_colon(s: Seq<char>)
    requires
        !s.contains(':'),
    ensures
        last_at(s, ':') == -1,
    decreases s.len(),
{
    if s.len() > 0 {
        assert(s.contains(s[s.len() - 1]));
        let t = s.drop_last();
        if t.contains(':') {
            let i = choose|i: int| 0 <= i < t.len() && t[i] == ':';
            assert(s[i] == ':');
        }
        lemma_no_colon(t);
    }
}

proof fn lemma_colon_before(host: Seq<char>, rest: Seq<char>)
    requires
        !rest.contains(':'),
    ensures
        last_at(host + seq![':'] + rest, ':') == host.len(),
    decreases rest.len(),
{
    let s = host + seq![':'] + rest;
    if rest.len() > 0 {
        assert(s.last() == rest[rest.len() - 1]);
        assert(rest.contains(rest[rest.len() - 1]));
        let t = rest.drop_last();
        if t.contains(':') {
            let i = choose|i: int| 0 <= i < t.len() && t[i] == ':';
            assert(rest[i] == ':');
        }
        lemma_colon_before(host, t);
        assert(s.drop_last() =~= host + seq![':'] + t);
    } else {
        assert(s.last() == ':');
    }
}

/// The host and the viewer announce themselves with different words.
pub proof fn law_each_side_has_its_word()
    ensures
        tunnel_word(TunnelSide::Host) == seq!['H', 'O', 'S', 'T'],
        tunnel_word(TunnelSide::Viewer) == seq!['J', 'O', 'I', 'N'],
{
    reveal_strlit("HOST");
    reveal_strlit("JOIN");
    assert("HOST"@ =~= seq!['H', 'O', 'S', 'T']);
    assert("JOIN"@ =~= seq!['J', 'O', 'I', 'N']);
}

/// A line of the relay has 64 bytes at most, without its line feed: up to there it is read as
/// its text without the white space around it, one byte more is refused, and a stream that
/// ends before the line feed holds no line.
pub proof fn law_lines_have_64_bytes_at_most(line: Seq<u8>, rest: Seq<u8>)
    requires
        forall|i: int| 0 <= i < line.len() ==> #[trigger] line[i] != 10,
    ensures
        line.len() <= 64 ==> line_in(Seq::empty(), line + seq![10u8] + rest) == LineOutcome::Line(
            trimmed(lossy_text(line)),
        ),
        line.len() > 64 ==> line_in(Seq::empty(), line + rest) == LineOutcome::Failed(
            "linea demasiado larga"@,
        ),
        line.len() <= 64 ==> line_in(Seq::empty(), line) == LineOutcome::Failed("relay cerro"@),
{
    let none = Seq::<u8>::empty();
    assert(none + line =~= line);
    if line.len() <= 64 {
        law_short_lines_are_read(none, line, rest);
        lemma_line_without_end(none, line);
    } else {
        law_long_lines_are_refused(none, line, rest);
    }
}

proof fn lemma_line_without_end(acc: Seq<u8>, line: Seq<u8>)
    requires
        acc.len() + line.len() <= LINE_LIMIT,
        forall|i: int| 0 <= i < line.len() ==> #[trigger] line[i] != 10,
    ensures
        line_in(acc, line) == LineOutcome::Failed("relay cerro"@),
    decreases line.len(),
{
    if line.len() > 0 {
        assert(line[0] != 10);
        let tail = line.drop_first();
        assert forall|i: int| 0 <= i < tail.len() implies #[trigger] tail[i] != 10 by {
            assert(tail[i] == line[i + 1]);
        }
        lemma_line_without_end(acc.push(line[0]), tail);
    }
}

/// What a viewer is told where it gets no session: that the device is not there, or what the
/// relay has said.
pub proof fn law_refusals_say_why(line: Seq<char>)
    ensures
        line == "NOHOST"@ ==> refusal_text(line)
            == "El equipo no está conectado al servidor (¿está encendido y con OtisCorp abierto?)"@,
        line != "NOHOST"@ ==> refusal_text(line) == "respuesta del relay: "@ + line,
{
}

/// The pump is fair: after a block it reads on from the same side up to the eighth block, and
/// then turns to the other side. It also turns there when there is nothing to read.
pub proof fn law_the_pump_takes_turns(s: PumpState, k: u32, nothing: ReadFailure)
    requires
        k < 8,
        nothing is WouldBlock || nothing is TimedOut,
    ensures
        s.phase == PumpPhase::WriteRelay(k) ==> ({
            let next = pump_after(s, PumpEvent::Done).phase;
            &&& k < 7 ==> next == PumpPhase::ReadSession((k + 1) as u32)
            &&& k == 7 ==> next == if s.idle {
                PumpPhase::ReadRelay(0)
            } else {
                PumpPhase::FlushRelay
            }
        }),
        s.phase == PumpPhase::WriteSession(k) ==> ({
            let next = pump_after(s, PumpEvent::Done).phase;
            &&& k < 7 ==> next == PumpPhase::ReadRelay((k + 1) as u32)
            &&& k == 7 && !s.idle ==> next == PumpPhase::ReadSession(0)
        }),
        s.phase == PumpPhase::ReadSession(k) ==> ({
            let next = pump_after(s, PumpEvent::NotRead(nothing)).phase;
            next == if s.idle {
                PumpPhase::ReadRelay(0)
            } else {
                PumpPhase::FlushRelay
            }
        }),
        s.phase == PumpPhase::ReadRelay(k) ==> ({
            let next = pump_after(s, PumpEvent::NotRead(nothing)).phase;
            next == if s.idle {
                PumpPhase::Resting
            } else {
                PumpPhase::ReadSession(0)
            }
        }),
{
}

/// A block that is read keeps its place in the burst, and the round is not idle any more; a
/// flush is followed by reading from the relay and a rest by a new round, whatever came of
/// them.
pub proof fn law_a_round_of_the_pump(s: PumpState, k: u32, block: Vec<u8>, event: PumpEvent)
    ensures
        s.phase == PumpPhase::ReadSession(k) ==> pump_after(s, PumpEvent::Block(block)) == (
        PumpState { phase: PumpPhase::WriteRelay(k), idle: false, block: block@ }),
        s.phase == PumpPhase::ReadRelay(k) ==> pump_after(s, PumpEvent::Block(block)) == (
        PumpState { phase: PumpPhase::WriteSession(k), idle: false, block: block@ }),
        s.phase is FlushRelay ==> pump_after(s, event).phase == PumpPhase::ReadRelay(0)
            && pump_after(s, event).idle == s.idle,
        s.phase is Resting ==> pump_after(s, event) == (PumpState {
            phase: PumpPhase::ReadSession(0),
            idle: true,
            block: Seq::empty(),
        }),
        pumped(Seq::empty()).pump == (PumpState {
            phase: PumpPhase::ReadSession(0),
            idle: true,
            block: Seq::empty(),
        }),
        s.phase is WriteRelay && event is Done ==> pump_after(s, event).idle == s.idle,
        s.phase is ReadSession && event is NotRead ==> pump_after(s, event).idle == s.idle,
{
}

/// The pump stays responsive: a read waits 5 milliseconds at most, a rest lasts one, and one
/// turn moves a mebibyte at most, in blocks of 128 KiB.
pub proof fn law_the_pump_stays_responsive()
    ensures
        PUMP_WAIT_MS == 5,
        PUMP_REST_MS == 1,
        BLOCK == 128 * 1024,
        BURST * BLOCK == 1024 * 1024,
        KEEPALIVE_SECS == 3 * KEEPALIVE_INTERVAL_SECS,
        KEEPALIVE_INTERVAL_SECS == 5,
        SOCKET_BUFFER == 96 * 1024,
{
}

/// What the pump asks to be written to an end is what comes next of the bytes that were read
/// from the other end, whatever has happened before.
pub proof fn law_the_next_bytes_are_written(events: Seq<PumpEvent>)
    ensures
        ({
            let t = pumped(events);
            match pump_request(t.pump) {
                PumpRequest::WriteRelay(bytes) => t.written_relay + bytes == t.read_session,
                PumpRequest::WriteSession(bytes) => t.written_session + bytes == t.read_relay,
                PumpRequest::ShutDown => t.pump.phase is Closed,
                _ => t.written_relay == t.read_session && t.written_session == t.read_relay,
            }
        }),
{
    law_bytes_arrive_in_order(events);
}

/// A pump asks for what its phase stands for; in particular it shuts both ends down once it is
/// closed, and not before, and rests for a millisecond.
pub proof fn law_a_phase_asks_for_its_own(s: PumpState)
    ensures
        pump_request(s) is ReadSession <==> s.phase is ReadSession,
        pump_request(s) is WriteRelay <==> s.phase is WriteRelay,
        pump_request(s) is FlushRelay <==> s.phase is FlushRelay,
        pump_request(s) is ReadRelay <==> s.phase is ReadRelay,
        pump_request(s) is WriteSession <==> s.phase is WriteSession,
        pump_request(s) is ShutDown <==> s.phase is Closed,
        s.phase is Resting <==> pump_request(s) == PumpRequest::Rest(1),
{
}

} // verus!
