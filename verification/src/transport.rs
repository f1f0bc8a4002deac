//! A remote session: the host shares its screen and takes input, the viewer shows the
//! screen and sends input. Here stand what the two say to each other, the course of a
//! session on either side, and the state that is shared between sessions.
use crate::input::{
    apply_input, event_of, fields_in, injections_for, text_or_none, InputEvent, Injection, Platform,
};
use crate::json::{
    distinct_keys, json_object, json_object_text, json_str, json_str_at, plain_fields, plain_members,
    plain_text, text_before,
};
use crate::text::{bytes_of, same_str};
use crate::video::{base64_text, frame_in, remote_frame, ShownFrame};
use crate::wire::{first_message, law_message_reads_back, message, write_msg, MSG_FRAME, MSG_INPUT};
use vstd::prelude::*;
use vstd::utf8::{encode_utf8, is_ascii_chars_encode_utf8};

verus! {

// ---- What host and viewer say to each other --------------------------------

/// Milliseconds that a host waits for a viewer's first message.
pub const HELLO_TIMEOUT_MS: u64 = 3_000;

/// Milliseconds that a host waits for its user to approve a session.
pub const APPROVAL_TIMEOUT_MS: u64 = 20_000;

/// Profile that a host's reply goes by where `found` is what the viewer's first message
/// asks for.
pub open spec fn profile_or_default(found: Option<Seq<char>>) -> Seq<char> {
    match found {
        Some(profile) => profile,
        None => "ultralight"@,
    }
}

/// Profile that a viewer's first message asks for.
pub open spec fn profile_in(kind: u8, payload: Seq<u8>) -> Seq<char> {
    if kind == MSG_INPUT {
        profile_or_default(json_str_at(payload, "profile"@))
    } else {
        "ultralight"@
    }
}

/// The profile that was found, or the default.
pub fn requested_profile(found: Option<String>) -> (profile: String)
    ensures
        profile@ == profile_or_default(text_or_none(found)),
{
    match found {
        Some(profile) => profile,
        None => "ultralight".to_owned(),
    }
}

/// Kind and payload of a message that may not have come.
pub open spec fn seen(msg: Option<(u8, Vec<u8>)>) -> Option<(u8, Seq<u8>)> {
    match msg {
        Some((kind, payload)) => Some((kind, payload@)),
        None => None,
    }
}

/// Profile of a session whose first message is `hello`, if one came in time.
pub open spec fn negotiated(hello: Option<(u8, Seq<u8>)>) -> Seq<char> {
    match hello {
        Some((kind, payload)) => profile_in(kind, payload),
        None => "ultralight"@,
    }
}

/// Profile of a session whose first message is `hello`, if one came in time.
pub fn negotiate_profile(hello: &Option<(u8, Vec<u8>)>) -> (profile: String)
    ensures
        profile@ == negotiated(seen(*hello)),
{
    match hello {
        Some((kind, payload)) => {
            if *kind == MSG_INPUT {
                requested_profile(json_str(payload.as_slice(), "profile"))
            } else {
                requested_profile(None)
            }
        },
        None => requested_profile(None),
    }
}

/// Fields of a viewer's first message.
pub open spec fn hello_fields(profile: Seq<char>) -> Seq<(Seq<char>, Seq<char>)> {
    seq![("profile"@, profile), ("t"@, "hello"@)]
}

/// Payload of a viewer's first message.
pub open spec fn hello_payload(profile: Seq<char>) -> Seq<u8> {
    encode_utf8(json_object_text(hello_fields(profile)))
}

/// A plain profile stands in the viewer's first message as it is.
proof fn lemma_plain_hello(profile: Seq<char>)
    requires
        plain_text(profile),
    ensures
        plain_fields(hello_fields(profile)),
        seq!['{'] + plain_members(hello_fields(profile)) + seq!['}'] == "{\"profile\":\""@ + profile
            + "\",\"t\":\"hello\"}"@,
{
    reveal_strlit("profile");
    reveal_strlit("t");
    reveal_strlit("hello");
    reveal_strlit("{\"profile\":\"");
    reveal_strlit("\",\"t\":\"hello\"}");
    let fields = hello_fields(profile);
    assert(text_before(fields[0].0, fields[1].0));
    assert(fields.drop_last() =~= seq![fields[0]]);
    reveal_with_fuel(plain_members, 2);
    assert(seq!['{'] + plain_members(fields) + seq!['}'] =~= "{\"profile\":\""@ + profile
        + "\",\"t\":\"hello\"}"@);
}

/// The bytes of a viewer's first message. A host that reads it takes the profile for
/// the one that was asked for, where the message is not too long for its length field.
pub fn hello_message(profile: &str) -> (out: Vec<u8>)
    ensures
        out@ == message(MSG_INPUT, hello_payload(profile@)),
        plain_text(profile@) ==> hello_payload(profile@) == encode_utf8(
            "{\"profile\":\""@ + profile@ + "\",\"t\":\"hello\"}"@,
        ),
        negotiated(Some((MSG_INPUT, hello_payload(profile@)))) == profile@,
        hello_payload(profile@).len() < 0x1_0000_0000 ==> first_message(out@) == Some(
            (MSG_INPUT, hello_payload(profile@), Seq::<u8>::empty()),
        ),
{
    proof {
        reveal_strlit("t");
        reveal_strlit("profile");
    }
    let mut fields: Vec<(String, String)> = Vec::new();
    fields.push(("profile".to_owned(), profile.to_owned()));
    fields.push(("t".to_owned(), "hello".to_owned()));
    let ghost list = fields.deep_view();
    assert(list =~= hello_fields(profile@));
    assert(distinct_keys(list)) by {
        assert(list[0].0.len() == 7);
        assert(list[1].0.len() == 1);
    }
    let object = json_object(fields);
    assert(list[0].0 == "profile"@);
    let payload = bytes_of(object.as_str());
    let out = write_msg(MSG_INPUT, payload.as_slice());
    proof {
        if plain_text(profile@) {
            lemma_plain_hello(profile@);
        }
        if payload@.len() < 0x1_0000_0000 {
            law_message_reads_back(MSG_INPUT, payload@, Seq::empty());
            assert(out@ + Seq::<u8>::empty() =~= out@);
        }
    }
    out
}

/// Whether a message's payload tells a viewer that it has been rejected.
pub open spec fn is_rejection(payload: Seq<u8>) -> bool {
    json_str_at(payload, "t"@) == Some("rejected"@)
}

/// Payload of the message to a viewer that is rejected.
pub open spec fn rejection_payload() -> Seq<u8> {
    encode_utf8("{\"t\":\"rejected\"}"@)
}

/// The text of the message to a viewer that is rejected is that of an object with one
/// plain field, and all ASCII.
proof fn lemma_rejection_text()
    ensures
        plain_fields(seq![("t"@, "rejected"@)]),
        seq!['{'] + plain_members(seq![("t"@, "rejected"@)]) + seq!['}']
            == "{\"t\":\"rejected\"}"@,
        rejection_payload().len() == 16,
{
    reveal_strlit("t");
    reveal_strlit("rejected");
    reveal_strlit("{\"t\":\"rejected\"}");
    assert(seq!['{'] + plain_members(seq![("t"@, "rejected"@)]) + seq!['}']
        =~= "{\"t\":\"rejected\"}"@);
    is_ascii_chars_encode_utf8("{\"t\":\"rejected\"}"@);
}

/// The bytes of the message to a viewer that is rejected. A viewer that reads them has
/// its payload, and knows that it has been rejected.
pub fn rejection_message() -> (out: Vec<u8>)
    ensures
        out@ == message(MSG_INPUT, rejection_payload()),
        is_rejection(rejection_payload()),
        first_message(out@) == Some((MSG_INPUT, rejection_payload(), Seq::<u8>::empty())),
{
    let mut fields: Vec<(String, String)> = Vec::new();
    fields.push(("t".to_owned(), "rejected".to_owned()));
    let ghost list = fields.deep_view();
    assert(list =~= seq![("t"@, "rejected"@)]);
    proof {
        lemma_rejection_text();
    }
    let object = json_object(fields);
    assert(list[0].0 == "t"@);
    let payload = bytes_of(object.as_str());
    let out = write_msg(MSG_INPUT, payload.as_slice());
    proof {
        law_message_reads_back(MSG_INPUT, payload@, Seq::empty());
        assert(out@ + Seq::<u8>::empty() =~= out@);
    }
    out
}

// ---- The viewer's side -----------------------------------------------------

/// Milliseconds between two publications of the viewer's metrics, at least.
pub const METRICS_INTERVAL_MS: u64 = 500;

/// Why a viewer's session has ended.
#[derive(Clone, Copy, PartialEq, Eq, Debug, Structural)]
pub enum EndReason {
    /// The host's user has not approved it.
    Rejected,
    /// The connection is gone, or the viewer has closed it.
    Closed,
}

impl EndReason {
    /// The name that the user interface knows the reason by.
    pub fn name(&self) -> (out: &'static str)
        ensures
            out@ == match *self {
                EndReason::Rejected => "rejected"@,
                EndReason::Closed => "closed"@,
            },
    {
        match self {
            EndReason::Rejected => "rejected",
            EndReason::Closed => "closed",
        }
    }
}

/// What a message means to a viewer.
pub enum ViewerStep {
    /// Nothing is to be done.
    Nothing,
    /// A frame is to be shown.
    Show(ShownFrame),
    /// The session has been rejected.
    Rejected,
}

/// What a viewer has received since its metrics were last published.
#[derive(Clone, Copy, PartialEq, Eq, Debug, Structural)]
pub struct ViewerWindow {
    pub frames: u32,
    pub bytes: u64,
}

/// The reading end of a viewer: what has been received in the current window, and how
/// the session has ended, if it has.
#[derive(Clone, Copy, PartialEq, Eq, Debug, Structural)]
pub struct ViewerReader {
    pub window: ViewerWindow,
    pub ended: Option<EndReason>,
}

/// Whether the word that was found is the one for a rejection.
pub fn says_rejected(found: &Option<String>) -> (out: bool)
    ensures
        out == (text_or_none(*found) == Some("rejected"@)),
{
    match found {
        Some(t) => same_str(t.as_str(), "rejected"),
        None => false,
    }
}

/// A reader after a message.
pub open spec fn viewer_after(r: ViewerReader, kind: u8, payload: Seq<u8>) -> ViewerReader {
    if kind == MSG_FRAME {
        match frame_in(payload) {
            Some((width, height, jpeg)) => ViewerReader {
                window: ViewerWindow {
                    frames: (r.window.frames + 1) as u32,
                    bytes: (r.window.bytes + jpeg.len()) as u64,
                },
                ended: r.ended,
            },
            None => r,
        }
    } else if kind == MSG_INPUT && is_rejection(payload) {
        ViewerReader { window: r.window, ended: Some(EndReason::Rejected) }
    } else {
        r
    }
}

/// What a viewer shows for a message: width, height and the image as base64; nothing where the
/// message holds no frame.
pub open spec fn viewer_shows(kind: u8, payload: Seq<u8>) -> Option<(int, int, Seq<char>)> {
    if kind == MSG_FRAME {
        match frame_in(payload) {
            Some((width, height, jpeg)) => Some((width, height, base64_text(jpeg))),
            None => None,
        }
    } else {
        None
    }
}

/// Why a session has ended whose connection is gone.
pub open spec fn end_reason(ended: Option<EndReason>) -> EndReason {
    match ended {
        Some(reason) => reason,
        None => EndReason::Closed,
    }
}

impl ViewerReader {
    /// A reader at the start of a session.
    pub fn new() -> (out: ViewerReader)
        ensures
            out.window == (ViewerWindow { frames: 0, bytes: 0 }),
            out.ended is None,
    {
        ViewerReader { window: ViewerWindow { frames: 0, bytes: 0 }, ended: None }
    }

    /// Takes a message. Frames are counted and shown, but those too short to hold one
    /// are passed over; a rejection ends the session; all else is ignored.
    pub fn handle(&mut self, kind: u8, payload: &[u8]) -> (step: ViewerStep)
        requires
            old(self).window.frames < u32::MAX,
            old(self).window.bytes + payload@.len() <= u64::MAX,
        ensures
            kind == MSG_FRAME ==> final(self).ended == old(self).ended && match frame_in(payload@) {
                Some((width, height, jpeg)) => {
                    &&& step is Show
                    &&& step->Show_0.width == width
                    &&& step->Show_0.height == height
                    &&& step->Show_0.jpeg@ == base64_text(jpeg)
                    &&& final(self).window.frames == old(self).window.frames + 1
                    &&& final(self).window.bytes == old(self).window.bytes + jpeg.len()
                },
                None => step is Nothing && final(self).window == old(self).window,
            },
            kind != MSG_FRAME ==> final(self).window == old(self).window,
            kind == MSG_INPUT && is_rejection(payload@) ==> step is Rejected && final(self).ended
                == Some(EndReason::Rejected),
            kind != MSG_FRAME && !(kind == MSG_INPUT && is_rejection(payload@)) ==> step is Nothing
                && final(self).ended == old(self).ended,
            *final(self) == viewer_after(*old(self), kind, payload@),
            match (viewer_shows(kind, payload@), step) {
                (Some((width, height, image)), ViewerStep::Show(frame)) => {
                    &&& frame.width == width
                    &&& frame.height == height
                    &&& frame.jpeg@ == image
                },
                (None, ViewerStep::Show(_)) => false,
                (None, _) => true,
                (Some(_), _) => false,
            },
    {
        if kind == MSG_FRAME {
            match remote_frame(payload) {
                Some((frame, len)) => {
                    self.window.frames = self.window.frames + 1;
                    self.window.bytes = self.window.bytes + len as u64;
                    ViewerStep::Show(frame)
                },
                None => ViewerStep::Nothing,
            }
        } else if kind == MSG_INPUT && says_rejected(&json_str(payload, "t")) {
            self.ended = Some(EndReason::Rejected);
            ViewerStep::Rejected
        } else {
            ViewerStep::Nothing
        }
    }

    /// After a frame has been shown: once the window has lasted half a second, gives
    /// what was received in it and starts a new one.
    pub fn metrics(&mut self, window_ms: u64) -> (out: Option<ViewerWindow>)
        ensures
            final(self).ended == old(self).ended,
            window_ms < METRICS_INTERVAL_MS ==> out is None && final(self).window == old(
                self,
            ).window,
            window_ms >= METRICS_INTERVAL_MS ==> out == Some(old(self).window)
                && final(self).window == (ViewerWindow { frames: 0, bytes: 0 }),
    {
        if window_ms < METRICS_INTERVAL_MS {
            return None;
        }
        let window = self.window;
        self.window = ViewerWindow { frames: 0, bytes: 0 };
        Some(window)
    }

    /// The connection is gone, or the session has been stopped. One that was rejected
    /// stays so.
    pub fn close(&mut self) -> (reason: EndReason)
        ensures
            final(self).window == old(self).window,
            final(self).ended == Some(reason),
            reason == if old(self).ended is Some {
                old(self).ended->0
            } else {
                EndReason::Closed
            },
            reason == end_reason(old(self).ended),
    {
        let reason = match self.ended {
            Some(reason) => reason,
            None => EndReason::Closed,
        };
        self.ended = Some(reason);
        reason
    }
}

impl Default for ViewerReader {
    fn default() -> (out: ViewerReader)
        ensures
            out.window == (ViewerWindow { frames: 0, bytes: 0 }),
            out.ended is None,
    {
        ViewerReader::new()
    }
}

// ---- The host's side -------------------------------------------------------

/// Where an incoming session stands.
#[derive(Clone, Copy, PartialEq, Eq, Debug, Structural)]
pub enum HostPhase {
    /// Waiting for the viewer's first message.
    Negotiating,
    /// Getting a second handle of the connection, to write to.
    Cloning,
    /// Waiting for the user's decision.
    AwaitingDecision,
    /// Telling the viewer that it is rejected.
    Rejecting,
    /// Starting to share the screen.
    Starting,
    /// Sharing the screen and taking input.
    Streaming,
    /// Stopping to share the screen.
    Stopping,
    /// The session is over.
    Closed,
}

/// What has happened in a session.
pub enum HostEvent {
    /// The first message, or none in time.
    Hello(Option<(u8, Vec<u8>)>),
    /// What the phase asks for is done.
    Done,
    /// What the phase asks for has failed, or the connection is gone.
    Failed,
    /// The user's decision, or none in time.
    Decision(Option<bool>),
    /// A message has come.
    Message(u8, Vec<u8>),
    /// Frames cannot be sent any more.
    SenderDead,
}

/// What a phase asks for.
#[derive(Clone, Copy, PartialEq, Eq, Debug, Structural)]
pub enum HostAction {
    /// Read the first message, waiting this many milliseconds at most.
    ReadHello(u64),
    /// Get a second handle of the connection.
    Clone,
    /// Ask the user, waiting this many milliseconds at most.
    Ask(u64),
    /// Send the rejection.
    SendRejection,
    /// Start to capture and to send frames.
    StartSharing,
    /// Read the next message, unless frames cannot be sent any more.
    ReadMessage,
    /// Stop to capture and to send frames.
    StopSharing,
    /// Leave the session.
    Leave,
}

/// What a phase asks for.
pub open spec fn host_action(phase: HostPhase) -> HostAction {
    match phase {
        HostPhase::Negotiating => HostAction::ReadHello(HELLO_TIMEOUT_MS),
        HostPhase::Cloning => HostAction::Clone,
        HostPhase::AwaitingDecision => HostAction::Ask(APPROVAL_TIMEOUT_MS),
        HostPhase::Rejecting => HostAction::SendRejection,
        HostPhase::Starting => HostAction::StartSharing,
        HostPhase::Streaming => HostAction::ReadMessage,
        HostPhase::Stopping => HostAction::StopSharing,
        HostPhase::Closed => HostAction::Leave,
    }
}

/// Phase after an event. An event that does not belong to a phase leaves it.
pub open spec fn host_phase_after(phase: HostPhase, event: HostEvent) -> HostPhase {
    match phase {
        HostPhase::Negotiating => if event is Hello {
            HostPhase::Cloning
        } else {
            phase
        },
        HostPhase::Cloning => if event is Done {
            HostPhase::AwaitingDecision
        } else if event is Failed {
            HostPhase::Closed
        } else {
            phase
        },
        HostPhase::AwaitingDecision => if event is Decision {
            if event->Decision_0 == Some(true) {
                HostPhase::Starting
            } else {
                HostPhase::Rejecting
            }
        } else {
            phase
        },
        HostPhase::Rejecting => if event is Done || event is Failed {
            HostPhase::Closed
        } else {
            phase
        },
        HostPhase::Starting => if event is Done {
            HostPhase::Streaming
        } else {
            phase
        },
        HostPhase::Streaming => if event is Failed || event is SenderDead {
            HostPhase::Stopping
        } else {
            phase
        },
        HostPhase::Stopping => if event is Done {
            HostPhase::Closed
        } else {
            phase
        },
        HostPhase::Closed => phase,
    }
}

/// Whether an event brings input that is to be injected in a phase.
pub open spec fn takes_input(phase: HostPhase, event: HostEvent) -> bool {
    match event {
        HostEvent::Message(kind, _) => phase is Streaming && kind == MSG_INPUT,
        _ => false,
    }
}

/// Profile of a session after an event.
pub open spec fn profile_after(phase: HostPhase, profile: Seq<char>, event: HostEvent) -> Seq<char> {
    match event {
        HostEvent::Hello(msg) => if phase is Negotiating {
            negotiated(seen(msg))
        } else {
            profile
        },
        _ => profile,
    }
}

/// An incoming session: its phase and, from the first message on, its profile.
pub struct HostSession {
    pub phase: HostPhase,
    pub profile: String,
}

impl HostSession {
    /// A session whose connection has just been accepted.
    pub fn new() -> (out: HostSession)
        ensures
            out.phase is Negotiating,
            out.profile@ == "ultralight"@,
    {
        HostSession { phase: HostPhase::Negotiating, profile: "ultralight".to_owned() }
    }

    /// What to do next.
    pub fn action(&self) -> (out: HostAction)
        ensures
            out == host_action(self.phase),
    {
        match self.phase {
            HostPhase::Negotiating => HostAction::ReadHello(HELLO_TIMEOUT_MS),
            HostPhase::Cloning => HostAction::Clone,
            HostPhase::AwaitingDecision => HostAction::Ask(APPROVAL_TIMEOUT_MS),
            HostPhase::Rejecting => HostAction::SendRejection,
            HostPhase::Starting => HostAction::StartSharing,
            HostPhase::Streaming => HostAction::ReadMessage,
            HostPhase::Stopping => HostAction::StopSharing,
            HostPhase::Closed => HostAction::Leave,
        }
    }

    /// Takes an event. While the screen is shared, a message with input gives the event
    /// in it and what is to be injected; other messages are ignored.
    pub fn handle(&mut self, platform: Platform, event: HostEvent) -> (out: Option<
        (InputEvent, Vec<Injection>),
    >)
        ensures
            final(self).phase == host_phase_after(old(self).phase, event),
            final(self).profile@ == match event {
                HostEvent::Hello(msg) => if old(self).phase is Negotiating {
                    negotiated(seen(msg))
                } else {
                    old(self).profile@
                },
                _ => old(self).profile@,
            },
            match event {
                HostEvent::Message(kind, payload) => match out {
                    Some((input, injections)) => {
                        &&& old(self).phase is Streaming
                        &&& kind == MSG_INPUT
                        &&& event_of(fields_in(payload@), input)
                        &&& injections@ == injections_for(platform, input)
                    },
                    None => !(old(self).phase is Streaming) || kind != MSG_INPUT,
                },
                _ => out is None,
            },
            out is Some <==> takes_input(old(self).phase, event),
            final(self).profile@ == profile_after(old(self).phase, old(self).profile@, event),
    {
        match self.phase {
            HostPhase::Negotiating => {
                if let HostEvent::Hello(msg) = event {
                    self.profile = negotiate_profile(&msg);
                    self.phase = HostPhase::Cloning;
                }
                None
            },
            HostPhase::Cloning => {
                match event {
                    HostEvent::Done => {
                        self.phase = HostPhase::AwaitingDecision;
                    },
                    HostEvent::Failed => {
                        self.phase = HostPhase::Closed;
                    },
                    _ => {},
                }
                None
            },
            HostPhase::AwaitingDecision => {
                if let HostEvent::Decision(decision) = event {
                    let accepted = match decision {
                        Some(accepted) => accepted,
                        None => false,
                    };
                    self.phase = if accepted {
                        HostPhase::Starting
                    } else {
                        HostPhase::Rejecting
                    };
                }
                None
            },
            HostPhase::Rejecting => {
                match event {
                    HostEvent::Done => {
                        self.phase = HostPhase::Closed;
                    },
                    HostEvent::Failed => {
                        self.phase = HostPhase::Closed;
                    },
                    _ => {},
                }
                None
            },
            HostPhase::Starting => {
                if let HostEvent::Done = event {
                    self.phase = HostPhase::Streaming;
                }
                None
            },
            HostPhase::Streaming => match event {
                HostEvent::Message(kind, payload) => {
                    if kind == MSG_INPUT {
                        Some(apply_input(platform, payload.as_slice()))
                    } else {
                        None
                    }
                },
                HostEvent::Failed => {
                    self.phase = HostPhase::Stopping;
                    None
                },
                HostEvent::SenderDead => {
                    self.phase = HostPhase::Stopping;
                    None
                },
                _ => None,
            },
            HostPhase::Stopping => {
                if let HostEvent::Done = event {
                    self.phase = HostPhase::Closed;
                }
                None
            },
            HostPhase::Closed => None,
        }
    }
}

impl Default for HostSession {
    fn default() -> (out: HostSession)
        ensures
            out.phase is Negotiating,
            out.profile@ == "ultralight"@,
    {
        HostSession::new()
    }
}

/// Whether the screen is being shared, or is about to be.
pub open spec fn sharing(phase: HostPhase) -> bool {
    phase is Starting || phase is Streaming || phase is Stopping
}

/// Nothing is shared without approval: only the user's consent leads there.
pub proof fn law_sharing_takes_consent(phase: HostPhase, event: HostEvent)
    requires
        !sharing(phase),
        sharing(host_phase_after(phase, event)),
    ensures
        phase is AwaitingDecision,
        event == HostEvent::Decision(Some(true)),
{
}

/// Phase after a row of events.
pub open spec fn host_phase_after_all(events: Seq<HostEvent>) -> HostPhase
    decreases events.len(),
{
    if events.len() == 0 {
        HostPhase::Negotiating
    } else {
        host_phase_after(host_phase_after_all(events.drop_last()), events.last())
    }
}

/// Whatever happens, a session in which the screen is shared is one that the user has
/// consented to.
pub proof fn law_shared_sessions_have_consent(events: Seq<HostEvent>)
    requires
        sharing(host_phase_after_all(events)),
    ensures
        events.contains(HostEvent::Decision(Some(true))),
    decreases events.len(),
{
    let before = host_phase_after_all(events.drop_last());
    if sharing(before) {
        law_shared_sessions_have_consent(events.drop_last());
        let i = choose|i: int|
            0 <= i < events.drop_last().len() && events.drop_last()[i] == HostEvent::Decision(
                Some(true),
            );
        assert(events[i] == HostEvent::Decision(Some(true)));
    } else {
        law_sharing_takes_consent(before, events.last());
        assert(events[events.len() - 1] == HostEvent::Decision(Some(true)));
    }
}

/// A request that nobody answers in time is rejected, as one that is declined, and the
/// viewer is told.
pub proof fn law_silence_is_refusal(decision: Option<bool>)
    requires
        decision != Some(true),
    ensures
        host_action(
            host_phase_after(HostPhase::AwaitingDecision, HostEvent::Decision(decision)),
        ) is SendRejection,
{
}

/// What has been started is stopped: a session that shares the screen is left by
/// stopping alone.
pub proof fn law_sharing_is_stopped(phase: HostPhase, event: HostEvent)
    requires
        sharing(phase),
        !sharing(host_phase_after(phase, event)),
    ensures
        phase is Stopping,
        host_action(phase) is StopSharing,
        event is Done,
        host_phase_after(phase, event) is Closed,
{
}

/// A session that is over stays so.
pub proof fn law_closed_stays_closed(event: HostEvent)
    ensures
        host_phase_after(HostPhase::Closed, event) is Closed,
{
}

// ---- State shared between sessions -----------------------------------------

/// The steps of connecting to a host.
#[derive(Clone, Copy, PartialEq, Eq, Debug, Structural)]
pub enum ConnectStep {
    /// Finding the host.
    Resolve,
    /// Opening the connection.
    Connect,
    /// Switching off the delay of small packets.
    NoDelay,
    /// Sending the first message.
    Hello,
    /// Getting a second handle of the connection, to read from.
    Clone,
}

/// Message for a step that has failed.
pub open spec fn connect_failure(step: ConnectStep, detail: Seq<char>) -> Seq<char> {
    match step {
        ConnectStep::Resolve =>
            "No se encontró el equipo en la red local. ¿Está encendido y con OtisCorp abierto?"@,
        ConnectStep::Connect => "No se pudo conectar: "@ + detail,
        ConnectStep::NoDelay => "nodelay: "@ + detail,
        ConnectStep::Hello => "hello: "@ + detail,
        ConnectStep::Clone => "clone: "@ + detail,
    }
}

/// The viewer's handle of its session.
#[derive(Clone, Copy, PartialEq, Eq, Debug, Structural)]
pub struct ViewerHandle {
    /// Whether the session's messages are to be read on.
    pub running: bool,
}

/// Whether a connection that comes in gets a session, given whether there is one already.
pub open spec fn takes_connection(active: bool) -> bool {
    !active
}

/// The decision that an answer of the user hands on, given whether the user is being asked.
pub open spec fn answer_counts(asked: bool, accept: bool) -> Option<bool> {
    if asked {
        Some(accept)
    } else {
        None
    }
}

/// State that is shared between the sessions of a program.
pub struct Transport {
    /// The ID that this device answers to.
    pub self_id: String,
    /// Whether there is an incoming session.
    pub incoming_active: bool,
    /// The outgoing session, if there is one.
    pub viewer: Option<ViewerHandle>,
    /// Whether an incoming session waits for the user's decision.
    pub pending_decision: bool,
    /// Whether there is an incoming session that can be cut off.
    pub incoming_kill: bool,
}

impl Transport {
    /// A state without sessions.
    pub fn new() -> (out: Transport)
        ensures
            out.self_id@.len() == 0,
            !out.incoming_active,
            out.viewer is None,
            !out.pending_decision,
            !out.incoming_kill,
    {
        Transport {
            self_id: String::new(),
            incoming_active: false,
            viewer: None,
            pending_decision: false,
            incoming_kill: false,
        }
    }

    /// Takes the ID that this device answers to from now on.
    pub fn start_host(&mut self, id: String)
        ensures
            *final(self) == (Transport { self_id: id, ..*old(self) }),
    {
        self.self_id = id;
    }

    /// Takes an incoming connection. The result says whether it gets a session: there is
    /// one at a time, and others are shut down.
    pub fn accept_incoming(&mut self) -> (accepted: bool)
        ensures
            accepted == takes_connection(old(self).incoming_active),
            *final(self) == (Transport { incoming_active: true, ..*old(self) }),
    {
        let accepted = !self.incoming_active;
        self.incoming_active = true;
        accepted
    }

    /// The incoming session is over.
    pub fn incoming_ended(&mut self)
        ensures
            *final(self) == (Transport { incoming_active: false, ..*old(self) }),
    {
        self.incoming_active = false;
    }

    /// The user is being asked about the incoming session.
    pub fn ask(&mut self)
        ensures
            *final(self) == (Transport { pending_decision: true, ..*old(self) }),
    {
        self.pending_decision = true;
    }

    /// The user is not asked any more.
    pub fn decided(&mut self)
        ensures
            *final(self) == (Transport { pending_decision: false, ..*old(self) }),
    {
        self.pending_decision = false;
    }

    /// Takes the user's answer about an incoming session. The result is the decision to
    /// hand on; there is none where nothing was asked, or where it has been answered.
    pub fn respond_incoming(&mut self, accept: bool) -> (decision: Option<bool>)
        ensures
            decision == if old(self).pending_decision {
                Some(accept)
            } else {
                None
            },
            decision == answer_counts(old(self).pending_decision, accept),
            *final(self) == (Transport { pending_decision: false, ..*old(self) }),
    {
        let pending = self.pending_decision;
        self.pending_decision = false;
        if pending {
            Some(accept)
        } else {
            None
        }
    }

    /// The incoming session starts to share the screen. `can_kill` says whether there is
    /// a handle to cut it off with.
    pub fn sharing_started(&mut self, can_kill: bool)
        ensures
            *final(self) == (Transport {
                incoming_kill: old(self).incoming_kill || can_kill,
                ..*old(self)
            }),
    {
        if can_kill {
            self.incoming_kill = true;
        }
    }

    /// The incoming session has stopped to share the screen.
    pub fn sharing_stopped(&mut self)
        ensures
            *final(self) == (Transport { incoming_kill: false, ..*old(self) }),
    {
        self.incoming_kill = false;
    }

    /// Cuts off the incoming session. The result says whether there is a connection to
    /// shut down.
    pub fn end_incoming(&mut self) -> (shut_down: bool)
        ensures
            shut_down == old(self).incoming_kill,
            *final(self) == (Transport { incoming_kill: false, ..*old(self) }),
    {
        let shut_down = self.incoming_kill;
        self.incoming_kill = false;
        shut_down
    }

    /// Takes the outcome of connecting to a host: the step that failed and what went
    /// wrong, if one did. A connection that stands becomes the outgoing session.
    pub fn connect(&mut self, failed: Option<(ConnectStep, String)>) -> (out: Result<(), String>)
        ensures
            match failed {
                None => out is Ok && *final(self) == (Transport {
                    viewer: Some(ViewerHandle { running: true }),
                    ..*old(self)
                }),
                Some((step, detail)) => {
                    &&& out is Err
                    &&& out->Err_0@ == connect_failure(step, detail@)
                    &&& *final(self) == *old(self)
                },
            },
    {
        match failed {
            None => {
                self.viewer = Some(ViewerHandle { running: true });
                Ok(())
            },
            Some((step, detail)) => Err(
                match step {
                    ConnectStep::Resolve => {
                        "No se encontró el equipo en la red local. ¿Está encendido y con OtisCorp abierto?".to_owned()
                    },
                    ConnectStep::Connect => "No se pudo conectar: ".to_owned().concat(
                        detail.as_str(),
                    ),
                    ConnectStep::NoDelay => "nodelay: ".to_owned().concat(detail.as_str()),
                    ConnectStep::Hello => "hello: ".to_owned().concat(detail.as_str()),
                    ConnectStep::Clone => "clone: ".to_owned().concat(detail.as_str()),
                },
            ),
        }
    }

    /// The bytes to send for an input event, given as JSON text; none without an
    /// outgoing session.
    pub fn send_input(&self, json: &str) -> (out: Option<Vec<u8>>)
        ensures
            out is Some <==> self.viewer is Some,
            out is Some ==> out->0@ == message(MSG_INPUT, encode_utf8(json@)),
    {
        match self.viewer {
            Some(_) => {
                let payload = bytes_of(json);
                Some(write_msg(MSG_INPUT, payload.as_slice()))
            },
            None => None,
        }
    }

    /// Takes whether an input event could be written. Where it could not, the session's
    /// messages are not read on.
    pub fn input_written(&mut self, ok: bool)
        ensures
            *final(self) == if ok || old(self).viewer is None {
                *old(self)
            } else {
                Transport { viewer: Some(ViewerHandle { running: false }), ..*old(self) }
            },
    {
        if !ok && self.viewer.is_some() {
            self.viewer = Some(ViewerHandle { running: false });
        }
    }

    /// Closes the outgoing session. The result says whether there is a connection to
    /// shut down.
    pub fn disconnect(&mut self) -> (shut_down: bool)
        ensures
            shut_down == (old(self).viewer is Some),
            *final(self) == (Transport { viewer: None, ..*old(self) }),
    {
        let shut_down = self.viewer.is_some();
        self.viewer = None;
        shut_down
    }
}

/// What happens to incoming connections.
#[derive(Clone, Copy, PartialEq, Eq, Debug, Structural)]
pub enum Arrival {
    /// A connection comes in.
    Comes,
    /// The incoming session is over.
    Ends,
}

/// Whether there is an incoming session after a row of events, and how many have been
/// begun and not ended.
pub open spec fn open_sessions(arrivals: Seq<Arrival>) -> (bool, int)
    decreases arrivals.len(),
{
    if arrivals.len() == 0 {
        (false, 0)
    } else {
        let (active, count) = open_sessions(arrivals.drop_last());
        match arrivals.last() {
            Arrival::Comes => (
                true,
                if takes_connection(active) {
                    count + 1
                } else {
                    count
                },
            ),
            Arrival::Ends => (
                false,
                if active {
                    count - 1
                } else {
                    count
                },
            ),
        }
    }
}

/// Incoming sessions do not overlap, whenever connections come and sessions end.
pub proof fn law_sessions_do_not_overlap(arrivals: Seq<Arrival>)
    ensures
        open_sessions(arrivals).1 == if open_sessions(arrivals).0 {
            1int
        } else {
            0int
        },
    decreases arrivals.len(),
{
    if arrivals.len() > 0 {
        law_sessions_do_not_overlap(arrivals.drop_last());
    }
}

impl Default for Transport {
    fn default() -> (out: Transport)
        ensures
            out.self_id@.len() == 0,
            !out.incoming_active,
            out.viewer is None,
            !out.pending_decision,
            !out.incoming_kill,
    {
        Transport::new()
    }
}

// ---- The course of a session -----------------------------------------------

/// A session that shares the screen goes on sharing, whatever the viewer says: only a lost
/// connection, or a sender that is dead, leads on from there.
pub proof fn law_sharing_goes_on(event: HostEvent)
    ensures
        host_phase_after(HostPhase::Streaming, event) is Streaming <==> !(event is Failed)
            && !(event is SenderDead),
        event is Failed || event is SenderDead ==> host_phase_after(
            HostPhase::Streaming,
            event,
        ) is Stopping,
        event is Message ==> host_action(
            host_phase_after(HostPhase::Streaming, event),
        ) is ReadMessage,
{
}

/// Any row of messages leaves a session that shares the screen reading messages.
pub proof fn law_messages_do_not_end_a_session(before: Seq<HostEvent>, messages: Seq<HostEvent>)
    requires
        host_phase_after_all(before) is Streaming,
        forall|i: int| 0 <= i < messages.len() ==> #[trigger] messages[i] is Message,
    ensures
        host_phase_after_all(before + messages) is Streaming,
        host_action(host_phase_after_all(before + messages)) is ReadMessage,
    decreases messages.len(),
{
    if messages.len() == 0 {
        assert(before + messages =~= before);
    } else {
        let front = messages.drop_last();
        assert forall|i: int| 0 <= i < front.len() implies #[trigger] front[i] is Message by {
            assert(front[i] == messages[i]);
        }
        law_messages_do_not_end_a_session(before, front);
        assert((before + messages).drop_last() =~= before + front);
        assert((before + messages).last() == messages[messages.len() - 1]);
    }
}

/// A row of events that a row of others follows: the phase is reached step by step.
proof fn lemma_one_event_more(events: Seq<HostEvent>, event: HostEvent)
    ensures
        host_phase_after_all(events.push(event)) == host_phase_after(
            host_phase_after_all(events),
            event,
        ),
{
    assert(events.push(event).drop_last() =~= events);
}

/// A session that the user consents to comes to share the screen, whatever the viewer's first
/// message is: the host reads that message, gets its second handle, asks, starts to share,
/// and then reads messages. When the connection is lost it stops to share and leaves.
pub proof fn law_a_session_with_consent_shares_the_screen(hello: Option<(u8, Vec<u8>)>)
    ensures
        ({
            let none = Seq::<HostEvent>::empty();
            let said = none.push(HostEvent::Hello(hello));
            let cloned = said.push(HostEvent::Done);
            let agreed = cloned.push(HostEvent::Decision(Some(true)));
            let started = agreed.push(HostEvent::Done);
            let lost = started.push(HostEvent::Failed);
            let stopped = lost.push(HostEvent::Done);
            &&& host_action(host_phase_after_all(none)) == HostAction::ReadHello(3000)
            &&& host_action(host_phase_after_all(said)) == HostAction::Clone
            &&& host_action(host_phase_after_all(cloned)) == HostAction::Ask(20000)
            &&& host_action(host_phase_after_all(agreed)) == HostAction::StartSharing
            &&& host_action(host_phase_after_all(started)) == HostAction::ReadMessage
            &&& host_action(host_phase_after_all(lost)) == HostAction::StopSharing
            &&& host_action(host_phase_after_all(stopped)) == HostAction::Leave
        }),
{
    let none = Seq::<HostEvent>::empty();
    let said = none.push(HostEvent::Hello(hello));
    let cloned = said.push(HostEvent::Done);
    let agreed = cloned.push(HostEvent::Decision(Some(true)));
    let started = agreed.push(HostEvent::Done);
    let lost = started.push(HostEvent::Failed);
    lemma_one_event_more(none, HostEvent::Hello(hello));
    lemma_one_event_more(said, HostEvent::Done);
    lemma_one_event_more(cloned, HostEvent::Decision(Some(true)));
    lemma_one_event_more(agreed, HostEvent::Done);
    lemma_one_event_more(started, HostEvent::Failed);
    lemma_one_event_more(lost, HostEvent::Done);
}

/// A session that the user does not consent to, or not in time, ends with a rejection: it is
/// sent, and whether that succeeds or not, the session is left. The screen is never shared.
pub proof fn law_a_session_without_consent_is_rejected(
    hello: Option<(u8, Vec<u8>)>,
    decision: Option<bool>,
    sent: bool,
)
    requires
        decision != Some(true),
    ensures
        ({
            let cloned = Seq::<HostEvent>::empty().push(HostEvent::Hello(hello)).push(
                HostEvent::Done,
            );
            let declined = cloned.push(HostEvent::Decision(decision));
            let told = declined.push(
                if sent {
                    HostEvent::Done
                } else {
                    HostEvent::Failed
                },
            );
            &&& host_action(host_phase_after_all(declined)) == HostAction::SendRejection
            &&& host_action(host_phase_after_all(told)) == HostAction::Leave
        }),
{
    let none = Seq::<HostEvent>::empty();
    let said = none.push(HostEvent::Hello(hello));
    let cloned = said.push(HostEvent::Done);
    let declined = cloned.push(HostEvent::Decision(decision));
    lemma_one_event_more(none, HostEvent::Hello(hello));
    lemma_one_event_more(said, HostEvent::Done);
    lemma_one_event_more(cloned, HostEvent::Decision(decision));
    lemma_one_event_more(declined, HostEvent::Done);
    lemma_one_event_more(declined, HostEvent::Failed);
}

/// A session waits for what it has asked for: each phase is left by its own outcomes alone,
/// and any other event leaves it where it is. A session without a second handle is left.
pub proof fn law_a_session_waits_for_its_outcome(event: HostEvent)
    ensures
        host_phase_after(HostPhase::Negotiating, event) is Negotiating <==> !(event is Hello),
        host_phase_after(HostPhase::Cloning, event) is Cloning <==> !(event is Done)
            && !(event is Failed),
        event is Failed ==> host_phase_after(HostPhase::Cloning, event) is Closed,
        host_phase_after(HostPhase::AwaitingDecision, event) is AwaitingDecision
            <==> !(event is Decision),
        host_phase_after(HostPhase::Rejecting, event) is Rejecting <==> !(event is Done)
            && !(event is Failed),
        host_phase_after(HostPhase::Starting, event) is Starting <==> !(event is Done),
        host_phase_after(HostPhase::Stopping, event) is Stopping <==> !(event is Done),
        host_phase_after(HostPhase::Closed, event) is Closed,
{
}

/// The profile of a session is the one that the viewer's first message asks for, if that is
/// one of the kind for input and has a text there; it is ultralight otherwise.
pub proof fn law_the_viewer_chooses_the_profile(hello: Option<(u8, Seq<u8>)>)
    ensures
        match hello {
            Some((kind, payload)) => {
                &&& kind == 0x10 && json_str_at(payload, "profile"@) is Some ==> Some(
                    negotiated(hello),
                ) == json_str_at(payload, "profile"@)
                &&& kind != 0x10 || json_str_at(payload, "profile"@) is None ==> negotiated(hello)
                    == "ultralight"@
            },
            None => negotiated(hello) == "ultralight"@,
        },
{
}

/// A viewer takes a message for a rejection where its word is the one that the host sends.
pub proof fn law_only_the_word_rejects(payload: Seq<u8>)
    ensures
        is_rejection(payload) <==> json_str_at(payload, "t"@) == Some("rejected"@),
        rejection_payload() == encode_utf8("{\"t\":\"rejected\"}"@),
{
}

/// The message of a step that failed ends with what went wrong, and begins with the step. A
/// device that was not found has a message of its own.
pub proof fn law_failures_name_their_step(step: ConnectStep, detail: Seq<char>)
    ensures
        match step {
            ConnectStep::Resolve => connect_failure(step, detail)
                == "No se encontró el equipo en la red local. ¿Está encendido y con OtisCorp abierto?"@,
            _ => exists|head: Seq<char>|
                connect_failure(step, detail) == #[trigger] (head + ": "@ + detail) && head
                    == match step {
                    ConnectStep::Connect => "No se pudo conectar"@,
                    ConnectStep::NoDelay => "nodelay"@,
                    ConnectStep::Hello => "hello"@,
                    _ => "clone"@,
                },
        },
{
    reveal_strlit("No se pudo conectar");
    reveal_strlit("nodelay");
    reveal_strlit("hello");
    reveal_strlit("clone");
    reveal_strlit("No se pudo conectar: ");
    reveal_strlit("nodelay: ");
    reveal_strlit("hello: ");
    reveal_strlit("clone: ");
    reveal_strlit(": ");
    let head = match step {
        ConnectStep::Connect => "No se pudo conectar"@,
        ConnectStep::NoDelay => "nodelay"@,
        ConnectStep::Hello => "hello"@,
        _ => "clone"@,
    };
    if !(step is Resolve) {
        assert(connect_failure(step, detail) =~= head + ": "@ + detail);
    }
}

/// A connection gets a session where there is none, and only there.
pub proof fn law_one_session_at_a_time(active: bool)
    ensures
        takes_connection(active) <==> !active,
{
}

/// A reader after a row of messages, from the start of a session on.
pub open spec fn viewer_after_all(messages: Seq<(u8, Seq<u8>)>) -> ViewerReader
    decreases messages.len(),
{
    if messages.len() == 0 {
        ViewerReader { window: ViewerWindow { frames: 0, bytes: 0 }, ended: None }
    } else {
        viewer_after(
            viewer_after_all(messages.drop_last()),
            messages.last().0,
            messages.last().1,
        )
    }
}

/// How many frames a row of messages holds, and how many bytes their images have together. A
/// frame is a message of kind 1 with at least the eight bytes of its size, and the image is
/// what follows them.
pub open spec fn frames_among(messages: Seq<(u8, Seq<u8>)>) -> (int, int)
    decreases messages.len(),
{
    if messages.len() == 0 {
        (0, 0)
    } else {
        let (frames, bytes) = frames_among(messages.drop_last());
        let (kind, payload) = messages.last();
        if kind == 1 && payload.len() >= 8 {
            (frames + 1, bytes + (payload.len() - 8))
        } else {
            (frames, bytes)
        }
    }
}

/// A viewer counts the frames that it gets and the bytes of their images, and knows that it
/// has been rejected where one of the messages says so, whatever else it gets.
pub proof fn law_a_viewer_counts_its_frames(messages: Seq<(u8, Seq<u8>)>)
    requires
        messages.len() <= u32::MAX,
        frames_among(messages).1 <= u64::MAX,
    ensures
        viewer_after_all(messages).window.frames == frames_among(messages).0,
        viewer_after_all(messages).window.bytes == frames_among(messages).1,
        viewer_after_all(messages).ended is Some <==> exists|i: int|
            0 <= i < messages.len() && (#[trigger] messages[i]).0 == 0x10 && json_str_at(
                messages[i].1,
                "t"@,
            ) == Some("rejected"@),
        viewer_after_all(messages).ended is Some ==> viewer_after_all(messages).ended == Some(
            EndReason::Rejected,
        ),
        0 <= frames_among(messages).0 <= messages.len(),
        0 <= frames_among(messages).1,
    decreases messages.len(),
{
    if messages.len() > 0 {
        let front = messages.drop_last();
        let last = messages[messages.len() - 1];
        lemma_frames_grow(messages);
        law_a_viewer_counts_its_frames(front);
        crate::video::law_frame_is_found_in_its_payload(last.1);
        if exists|i: int|
            0 <= i < front.len() && (#[trigger] front[i]).0 == 0x10 && json_str_at(
                front[i].1,
                "t"@,
            ) == Some("rejected"@) {
            let i = choose|i: int|
                0 <= i < front.len() && (#[trigger] front[i]).0 == 0x10 && json_str_at(
                    front[i].1,
                    "t"@,
                ) == Some("rejected"@);
            assert(messages[i] == front[i]);
        }
        if exists|i: int|
            0 <= i < messages.len() && (#[trigger] messages[i]).0 == 0x10 && json_str_at(
                messages[i].1,
                "t"@,
            ) == Some("rejected"@) {
            let i = choose|i: int|
                0 <= i < messages.len() && (#[trigger] messages[i]).0 == 0x10 && json_str_at(
                    messages[i].1,
                    "t"@,
                ) == Some("rejected"@);
            if i < front.len() {
                assert(front[i] == messages[i]);
            }
        }
    }
}

/// One message more holds no fewer bytes.
proof fn lemma_frames_grow(messages: Seq<(u8, Seq<u8>)>)
    requires
        messages.len() > 0,
    ensures
        frames_among(messages.drop_last()).1 <= frames_among(messages).1,
{
}

/// The user's answer counts where the user is being asked, and it is the answer that was
/// given. Once it has been given no other answer counts.
pub proof fn law_only_an_answer_to_a_question_counts(accept: bool)
    ensures
        answer_counts(true, accept) == Some(accept),
        answer_counts(false, accept) is None,
{
}

/// A viewer's metrics are published twice a second at most.
pub proof fn law_metrics_come_twice_a_second()
    ensures
        2 * METRICS_INTERVAL_MS == 1000,
{
}

/// Input is injected while the screen is shared, and from messages of the kind for input alone.
/// After a start that was approved each such message of a row is injected, however long the row
/// is and whatever else is in it.
pub proof fn law_every_input_message_is_injected(
    before: Seq<HostEvent>,
    messages: Seq<HostEvent>,
    i: int,
)
    requires
        host_phase_after_all(before) is Streaming,
        forall|j: int| 0 <= j < messages.len() ==> #[trigger] messages[j] is Message,
        0 <= i < messages.len(),
    ensures
        takes_input(host_phase_after_all(before + messages.take(i)), messages[i])
            <==> messages[i]->Message_0 == 0x10,
{
    let front = messages.take(i);
    assert forall|j: int| 0 <= j < front.len() implies #[trigger] front[j] is Message by {
        assert(front[j] == messages[j]);
    }
    law_messages_do_not_end_a_session(before, front);
    assert(messages[i] is Message);
}

/// Nothing is injected before the screen is shared and after it: input of a viewer that has no
/// consent is not taken.
pub proof fn law_input_takes_consent(events: Seq<HostEvent>, event: HostEvent)
    requires
        takes_input(host_phase_after_all(events), event),
    ensures
        event is Message,
        event->Message_0 == 0x10,
        events.contains(HostEvent::Decision(Some(true))),
{
    law_shared_sessions_have_consent(events);
}

/// The profile of a session is settled by the first message and stays: what comes later does
/// not change it.
pub proof fn law_the_first_message_settles_the_profile(
    phase: HostPhase,
    profile: Seq<char>,
    event: HostEvent,
)
    ensures
        profile_after(phase, profile, event) != profile ==> phase is Negotiating && event is Hello,
        phase is Negotiating && event is Hello ==> profile_after(phase, profile, event)
            == negotiated(seen(event->Hello_0)),
{
}

/// What the host sends the viewer shows: the bytes of a frame's message, whatever follows them,
/// are taken for a frame with the same width and height and with the same image.
pub proof fn law_what_is_sent_is_shown(width: u32, height: u32, jpeg: Seq<u8>, rest: Seq<u8>)
    requires
        jpeg.len() + 8 < 0x1_0000_0000,
    ensures
        ({
            let sent = message(1, crate::video::frame_payload_bytes(width, height, jpeg));
            match first_message(sent + rest) {
                Some((kind, payload, left)) => left == rest && viewer_shows(kind, payload) == Some(
                    (width as int, height as int, base64_text(jpeg)),
                ),
                None => false,
            }
        }),
{
    crate::video::law_viewer_gets_the_frame(width, height, jpeg, rest);
}

/// Only messages of kind 1 with at least eight bytes are shown.
pub proof fn law_only_frames_are_shown(kind: u8, payload: Seq<u8>)
    ensures
        viewer_shows(kind, payload) is Some <==> kind == 1 && payload.len() >= 8,
{
}

/// A session that was rejected ends as one, and any other is closed.
pub proof fn law_a_rejected_session_ends_as_rejected(messages: Seq<(u8, Seq<u8>)>)
    requires
        messages.len() <= u32::MAX,
        frames_among(messages).1 <= u64::MAX,
    ensures
        end_reason(viewer_after_all(messages).ended) is Rejected <==> exists|i: int|
            0 <= i < messages.len() && (#[trigger] messages[i]).0 == 0x10 && json_str_at(
                messages[i].1,
                "t"@,
            ) == Some("rejected"@),
{
    law_a_viewer_counts_its_frames(messages);
}

} // verus!
