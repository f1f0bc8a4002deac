use otiscorp_remote::discovery::{
    discovery_query, discovery_reply, is_online_lan, peer_target, peer_text, reply_port,
    PeerSearch, PeerTarget, SearchEvent, SearchStep, SESSION_PORT,
};
use otiscorp_remote::input::{InputEvent, Injection, MouseButton, Platform};
use otiscorp_remote::relay::{
    bridge_error, clean_line, handshake_line, host_tunnel, is_would_block, named_server,
    read_event, relay_target, server_name, viewer_tunnel, LineReader, LineStep, Pump, PumpAction,
    PumpEvent, PumpPhase, ReadFailure, TunnelFailure, TunnelSide,
};
use otiscorp_remote::transport::{
    hello_message, negotiate_profile, rejection_message, requested_profile, says_rejected,
    ConnectStep, EndReason, HostAction, HostEvent, HostPhase, HostSession, Transport,
    ViewerReader, ViewerStep, ViewerWindow,
};
use otiscorp_remote::video::{
    can_take, downscale_into, frame_payload, make_local_sink, quality_for, remote_frame, shown,
    EncodedImage, JpegSender, Quality,
};
use otiscorp_remote::wire::{read_header, read_msg, write_msg, MSG_FRAME, MSG_INPUT};

// ---- Messages --------------------------------------------------------------

#[test]
fn messages_carry_kind_length_and_payload() {
    assert_eq!(write_msg(0x10, b"abc"), [0x10, 0, 0, 0, 3, b'a', b'b', b'c']);
    assert_eq!(write_msg(0x01, &[]), [0x01, 0, 0, 0, 0]);
    assert_eq!(read_header(&[0x01, 0, 1, 2, 3]), (0x01, 0x010203));
}

#[test]
fn messages_read_back_in_order() {
    let mut stream = write_msg(1, &[9; 300]);
    stream.extend(write_msg(16, b"{}"));
    stream.extend(write_msg(7, &[]));
    let (kind, payload, used) = read_msg(&stream).unwrap();
    assert_eq!((kind, payload, used), (1, vec![9; 300], 305));
    let rest = &stream[used..];
    let (kind, payload, used) = read_msg(rest).unwrap();
    assert_eq!((kind, payload, used), (16, b"{}".to_vec(), 7));
    let rest = &rest[used..];
    assert_eq!(read_msg(rest), Some((7, vec![], 5)));
    assert_eq!(read_msg(&rest[5..]), None);
    assert_eq!(read_msg(&stream[..304]), None);
    assert_eq!(read_msg(&stream[..4]), None);
}

// ---- Video -----------------------------------------------------------------

#[test]
fn profiles_have_their_quality() {
    assert_eq!(quality_for("sharp"), Quality { jpeg: 85, scale: 1, min_interval_ms: 33 });
    assert_eq!(quality_for("balanced"), Quality { jpeg: 70, scale: 1, min_interval_ms: 33 });
    assert_eq!(quality_for("ultralight"), Quality { jpeg: 65, scale: 2, min_interval_ms: 41 });
    assert_eq!(quality_for("?"), quality_for("ultralight"));
}

#[test]
fn pictures_are_reduced_by_sampling() {
    let src: Vec<u8> = (0..5 * 4 * 4).collect();
    let mut out = vec![1, 2, 3];
    assert_eq!(downscale_into(&src, 5, 4, 2, &mut out), (2, 2));
    assert_eq!(out, [0, 1, 2, 3, 8, 9, 10, 11, 40, 41, 42, 43, 48, 49, 50, 51]);
    assert_eq!(downscale_into(&src, 5, 4, 1, &mut out), (5, 4));
    assert_eq!(out, src);
    assert_eq!(downscale_into(&src, 1, 1, 2, &mut out), (1, 1));
    assert_eq!(out, [0, 1, 2, 3]);
}

#[test]
fn a_frame_is_sent_as_a_jpeg_image() {
    let mut sender = JpegSender::new("balanced");
    let bgra = vec![120u8; 16 * 8 * 4];
    assert!(sender.on_frame(32, 16, 8, &bgra).is_none());
    assert!(sender.on_frame(33, 16, 8, &bgra[1..]).is_none());
    let bytes = sender.on_frame(33, 16, 8, &bgra).unwrap();
    let (kind, payload, used) = read_msg(&bytes).unwrap();
    assert_eq!((kind, used), (MSG_FRAME, bytes.len()));
    assert_eq!(payload[..8], [0, 0, 0, 16, 0, 0, 0, 8]);
    assert_eq!(payload[8..10], [0xFF, 0xD8]);
    assert_eq!(payload[payload.len() - 2..], [0xFF, 0xD9]);
    assert_ne!(payload[8..], bgra);
    assert!(sender.written(true));
    assert!(sender.on_frame(33, 16, 8, &bgra).is_some());
    assert!(!sender.written(false));
    assert!(!sender.alive);
    assert!(sender.on_frame(1000, 16, 8, &bgra).is_none());
}

#[test]
fn an_ultralight_frame_has_half_the_resolution() {
    let mut sender = JpegSender::new("ultralight");
    let bgra = vec![10u8; 16 * 10 * 4];
    assert!(sender.on_frame(40, 16, 10, &bgra).is_none());
    let bytes = sender.on_frame(41, 16, 10, &bgra).unwrap();
    let (_, payload, _) = read_msg(&bytes).unwrap();
    assert_eq!(payload[..8], [0, 0, 0, 8, 0, 0, 0, 5]);
}

#[test]
fn a_frame_without_pixels_has_no_image() {
    let mut sender = JpegSender::new("sharp");
    assert!(sender.on_frame(33, 0, 4, &[]).is_none());
}

#[test]
fn frames_that_cannot_be_reduced_are_known() {
    let light = quality_for("ultralight");
    assert!(can_take(&light, 41, 16, 10, 16 * 10 * 4));
    assert!(can_take(&light, 41, 16, 10, 3));
    assert!(!can_take(&light, 41, 0, 10, 0));
    assert!(can_take(&light, 40, 0, 10, 0));
    assert!(can_take(&light, 41, 0, 10, 4));
    assert!(can_take(&quality_for("sharp"), 33, 0, 10, 0));
    assert!(!can_take(&light, 41, u32::MAX, u32::MAX, 9));
    assert!(!can_take(&Quality { jpeg: 0, scale: 1, min_interval_ms: 0 }, 0, 1, 1, 4));
}

#[test]
fn quality_changes_the_image() {
    let bgra: Vec<u8> = (0..32 * 32 * 4).map(|i| (i * 31 % 256) as u8).collect();
    let mut sharp = JpegSender::new("sharp");
    let mut balanced = JpegSender::new("balanced");
    let a = sharp.on_frame(100, 32, 32, &bgra).unwrap();
    let b = balanced.on_frame(100, 32, 32, &bgra).unwrap();
    assert!(a.len() > b.len());
}

#[test]
fn the_local_sink_hands_out_base64() {
    let mut sink = make_local_sink("sharp");
    let bgra = vec![77u8; 8 * 8 * 4];
    assert!(sink.on_frame(0, 8, 8, &bgra).is_none());
    let frame = sink.on_frame(40, 8, 8, &bgra).unwrap();
    assert_eq!((frame.width, frame.height), (8, 8));
    assert!(frame.jpeg.starts_with("/9j/"));
    let mut sender = JpegSender::new("sharp");
    let bytes = sender.on_frame(40, 8, 8, &bgra).unwrap();
    let (_, payload, _) = read_msg(&bytes).unwrap();
    assert_eq!(remote_frame(&payload).unwrap().0.jpeg, frame.jpeg);
}

#[test]
fn base64_is_the_standard_one() {
    let text = |jpeg: &[u8]| shown(&EncodedImage { width: 1, height: 1, jpeg: jpeg.to_vec() }).jpeg;
    assert_eq!(text(b"Man"), "TWFu");
    assert_eq!(text(b"Ma"), "TWE=");
    assert_eq!(text(b"M"), "TQ==");
    assert_eq!(text(b""), "");
    assert_eq!(text(&[0xFB, 0xFF, 0xBF]), "+/+/");
}

#[test]
fn base64_tells_bytes_apart() {
    let text = |jpeg: &[u8]| shown(&EncodedImage { width: 1, height: 1, jpeg: jpeg.to_vec() }).jpeg;
    let samples: [&[u8]; 6] = [&[], &[0], &[0, 0], &[0, 0, 0], &[0, 0, 1], &[0, 0, 0, 0]];
    for (i, a) in samples.iter().enumerate() {
        for (j, b) in samples.iter().enumerate() {
            assert_eq!(text(a) == text(b), i == j);
        }
    }
}

#[test]
fn a_frame_reads_back() {
    let image = EncodedImage { width: 0x01020304, height: 5, jpeg: b"Man".to_vec() };
    let payload = frame_payload(&image);
    assert_eq!(payload, [1, 2, 3, 4, 0, 0, 0, 5, b'M', b'a', b'n']);
    let (frame, len) = remote_frame(&payload).unwrap();
    assert_eq!((frame.width, frame.height, len), (0x01020304, 5, 3));
    assert_eq!(frame.jpeg, "TWFu");
    assert!(remote_frame(&payload[..7]).is_none());
}

// ---- Viewer and host -------------------------------------------------------

#[test]
fn the_host_reads_the_profile_that_the_viewer_asks_for() {
    for profile in ["sharp", "balanced", "", "a \"quoted\" \\ \u{1F600}\n"] {
        let bytes = hello_message(profile);
        let (kind, payload, used) = read_msg(&bytes).unwrap();
        assert_eq!(used, bytes.len());
        assert_eq!(kind, MSG_INPUT);
        assert_eq!(negotiate_profile(&Some((kind, payload))), profile);
    }
    let bytes = hello_message("sharp");
    assert_eq!(&bytes[5..], br#"{"profile":"sharp","t":"hello"}"#);
}

#[test]
fn a_missing_profile_is_ultralight() {
    assert_eq!(negotiate_profile(&None), "ultralight");
    assert_eq!(negotiate_profile(&Some((MSG_FRAME, br#"{"profile":"sharp"}"#.to_vec()))), "ultralight");
    assert_eq!(negotiate_profile(&Some((MSG_INPUT, b"no json".to_vec()))), "ultralight");
    assert_eq!(negotiate_profile(&Some((MSG_INPUT, br#"{"profile":7}"#.to_vec()))), "ultralight");
    assert_eq!(negotiate_profile(&Some((MSG_INPUT, br#"{"profile":"x"}"#.to_vec()))), "x");
    assert_eq!(requested_profile(Some("sharp".to_string())), "sharp");
    assert_eq!(requested_profile(None), "ultralight");
}

#[test]
fn a_rejected_viewer_knows_it() {
    let bytes = rejection_message();
    assert_eq!(&bytes[5..], br#"{"t":"rejected"}"#);
    let (kind, payload, _) = read_msg(&bytes).unwrap();
    let mut reader = ViewerReader::new();
    assert!(matches!(reader.handle(kind, &payload), ViewerStep::Rejected));
    assert_eq!(reader.close(), EndReason::Rejected);
    assert_eq!(EndReason::Rejected.name(), "rejected");
    assert!(says_rejected(&Some("rejected".to_string())));
    assert!(!says_rejected(&Some("hello".to_string())));
    assert!(!says_rejected(&None));
}

#[test]
fn a_viewer_shows_counts_and_ignores() {
    let mut reader = ViewerReader::default();
    assert!(matches!(reader.handle(MSG_FRAME, &[0; 7]), ViewerStep::Nothing));
    match reader.handle(MSG_FRAME, &[0, 0, 0, 2, 0, 0, 0, 1, b'M']) {
        ViewerStep::Show(frame) => {
            assert_eq!((frame.width, frame.height), (2, 1));
            assert_eq!(frame.jpeg, "TQ==");
        }
        _ => panic!("a frame is to be shown"),
    }
    assert!(matches!(reader.handle(MSG_INPUT, br#"{"t":"hello"}"#), ViewerStep::Nothing));
    assert!(matches!(reader.handle(MSG_INPUT, b"rejected"), ViewerStep::Nothing));
    assert!(matches!(reader.handle(0x55, br#"{"t":"rejected"}"#), ViewerStep::Nothing));
    assert_eq!(reader.metrics(499), None);
    assert_eq!(reader.metrics(500), Some(ViewerWindow { frames: 1, bytes: 1 }));
    assert_eq!(reader.window, ViewerWindow { frames: 0, bytes: 0 });
    assert_eq!(reader.close(), EndReason::Closed);
    assert_eq!(EndReason::Closed.name(), "closed");
}

#[test]
fn a_session_takes_its_course() {
    let mut session = HostSession::new();
    assert_eq!(session.action(), HostAction::ReadHello(3000));
    let hello = Some((MSG_INPUT, br#"{"t":"hello","profile":"sharp"}"#.to_vec()));
    assert!(session.handle(Platform::Windows, HostEvent::Hello(hello)).is_none());
    assert_eq!(session.profile, "sharp");
    assert_eq!(session.action(), HostAction::Clone);
    session.handle(Platform::Windows, HostEvent::Done);
    assert_eq!(session.action(), HostAction::Ask(20000));
    session.handle(Platform::Windows, HostEvent::Decision(Some(true)));
    assert_eq!(session.action(), HostAction::StartSharing);
    session.handle(Platform::Windows, HostEvent::Done);
    assert_eq!(session.action(), HostAction::ReadMessage);
    let click = br#"{"t":"btn","button":"right","down":true}"#.to_vec();
    match session.handle(Platform::Windows, HostEvent::Message(MSG_INPUT, click.clone())) {
        Some((InputEvent::Button { button, down }, injections)) => {
            assert_eq!((button.as_str(), down), ("right", true));
            assert_eq!(injections, vec![Injection::Mouse { button: MouseButton::Right, down: true }]);
        }
        _ => panic!("the click is to be injected"),
    }
    assert!(session.handle(Platform::Windows, HostEvent::Message(0x77, click)).is_none());
    session.handle(Platform::Windows, HostEvent::Failed);
    assert_eq!(session.action(), HostAction::StopSharing);
    session.handle(Platform::Windows, HostEvent::Done);
    assert_eq!(session.action(), HostAction::Leave);
    session.handle(Platform::Windows, HostEvent::Decision(Some(true)));
    assert_eq!(session.action(), HostAction::Leave);
}

#[test]
fn nobody_answering_is_a_refusal() {
    for decision in [None, Some(false)] {
        let mut session = HostSession { phase: HostPhase::AwaitingDecision, profile: String::new() };
        session.handle(Platform::Other, HostEvent::Decision(decision));
        assert_eq!(session.action(), HostAction::SendRejection);
        session.handle(Platform::Other, HostEvent::Failed);
        assert_eq!(session.action(), HostAction::Leave);
    }
}

#[test]
fn input_before_approval_is_not_injected() {
    let text = br#"{"t":"text","text":"x"}"#.to_vec();
    for phase in [HostPhase::Negotiating, HostPhase::Cloning, HostPhase::AwaitingDecision] {
        let mut session = HostSession { phase, profile: String::new() };
        assert!(session
            .handle(Platform::Windows, HostEvent::Message(MSG_INPUT, text.clone()))
            .is_none());
        assert_eq!(session.phase, phase);
    }
}

#[test]
fn a_dead_sender_or_connection_ends_a_session() {
    let mut session = HostSession::default();
    session.handle(Platform::Other, HostEvent::Hello(None));
    assert_eq!(session.profile, "ultralight");
    session.handle(Platform::Other, HostEvent::Failed);
    assert_eq!(session.action(), HostAction::Leave);
    let mut session = HostSession { phase: HostPhase::Streaming, profile: String::new() };
    session.handle(Platform::Other, HostEvent::SenderDead);
    assert_eq!(session.action(), HostAction::StopSharing);
}

#[test]
fn there_is_one_incoming_session_at_a_time() {
    let mut transport = Transport::new();
    transport.start_host("123456789".to_string());
    assert_eq!(transport.self_id, "123456789");
    assert!(transport.accept_incoming());
    assert!(!transport.accept_incoming());
    transport.incoming_ended();
    assert!(transport.accept_incoming());
}

#[test]
fn a_request_is_answered_once() {
    let mut transport = Transport::default();
    assert_eq!(transport.respond_incoming(true), None);
    transport.ask();
    assert_eq!(transport.respond_incoming(false), Some(false));
    assert_eq!(transport.respond_incoming(true), None);
    transport.ask();
    transport.decided();
    assert_eq!(transport.respond_incoming(true), None);
}

#[test]
fn a_shared_screen_can_be_cut_off() {
    let mut transport = Transport::new();
    assert!(!transport.end_incoming());
    transport.sharing_started(false);
    assert!(!transport.end_incoming());
    transport.sharing_started(true);
    assert!(transport.end_incoming());
    assert!(!transport.end_incoming());
    transport.sharing_started(true);
    transport.sharing_stopped();
    assert!(!transport.end_incoming());
}

#[test]
fn connecting_says_which_step_failed() {
    let mut transport = Transport::new();
    let e = || "boom".to_string();
    assert_eq!(
        transport.connect(Some((ConnectStep::Resolve, e()))),
        Err("No se encontró el equipo en la red local. ¿Está encendido y con OtisCorp abierto?".to_string())
    );
    assert_eq!(transport.connect(Some((ConnectStep::Connect, e()))), Err("No se pudo conectar: boom".to_string()));
    assert_eq!(transport.connect(Some((ConnectStep::NoDelay, e()))), Err("nodelay: boom".to_string()));
    assert_eq!(transport.connect(Some((ConnectStep::Hello, e()))), Err("hello: boom".to_string()));
    assert_eq!(transport.connect(Some((ConnectStep::Clone, e()))), Err("clone: boom".to_string()));
    assert!(transport.viewer.is_none());
    assert_eq!(transport.send_input("{}"), None);
    assert_eq!(transport.connect(None), Ok(()));
    assert!(transport.viewer.unwrap().running);
    assert_eq!(transport.send_input("{\"é\":1}").unwrap(), write_msg(MSG_INPUT, "{\"é\":1}".as_bytes()));
    transport.input_written(true);
    assert!(transport.viewer.unwrap().running);
    transport.input_written(false);
    assert!(!transport.viewer.unwrap().running);
    assert!(transport.disconnect());
    assert!(!transport.disconnect());
}

// ---- Discovery -------------------------------------------------------------

#[test]
fn a_device_answers_for_its_own_id() {
    assert_eq!(discovery_query("123456789"), b"OTIS?123456789");
    assert_eq!(
        discovery_reply("123456789", b" OTIS?123456789\n"),
        Some(b"OTIS!123456789|49322".to_vec())
    );
    assert_eq!(discovery_reply("123456789", b"OTIS?987654321"), None);
    assert_eq!(discovery_reply("123456789", b"OTIS?\xFF"), None);
    let reply = discovery_reply("5", &discovery_query("5")).unwrap();
    assert_eq!(reply_port("5", &reply), Some(SESSION_PORT));
}

#[test]
fn answers_are_read_strictly() {
    assert_eq!(reply_port("7", b"OTIS!7|80\r\n"), Some(80));
    assert_eq!(reply_port("7", b"OTIS!7|+80"), Some(80));
    assert_eq!(reply_port("7", b"OTIS!7|65536"), None);
    assert_eq!(reply_port("7", b"OTIS!7|"), None);
    assert_eq!(reply_port("7", b"OTIS!8|80"), None);
    assert_eq!(reply_port("7", b"OTIS!7|8 0"), None);
    assert_eq!(reply_port("7", b"\xFF"), None);
}

#[test]
fn devices_are_looked_for_by_address_or_id() {
    assert_eq!(peer_text("  123 456 789\t"), "123 456 789");
    assert!(matches!(peer_target("10.0.0.7", true), PeerTarget::Direct));
    match peer_target("123 456-789", false) {
        PeerTarget::Search(id) => assert_eq!(id, "123456789"),
        _ => panic!("there is an ID"),
    }
    assert!(matches!(peer_target("nobody", false), PeerTarget::Nowhere));
    assert!(matches!(peer_target("", false), PeerTarget::Nowhere));
}

#[test]
fn a_search_asks_six_times() {
    let mut search = PeerSearch::new("42".to_string());
    assert_eq!(search.query(), b"OTIS?42");
    for _ in 0..5 {
        assert_eq!(search.handle(SearchEvent::Silence), SearchStep::Again);
    }
    assert_eq!(search.handle(SearchEvent::NotSent), SearchStep::NotFound);
    let mut search = PeerSearch::new("42".to_string());
    assert_eq!(search.handle(SearchEvent::Heard(b"noise".to_vec())), SearchStep::Again);
    assert_eq!(search.handle(SearchEvent::NotSent), SearchStep::Again);
    assert_eq!(search.handle(SearchEvent::Heard(b"OTIS!42|49322".to_vec())), SearchStep::Found(49322));
    assert!(is_online_lan(Some(49322)));
    assert!(!is_online_lan(None));
}

// ---- Relay -----------------------------------------------------------------

#[test]
fn the_relay_can_be_configured() {
    assert_eq!(relay_target(None), ("otiscorp-relay.fly.dev".to_string(), 443));
    assert_eq!(relay_target(Some("localhost:8080")), ("localhost".to_string(), 8080));
    assert_eq!(relay_target(Some("localhost")), ("localhost".to_string(), 443));
    assert_eq!(relay_target(Some("a:b:70000")), ("a:b".to_string(), 443));
    assert_eq!(relay_target(Some("host:")), ("host".to_string(), 443));
}

#[test]
fn servers_need_a_name() {
    assert_eq!(server_name("otiscorp-relay.fly.dev"), Ok("otiscorp-relay.fly.dev".to_string()));
    assert_eq!(server_name("0:0:0:0:0:0:0:1"), Ok("::1".to_string()));
    assert_eq!(server_name("not a host"), Err("nombre de servidor invalido".to_string()));
    assert_eq!(named_server(None), Err("nombre de servidor invalido".to_string()));
    assert_eq!(named_server(Some("a".to_string())), Ok("a".to_string()));
}

#[test]
fn the_handshake_is_one_line() {
    assert_eq!(handshake_line(TunnelSide::Host, "123"), b"HOST 123\n");
    assert_eq!(handshake_line(TunnelSide::Viewer, "123"), b"JOIN 123\n");
    assert_eq!(clean_line(" OK\r"), "OK");
}

fn line_of(bytes: &[u8]) -> String {
    let mut reader = LineReader::new();
    for b in bytes {
        match reader.read_line(Some(*b)) {
            LineStep::More => {}
            LineStep::Line(line) => return line,
            LineStep::Failed(e) => return format!("error: {e}"),
        }
    }
    match reader.read_line(None) {
        LineStep::Failed(e) => format!("error: {e}"),
        _ => panic!("a stream that ends is no line"),
    }
}

#[test]
fn lines_are_read_byte_by_byte() {
    assert_eq!(line_of(b"PEER\r\nmore"), "PEER");
    assert_eq!(line_of(b"\xFFx\n"), "\u{FFFD}x");
    assert_eq!(line_of(b"PE"), "error: relay cerro");
    let mut long = vec![b'a'; 64];
    long.push(b'\n');
    assert_eq!(line_of(&long).len(), 64);
    assert_eq!(line_of(&[b'a'; 65]), "error: linea demasiado larga");
}

#[test]
fn the_relay_is_understood() {
    assert_eq!(host_tunnel("PEER"), Ok(()));
    assert_eq!(host_tunnel("NO"), Err("respuesta inesperada del relay: NO".to_string()));
    assert_eq!(viewer_tunnel(Ok("OK".to_string())), Ok(()));
    assert_eq!(
        viewer_tunnel(Ok("NOHOST".to_string())),
        Err("El equipo no está conectado al servidor (¿está encendido y con OtisCorp abierto?)".to_string())
    );
    assert_eq!(viewer_tunnel(Ok("BUSY".to_string())), Err("respuesta del relay: BUSY".to_string()));
    assert_eq!(
        viewer_tunnel(Err(TunnelFailure::Contact("e".to_string()))),
        Err("No se pudo contactar el servidor: e".to_string())
    );
    assert_eq!(viewer_tunnel(Err(TunnelFailure::Read("e".to_string()))), Err("relay: e".to_string()));
    assert_eq!(bridge_error("e"), "puente: e");
}

#[test]
fn the_pump_moves_bursts_and_flushes() {
    let mut pump = Pump::new();
    for k in 0..8 {
        assert_eq!(pump.phase(), PumpPhase::ReadSession(k));
        pump.handle(PumpEvent::Block(vec![k as u8, 1]));
        assert_eq!(pump.phase(), PumpPhase::WriteRelay(k));
        pump.handle(PumpEvent::Done);
    }
    assert_eq!(pump.phase(), PumpPhase::FlushRelay);
    pump.handle(PumpEvent::Failed);
    for k in 0..8 {
        assert_eq!(pump.phase(), PumpPhase::ReadRelay(k));
        pump.handle(PumpEvent::Block(vec![k as u8]));
        assert_eq!(pump.phase(), PumpPhase::WriteSession(k));
        pump.handle(PumpEvent::Done);
    }
    assert_eq!(pump, Pump::new());
}

#[test]
fn the_pump_writes_what_it_has_read() {
    let from_session: Vec<u8> = (0..200).collect();
    let from_relay: Vec<u8> = (0..90).rev().collect();
    let (mut to_session, mut to_relay) = (Vec::new(), Vec::new());
    let (mut session, mut relay) = (from_session.chunks(7), from_relay.chunks(11));
    let mut pump = Pump::new();
    let mut rests = 0;
    while rests < 2 {
        let event = match pump.action() {
            PumpAction::ReadSession => match session.next() {
                Some(block) => read_event(block, block.len()),
                None => PumpEvent::NotRead(ReadFailure::WouldBlock),
            },
            PumpAction::WriteRelay(bytes) => {
                to_relay.extend_from_slice(bytes);
                PumpEvent::Done
            }
            PumpAction::ReadRelay => match relay.next() {
                Some(block) => read_event(block, block.len()),
                None => PumpEvent::NotRead(ReadFailure::TimedOut),
            },
            PumpAction::WriteSession(bytes) => {
                to_session.extend_from_slice(bytes);
                PumpEvent::Done
            }
            PumpAction::FlushRelay => PumpEvent::Done,
            PumpAction::Rest(ms) => {
                assert_eq!(ms, 1);
                rests += 1;
                PumpEvent::Done
            }
            PumpAction::ShutDown => unreachable!(),
        };
        pump.handle(event);
    }
    assert_eq!(to_relay, from_session);
    assert_eq!(to_session, from_relay);
}

#[test]
fn a_read_of_nothing_is_the_end() {
    assert_eq!(read_event(&[1, 2, 3], 0), PumpEvent::End);
    assert_eq!(read_event(&[1, 2, 3], 2), PumpEvent::Block(vec![1, 2]));
}

#[test]
fn an_idle_pump_rests_and_an_ended_one_closes() {
    let mut pump = Pump::new();
    pump.handle(PumpEvent::NotRead(ReadFailure::WouldBlock));
    assert_eq!(pump.phase(), PumpPhase::ReadRelay(0));
    pump.handle(PumpEvent::NotRead(ReadFailure::TimedOut));
    assert_eq!(pump.phase(), PumpPhase::Resting);
    pump.handle(PumpEvent::Done);
    assert_eq!(pump, Pump::new());
    for event in [PumpEvent::End, PumpEvent::NotRead(ReadFailure::Other)] {
        let mut pump = Pump::new();
        pump.handle(event);
        assert_eq!(pump.phase(), PumpPhase::Closed);
        assert_eq!(pump.action(), PumpAction::ShutDown);
        pump.handle(PumpEvent::Block(vec![1]));
        assert_eq!(pump.phase(), PumpPhase::Closed);
    }
    let mut pump = Pump::new();
    pump.handle(PumpEvent::NotRead(ReadFailure::TimedOut));
    pump.handle(PumpEvent::Block(vec![4, 5]));
    assert_eq!(pump.action(), PumpAction::WriteSession(&[4, 5]));
    pump.handle(PumpEvent::Failed);
    assert_eq!(pump.action(), PumpAction::ShutDown);
    assert!(is_would_block(ReadFailure::TimedOut));
    assert!(!is_would_block(ReadFailure::Other));
}
