//! Framing, account rules, session keys, the pump and the runtime.

use poker::client::{ExternalError, Intent, LogLevel, Phase};
use poker::net::frame::{
    append_to_log, encode, parse_length_prefix, read_log, FrameError, LENGTH_PREFIX_BYTES,
    MAX_FRAME_BYTES,
};
use poker::net::protocol::{
    is_valid_email, is_valid_password, is_valid_username, ClientMessage, LifetimeStats,
    RejectReason, ServerMessage, PROTOCOL_VERSION,
};
use poker::transport::pump::pump;
use poker::transport::{
    Closed, Disconnected, Errand, InMemoryTransportError, NativeTransport, NativeTransportError,
    PumpAction, PumpEvent, PumpFault, Runtime, SessionStore, TransportIn,
};

// Framing

#[test]
fn encode_then_decode() {
    let payload = b"{\"Register\": [3, \"alice\"]}".to_vec();
    let framed = encode(&payload).unwrap();
    assert!(framed.len() > LENGTH_PREFIX_BYTES);

    let mut prefix = [0u8; LENGTH_PREFIX_BYTES];
    prefix.copy_from_slice(&framed[..LENGTH_PREFIX_BYTES]);
    let len = parse_length_prefix(prefix).unwrap();
    assert_eq!(len, framed.len() - LENGTH_PREFIX_BYTES);
    assert_eq!(&framed[LENGTH_PREFIX_BYTES..], &payload[..]);
}

#[test]
fn rejects_oversized_prefix() {
    let bad_len = (MAX_FRAME_BYTES as u32 + 1).to_le_bytes();
    match parse_length_prefix(bad_len) {
        Err(FrameError::TooLarge { .. }) => {}
        other => panic!("expected TooLarge, got {other:?}"),
    }
}

#[test]
fn the_largest_frame_is_accepted() {
    assert_eq!(parse_length_prefix((MAX_FRAME_BYTES as u32).to_le_bytes()).unwrap(), MAX_FRAME_BYTES);
    assert!(encode(&vec![0u8; MAX_FRAME_BYTES]).is_ok());
    match encode(&vec![0u8; MAX_FRAME_BYTES + 1]) {
        Err(e) => assert_eq!(
            e.to_text(),
            "frame too large: 4194305 bytes (max 4194304)"
        ),
        Ok(_) => panic!("expected TooLarge"),
    }
}

#[test]
fn frames_are_little_endian() {
    assert_eq!(encode(&[7, 8, 9]).unwrap(), vec![3, 0, 0, 0, 7, 8, 9]);
    assert_eq!(parse_length_prefix([1, 2, 0, 0]).unwrap(), 513);
}

#[test]
fn frame_errors_in_words() {
    assert_eq!(FrameError::Encode("x".into()).to_text(), "encode failed: x");
    assert_eq!(FrameError::Decode("y".into()).to_text(), "decode failed: y");
}

#[test]
fn logs_read_back_frame_by_frame() {
    let mut log: Vec<u8> = Vec::new();
    append_to_log(&mut log, &[1, 2, 3]);
    append_to_log(&mut log, &[]);
    append_to_log(&mut log, &[9]);
    assert_eq!(read_log(&log), Some(vec![vec![1, 2, 3], vec![], vec![9]]));
    // A prefix cut short at the end counts as the end.
    log.extend([5, 0]);
    assert_eq!(read_log(&log).map(|p| p.len()), Some(3));
    log.truncate(log.len() - 3);
    assert_eq!(read_log(&log), None);
}

#[test]
fn a_log_cut_inside_a_payload_does_not_read() {
    let mut log: Vec<u8> = Vec::new();
    append_to_log(&mut log, &[1, 2, 3]);
    append_to_log(&mut log, &[4, 5, 6, 7]);
    for n in 7..log.len() {
        let read = read_log(&log[..n]);
        if n < 11 {
            assert_eq!(read, Some(vec![vec![1, 2, 3]]));
        } else {
            assert_eq!(read, None);
        }
    }
}

// Account rules

#[test]
fn username_validation() {
    assert!(is_valid_username("alice"));
    assert!(is_valid_username("bob_42"));
    assert!(is_valid_username("a-b.c"));
    assert!(!is_valid_username("ab"));
    assert!(!is_valid_username(""));
    assert!(!is_valid_username("_alice"));
    assert!(!is_valid_username("alice!"));
    assert!(!is_valid_username(&"x".repeat(25)));
}

#[test]
fn email_validation() {
    assert!(is_valid_email("alice@example.com"));
    assert!(is_valid_email("a@b.co"));
    assert!(!is_valid_email("plain-text"));
    assert!(!is_valid_email("a@b"));
    assert!(!is_valid_email("@example.com"));
    assert!(!is_valid_email("alice@"));
    assert!(!is_valid_email("a@@b.co"));
    assert!(!is_valid_email("a b@example.com"));
}

#[test]
fn password_validation() {
    assert!(is_valid_password("hunter2hunter"));
    assert!(!is_valid_password("short"));
    assert!(!is_valid_password(&"x".repeat(129)));
}

#[test]
fn account_rules_at_their_edges() {
    assert!(is_valid_username("abc"));
    assert!(is_valid_username(&"x".repeat(24)));
    assert!(is_valid_password(&"x".repeat(8)));
    assert!(is_valid_password(&"x".repeat(128)));
    // Four letters of two bytes each.
    assert!(is_valid_password("éééé"));
    assert!(!is_valid_email(&format!("{}@b.co", "x".repeat(250))));
    assert!(!is_valid_email("a\u{2003}b@example.com"));
}

#[test]
fn reject_reasons_in_words() {
    assert_eq!(RejectReason::BadCredentials.as_str(), "bad credentials");
    assert_eq!(RejectReason::UsernameInUse.as_str(), "username already in use");
    assert_eq!(RejectReason::UnknownSession.as_str(), "unknown session");
}

// Session keys

#[test]
fn roundtrip_save_load() {
    let s = SessionStore::new("session.key".into());
    assert_eq!(s.path(), "session.key");
    assert_eq!(s.load(None), None);
    assert_eq!(s.load(Some("abc123")).as_deref(), Some("abc123"));
    assert_eq!(s.load(Some("def456")).as_deref(), Some("def456"));
    assert_eq!(s.clone().path(), "session.key");
}

#[test]
fn empty_file_loads_as_none() {
    let s = SessionStore::new("empty.key".into());
    assert_eq!(s.load(Some("   \n")), None);
    assert_eq!(s.load(Some("")), None);
}

#[test]
fn stored_keys_are_trimmed() {
    let s = SessionStore::new("k".into());
    assert_eq!(s.load(Some("\t abc \u{3000}\n")).as_deref(), Some("abc"));
    assert_eq!(s.load(Some("a b")).as_deref(), Some("a b"));
}

// Errors in words

#[test]
fn transport_errors_in_words() {
    let e = NativeTransportError::Connect { addr: "h:1".into(), source: "refused".into() };
    assert_eq!(e.to_text(), "connect h:1: refused");
    assert_eq!(NativeTransportError::SetNoDelay("no".into()).to_text(), "set_nodelay: no");
    assert_eq!(Closed.to_text(), "transport closed");
    assert_eq!(Disconnected.to_text(), "client handle already dropped");
    assert_eq!(
        InMemoryTransportError::Dropped.to_text(),
        "paired InMemoryConnections was dropped; no listener"
    );
    assert_eq!(NativeTransport::new(), NativeTransport::default());
    assert_eq!(ExternalError::Transport("x".into()).to_text(), "transport error: x");
    assert_eq!(ExternalError::Io("y".into()).to_text(), "I/O error: y");
}

// The pump

fn lost(action: PumpAction) -> String {
    match action {
        PumpAction::Finish(TransportIn::Lost { reason }) => reason,
        other => panic!("expected Lost, got {other:?}"),
    }
}

#[test]
fn every_fault_ends_the_connection_with_its_reason() {
    let sent = |f| lost(pump(PumpEvent::Sent(Err(f))));
    assert_eq!(sent(PumpFault::Encode("a".into())), "encode: a");
    assert_eq!(sent(PumpFault::Write("b".into())), "write: b");
    assert_eq!(sent(PumpFault::Flush("c".into())), "flush: c");
    let inbound = |f| lost(pump(PumpEvent::Inbound(Err(f))));
    assert_eq!(inbound(PumpFault::Eof), "server closed connection");
    assert_eq!(inbound(PumpFault::Read("d".into())), "read: d");
    assert_eq!(inbound(PumpFault::Frame("e".into())), "frame: e");
    assert_eq!(inbound(PumpFault::ReadPayload("f".into())), "read payload: f");
    assert_eq!(inbound(PumpFault::Decode("g".into())), "decode: g");
}

#[test]
fn the_pump_forwards_both_ways() {
    assert!(matches!(
        pump(PumpEvent::Outbound(Some(ClientMessage::Heartbeat))),
        PumpAction::Send(ClientMessage::Heartbeat)
    ));
    assert!(matches!(pump(PumpEvent::Outbound(None)), PumpAction::ShutDown));
    assert!(matches!(pump(PumpEvent::Sent(Ok(()))), PumpAction::Wait));
    assert!(matches!(
        pump(PumpEvent::Inbound(Ok(ServerMessage::Heartbeat))),
        PumpAction::Deliver(TransportIn::Message(ServerMessage::Heartbeat))
    ));
    assert!(matches!(pump(PumpEvent::Delivered(true)), PumpAction::Wait));
    assert!(matches!(pump(PumpEvent::Delivered(false)), PumpAction::ShutDown));
}

// The runtime

fn welcome() -> ServerMessage {
    ServerMessage::Welcome {
        protocol_version: PROTOCOL_VERSION,
        player_id: 1,
        username: "alice".into(),
        session_key: "fresh".into(),
        stats: LifetimeStats::default(),
    }
}

#[test]
fn a_run_from_dialing_to_the_lobby() {
    let mut rt = Runtime::new(None);
    rt.intent(Intent::Connect { addr: "host:1".into() });
    match rt.next_errand() {
        Errand::Open { addr } => assert_eq!(addr, "host:1"),
        other => panic!("expected Open, got {other:?}"),
    }
    assert!(!rt.is_open());
    rt.opened();
    assert!(matches!(rt.next_errand(), Errand::Rest));
    rt.intent(Intent::Register {
        email: "a@b.co".into(),
        username: "alice".into(),
        password: "hunter2hunter".into(),
        device_label: None,
    });
    assert!(matches!(rt.next_errand(), Errand::Rest));
    rt.connected();
    assert!(matches!(rt.next_errand(), Errand::Send(ClientMessage::Register { .. })));
    assert!(matches!(rt.next_errand(), Errand::Rest));
    rt.message(welcome());
    match rt.next_errand() {
        Errand::Save(key) => assert_eq!(key, "fresh"),
        other => panic!("expected Save, got {other:?}"),
    }
    assert_eq!(rt.snapshot().phase, Phase::Lobby);
}

#[test]
fn a_failed_open_is_a_lost_connection() {
    let mut rt = Runtime::new(Some("key".into()));
    rt.intent(Intent::Connect { addr: "host:1".into() });
    assert!(matches!(rt.next_errand(), Errand::Open { .. }));
    rt.open_failed("host:1", "refused");
    assert!(matches!(rt.next_errand(), Errand::Rest));
    match rt.snapshot().phase {
        Phase::Ended { reason } => assert_eq!(reason, "open host:1: refused"),
        other => panic!("expected Ended, got {other:?}"),
    }
    let logs = rt.drain_logs();
    let warning = logs.iter().find(|l| l.level == LogLevel::Warn).unwrap();
    assert_eq!(warning.message, "core: connection lost");
    assert_eq!(warning.fields, vec![("reason", "open host:1: refused".to_string())]);
    assert!(rt.drain_logs().is_empty());
}

#[test]
fn messages_without_a_connection_are_dropped() {
    let mut rt = Runtime::new(None);
    rt.intent(Intent::ListTables);
    assert!(matches!(rt.next_errand(), Errand::Dropped(ClientMessage::ListTables)));
    assert!(matches!(rt.next_errand(), Errand::Rest));
    rt.opened();
    rt.intent(Intent::ListTables);
    assert!(matches!(rt.next_errand(), Errand::Send(ClientMessage::ListTables)));
    rt.pump_gone();
    assert!(!rt.is_open());
}

#[test]
fn disconnecting_says_so_and_closes() {
    let mut rt = Runtime::new(None);
    rt.opened();
    rt.intent(Intent::Disconnect);
    assert!(matches!(rt.next_errand(), Errand::Send(ClientMessage::Disconnect)));
    assert!(matches!(rt.next_errand(), Errand::Close));
    assert!(!rt.is_open());
    assert!(matches!(rt.next_errand(), Errand::Rest));
}

#[test]
fn a_lost_connection_resets_the_view() {
    let mut rt = Runtime::new(None);
    rt.opened();
    rt.message(welcome());
    rt.lost("EOF".into());
    assert!(!rt.is_open());
    assert!(matches!(rt.snapshot().phase, Phase::Ended { .. }));
    assert!(rt.snapshot().player_id.is_none());
}

#[test]
fn initial_session_key_is_loaded_from_disk() {
    let store = SessionStore::new("session.key".into());
    assert_eq!(
        store.load(Some("preseeded-key\n")).as_deref(),
        Some("preseeded-key"),
        "SessionStore must pick up the preseeded key",
    );
}
