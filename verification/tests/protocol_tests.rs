//! The daemon's wire protocol: message round trips and the command
//! scenarios a client session goes through.

use raven::protocol::{ClientMessage, ServerMessage, SessionInfo};
use raven::registry::SessionRegistry;
use raven::server::{
    decode_command, ping_reply, list_sessions, spawn_session, kill_session, find_session,
    io_result_reply, attached_reply, AttachmentSet,
};

fn to_string_lossy(bytes: Vec<u8>) -> String {
    String::from_utf8(bytes).unwrap()
}

#[test]
fn test_client_message_serialization() {
    let msg = ClientMessage::Spawn {
        session_id: "test".to_string(),
        cwd: Some("/tmp".to_string()),
        rows: 24,
        cols: 80,
    };

    let json = to_string_lossy(msg.to_line());
    assert!(json.contains("\"type\":\"Spawn\""));
    assert!(json.contains("\"session_id\":\"test\""));

    let deserialized = ClientMessage::parse_line(json.as_bytes()).unwrap();
    match deserialized {
        ClientMessage::Spawn { session_id, cwd, rows, cols } => {
            assert_eq!(session_id, "test");
            assert_eq!(cwd, Some("/tmp".to_string()));
            assert_eq!(rows, 24);
            assert_eq!(cols, 80);
        }
        _ => panic!("Wrong variant"),
    }
}

#[test]
fn test_server_message_serialization() {
    let msg = ServerMessage::Attached {
        session_id: "test".to_string(),
        buffer: "hello".to_string(),
        rows: 24,
        cols: 80,
    };

    let json = to_string_lossy(msg.to_line());
    assert!(json.contains("\"type\":\"Attached\""));

    let deserialized = ServerMessage::parse_line(json.as_bytes()).unwrap();
    match deserialized {
        ServerMessage::Attached { session_id, buffer, rows, cols } => {
            assert_eq!(session_id, "test");
            assert_eq!(buffer, "hello");
            assert_eq!(rows, 24);
            assert_eq!(cols, 80);
        }
        _ => panic!("Wrong variant"),
    }
}

#[test]
fn test_all_client_message_variants() {
    let variants = vec![
        ClientMessage::Spawn {
            session_id: "s".to_string(),
            cwd: None,
            rows: 1,
            cols: 1,
        },
        ClientMessage::Write { session_id: "s".to_string(), data: "d".to_string() },
        ClientMessage::Resize { session_id: "s".to_string(), rows: 1, cols: 1 },
        ClientMessage::Attach { session_id: "s".to_string() },
        ClientMessage::Detach { session_id: "s".to_string() },
        ClientMessage::Kill { session_id: "s".to_string() },
        ClientMessage::List,
        ClientMessage::Ping,
    ];

    for msg in variants {
        let line = msg.to_line();
        let _ = ClientMessage::parse_line(&line).unwrap();
    }
}

#[test]
fn test_all_server_message_variants() {
    let variants = vec![
        ServerMessage::Spawned { session_id: "s".to_string() },
        ServerMessage::Output { session_id: "s".to_string(), data: "d".to_string() },
        ServerMessage::Exited { session_id: "s".to_string(), exit_code: Some(0) },
        ServerMessage::Attached {
            session_id: "s".to_string(),
            buffer: "b".to_string(),
            rows: 1,
            cols: 1,
        },
        ServerMessage::Sessions {
            sessions: vec![SessionInfo {
                id: "s".to_string(),
                cwd: None,
                rows: 1,
                cols: 1,
                alive: true,
            }],
        },
        ServerMessage::Error { message: "e".to_string() },
        ServerMessage::Pong,
        ServerMessage::Acked,
    ];

    for msg in variants {
        let line = msg.to_line();
        let _ = ServerMessage::parse_line(&line).unwrap();
    }
}

#[test]
fn round_trip_keeps_every_field() {
    let msg = ServerMessage::Exited { session_id: "s-1".to_string(), exit_code: None };
    let line = msg.to_line();
    match ServerMessage::parse_line(&line).unwrap() {
        ServerMessage::Exited { session_id, exit_code } => {
            assert_eq!(session_id, "s-1");
            assert_eq!(exit_code, None);
        }
        _ => panic!("Wrong variant"),
    }
}

#[test]
fn ping_pong() {
    let cmd = decode_command(b"{\"type\":\"Ping\"}\n").unwrap();
    assert!(matches!(cmd, ClientMessage::Ping));
    let reply = ping_reply();
    assert_eq!(to_string_lossy(reply.to_line()), "{\"type\":\"Pong\"}\n");
}

#[test]
fn spawn_and_list() {
    let mut reg: SessionRegistry<u32> = SessionRegistry::new();
    let (reply, displaced) = spawn_session(&mut reg, "a".to_string(), None, 24, 80, 7);
    assert!(displaced.is_none());
    match reply {
        ServerMessage::Spawned { session_id } => assert_eq!(session_id, "a"),
        _ => panic!("expected Spawned"),
    }
    match list_sessions(&reg) {
        ServerMessage::Sessions { sessions } => {
            assert_eq!(sessions.len(), 1);
            assert_eq!(sessions[0].id, "a");
            assert_eq!(sessions[0].rows, 24);
            assert_eq!(sessions[0].cols, 80);
            assert!(sessions[0].alive);
        }
        _ => panic!("expected Sessions"),
    }
}

#[test]
fn duplicate_spawn_replaces() {
    let mut reg: SessionRegistry<u32> = SessionRegistry::new();
    let (_, displaced) = spawn_session(&mut reg, "x".to_string(), None, 24, 80, 1);
    assert!(displaced.is_none());
    // the replacement hands the prior session's handle back for teardown
    let (reply, displaced) = spawn_session(&mut reg, "x".to_string(), None, 30, 100, 2);
    assert!(matches!(reply, ServerMessage::Spawned { .. }));
    assert_eq!(displaced, Some(1));
    match list_sessions(&reg) {
        ServerMessage::Sessions { sessions } => {
            assert_eq!(sessions.len(), 1);
            assert_eq!(sessions[0].rows, 30);
            assert_eq!(sessions[0].cols, 100);
        }
        _ => panic!("expected Sessions"),
    }
}

#[test]
fn kill_unknown_session() {
    let mut reg: SessionRegistry<u32> = SessionRegistry::new();
    let (reply, handle) = kill_session(&mut reg, &"zzz".to_string());
    assert!(handle.is_none());
    match reply {
        ServerMessage::Error { message } => assert!(message.contains("not found")),
        _ => panic!("expected Error"),
    }
}

#[test]
fn session_listed_until_kill() {
    let mut reg: SessionRegistry<u32> = SessionRegistry::new();
    let _ = spawn_session(&mut reg, "keep".to_string(), None, 2, 2, 1);
    let _ = spawn_session(&mut reg, "other".to_string(), None, 3, 3, 2);

    let (_, h) = kill_session(&mut reg, &"other".to_string());
    assert!(h.is_some());
    assert!(reg.contains(&"keep".to_string()));
    let (reply, h2) = kill_session(&mut reg, &"keep".to_string());
    assert!(h2.is_some());
    assert!(matches!(reply, ServerMessage::Acked));
    assert!(!reg.contains(&"keep".to_string()));
}

#[test]
fn invalid_json_tolerated() {
    let err = decode_command(b"not json\n").unwrap_err();
    match err {
        ServerMessage::Error { message } => assert!(message.contains("Invalid message")),
        _ => panic!("expected Error"),
    }
    let cmd = decode_command(b"{\"type\":\"Ping\"}\n").unwrap();
    assert!(matches!(cmd, ClientMessage::Ping));
}

#[test]
fn reattach_cancels_prior_stream() {
    let mut attachments: AttachmentSet<u32> = AttachmentSet::new();
    assert!(attachments.attach("r".to_string(), 1).is_none());
    let old = attachments.attach("r".to_string(), 2);
    assert_eq!(old, Some(1));
    let taken = attachments.detach(&"r".to_string());
    assert_eq!(taken, Some(2));
    assert!(attachments.detach(&"r".to_string()).is_none());
}

#[test]
fn disconnect_cancels_all_attachments() {
    let mut attachments: AttachmentSet<u32> = AttachmentSet::new();
    let _ = attachments.attach("a".to_string(), 1);
    let _ = attachments.attach("b".to_string(), 2);
    let all = attachments.take_all();
    assert_eq!(all.len(), 2);
    assert!(attachments.detach(&"a".to_string()).is_none());
}

#[test]
fn write_reply_follows_outcome() {
    assert!(matches!(io_result_reply(Ok(())), ServerMessage::Acked));
    match io_result_reply(Err("write failed".to_string())) {
        ServerMessage::Error { message } => assert_eq!(message, "write failed"),
        _ => panic!("expected Error"),
    }
}

#[test]
fn find_session_not_found_reply() {
    let reg: SessionRegistry<u32> = SessionRegistry::new();
    match find_session(&reg, &"missing".to_string()) {
        Err(ServerMessage::Error { message }) => assert_eq!(message, "Session not found"),
        _ => panic!("expected the not-found error"),
    }
}

#[test]
fn attached_reply_carries_snapshot() {
    let info = SessionInfo {
        id: "s".to_string(),
        cwd: None,
        rows: 24,
        cols: 80,
        alive: true,
    };
    match attached_reply(&info, "snapshot".to_string()) {
        ServerMessage::Attached { session_id, buffer, rows, cols } => {
            assert_eq!(session_id, "s");
            assert_eq!(buffer, "snapshot");
            assert_eq!(rows, 24);
            assert_eq!(cols, 80);
        }
        _ => panic!("expected Attached"),
    }
}

#[test]
fn rejects_dimensions_beyond_the_wire_type() {
    let line = b"{\"type\":\"Resize\",\"payload\":{\"session_id\":\"s\",\"rows\":70000,\"cols\":80}}\n";
    assert!(ClientMessage::parse_line(line).is_none());
}

#[test]
fn absent_and_null_working_directories_read_the_same() {
    let with_null = b"{\"type\":\"Spawn\",\"payload\":{\"session_id\":\"s\",\"cwd\":null,\"rows\":1,\"cols\":1}}\n";
    let without = b"{\"type\":\"Spawn\",\"payload\":{\"session_id\":\"s\",\"rows\":1,\"cols\":1}}\n";
    for line in [with_null.as_slice(), without.as_slice()] {
        match ClientMessage::parse_line(line).unwrap() {
            ClientMessage::Spawn { cwd, .. } => assert_eq!(cwd, None),
            _ => panic!("expected Spawn"),
        }
    }
}

#[test]
fn fields_read_in_any_order() {
    let line = b"{\"payload\":{\"cols\":80,\"session_id\":\"s\",\"rows\":24},\"type\":\"Resize\"}\n";
    match ClientMessage::parse_line(line).unwrap() {
        ClientMessage::Resize { session_id, rows, cols } => {
            assert_eq!(session_id, "s");
            assert_eq!(rows, 24);
            assert_eq!(cols, 80);
        }
        _ => panic!("expected Resize"),
    }
}
