use amux::codec::{decode_frame, encode_frame, take_frame, FrameError, MAX_FRAME_SIZE};
use amux::messages::{
    decode_client_message, decode_daemon_message, encode_client_message, encode_daemon_message,
    ClientMessage, DaemonMessage, SessionInfo,
};

fn client_frame(msg: &ClientMessage) -> Vec<u8> {
    encode_frame(&encode_client_message(msg)).unwrap()
}

fn client_unframe(buf: &[u8]) -> ClientMessage {
    decode_client_message(&decode_frame(buf).unwrap()).unwrap()
}

fn daemon_frame(msg: &DaemonMessage) -> Vec<u8> {
    encode_frame(&encode_daemon_message(msg)).unwrap()
}

fn daemon_unframe(buf: &[u8]) -> DaemonMessage {
    decode_daemon_message(&decode_frame(buf).unwrap()).unwrap()
}

#[test]
fn test_roundtrip_ping() {
    let msg = ClientMessage::Ping;
    let buf = client_frame(&msg);
    let decoded = client_unframe(&buf);
    assert!(matches!(decoded, ClientMessage::Ping));
}

#[test]
fn test_roundtrip_create_session() {
    let msg = ClientMessage::CreateSession {
        name: Some("test-session".to_string()),
        command: vec!["bash".to_string(), "-c".to_string(), "echo hi".to_string()],
        env: None,
    };
    let buf = client_frame(&msg);
    let decoded = client_unframe(&buf);
    match decoded {
        ClientMessage::CreateSession { name, command, env } => {
            assert_eq!(name, Some("test-session".to_string()));
            assert_eq!(command, vec!["bash", "-c", "echo hi"]);
            assert!(env.is_none());
        }
        _ => panic!("expected CreateSession"),
    }
}

#[test]
fn test_roundtrip_session_list() {
    let msg = DaemonMessage::SessionList(vec![
        SessionInfo {
            name: "s1".to_string(),
            command: "bash".to_string(),
            pid: 1234,
            alive: true,
            created_at: "2026-02-20T12:00:00Z".to_string(),
            uptime_secs: 60,
            last_activity: "2026-02-20T12:00:30Z".to_string(),
            idle_secs: 30,
        },
        SessionInfo {
            name: "s2".to_string(),
            command: "vim".to_string(),
            pid: 5678,
            alive: false,
            created_at: "2026-02-20T11:00:00Z".to_string(),
            uptime_secs: 3660,
            last_activity: "2026-02-20T11:05:00Z".to_string(),
            idle_secs: 3360,
        },
    ]);
    let buf = daemon_frame(&msg);
    let decoded = daemon_unframe(&buf);
    match decoded {
        DaemonMessage::SessionList(list) => {
            assert_eq!(list.len(), 2);
            assert_eq!(list[0].name, "s1");
            assert!(list[0].alive);
            assert_eq!(list[1].name, "s2");
            assert!(!list[1].alive);
        }
        _ => panic!("expected SessionList"),
    }
}

#[test]
fn test_roundtrip_output() {
    let data = b"hello terminal output\x1b[31mred\x1b[0m".to_vec();
    let msg = DaemonMessage::Output(data.clone());
    let buf = daemon_frame(&msg);
    let decoded = daemon_unframe(&buf);
    match decoded {
        DaemonMessage::Output(decoded_data) => {
            assert_eq!(decoded_data, data);
        }
        _ => panic!("expected Output"),
    }
}

#[test]
fn test_roundtrip_send_input() {
    let msg = ClientMessage::SendInput {
        name: "mysession".to_string(),
        data: b"ls -la".to_vec(),
        newline: true,
    };
    let buf = client_frame(&msg);
    let decoded = client_unframe(&buf);
    match decoded {
        ClientMessage::SendInput { name, data, newline } => {
            assert_eq!(name, "mysession");
            assert_eq!(data, b"ls -la");
            assert!(newline);
        }
        _ => panic!("expected SendInput"),
    }
}

#[test]
fn test_roundtrip_send_input_literal() {
    let msg = ClientMessage::SendInput {
        name: "sess".to_string(),
        data: b"partial text".to_vec(),
        newline: false,
    };
    let buf = client_frame(&msg);
    let decoded = client_unframe(&buf);
    match decoded {
        ClientMessage::SendInput { name, data, newline } => {
            assert_eq!(name, "sess");
            assert_eq!(data, b"partial text");
            assert!(!newline);
        }
        _ => panic!("expected SendInput"),
    }
}

#[test]
fn test_roundtrip_input_sent() {
    let msg = DaemonMessage::InputSent;
    let buf = daemon_frame(&msg);
    let decoded = daemon_unframe(&buf);
    assert!(matches!(decoded, DaemonMessage::InputSent));
}

#[test]
fn test_frame_length_prefix() {
    let msg = ClientMessage::Ping;
    let buf = client_frame(&msg);
    // First 4 bytes are the length prefix (big-endian u32).
    let len = u32::from_be_bytes([buf[0], buf[1], buf[2], buf[3]]) as usize;
    assert_eq!(len, buf.len() - 4);
}

#[test]
fn test_attach_roundtrip() {
    let msg = ClientMessage::Attach { name: "test".to_string(), cols: 80, rows: 24 };
    let buf = client_frame(&msg);
    let decoded = client_unframe(&buf);
    match decoded {
        ClientMessage::Attach { name, cols, rows } => {
            assert_eq!(name, "test");
            assert_eq!(cols, 80);
            assert_eq!(rows, 24);
        }
        _ => panic!("expected Attach"),
    }
}

#[test]
fn test_try_read_eof() {
    // A clean end of stream is "no frame", not an error.
    let empty: &[u8] = &[];
    let result = take_frame(empty);
    assert!(matches!(result, Ok(None)));
}

#[test]
fn test_frame_too_large_refused() {
    // A length prefix announcing more than 1 MiB fails with the distinct
    // oversize error, for the reader and the writer alike.
    let mut buf = ((MAX_FRAME_SIZE + 1) as u32).to_be_bytes().to_vec();
    buf.extend_from_slice(&[0u8; 16]);
    assert_eq!(take_frame(&buf), Err(FrameError::TooLarge));
    let big = vec![0u8; MAX_FRAME_SIZE + 1];
    assert!(matches!(encode_frame(&big), Err(FrameError::TooLarge)));
}

#[test]
fn test_frame_truncated() {
    let payload = b"abcdef".to_vec();
    let frame = encode_frame(&payload).unwrap();
    assert_eq!(take_frame(&frame[..3]), Err(FrameError::Truncated));
    assert_eq!(take_frame(&frame[..frame.len() - 1]), Err(FrameError::Truncated));
    let (got, used) = take_frame(&frame).unwrap().unwrap();
    assert_eq!(got, payload);
    assert_eq!(used, frame.len());
}

#[test]
fn test_roundtrip_every_client_variant() {
    let msgs = vec![
        ClientMessage::Ping,
        ClientMessage::KillServer,
        ClientMessage::CreateSession {
            name: None,
            command: vec!["sh".to_string()],
            env: Some(vec![("K".to_string(), "V".to_string())]),
        },
        ClientMessage::ListSessions,
        ClientMessage::GetSessionInfo { name: "a".to_string() },
        ClientMessage::KillSession { name: "b".to_string() },
        ClientMessage::KillAllSessions,
        ClientMessage::Attach { name: "c".to_string(), cols: 1, rows: 2 },
        ClientMessage::AttachInput(vec![0, 1, 2, 255]),
        ClientMessage::AttachResize { cols: 100, rows: 30 },
        ClientMessage::Detach,
        ClientMessage::SendInput { name: "d".to_string(), data: vec![10, 13], newline: false },
        ClientMessage::HasSession { name: "e".to_string() },
        ClientMessage::CaptureScrollback { name: "f".to_string(), lines: 7 },
        ClientMessage::SetEnv {
            name: "g".to_string(),
            key: "k".to_string(),
            value: "v".to_string(),
        },
        ClientMessage::GetEnv { name: "h".to_string(), key: "k2".to_string() },
        ClientMessage::GetAllEnv { name: "i".to_string() },
        ClientMessage::WaitSession { name: "j".to_string(), timeout_secs: 5 },
    ];
    for msg in &msgs {
        let encoded = encode_client_message(msg);
        let decoded = decode_client_message(&encoded).unwrap();
        assert_eq!(format!("{:?}", msg), format!("{:?}", decoded));
    }
}

#[test]
fn test_roundtrip_every_daemon_variant() {
    let info = SessionInfo {
        name: "n".to_string(),
        command: "c".to_string(),
        pid: 1,
        alive: true,
        created_at: "1970-01-01T00:00:00Z".to_string(),
        uptime_secs: 0,
        last_activity: "1970-01-01T00:00:00Z".to_string(),
        idle_secs: 0,
    };
    let msgs = vec![
        DaemonMessage::Pong,
        DaemonMessage::Okay,
        DaemonMessage::Error("nope".to_string()),
        DaemonMessage::SessionCreated { name: "x".to_string() },
        DaemonMessage::SessionList(vec![info.clone()]),
        DaemonMessage::SessionDetail(info),
        DaemonMessage::Output(vec![1, 2, 3]),
        DaemonMessage::SessionEnded,
        DaemonMessage::SessionExists(false),
        DaemonMessage::KilledSessions { count: 3 },
        DaemonMessage::CaptureOutput(vec![9, 9]),
        DaemonMessage::InputSent,
        DaemonMessage::EnvValue(Some("v".to_string())),
        DaemonMessage::EnvVars(vec![("a".to_string(), "1".to_string())]),
        DaemonMessage::SessionExited,
    ];
    for msg in &msgs {
        let encoded = encode_daemon_message(msg);
        let decoded = decode_daemon_message(&encoded).unwrap();
        assert_eq!(format!("{:?}", msg), format!("{:?}", decoded));
    }
}

#[test]
fn test_decode_rejects_garbage() {
    // An unknown tag and a truncated string are both malformed.
    assert!(decode_client_message(&[200]).is_err());
    assert!(decode_client_message(&[4, 0, 0, 0, 10, b'a']).is_err());
    // Trailing bytes after a complete message are refused.
    let mut encoded = encode_client_message(&ClientMessage::Ping);
    encoded.push(0);
    assert!(decode_client_message(&encoded).is_err());
    // Invalid UTF-8 inside a string field is refused.
    assert!(decode_client_message(&[4, 0, 0, 0, 1, 0xff]).is_err());
}
