use amux::common::{parse_env_vars, runtime_dir, socket_path, EnvParseError};
use amux::dispatch::{attach_client_event, dispatch, wait_session_reply, AttachAction, Outcome};
use amux::keys::{handle_key, key_to_bytes, KeyAction, KeyInput, KeyPress};
use amux::messages::{ClientMessage, DaemonMessage};
use amux::registry::{Registry, Session};

fn make_session(name: &str, pid: i32) -> Session {
    let (input_tx, _a) = tokio::sync::mpsc::channel::<Vec<u8>>(256);
    let (output_tx, _b) = tokio::sync::broadcast::channel::<Vec<u8>>(256);
    let (resize_tx, _c) = tokio::sync::mpsc::channel::<(u16, u16)>(16);
    let (kill_tx, _d) = tokio::sync::oneshot::channel::<()>();
    Session::new(
        name.to_string(),
        "sh".to_string(),
        pid,
        0,
        None,
        input_tx,
        output_tx,
        resize_tx,
        kill_tx,
    )
}

fn own_pid() -> i32 {
    nix::unistd::getpid().as_raw()
}

#[test]
fn test_ping_returns_pong() {
    let mut reg = Registry::new();
    match dispatch(&mut reg, ClientMessage::Ping, 0) {
        Outcome::Reply(DaemonMessage::Pong) => {}
        _ => panic!("expected Pong"),
    }
}

#[test]
fn test_kill_server_acks_then_shuts_down() {
    let mut reg = Registry::new();
    match dispatch(&mut reg, ClientMessage::KillServer, 0) {
        Outcome::ReplyThenShutdown(DaemonMessage::Okay) => {}
        _ => panic!("expected shutdown ack"),
    }
}

#[test]
fn test_send_input_appends_newline() {
    let mut reg = Registry::new();
    assert!(reg.install(make_session("s", own_pid())).is_ok());
    let msg = ClientMessage::SendInput {
        name: "s".to_string(),
        data: b"printf hello".to_vec(),
        newline: true,
    };
    match dispatch(&mut reg, msg, 0) {
        Outcome::ForwardInput { data, reply, .. } => {
            assert_eq!(data, b"printf hello\n");
            assert!(matches!(reply, DaemonMessage::InputSent));
        }
        _ => panic!("expected ForwardInput"),
    }
    let literal = ClientMessage::SendInput {
        name: "s".to_string(),
        data: b"no newline".to_vec(),
        newline: false,
    };
    match dispatch(&mut reg, literal, 0) {
        Outcome::ForwardInput { data, .. } => assert_eq!(data, b"no newline"),
        _ => panic!("expected ForwardInput"),
    }
}

#[test]
fn test_unknown_session_errors() {
    let mut reg = Registry::new();
    let msg = ClientMessage::SendInput { name: "nope".to_string(), data: vec![], newline: true };
    match dispatch(&mut reg, msg, 0) {
        Outcome::Reply(DaemonMessage::Error(e)) => {
            assert_eq!(e, "session 'nope' not found");
        }
        _ => panic!("expected not-found error"),
    }
}

#[test]
fn test_attach_replays_scrollback() {
    let mut reg = Registry::new();
    assert!(reg.install(make_session("s", own_pid())).is_ok());
    assert!(reg.record_output(&"s".to_string(), b"$ prompt", 1));
    let msg = ClientMessage::Attach { name: "s".to_string(), cols: 100, rows: 30 };
    match dispatch(&mut reg, msg, 0) {
        Outcome::Attach(start) => {
            assert_eq!(start.snapshot, b"$ prompt");
            assert_eq!(start.cols, 100);
            assert_eq!(start.rows, 30);
        }
        _ => panic!("expected Attach"),
    }
}

#[test]
fn test_attach_mode_message_handling() {
    match attach_client_event(Some(Ok(ClientMessage::AttachInput(b"x".to_vec())))) {
        AttachAction::ForwardInput(d) => assert_eq!(d, b"x"),
        _ => panic!("expected forward"),
    }
    assert!(matches!(
        attach_client_event(Some(Ok(ClientMessage::AttachResize { cols: 10, rows: 5 }))),
        AttachAction::Resize { cols: 10, rows: 5 }
    ));
    assert!(matches!(attach_client_event(Some(Ok(ClientMessage::Detach))), AttachAction::Stop));
    assert!(matches!(attach_client_event(None), AttachAction::Stop));
    assert!(matches!(
        attach_client_event(Some(Ok(ClientMessage::Ping))),
        AttachAction::Ignore
    ));
}

#[test]
fn test_has_session_and_env_flow() {
    let mut reg = Registry::new();
    assert!(reg.install(make_session("s", own_pid())).is_ok());
    match dispatch(&mut reg, ClientMessage::HasSession { name: "s".to_string() }, 0) {
        Outcome::Reply(DaemonMessage::SessionExists(true)) => {}
        _ => panic!("expected exists"),
    }
    let set = ClientMessage::SetEnv {
        name: "s".to_string(),
        key: "K".to_string(),
        value: "V".to_string(),
    };
    assert!(matches!(dispatch(&mut reg, set, 0), Outcome::Reply(DaemonMessage::Okay)));
    let get = ClientMessage::GetEnv { name: "s".to_string(), key: "K".to_string() };
    match dispatch(&mut reg, get, 0) {
        Outcome::Reply(DaemonMessage::EnvValue(Some(v))) => assert_eq!(v, "V"),
        _ => panic!("expected value"),
    }
    let all = ClientMessage::GetAllEnv { name: "s".to_string() };
    match dispatch(&mut reg, all, 0) {
        Outcome::Reply(DaemonMessage::EnvVars(vars)) => {
            assert_eq!(vars, vec![("K".to_string(), "V".to_string())]);
        }
        _ => panic!("expected vars"),
    }
}

#[test]
fn test_attach_input_outside_attach_is_unexpected() {
    let mut reg = Registry::new();
    match dispatch(&mut reg, ClientMessage::AttachInput(vec![1]), 0) {
        Outcome::Reply(DaemonMessage::Error(e)) => assert_eq!(e, "unexpected message"),
        _ => panic!("expected unexpected-message error"),
    }
}

#[test]
fn test_wait_session_reply_texts() {
    match wait_session_reply(true) {
        DaemonMessage::Error(e) => assert_eq!(e, "timeout"),
        _ => panic!("expected timeout error"),
    }
    assert!(matches!(wait_session_reply(false), DaemonMessage::SessionExited));
}

#[test]
fn test_parse_env_vars_cases() {
    assert_eq!(parse_env_vars(&vec![]), Ok(None));
    let good = vec!["A=1".to_string(), "B=two=three".to_string(), "A=override".to_string()];
    let parsed = parse_env_vars(&good).unwrap().unwrap();
    assert_eq!(parsed.len(), 2);
    assert!(parsed.contains(&("A".to_string(), "override".to_string())));
    assert!(parsed.contains(&("B".to_string(), "two=three".to_string())));
    match parse_env_vars(&vec!["good=1".to_string(), "novalue".to_string()]) {
        Err(EnvParseError::MissingSeparator(v)) => assert_eq!(v, "novalue"),
        _ => panic!("expected missing-separator error naming the var"),
    }
    match parse_env_vars(&vec!["=x".to_string()]) {
        Err(EnvParseError::EmptyKey(v)) => assert_eq!(v, "=x"),
        _ => panic!("expected empty-key error naming the var"),
    }
}

#[test]
fn test_runtime_paths() {
    assert_eq!(runtime_dir(1000), "/tmp/amux-1000");
    assert_eq!(socket_path(1000), "/tmp/amux-1000/server.sock");
    assert_eq!(socket_path(0), "/tmp/amux-0/server.sock");
}

#[test]
fn test_prefix_key_sequences() {
    let ctrl_b = KeyInput { code: KeyPress::Char('b'), ctrl: true };
    let d = KeyInput { code: KeyPress::Char('d'), ctrl: false };
    let x = KeyInput { code: KeyPress::Char('x'), ctrl: false };

    // Ctrl+B then d detaches.
    let mut pending = false;
    assert!(handle_key(ctrl_b, &mut pending).is_none());
    assert!(pending);
    assert!(matches!(handle_key(d, &mut pending), Some(KeyAction::Detach)));
    assert!(!pending);

    // Ctrl+B twice sends a literal 0x02.
    let mut pending = false;
    assert!(handle_key(ctrl_b, &mut pending).is_none());
    match handle_key(ctrl_b, &mut pending) {
        Some(KeyAction::SendBytes(v)) => assert_eq!(v, vec![2]),
        _ => panic!("expected literal 0x02"),
    }

    // An unknown prefixed key is swallowed.
    let mut pending = false;
    assert!(handle_key(ctrl_b, &mut pending).is_none());
    assert!(handle_key(x, &mut pending).is_none());
    assert!(!pending);
}

#[test]
fn test_key_to_bytes_forms() {
    let up = KeyInput { code: KeyPress::Up, ctrl: false };
    assert_eq!(key_to_bytes(up).unwrap(), b"\x1b[A");
    let enter = KeyInput { code: KeyPress::Enter, ctrl: false };
    assert_eq!(key_to_bytes(enter).unwrap(), vec![b'\r']);
    let ctrl_c = KeyInput { code: KeyPress::Char('c'), ctrl: true };
    assert_eq!(key_to_bytes(ctrl_c).unwrap(), vec![3]);
    let plain = KeyInput { code: KeyPress::Char('é'), ctrl: false };
    assert_eq!(key_to_bytes(plain).unwrap(), "é".as_bytes().to_vec());
    let f5 = KeyInput { code: KeyPress::F(5), ctrl: false };
    assert_eq!(key_to_bytes(f5).unwrap(), b"\x1b[15~");
    let f13 = KeyInput { code: KeyPress::F(13), ctrl: false };
    assert!(key_to_bytes(f13).is_none());
}

#[test]
fn test_two_attachers_share_output_and_input() {
    let (input_tx, mut input_rx) = tokio::sync::mpsc::channel::<Vec<u8>>(256);
    let (output_tx, _first_rx) = tokio::sync::broadcast::channel::<Vec<u8>>(256);
    let (resize_tx, mut resize_rx) = tokio::sync::mpsc::channel::<(u16, u16)>(16);
    let (kill_tx, _kill_rx) = tokio::sync::oneshot::channel::<()>();
    let sess = Session::new(
        "shared".to_string(),
        "sh".to_string(),
        own_pid(),
        0,
        None,
        input_tx,
        output_tx.clone(),
        resize_tx,
        kill_tx,
    );
    let mut reg = Registry::new();
    assert!(reg.install(sess).is_ok());

    let attach = |reg: &mut Registry, cols, rows| {
        let msg = ClientMessage::Attach { name: "shared".to_string(), cols, rows };
        match dispatch(reg, msg, 0) {
            Outcome::Attach(start) => start,
            _ => panic!("expected Attach"),
        }
    };
    let one = attach(&mut reg, 80, 24);
    let two = attach(&mut reg, 100, 30);

    // Both subscribers see the same stream, in publication order.
    let mut rx1 = one.output_rx;
    let mut rx2 = two.output_rx;
    output_tx.send(b"first".to_vec()).unwrap();
    output_tx.send(b"second".to_vec()).unwrap();
    assert_eq!(rx1.try_recv().unwrap(), b"first");
    assert_eq!(rx1.try_recv().unwrap(), b"second");
    assert_eq!(rx2.try_recv().unwrap(), b"first");
    assert_eq!(rx2.try_recv().unwrap(), b"second");

    // Input typed at either attacher reaches the one session queue, and
    // dropping one attacher does not disturb the other.
    one.input_tx.try_send(b"from one".to_vec()).unwrap();
    drop(one.input_tx);
    two.input_tx.try_send(b"from two".to_vec()).unwrap();
    assert_eq!(input_rx.try_recv().unwrap(), b"from one");
    assert_eq!(input_rx.try_recv().unwrap(), b"from two");

    // A resize from an attacher propagates over the resize queue.
    two.resize_tx.try_send((100, 30)).unwrap();
    assert_eq!(resize_rx.try_recv().unwrap(), (100, 30));
    drop(rx1);
    output_tx.send(b"third".to_vec()).unwrap();
    assert_eq!(rx2.try_recv().unwrap(), b"third");
}

#[test]
fn test_wait_session_paths() {
    let mut reg = Registry::new();
    assert!(reg.install(make_session("dead", 2_000_000_000)).is_ok());
    assert!(reg.install(make_session("live", own_pid())).is_ok());
    let dead = ClientMessage::WaitSession { name: "dead".to_string(), timeout_secs: 1 };
    assert!(matches!(
        dispatch(&mut reg, dead, 0),
        Outcome::Reply(DaemonMessage::SessionExited)
    ));
    let live = ClientMessage::WaitSession { name: "live".to_string(), timeout_secs: 7 };
    match dispatch(&mut reg, live, 0) {
        Outcome::Wait { timeout_secs, .. } => assert_eq!(timeout_secs, 7),
        _ => panic!("expected Wait"),
    }
    let missing = ClientMessage::WaitSession { name: "none".to_string(), timeout_secs: 0 };
    match dispatch(&mut reg, missing, 0) {
        Outcome::Reply(DaemonMessage::Error(e)) => assert_eq!(e, "session 'none' not found"),
        _ => panic!("expected not-found"),
    }
}

#[test]
fn test_get_session_info_paths() {
    let mut reg = Registry::new();
    assert!(reg.install(make_session("s", own_pid())).is_ok());
    match dispatch(&mut reg, ClientMessage::GetSessionInfo { name: "s".to_string() }, 60) {
        Outcome::Reply(DaemonMessage::SessionDetail(info)) => {
            assert_eq!(info.name, "s");
            assert_eq!(info.uptime_secs, 60);
            assert_eq!(info.created_at, "1970-01-01T00:00:00Z");
        }
        _ => panic!("expected detail"),
    }
    match dispatch(&mut reg, ClientMessage::GetSessionInfo { name: "x".to_string() }, 0) {
        Outcome::Reply(DaemonMessage::Error(e)) => assert_eq!(e, "session 'x' not found"),
        _ => panic!("expected not-found"),
    }
}

#[test]
fn test_wait_session_outcome_per_observation() {
    let sess = make_session("w", own_pid());
    match amux::dispatch::wait_session_outcome(&sess, true, 9) {
        Outcome::Wait { timeout_secs, .. } => assert_eq!(timeout_secs, 9),
        _ => panic!("expected Wait"),
    }
    assert!(matches!(
        amux::dispatch::wait_session_outcome(&sess, false, 9),
        Outcome::Reply(DaemonMessage::SessionExited)
    ));
}
