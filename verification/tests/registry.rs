use amux::dispatch::{dispatch, Outcome};
use amux::messages::{ClientMessage, DaemonMessage};
use amux::registry::{Registry, Session};

fn make_session(name: &str, pid: i32) -> Session {
    let (input_tx, _input_rx) = tokio::sync::mpsc::channel::<Vec<u8>>(256);
    let (output_tx, _output_rx) = tokio::sync::broadcast::channel::<Vec<u8>>(256);
    let (resize_tx, _resize_rx) = tokio::sync::mpsc::channel::<(u16, u16)>(16);
    let (kill_tx, _kill_rx) = tokio::sync::oneshot::channel::<()>();
    Session::new(
        name.to_string(),
        "sh".to_string(),
        pid,
        1_700_000_000,
        None,
        input_tx,
        output_tx,
        resize_tx,
        kill_tx,
    )
}

fn own_pid() -> i32 {
    nix::unistd::getpid().as_raw()
}

#[test]
fn test_env_vars_set_get() {
    let mut sess = make_session("env", own_pid());
    sess.set_env("GT_HOOK_STATUS".to_string(), "active".to_string());
    assert_eq!(sess.get_env(&"GT_HOOK_STATUS".to_string()), Some("active".to_string()));
    assert_eq!(sess.get_env(&"NONEXISTENT".to_string()), None);
}

#[test]
fn test_env_vars_overwrite() {
    let mut sess = make_session("env2", own_pid());
    sess.set_env("KEY".to_string(), "val1".to_string());
    sess.set_env("KEY".to_string(), "val2".to_string());
    assert_eq!(sess.get_env(&"KEY".to_string()), Some("val2".to_string()));
}

#[test]
fn test_env_vars_list_all() {
    let mut sess = make_session("env3", own_pid());
    sess.set_env("A".to_string(), "1".to_string());
    sess.set_env("B".to_string(), "2".to_string());
    let all = sess.get_all_env();
    assert_eq!(all.len(), 2);
    assert!(all.contains(&("A".to_string(), "1".to_string())));
    assert!(all.contains(&("B".to_string(), "2".to_string())));
}

#[test]
fn test_install_duplicate_name_fails() {
    let mut reg = Registry::new();
    assert!(reg.install(make_session("dup", own_pid())).is_ok());
    assert!(reg.install(make_session("dup", own_pid())).is_err());
    assert_eq!(reg.list(1_700_000_100).len(), 1);
}

#[test]
fn test_create_same_explicit_name_fails_on_second() {
    let mut reg = Registry::new();
    let msg = ClientMessage::CreateSession {
        name: Some("twice".to_string()),
        command: vec!["sh".to_string()],
        env: None,
    };
    match dispatch(&mut reg, msg.clone(), 0) {
        Outcome::SpawnSession { name, .. } => {
            assert_eq!(name, "twice");
            assert!(reg.install(make_session(&name, own_pid())).is_ok());
        }
        _ => panic!("expected SpawnSession"),
    }
    match dispatch(&mut reg, msg, 0) {
        Outcome::Reply(DaemonMessage::Error(e)) => {
            assert_eq!(e, "session 'twice' already exists");
        }
        _ => panic!("expected collision error"),
    }
}

#[test]
fn test_allocate_name_avoids_present() {
    let mut reg = Registry::new();
    // Occupy the names the counter would mint first.
    assert!(reg.install(make_session("0", own_pid())).is_ok());
    assert!(reg.install(make_session("1", own_pid())).is_ok());
    let name = reg.allocate_name(None);
    assert!(!reg.has_session(&name));
    assert_eq!(name, "2");
    // An explicit request is returned as-is.
    assert_eq!(reg.allocate_name(Some("given".to_string())), "given");
}

#[test]
fn test_kill_removes_then_errors() {
    let mut reg = Registry::new();
    assert!(reg.install(make_session("victim", own_pid())).is_ok());
    assert!(reg.kill(&"victim".to_string()).is_ok());
    assert!(!reg.has_session(&"victim".to_string()));
    assert!(reg.kill(&"victim".to_string()).is_err());
}

#[test]
fn test_kill_fires_kill_signal() {
    let (input_tx, _a) = tokio::sync::mpsc::channel::<Vec<u8>>(256);
    let (output_tx, _b) = tokio::sync::broadcast::channel::<Vec<u8>>(256);
    let (resize_tx, _c) = tokio::sync::mpsc::channel::<(u16, u16)>(16);
    let (kill_tx, mut kill_rx) = tokio::sync::oneshot::channel::<()>();
    let sess = Session::new(
        "sig".to_string(),
        "sh".to_string(),
        own_pid(),
        0,
        None,
        input_tx,
        output_tx,
        resize_tx,
        kill_tx,
    );
    let mut reg = Registry::new();
    assert!(reg.install(sess).is_ok());
    assert!(reg.kill(&"sig".to_string()).is_ok());
    assert!(kill_rx.try_recv().is_ok());
}

#[test]
fn test_kill_all_empties() {
    let mut reg = Registry::new();
    assert!(reg.install(make_session("a", own_pid())).is_ok());
    assert!(reg.install(make_session("b", own_pid())).is_ok());
    assert_eq!(reg.kill_all(), 2);
    assert_eq!(reg.list(0).len(), 0);
}

#[test]
fn test_reap_dead_removes_only_dead() {
    let mut reg = Registry::new();
    // This process is alive; a wildly out-of-range pid is not.
    assert!(reg.install(make_session("living", own_pid())).is_ok());
    assert!(reg.install(make_session("gone", 2_000_000_000)).is_ok());
    let reaped = reg.reap_dead();
    assert_eq!(reaped, vec!["gone".to_string()]);
    assert!(reg.has_session(&"living".to_string()));
    assert!(!reg.has_session(&"gone".to_string()));
    // A second sweep removes nothing further.
    assert!(reg.reap_dead().is_empty());
}

#[test]
fn test_record_output_reaches_capture() {
    let mut reg = Registry::new();
    assert!(reg.install(make_session("s", own_pid())).is_ok());
    assert!(reg.record_output(&"s".to_string(), b"one\ntwo\n", 1_700_000_005));
    assert_eq!(reg.capture(&"s".to_string(), 1), Some(b"two\n".to_vec()));
    assert_eq!(reg.capture(&"missing".to_string(), 1), None);
    assert!(!reg.record_output(&"missing".to_string(), b"x", 0));
}

#[test]
fn test_list_reports_fields() {
    let mut reg = Registry::new();
    assert!(reg.install(make_session("shown", own_pid())).is_ok());
    let infos = reg.list(1_700_000_060);
    assert_eq!(infos.len(), 1);
    assert_eq!(infos[0].name, "shown");
    assert_eq!(infos[0].command, "sh");
    assert_eq!(infos[0].pid, own_pid() as u32);
    assert!(infos[0].alive);
    assert_eq!(infos[0].uptime_secs, 60);
    assert_eq!(infos[0].created_at, "2023-11-14T22:13:20Z");
}

#[test]
fn test_reap_flagged_exact() {
    let mut reg = Registry::new();
    assert!(reg.install(make_session("a", own_pid())).is_ok());
    assert!(reg.install(make_session("b", own_pid())).is_ok());
    assert!(reg.install(make_session("c", own_pid())).is_ok());
    let removed = reg.reap_flagged(&vec![true, false, true]);
    assert_eq!(removed, vec!["b".to_string()]);
    assert!(reg.has_session(&"a".to_string()));
    assert!(!reg.has_session(&"b".to_string()));
    assert!(reg.has_session(&"c".to_string()));
    assert!(reg.reap_flagged(&vec![true, true]).is_empty());
}

#[test]
fn test_allocate_name_advances_counter() {
    let mut reg = Registry::new();
    assert_eq!(reg.counter, 0);
    assert_eq!(reg.allocate_name(None), "0");
    assert_eq!(reg.counter, 1);
    assert_eq!(reg.allocate_name(None), "1");
    assert_eq!(reg.counter, 2);
    // An explicit request leaves the counter alone.
    assert_eq!(reg.allocate_name(Some("fixed".to_string())), "fixed");
    assert_eq!(reg.counter, 2);
}
