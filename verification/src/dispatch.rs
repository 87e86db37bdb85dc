//! The control plane: one decision step per client message.
//!
//! `dispatch` performs every registry mutation and lookup itself and
//! returns what remains to be done — a response frame to write, a child
//! to spawn, a queued send to perform, an attach or a wait to enter.
//! The surrounding connection loop only moves bytes and awaits channels.

use vstd::prelude::*;
use tokio::sync::broadcast;
use tokio::sync::mpsc;
use crate::messages::{
    opt_str_view, pairs_view, ClientMessage, DaemonMessage, DecodeError, EnvPairs,
};
use crate::registry::{env_get, reg_idx, Registry};

verus! {

/// The wire text of the missing-session error.
pub open spec fn not_found_msg(name: Seq<char>) -> Seq<char> {
    "session '"@ + name + "' not found"@
}

/// The wire text of the name-collision error.
pub open spec fn already_exists_msg(name: Seq<char>) -> Seq<char> {
    "session '"@ + name + "' already exists"@
}

fn not_found_text(name: &String) -> (r: String)
    ensures
        r@ == not_found_msg(name@),
{
    let mut s = "session '".to_owned();
    s.append(name.as_str());
    s.append("' not found");
    s
}

fn already_exists_text(name: &String) -> (r: String)
    ensures
        r@ == already_exists_msg(name@),
{
    let mut s = "session '".to_owned();
    s.append(name.as_str());
    s.append("' already exists");
    s
}

/// Handles a freshly attached client holds: cloned senders into the
/// session, a subscription to its output, and the scrollback replay.
pub struct AttachStart {
    pub input_tx: mpsc::Sender<Vec<u8>>,
    pub output_rx: broadcast::Receiver<Vec<u8>>,
    pub resize_tx: mpsc::Sender<(u16, u16)>,
    pub snapshot: Vec<u8>,
    pub cols: u16,
    pub rows: u16,
}

/// What one control-plane message asks the connection loop to do next.
pub enum Outcome {
    /// Write this response and read the next request.
    Reply(DaemonMessage),
    /// Write this response, then shut the whole server down.
    ReplyThenShutdown(DaemonMessage),
    /// Spawn a child under this already-reserved name, install the
    /// session, and answer `SessionCreated` or the spawn error.
    SpawnSession { name: String, command: Vec<String>, env: Option<EnvPairs> },
    /// Queue `data` to the session, then write `reply`.
    ForwardInput { tx: mpsc::Sender<Vec<u8>>, data: Vec<u8>, reply: DaemonMessage },
    /// Switch the connection into attach mode with these handles.
    Attach(AttachStart),
    /// Wait for the session's output channel to close, up to the timeout.
    Wait { rx: broadcast::Receiver<Vec<u8>>, timeout_secs: u64 },
}

/// Decide one non-attach client message against the registry: every
/// mutation happens here; `now` is the wall clock in seconds.
#[verifier::rlimit(100)]
pub fn dispatch(reg: &mut Registry, msg: ClientMessage, now: u64) -> (r: Outcome)
    requires
        old(reg).wf(),
    ensures
        final(reg).wf(),
        ({
            match msg {
                ClientMessage::Ping => r == Outcome::Reply(DaemonMessage::Pong) && *final(reg)
                    == *old(reg),
                ClientMessage::KillServer => r == Outcome::ReplyThenShutdown(DaemonMessage::Okay)
                    && *final(reg) == *old(reg),
                ClientMessage::CreateSession { name, command, env } => ({
                    final(reg).sessions@ == old(reg).sessions@ && (match r {
                        Outcome::Reply(resp) => (resp matches DaemonMessage::Error(e)
                            && name matches Some(n) && old(reg).contains_name(n@) && e@
                            == already_exists_msg(n@)),
                        Outcome::SpawnSession { name: alloc, command: c2, env: e2 } => (c2
                            == command && e2 == env && !old(reg).contains_name(alloc@) && (
                        name matches Some(n) ==> alloc == n)),
                        _ => false,
                    })
                }),
                ClientMessage::ListSessions => *final(reg) == *old(reg) && (
                r matches Outcome::Reply(resp) && resp matches DaemonMessage::SessionList(v)
                    && v@.len() == old(reg).sessions@.len() && (forall|i: int|
                    0 <= i < v@.len() ==> crate::registry::info_matches(
                        old(reg).sessions@[i],
                        now,
                        crate::messages::info_view(#[trigger] v@[i]),
                    ))),
                ClientMessage::GetSessionInfo { name } => *final(reg) == *old(reg) && (if old(
                    reg,
                ).contains_name(name@) {
                    r matches Outcome::Reply(resp) && resp matches DaemonMessage::SessionDetail(
                        info,
                    ) && crate::registry::info_matches(
                        old(reg).sessions@[reg_idx(old(reg).sessions@, name@)],
                        now,
                        crate::messages::info_view(info),
                    )
                } else {
                    r matches Outcome::Reply(resp) && resp matches DaemonMessage::Error(e) && e@
                        == not_found_msg(name@)
                }),
                ClientMessage::KillSession { name } => (if old(reg).contains_name(name@) {
                    r == Outcome::Reply(DaemonMessage::Okay) && final(reg).sessions@ == old(
                        reg,
                    ).sessions@.remove(reg_idx(old(reg).sessions@, name@))
                } else {
                    r matches Outcome::Reply(resp) && resp matches DaemonMessage::Error(e) && e@
                        == not_found_msg(name@) && final(reg).sessions@ == old(reg).sessions@
                }) && !final(reg).contains_name(name@),
                ClientMessage::KillAllSessions => r == Outcome::Reply(
                    DaemonMessage::KilledSessions { count: old(reg).sessions@.len() as usize },
                ) && final(reg).sessions@.len() == 0,
                ClientMessage::Attach { name, cols, rows } => *final(reg) == *old(reg) && (if old(
                    reg,
                ).contains_name(name@) {
                    r matches Outcome::Attach(st) && st.cols == cols && st.rows == rows
                        && st.snapshot@ == old(reg).sessions@[reg_idx(
                        old(reg).sessions@,
                        name@,
                    )].scrollback@
                } else {
                    r matches Outcome::Reply(resp) && resp matches DaemonMessage::Error(e) && e@
                        == not_found_msg(name@)
                }),
                ClientMessage::SendInput { name, data, newline } => *final(reg) == *old(reg) && (
                if old(reg).contains_name(name@) {
                    r matches Outcome::ForwardInput { tx: _, data: payload, reply } && payload@
                        == data@ + (if newline {
                        seq![10u8]
                    } else {
                        Seq::<u8>::empty()
                    }) && reply == DaemonMessage::InputSent
                } else {
                    r matches Outcome::Reply(resp) && resp matches DaemonMessage::Error(e) && e@
                        == not_found_msg(name@)
                }),
                ClientMessage::HasSession { name } => *final(reg) == *old(reg) && r
                    == Outcome::Reply(
                    DaemonMessage::SessionExists(old(reg).contains_name(name@)),
                ),
                ClientMessage::CaptureScrollback { name, lines } => *final(reg) == *old(reg) && (
                if old(reg).contains_name(name@) {
                    r matches Outcome::Reply(resp) && resp matches DaemonMessage::CaptureOutput(b)
                        && b@ == crate::scrollback::last_lines_model(
                        old(reg).sessions@[reg_idx(old(reg).sessions@, name@)].scrollback@,
                        lines as nat,
                    )
                } else {
                    r matches Outcome::Reply(resp) && resp matches DaemonMessage::Error(e) && e@
                        == not_found_msg(name@)
                }),
                ClientMessage::SetEnv { name, key, value } => (if old(reg).contains_name(name@) {
                    let i = reg_idx(old(reg).sessions@, name@);
                    &&& r == Outcome::Reply(DaemonMessage::Okay)
                    &&& final(reg).counter == old(reg).counter
                    &&& final(reg).sessions@.len() == old(reg).sessions@.len()
                    &&& (forall|j: int|
                        0 <= j < old(reg).sessions@.len() && j != i ==> final(reg).sessions@[j]
                            == #[trigger] old(reg).sessions@[j])
                    &&& final(reg).sessions@[i].name == old(reg).sessions@[i].name
                    &&& final(reg).contains_name(name@)
                    &&& reg_idx(final(reg).sessions@, name@) == i
                    &&& env_get(pairs_view(final(reg).sessions@[i].env_vars), key@)
                        == Option::Some(value@)
                } else {
                    r matches Outcome::Reply(resp) && resp matches DaemonMessage::Error(e) && e@
                        == not_found_msg(name@) && final(reg).sessions@ == old(reg).sessions@
                }),
                ClientMessage::GetEnv { name, key } => *final(reg) == *old(reg) && (if old(
                    reg,
                ).contains_name(name@) {
                    r matches Outcome::Reply(resp) && resp matches DaemonMessage::EnvValue(o)
                        && opt_str_view(o) == env_get(
                        pairs_view(
                            old(reg).sessions@[reg_idx(old(reg).sessions@, name@)].env_vars,
                        ),
                        key@,
                    )
                } else {
                    r matches Outcome::Reply(resp) && resp matches DaemonMessage::Error(e) && e@
                        == not_found_msg(name@)
                }),
                ClientMessage::GetAllEnv { name } => *final(reg) == *old(reg) && (if old(
                    reg,
                ).contains_name(name@) {
                    r matches Outcome::Reply(resp) && resp matches DaemonMessage::EnvVars(ps)
                        && pairs_view(ps) == pairs_view(
                        old(reg).sessions@[reg_idx(old(reg).sessions@, name@)].env_vars,
                    )
                } else {
                    r matches Outcome::Reply(resp) && resp matches DaemonMessage::Error(e) && e@
                        == not_found_msg(name@)
                }),
                ClientMessage::WaitSession { name, timeout_secs } => *final(reg) == *old(reg) && (
                if old(reg).contains_name(name@) {
                    (r matches Outcome::Wait { rx: _, timeout_secs: t } && t == timeout_secs) || r
                        == Outcome::Reply(DaemonMessage::SessionExited)
                } else {
                    r matches Outcome::Reply(resp) && resp matches DaemonMessage::Error(e) && e@
                        == not_found_msg(name@)
                }),
                _ => r matches Outcome::Reply(resp) && resp matches DaemonMessage::Error(e) && e@
                    == "unexpected message"@ && *final(reg) == *old(reg),
            }
        }),
{
    match msg {
        ClientMessage::Ping => Outcome::Reply(DaemonMessage::Pong),
        ClientMessage::KillServer => Outcome::ReplyThenShutdown(DaemonMessage::Okay),
        ClientMessage::CreateSession { name, command, env } => {
            let allocated = reg.allocate_name(name);
            if reg.has_session(&allocated) {
                Outcome::Reply(DaemonMessage::Error(already_exists_text(&allocated)))
            } else {
                Outcome::SpawnSession { name: allocated, command, env }
            }
        },
        ClientMessage::ListSessions => Outcome::Reply(DaemonMessage::SessionList(reg.list(now))),
        ClientMessage::GetSessionInfo { name } => {
            match reg.info(&name, now) {
                Some(info) => Outcome::Reply(DaemonMessage::SessionDetail(info)),
                None => Outcome::Reply(DaemonMessage::Error(not_found_text(&name))),
            }
        },
        ClientMessage::KillSession { name } => {
            match reg.kill(&name) {
                Ok(()) => Outcome::Reply(DaemonMessage::Okay),
                Err(()) => Outcome::Reply(DaemonMessage::Error(not_found_text(&name))),
            }
        },
        ClientMessage::KillAllSessions => {
            let count = reg.kill_all();
            Outcome::Reply(DaemonMessage::KilledSessions { count })
        },
        ClientMessage::Attach { name, cols, rows } => {
            match reg.get(&name) {
                Some(sess) => {
                    let input_tx = crate::registry::clone_input_sender(sess);
                    let output_rx = crate::registry::subscribe_to_output(sess);
                    let resize_tx = crate::registry::clone_resize_sender_of(sess);
                    let snapshot = sess.scrollback.contents();
                    Outcome::Attach(
                        AttachStart { input_tx, output_rx, resize_tx, snapshot, cols, rows },
                    )
                },
                None => Outcome::Reply(DaemonMessage::Error(not_found_text(&name))),
            }
        },
        ClientMessage::SendInput { name, data, newline } => {
            match reg.get(&name) {
                Some(sess) => {
                    let tx = crate::registry::clone_input_sender(sess);
                    let mut payload = data;
                    if newline {
                        payload.push(10);
                    }
                    proof {
                        if !newline {
                            assert(payload@ =~= payload@ + Seq::<u8>::empty());
                        }
                    }
                    Outcome::ForwardInput { tx, data: payload, reply: DaemonMessage::InputSent }
                },
                None => Outcome::Reply(DaemonMessage::Error(not_found_text(&name))),
            }
        },
        ClientMessage::HasSession { name } => {
            let exists = reg.has_session(&name);
            Outcome::Reply(DaemonMessage::SessionExists(exists))
        },
        ClientMessage::CaptureScrollback { name, lines } => {
            match reg.capture(&name, lines) {
                Some(bytes) => Outcome::Reply(DaemonMessage::CaptureOutput(bytes)),
                None => Outcome::Reply(DaemonMessage::Error(not_found_text(&name))),
            }
        },
        ClientMessage::SetEnv { name, key, value } => {
            if reg.set_env_on(&name, key, value) {
                Outcome::Reply(DaemonMessage::Okay)
            } else {
                Outcome::Reply(DaemonMessage::Error(not_found_text(&name)))
            }
        },
        ClientMessage::GetEnv { name, key } => {
            match reg.get(&name) {
                Some(sess) => Outcome::Reply(DaemonMessage::EnvValue(sess.get_env(&key))),
                None => Outcome::Reply(DaemonMessage::Error(not_found_text(&name))),
            }
        },
        ClientMessage::GetAllEnv { name } => {
            match reg.get(&name) {
                Some(sess) => Outcome::Reply(DaemonMessage::EnvVars(sess.get_all_env())),
                None => Outcome::Reply(DaemonMessage::Error(not_found_text(&name))),
            }
        },
        ClientMessage::WaitSession { name, timeout_secs } => {
            match reg.get(&name) {
                Some(sess) => {
                    let alive = sess.is_alive();
                    wait_session_outcome(sess, alive, timeout_secs)
                },
                None => Outcome::Reply(DaemonMessage::Error(not_found_text(&name))),
            }
        },
        _ => {
            let text = "unexpected message".to_owned();
            Outcome::Reply(DaemonMessage::Error(text))
        },
    }
}

/// The outcome a `WaitSession` request owes for a given liveness
/// observation: a live child is waited on over a fresh output
/// subscription with the requested timeout; a dead one is reported as
/// exited at once.
pub fn wait_session_outcome(
    sess: &crate::registry::Session,
    alive: bool,
    timeout_secs: u64,
) -> (r: Outcome)
    ensures
        alive ==> (r matches Outcome::Wait { rx: _, timeout_secs: t } && t == timeout_secs),
        !alive ==> r == Outcome::Reply(DaemonMessage::SessionExited),
{
    if alive {
        let rx = crate::registry::subscribe_to_output(sess);
        Outcome::Wait { rx, timeout_secs }
    } else {
        Outcome::Reply(DaemonMessage::SessionExited)
    }
}

/// The reply owed after a `WaitSession` wait completes: the exit notice,
/// or the timeout error when the clock won.
pub fn wait_session_reply(timed_out: bool) -> (r: DaemonMessage)
    ensures
        timed_out ==> (r matches DaemonMessage::Error(e) && e@ == "timeout"@),
        !timed_out ==> r == DaemonMessage::SessionExited,
{
    if timed_out {
        DaemonMessage::Error("timeout".to_owned())
    } else {
        DaemonMessage::SessionExited
    }
}

/// What an attached connection does with one event from the client side.
pub enum AttachAction {
    /// Queue these bytes to the session's input.
    ForwardInput(Vec<u8>),
    /// Propagate a window resize to the PTY.
    Resize { cols: u16, rows: u16 },
    /// Leave attach mode: a detach, a disconnect, or a broken frame.
    Stop,
    /// Any other message is ignored silently.
    Ignore,
}

/// Decide one client-side event while attached: `None` is a clean
/// disconnect.
pub fn attach_client_event(msg: Option<Result<ClientMessage, DecodeError>>) -> (r: AttachAction)
    ensures
        ({
            match msg {
                Some(Ok(ClientMessage::AttachInput(data))) => r matches AttachAction::ForwardInput(
                    d,
                ) && d == data,
                Some(Ok(ClientMessage::AttachResize { cols, rows })) => r
                    == AttachAction::Resize { cols, rows },
                Some(Ok(ClientMessage::Detach)) => r == AttachAction::Stop,
                Some(Ok(_)) => r == AttachAction::Ignore,
                Some(Err(_)) => r == AttachAction::Stop,
                None => r == AttachAction::Stop,
            }
        }),
{
    match msg {
        Some(Ok(ClientMessage::AttachInput(data))) => AttachAction::ForwardInput(data),
        Some(Ok(ClientMessage::AttachResize { cols, rows })) => AttachAction::Resize { cols, rows },
        Some(Ok(ClientMessage::Detach)) => AttachAction::Stop,
        Some(Ok(_)) => AttachAction::Ignore,
        Some(Err(_)) => AttachAction::Stop,
        None => AttachAction::Stop,
    }
}

/// One event from the session's output broadcast, as the connection loop
/// observes it.
pub enum OutputEvent {
    /// A chunk of PTY output arrived.
    Data(Vec<u8>),
    /// The subscriber lagged and dropped messages.
    Lagged,
    /// The channel closed: the session ended.
    Closed,
}

/// What an attached connection does with one output-broadcast event.
pub enum OutputAction {
    /// Forward this frame to the client.
    Send(DaemonMessage),
    /// Note the lag and keep streaming.
    Continue,
    /// Tell the client the session ended, then leave attach mode.
    SendEndAndStop(DaemonMessage),
}

/// Decide one output-side event while attached.
pub fn attach_output_event(ev: OutputEvent) -> (r: OutputAction)
    ensures
        ({
            match ev {
                OutputEvent::Data(data) => r matches OutputAction::Send(m)
                    && m matches DaemonMessage::Output(d) && d == data,
                OutputEvent::Lagged => r == OutputAction::Continue,
                OutputEvent::Closed => r == OutputAction::SendEndAndStop(
                    DaemonMessage::SessionEnded,
                ),
            }
        }),
{
    match ev {
        OutputEvent::Data(data) => OutputAction::Send(DaemonMessage::Output(data)),
        OutputEvent::Lagged => OutputAction::Continue,
        OutputEvent::Closed => OutputAction::SendEndAndStop(DaemonMessage::SessionEnded),
    }
}

} // verus!
