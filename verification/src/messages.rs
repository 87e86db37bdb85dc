//! The control-plane message set and its binary wire encoding.
//!
//! A message is a tagged union: one tag byte, then the fields in order.
//! Strings and byte strings carry a 4-byte big-endian length; lists carry
//! a 4-byte big-endian count; integers are big-endian; booleans and
//! options are one byte.  The same encoding serves both directions.

use vstd::prelude::*;
use vstd::utf8::{encode_utf8, decode_utf8, valid_utf8};
use crate::endian::{
    be16_bytes, be16_value, be32_bytes, be32_value, be64_bytes, be64_value,
    lemma_be16_round_trip, lemma_be32_round_trip, lemma_be64_round_trip,
    u16_from_be, u16_to_be, u32_from_be, u32_to_be, u64_from_be, u64_to_be,
};

verus! {

/// Session metadata pairs, ordered, with unique keys.
pub type EnvPairs = Vec<(String, String)>;

/// Requests from client to daemon.
#[derive(Debug, Clone)]
pub enum ClientMessage {
    Ping,
    KillServer,
    CreateSession { name: Option<String>, command: Vec<String>, env: Option<EnvPairs> },
    ListSessions,
    GetSessionInfo { name: String },
    KillSession { name: String },
    KillAllSessions,
    Attach { name: String, cols: u16, rows: u16 },
    AttachInput(Vec<u8>),
    AttachResize { cols: u16, rows: u16 },
    Detach,
    SendInput { name: String, data: Vec<u8>, newline: bool },
    HasSession { name: String },
    CaptureScrollback { name: String, lines: usize },
    SetEnv { name: String, key: String, value: String },
    GetEnv { name: String, key: String },
    GetAllEnv { name: String },
    WaitSession { name: String, timeout_secs: u64 },
}

/// Responses from daemon to client.
#[derive(Debug, Clone)]
pub enum DaemonMessage {
    Pong,
    Okay,
    Error(String),
    SessionCreated { name: String },
    SessionList(Vec<SessionInfo>),
    SessionDetail(SessionInfo),
    Output(Vec<u8>),
    SessionEnded,
    SessionExists(bool),
    KilledSessions { count: usize },
    CaptureOutput(Vec<u8>),
    InputSent,
    EnvValue(Option<String>),
    EnvVars(EnvPairs),
    SessionExited,
}

/// Wire-visible view of one session.
#[derive(Debug, Clone)]
pub struct SessionInfo {
    pub name: String,
    pub command: String,
    pub pid: u32,
    pub alive: bool,
    pub created_at: String,
    pub uptime_secs: u64,
    pub last_activity: String,
    pub idle_secs: u64,
}

/// Requests of the minimal early control pair.
#[derive(Debug, Clone, Copy, PartialEq, Eq, Structural)]
pub enum Request {
    Ping,
    KillServer,
}

/// Responses of the minimal early control pair.
#[derive(Debug, Clone)]
pub enum Response {
    Pong,
    Okay,
    Error(String),
}

// ---------------------------------------------------------------------------
// Mathematical models: each message as sequences and plain values.
// ---------------------------------------------------------------------------

/// Model of a `SessionInfo`.
#[verifier::ext_equal]
pub struct SessionInfoV {
    pub name: Seq<char>,
    pub command: Seq<char>,
    pub pid: u32,
    pub alive: bool,
    pub created_at: Seq<char>,
    pub uptime_secs: u64,
    pub last_activity: Seq<char>,
    pub idle_secs: u64,
}

/// Model of a `ClientMessage`.
#[verifier::ext_equal]
pub enum ClientMsgV {
    Ping,
    KillServer,
    CreateSession {
        name: Option<Seq<char>>,
        command: Seq<Seq<char>>,
        env: Option<Seq<(Seq<char>, Seq<char>)>>,
    },
    ListSessions,
    GetSessionInfo { name: Seq<char> },
    KillSession { name: Seq<char> },
    KillAllSessions,
    Attach { name: Seq<char>, cols: u16, rows: u16 },
    AttachInput(Seq<u8>),
    AttachResize { cols: u16, rows: u16 },
    Detach,
    SendInput { name: Seq<char>, data: Seq<u8>, newline: bool },
    HasSession { name: Seq<char> },
    CaptureScrollback { name: Seq<char>, lines: usize },
    SetEnv { name: Seq<char>, key: Seq<char>, value: Seq<char> },
    GetEnv { name: Seq<char>, key: Seq<char> },
    GetAllEnv { name: Seq<char> },
    WaitSession { name: Seq<char>, timeout_secs: u64 },
}

/// Model of a `DaemonMessage`.
#[verifier::ext_equal]
pub enum DaemonMsgV {
    Pong,
    Okay,
    Error(Seq<char>),
    SessionCreated { name: Seq<char> },
    SessionList(Seq<SessionInfoV>),
    SessionDetail(SessionInfoV),
    Output(Seq<u8>),
    SessionEnded,
    SessionExists(bool),
    KilledSessions { count: usize },
    CaptureOutput(Seq<u8>),
    InputSent,
    EnvValue(Option<Seq<char>>),
    EnvVars(Seq<(Seq<char>, Seq<char>)>),
    SessionExited,
}

pub open spec fn opt_str_view(o: Option<String>) -> Option<Seq<char>> {
    match o {
        Option::None => Option::None,
        Option::Some(s) => Option::Some(s@),
    }
}

pub open spec fn strs_view(v: Vec<String>) -> Seq<Seq<char>> {
    Seq::new(v@.len(), |i: int| v@[i]@)
}

pub open spec fn pairs_view(v: EnvPairs) -> Seq<(Seq<char>, Seq<char>)> {
    Seq::new(v@.len(), |i: int| (v@[i].0@, v@[i].1@))
}

pub open spec fn opt_pairs_view(o: Option<EnvPairs>) -> Option<Seq<(Seq<char>, Seq<char>)>> {
    match o {
        Option::None => Option::None,
        Option::Some(v) => Option::Some(pairs_view(v)),
    }
}

pub open spec fn info_view(i: SessionInfo) -> SessionInfoV {
    SessionInfoV {
        name: i.name@,
        command: i.command@,
        pid: i.pid,
        alive: i.alive,
        created_at: i.created_at@,
        uptime_secs: i.uptime_secs,
        last_activity: i.last_activity@,
        idle_secs: i.idle_secs,
    }
}

pub open spec fn infos_view(v: Vec<SessionInfo>) -> Seq<SessionInfoV> {
    Seq::new(v@.len(), |i: int| info_view(v@[i]))
}

pub open spec fn client_view(m: ClientMessage) -> ClientMsgV {
    match m {
        ClientMessage::Ping => ClientMsgV::Ping,
        ClientMessage::KillServer => ClientMsgV::KillServer,
        ClientMessage::CreateSession { name, command, env } => ClientMsgV::CreateSession {
            name: opt_str_view(name),
            command: strs_view(command),
            env: opt_pairs_view(env),
        },
        ClientMessage::ListSessions => ClientMsgV::ListSessions,
        ClientMessage::GetSessionInfo { name } => ClientMsgV::GetSessionInfo { name: name@ },
        ClientMessage::KillSession { name } => ClientMsgV::KillSession { name: name@ },
        ClientMessage::KillAllSessions => ClientMsgV::KillAllSessions,
        ClientMessage::Attach { name, cols, rows } => ClientMsgV::Attach { name: name@, cols, rows },
        ClientMessage::AttachInput(data) => ClientMsgV::AttachInput(data@),
        ClientMessage::AttachResize { cols, rows } => ClientMsgV::AttachResize { cols, rows },
        ClientMessage::Detach => ClientMsgV::Detach,
        ClientMessage::SendInput { name, data, newline } => ClientMsgV::SendInput {
            name: name@,
            data: data@,
            newline,
        },
        ClientMessage::HasSession { name } => ClientMsgV::HasSession { name: name@ },
        ClientMessage::CaptureScrollback { name, lines } => ClientMsgV::CaptureScrollback {
            name: name@,
            lines,
        },
        ClientMessage::SetEnv { name, key, value } => ClientMsgV::SetEnv {
            name: name@,
            key: key@,
            value: value@,
        },
        ClientMessage::GetEnv { name, key } => ClientMsgV::GetEnv { name: name@, key: key@ },
        ClientMessage::GetAllEnv { name } => ClientMsgV::GetAllEnv { name: name@ },
        ClientMessage::WaitSession { name, timeout_secs } => ClientMsgV::WaitSession {
            name: name@,
            timeout_secs,
        },
    }
}

pub open spec fn daemon_view(m: DaemonMessage) -> DaemonMsgV {
    match m {
        DaemonMessage::Pong => DaemonMsgV::Pong,
        DaemonMessage::Okay => DaemonMsgV::Okay,
        DaemonMessage::Error(e) => DaemonMsgV::Error(e@),
        DaemonMessage::SessionCreated { name } => DaemonMsgV::SessionCreated { name: name@ },
        DaemonMessage::SessionList(v) => DaemonMsgV::SessionList(infos_view(v)),
        DaemonMessage::SessionDetail(i) => DaemonMsgV::SessionDetail(info_view(i)),
        DaemonMessage::Output(b) => DaemonMsgV::Output(b@),
        DaemonMessage::SessionEnded => DaemonMsgV::SessionEnded,
        DaemonMessage::SessionExists(b) => DaemonMsgV::SessionExists(b),
        DaemonMessage::KilledSessions { count } => DaemonMsgV::KilledSessions { count },
        DaemonMessage::CaptureOutput(b) => DaemonMsgV::CaptureOutput(b@),
        DaemonMessage::InputSent => DaemonMsgV::InputSent,
        DaemonMessage::EnvValue(o) => DaemonMsgV::EnvValue(opt_str_view(o)),
        DaemonMessage::EnvVars(v) => DaemonMsgV::EnvVars(pairs_view(v)),
        DaemonMessage::SessionExited => DaemonMsgV::SessionExited,
    }
}

// ---------------------------------------------------------------------------
// Size bounds: every length or count must fit its 4-byte prefix.
// ---------------------------------------------------------------------------

pub open spec fn str_fits(s: Seq<char>) -> bool {
    encode_utf8(s).len() <= 0xFFFF_FFFF
}

pub open spec fn bytes_fits(b: Seq<u8>) -> bool {
    b.len() <= 0xFFFF_FFFF
}

pub open spec fn strs_fit(ss: Seq<Seq<char>>) -> bool {
    &&& ss.len() <= 0xFFFF_FFFF
    &&& forall|i: int| 0 <= i < ss.len() ==> str_fits(#[trigger] ss[i])
}

pub open spec fn pairs_fit(ps: Seq<(Seq<char>, Seq<char>)>) -> bool {
    &&& ps.len() <= 0xFFFF_FFFF
    &&& forall|i: int| 0 <= i < ps.len() ==> str_fits((#[trigger] ps[i]).0) && str_fits(ps[i].1)
}

pub open spec fn info_v_fits(i: SessionInfoV) -> bool {
    &&& str_fits(i.name)
    &&& str_fits(i.command)
    &&& str_fits(i.created_at)
    &&& str_fits(i.last_activity)
}

pub open spec fn infos_fit(v: Seq<SessionInfoV>) -> bool {
    &&& v.len() <= 0xFFFF_FFFF
    &&& forall|i: int| 0 <= i < v.len() ==> info_v_fits(#[trigger] v[i])
}

pub open spec fn client_v_fits(m: ClientMsgV) -> bool {
    match m {
        ClientMsgV::Ping => true,
        ClientMsgV::KillServer => true,
        ClientMsgV::CreateSession { name, command, env } => {
            &&& (name matches Option::Some(n) ==> str_fits(n))
            &&& strs_fit(command)
            &&& (env matches Option::Some(e) ==> pairs_fit(e))
        },
        ClientMsgV::ListSessions => true,
        ClientMsgV::GetSessionInfo { name } => str_fits(name),
        ClientMsgV::KillSession { name } => str_fits(name),
        ClientMsgV::KillAllSessions => true,
        ClientMsgV::Attach { name, cols: _, rows: _ } => str_fits(name),
        ClientMsgV::AttachInput(data) => bytes_fits(data),
        ClientMsgV::AttachResize { cols: _, rows: _ } => true,
        ClientMsgV::Detach => true,
        ClientMsgV::SendInput { name, data, newline: _ } => str_fits(name) && bytes_fits(data),
        ClientMsgV::HasSession { name } => str_fits(name),
        ClientMsgV::CaptureScrollback { name, lines: _ } => str_fits(name),
        ClientMsgV::SetEnv { name, key, value } => str_fits(name) && str_fits(key) && str_fits(
            value,
        ),
        ClientMsgV::GetEnv { name, key } => str_fits(name) && str_fits(key),
        ClientMsgV::GetAllEnv { name } => str_fits(name),
        ClientMsgV::WaitSession { name, timeout_secs: _ } => str_fits(name),
    }
}

pub open spec fn daemon_v_fits(m: DaemonMsgV) -> bool {
    match m {
        DaemonMsgV::Pong => true,
        DaemonMsgV::Okay => true,
        DaemonMsgV::Error(e) => str_fits(e),
        DaemonMsgV::SessionCreated { name } => str_fits(name),
        DaemonMsgV::SessionList(v) => infos_fit(v),
        DaemonMsgV::SessionDetail(i) => info_v_fits(i),
        DaemonMsgV::Output(b) => bytes_fits(b),
        DaemonMsgV::SessionEnded => true,
        DaemonMsgV::SessionExists(_) => true,
        DaemonMsgV::KilledSessions { count: _ } => true,
        DaemonMsgV::CaptureOutput(b) => bytes_fits(b),
        DaemonMsgV::InputSent => true,
        DaemonMsgV::EnvValue(o) => (o matches Option::Some(s) ==> str_fits(s)),
        DaemonMsgV::EnvVars(ps) => pairs_fit(ps),
        DaemonMsgV::SessionExited => true,
    }
}

// ---------------------------------------------------------------------------
// Encoding, defined on the models.
// ---------------------------------------------------------------------------

pub open spec fn enc_bool(b: bool) -> Seq<u8> {
    seq![if b { 1u8 } else { 0u8 }]
}

pub open spec fn enc_str(s: Seq<char>) -> Seq<u8> {
    be32_bytes(encode_utf8(s).len() as u32) + encode_utf8(s)
}

pub open spec fn enc_byte_str(b: Seq<u8>) -> Seq<u8> {
    be32_bytes(b.len() as u32) + b
}

pub open spec fn enc_opt_str(o: Option<Seq<char>>) -> Seq<u8> {
    match o {
        Option::None => seq![0u8],
        Option::Some(s) => seq![1u8] + enc_str(s),
    }
}

pub open spec fn enc_str_items(ss: Seq<Seq<char>>) -> Seq<u8>
    decreases ss.len(),
{
    if ss.len() == 0 {
        Seq::empty()
    } else {
        enc_str(ss[0]) + enc_str_items(ss.skip(1))
    }
}

pub open spec fn enc_str_list(ss: Seq<Seq<char>>) -> Seq<u8> {
    be32_bytes(ss.len() as u32) + enc_str_items(ss)
}

pub open spec fn enc_pair_items(ps: Seq<(Seq<char>, Seq<char>)>) -> Seq<u8>
    decreases ps.len(),
{
    if ps.len() == 0 {
        Seq::empty()
    } else {
        enc_str(ps[0].0) + enc_str(ps[0].1) + enc_pair_items(ps.skip(1))
    }
}

pub open spec fn enc_pair_list(ps: Seq<(Seq<char>, Seq<char>)>) -> Seq<u8> {
    be32_bytes(ps.len() as u32) + enc_pair_items(ps)
}

pub open spec fn enc_opt_pair_list(o: Option<Seq<(Seq<char>, Seq<char>)>>) -> Seq<u8> {
    match o {
        Option::None => seq![0u8],
        Option::Some(ps) => seq![1u8] + enc_pair_list(ps),
    }
}

pub open spec fn enc_info(i: SessionInfoV) -> Seq<u8> {
    enc_str(i.name) + enc_str(i.command) + be32_bytes(i.pid) + enc_bool(i.alive) + enc_str(
        i.created_at,
    ) + be64_bytes(i.uptime_secs) + enc_str(i.last_activity) + be64_bytes(i.idle_secs)
}

pub open spec fn enc_info_items(v: Seq<SessionInfoV>) -> Seq<u8>
    decreases v.len(),
{
    if v.len() == 0 {
        Seq::empty()
    } else {
        enc_info(v[0]) + enc_info_items(v.skip(1))
    }
}

pub open spec fn enc_info_list(v: Seq<SessionInfoV>) -> Seq<u8> {
    be32_bytes(v.len() as u32) + enc_info_items(v)
}

/// The tag byte that opens the encoding of each client message.
pub open spec fn client_tag(m: ClientMsgV) -> u8 {
    match m {
        ClientMsgV::Ping => 0,
        ClientMsgV::KillServer => 1,
        ClientMsgV::CreateSession { .. } => 2,
        ClientMsgV::ListSessions => 3,
        ClientMsgV::GetSessionInfo { .. } => 4,
        ClientMsgV::KillSession { .. } => 5,
        ClientMsgV::KillAllSessions => 6,
        ClientMsgV::Attach { .. } => 7,
        ClientMsgV::AttachInput(_) => 8,
        ClientMsgV::AttachResize { .. } => 9,
        ClientMsgV::Detach => 10,
        ClientMsgV::SendInput { .. } => 11,
        ClientMsgV::HasSession { .. } => 12,
        ClientMsgV::CaptureScrollback { .. } => 13,
        ClientMsgV::SetEnv { .. } => 14,
        ClientMsgV::GetEnv { .. } => 15,
        ClientMsgV::GetAllEnv { .. } => 16,
        ClientMsgV::WaitSession { .. } => 17,
    }
}

pub open spec fn enc_client(m: ClientMsgV) -> Seq<u8> {
    seq![client_tag(m)] + match m {
        ClientMsgV::Ping => Seq::empty(),
        ClientMsgV::KillServer => Seq::empty(),
        ClientMsgV::CreateSession { name, command, env } => enc_opt_str(name) + enc_str_list(
            command,
        ) + enc_opt_pair_list(env),
        ClientMsgV::ListSessions => Seq::empty(),
        ClientMsgV::GetSessionInfo { name } => enc_str(name),
        ClientMsgV::KillSession { name } => enc_str(name),
        ClientMsgV::KillAllSessions => Seq::empty(),
        ClientMsgV::Attach { name, cols, rows } => enc_str(name) + be16_bytes(cols) + be16_bytes(
            rows,
        ),
        ClientMsgV::AttachInput(data) => enc_byte_str(data),
        ClientMsgV::AttachResize { cols, rows } => be16_bytes(cols) + be16_bytes(rows),
        ClientMsgV::Detach => Seq::empty(),
        ClientMsgV::SendInput { name, data, newline } => enc_str(name) + enc_byte_str(data)
            + enc_bool(newline),
        ClientMsgV::HasSession { name } => enc_str(name),
        ClientMsgV::CaptureScrollback { name, lines } => enc_str(name) + be64_bytes(
            lines as u64,
        ),
        ClientMsgV::SetEnv { name, key, value } => enc_str(name) + enc_str(key) + enc_str(value),
        ClientMsgV::GetEnv { name, key } => enc_str(name) + enc_str(key),
        ClientMsgV::GetAllEnv { name } => enc_str(name),
        ClientMsgV::WaitSession { name, timeout_secs } => enc_str(name) + be64_bytes(timeout_secs),
    }
}

/// The tag byte that opens the encoding of each daemon message.
pub open spec fn daemon_tag(m: DaemonMsgV) -> u8 {
    match m {
        DaemonMsgV::Pong => 0,
        DaemonMsgV::Okay => 1,
        DaemonMsgV::Error(_) => 2,
        DaemonMsgV::SessionCreated { .. } => 3,
        DaemonMsgV::SessionList(_) => 4,
        DaemonMsgV::SessionDetail(_) => 5,
        DaemonMsgV::Output(_) => 6,
        DaemonMsgV::SessionEnded => 7,
        DaemonMsgV::SessionExists(_) => 8,
        DaemonMsgV::KilledSessions { .. } => 9,
        DaemonMsgV::CaptureOutput(_) => 10,
        DaemonMsgV::InputSent => 11,
        DaemonMsgV::EnvValue(_) => 12,
        DaemonMsgV::EnvVars(_) => 13,
        DaemonMsgV::SessionExited => 14,
    }
}

pub open spec fn enc_daemon(m: DaemonMsgV) -> Seq<u8> {
    seq![daemon_tag(m)] + match m {
        DaemonMsgV::Pong => Seq::empty(),
        DaemonMsgV::Okay => Seq::empty(),
        DaemonMsgV::Error(e) => enc_str(e),
        DaemonMsgV::SessionCreated { name } => enc_str(name),
        DaemonMsgV::SessionList(v) => enc_info_list(v),
        DaemonMsgV::SessionDetail(i) => enc_info(i),
        DaemonMsgV::Output(b) => enc_byte_str(b),
        DaemonMsgV::SessionEnded => Seq::empty(),
        DaemonMsgV::SessionExists(b) => enc_bool(b),
        DaemonMsgV::KilledSessions { count } => be64_bytes(count as u64),
        DaemonMsgV::CaptureOutput(b) => enc_byte_str(b),
        DaemonMsgV::InputSent => Seq::empty(),
        DaemonMsgV::EnvValue(o) => enc_opt_str(o),
        DaemonMsgV::EnvVars(ps) => enc_pair_list(ps),
        DaemonMsgV::SessionExited => Seq::empty(),
    }
}


// ---------------------------------------------------------------------------
// Concatenation facts about the item encoders.
// ---------------------------------------------------------------------------

pub proof fn lemma_enc_str_items_snoc(a: Seq<Seq<char>>, x: Seq<char>)
    ensures
        enc_str_items(a.push(x)) == enc_str_items(a) + enc_str(x),
    decreases a.len(),
{
    if a.len() == 0 {
        assert(a.push(x)[0] == x);
        assert(a.push(x).skip(1) =~= Seq::<Seq<char>>::empty());
        assert(enc_str_items(a.push(x).skip(1)) == Seq::<u8>::empty());
        assert(enc_str_items(a.push(x)) =~= enc_str_items(a) + enc_str(x));
    } else {
        assert(a.push(x)[0] == a[0]);
        assert(a.push(x).skip(1) =~= a.skip(1).push(x));
        lemma_enc_str_items_snoc(a.skip(1), x);
        assert(enc_str_items(a.push(x)) =~= enc_str_items(a) + enc_str(x));
    }
}

pub proof fn lemma_enc_pair_items_snoc(a: Seq<(Seq<char>, Seq<char>)>, x: (Seq<char>, Seq<char>))
    ensures
        enc_pair_items(a.push(x)) == enc_pair_items(a) + enc_str(x.0) + enc_str(x.1),
    decreases a.len(),
{
    if a.len() == 0 {
        assert(a.push(x)[0] == x);
        assert(a.push(x).skip(1) =~= Seq::<(Seq<char>, Seq<char>)>::empty());
        assert(enc_pair_items(a.push(x).skip(1)) == Seq::<u8>::empty());
        assert(enc_pair_items(a.push(x)) =~= enc_pair_items(a) + enc_str(x.0) + enc_str(x.1));
    } else {
        assert(a.push(x)[0] == a[0]);
        assert(a.push(x).skip(1) =~= a.skip(1).push(x));
        lemma_enc_pair_items_snoc(a.skip(1), x);
        assert(enc_pair_items(a.push(x)) =~= enc_pair_items(a) + enc_str(x.0) + enc_str(x.1));
    }
}

#[verifier::rlimit(50)]
pub proof fn lemma_enc_info_items_snoc(a: Seq<SessionInfoV>, x: SessionInfoV)
    ensures
        enc_info_items(a.push(x)) == enc_info_items(a) + enc_info(x),
    decreases a.len(),
{
    if a.len() == 0 {
        assert(a.push(x)[0] == x);
        assert(a.push(x).skip(1) =~= Seq::<SessionInfoV>::empty());
        assert(enc_info_items(a.push(x).skip(1)) == Seq::<u8>::empty());
        assert(enc_info_items(a.push(x)) =~= enc_info_items(a) + enc_info(x));
    } else {
        assert(a.push(x)[0] == a[0]);
        assert(a.push(x).skip(1) =~= a.skip(1).push(x));
        lemma_enc_info_items_snoc(a.skip(1), x);
        assert(enc_info_items(a.push(x)) =~= enc_info_items(a) + enc_info(x));
    }
}

// ---------------------------------------------------------------------------
// Executable encoders.
// ---------------------------------------------------------------------------

fn emit_u8(out: &mut Vec<u8>, x: u8)
    ensures
        final(out)@ == old(out)@ + seq![x],
{
    out.push(x);
    proof {
        assert(out@ =~= old(out)@ + seq![x]);
    }
}

fn emit_bool(out: &mut Vec<u8>, b: bool)
    ensures
        final(out)@ == old(out)@ + enc_bool(b),
{
    if b {
        emit_u8(out, 1);
    } else {
        emit_u8(out, 0);
    }
}

fn emit_u16(out: &mut Vec<u8>, x: u16)
    ensures
        final(out)@ == old(out)@ + be16_bytes(x),
{
    let b = u16_to_be(x);
    out.extend_from_slice(b.as_slice());
}

fn emit_u32(out: &mut Vec<u8>, x: u32)
    ensures
        final(out)@ == old(out)@ + be32_bytes(x),
{
    let b = u32_to_be(x);
    out.extend_from_slice(b.as_slice());
}

fn emit_u64(out: &mut Vec<u8>, x: u64)
    ensures
        final(out)@ == old(out)@ + be64_bytes(x),
{
    let b = u64_to_be(x);
    out.extend_from_slice(b.as_slice());
}

fn emit_str(out: &mut Vec<u8>, s: &String)
    requires
        str_fits(s@),
    ensures
        final(out)@ == old(out)@ + enc_str(s@),
{
    let bs = s.as_str().as_bytes();
    emit_u32(out, bs.len() as u32);
    out.extend_from_slice(bs);
    proof {
        assert(out@ =~= old(out)@ + enc_str(s@));
    }
}

fn emit_byte_str(out: &mut Vec<u8>, b: &[u8])
    requires
        bytes_fits(b@),
    ensures
        final(out)@ == old(out)@ + enc_byte_str(b@),
{
    emit_u32(out, b.len() as u32);
    out.extend_from_slice(b);
    proof {
        assert(out@ =~= old(out)@ + enc_byte_str(b@));
    }
}

fn emit_opt_str(out: &mut Vec<u8>, o: &Option<String>)
    requires
        (opt_str_view(*o) matches Option::Some(s) ==> str_fits(s)),
    ensures
        final(out)@ == old(out)@ + enc_opt_str(opt_str_view(*o)),
{
    match o {
        Option::None => {
            emit_u8(out, 0);
        },
        Option::Some(s) => {
            emit_u8(out, 1);
            emit_str(out, s);
            proof {
                assert(out@ =~= old(out)@ + enc_opt_str(opt_str_view(*o)));
            }
        },
    }
}

fn emit_str_list(out: &mut Vec<u8>, v: &Vec<String>)
    requires
        strs_fit(strs_view(*v)),
    ensures
        final(out)@ == old(out)@ + enc_str_list(strs_view(*v)),
{
    let ghost ss = strs_view(*v);
    emit_u32(out, v.len() as u32);
    let mut i: usize = 0;
    while i < v.len()
        invariant
            i <= v@.len(),
            ss == strs_view(*v),
            strs_fit(ss),
            out@ == old(out)@ + be32_bytes(v@.len() as u32) + enc_str_items(ss.take(i as int)),
        decreases v@.len() - i,
    {
        proof {
            assert(ss[i as int] == v@[i as int]@);
        }
        emit_str(out, &v[i]);
        proof {
            assert(ss.take(i + 1) =~= ss.take(i as int).push(ss[i as int]));
            lemma_enc_str_items_snoc(ss.take(i as int), ss[i as int]);
            assert(out@ =~= old(out)@ + be32_bytes(v@.len() as u32) + enc_str_items(
                ss.take(i + 1),
            ));
        }
        i = i + 1;
    }
    proof {
        assert(ss.take(v@.len() as int) =~= ss);
        assert(out@ =~= old(out)@ + enc_str_list(ss));
    }
}

fn emit_pair_list(out: &mut Vec<u8>, v: &EnvPairs)
    requires
        pairs_fit(pairs_view(*v)),
    ensures
        final(out)@ == old(out)@ + enc_pair_list(pairs_view(*v)),
{
    let ghost ps = pairs_view(*v);
    emit_u32(out, v.len() as u32);
    let mut i: usize = 0;
    while i < v.len()
        invariant
            i <= v@.len(),
            ps == pairs_view(*v),
            pairs_fit(ps),
            out@ == old(out)@ + be32_bytes(v@.len() as u32) + enc_pair_items(ps.take(i as int)),
        decreases v@.len() - i,
    {
        proof {
            assert(ps[i as int].0 == v@[i as int].0@);
            assert(ps[i as int].1 == v@[i as int].1@);
        }
        emit_str(out, &v[i].0);
        emit_str(out, &v[i].1);
        proof {
            assert(ps.take(i + 1) =~= ps.take(i as int).push(ps[i as int]));
            lemma_enc_pair_items_snoc(ps.take(i as int), ps[i as int]);
            assert(out@ =~= old(out)@ + be32_bytes(v@.len() as u32) + enc_pair_items(
                ps.take(i + 1),
            ));
        }
        i = i + 1;
    }
    proof {
        assert(ps.take(v@.len() as int) =~= ps);
        assert(out@ =~= old(out)@ + enc_pair_list(ps));
    }
}

fn emit_info(out: &mut Vec<u8>, info: &SessionInfo)
    requires
        info_v_fits(info_view(*info)),
    ensures
        final(out)@ == old(out)@ + enc_info(info_view(*info)),
{
    emit_str(out, &info.name);
    emit_str(out, &info.command);
    emit_u32(out, info.pid);
    emit_bool(out, info.alive);
    emit_str(out, &info.created_at);
    emit_u64(out, info.uptime_secs);
    emit_str(out, &info.last_activity);
    emit_u64(out, info.idle_secs);
    proof {
        assert(out@ =~= old(out)@ + enc_info(info_view(*info)));
    }
}

fn emit_info_list(out: &mut Vec<u8>, v: &Vec<SessionInfo>)
    requires
        infos_fit(infos_view(*v)),
    ensures
        final(out)@ == old(out)@ + enc_info_list(infos_view(*v)),
{
    let ghost iv = infos_view(*v);
    emit_u32(out, v.len() as u32);
    let mut i: usize = 0;
    while i < v.len()
        invariant
            i <= v@.len(),
            iv == infos_view(*v),
            infos_fit(iv),
            out@ == old(out)@ + be32_bytes(v@.len() as u32) + enc_info_items(iv.take(i as int)),
        decreases v@.len() - i,
    {
        proof {
            assert(iv[i as int] == info_view(v@[i as int]));
        }
        emit_info(out, &v[i]);
        proof {
            assert(iv.take(i + 1) =~= iv.take(i as int).push(iv[i as int]));
            lemma_enc_info_items_snoc(iv.take(i as int), iv[i as int]);
            assert(out@ =~= old(out)@ + be32_bytes(v@.len() as u32) + enc_info_items(
                iv.take(i + 1),
            ));
        }
        i = i + 1;
    }
    proof {
        assert(iv.take(v@.len() as int) =~= iv);
        assert(out@ =~= old(out)@ + enc_info_list(iv));
    }
}

/// Encode a client message for the wire.
#[verifier::rlimit(100)]
pub fn encode_client_message(m: &ClientMessage) -> (r: Vec<u8>)
    requires
        client_v_fits(client_view(*m)),
    ensures
        r@ == enc_client(client_view(*m)),
{
    let mut out: Vec<u8> = Vec::new();
    match m {
        ClientMessage::Ping => {
            emit_u8(&mut out, 0);
        },
        ClientMessage::KillServer => {
            emit_u8(&mut out, 1);
        },
        ClientMessage::CreateSession { name, command, env } => {
            emit_u8(&mut out, 2);
            emit_opt_str(&mut out, name);
            emit_str_list(&mut out, command);
            match env {
                Option::None => {
                    emit_u8(&mut out, 0);
                },
                Option::Some(pairs) => {
                    emit_u8(&mut out, 1);
                    emit_pair_list(&mut out, pairs);
                },
            }
        },
        ClientMessage::ListSessions => {
            emit_u8(&mut out, 3);
        },
        ClientMessage::GetSessionInfo { name } => {
            emit_u8(&mut out, 4);
            emit_str(&mut out, name);
        },
        ClientMessage::KillSession { name } => {
            emit_u8(&mut out, 5);
            emit_str(&mut out, name);
        },
        ClientMessage::KillAllSessions => {
            emit_u8(&mut out, 6);
        },
        ClientMessage::Attach { name, cols, rows } => {
            emit_u8(&mut out, 7);
            emit_str(&mut out, name);
            emit_u16(&mut out, *cols);
            emit_u16(&mut out, *rows);
        },
        ClientMessage::AttachInput(data) => {
            emit_u8(&mut out, 8);
            emit_byte_str(&mut out, data.as_slice());
        },
        ClientMessage::AttachResize { cols, rows } => {
            emit_u8(&mut out, 9);
            emit_u16(&mut out, *cols);
            emit_u16(&mut out, *rows);
        },
        ClientMessage::Detach => {
            emit_u8(&mut out, 10);
        },
        ClientMessage::SendInput { name, data, newline } => {
            emit_u8(&mut out, 11);
            emit_str(&mut out, name);
            emit_byte_str(&mut out, data.as_slice());
            emit_bool(&mut out, *newline);
        },
        ClientMessage::HasSession { name } => {
            emit_u8(&mut out, 12);
            emit_str(&mut out, name);
        },
        ClientMessage::CaptureScrollback { name, lines } => {
            emit_u8(&mut out, 13);
            emit_str(&mut out, name);
            emit_u64(&mut out, *lines as u64);
        },
        ClientMessage::SetEnv { name, key, value } => {
            emit_u8(&mut out, 14);
            emit_str(&mut out, name);
            emit_str(&mut out, key);
            emit_str(&mut out, value);
        },
        ClientMessage::GetEnv { name, key } => {
            emit_u8(&mut out, 15);
            emit_str(&mut out, name);
            emit_str(&mut out, key);
        },
        ClientMessage::GetAllEnv { name } => {
            emit_u8(&mut out, 16);
            emit_str(&mut out, name);
        },
        ClientMessage::WaitSession { name, timeout_secs } => {
            emit_u8(&mut out, 17);
            emit_str(&mut out, name);
            emit_u64(&mut out, *timeout_secs);
        },
    }
    proof {
        assert(out@ =~= enc_client(client_view(*m)));
    }
    out
}

/// Encode a daemon message for the wire.
#[verifier::rlimit(100)]
pub fn encode_daemon_message(m: &DaemonMessage) -> (r: Vec<u8>)
    requires
        daemon_v_fits(daemon_view(*m)),
    ensures
        r@ == enc_daemon(daemon_view(*m)),
{
    let mut out: Vec<u8> = Vec::new();
    match m {
        DaemonMessage::Pong => {
            emit_u8(&mut out, 0);
        },
        DaemonMessage::Okay => {
            emit_u8(&mut out, 1);
        },
        DaemonMessage::Error(e) => {
            emit_u8(&mut out, 2);
            emit_str(&mut out, e);
        },
        DaemonMessage::SessionCreated { name } => {
            emit_u8(&mut out, 3);
            emit_str(&mut out, name);
        },
        DaemonMessage::SessionList(v) => {
            emit_u8(&mut out, 4);
            emit_info_list(&mut out, v);
        },
        DaemonMessage::SessionDetail(i) => {
            emit_u8(&mut out, 5);
            emit_info(&mut out, i);
        },
        DaemonMessage::Output(b) => {
            emit_u8(&mut out, 6);
            emit_byte_str(&mut out, b.as_slice());
        },
        DaemonMessage::SessionEnded => {
            emit_u8(&mut out, 7);
        },
        DaemonMessage::SessionExists(b) => {
            emit_u8(&mut out, 8);
            emit_bool(&mut out, *b);
        },
        DaemonMessage::KilledSessions { count } => {
            emit_u8(&mut out, 9);
            emit_u64(&mut out, *count as u64);
        },
        DaemonMessage::CaptureOutput(b) => {
            emit_u8(&mut out, 10);
            emit_byte_str(&mut out, b.as_slice());
        },
        DaemonMessage::InputSent => {
            emit_u8(&mut out, 11);
        },
        DaemonMessage::EnvValue(o) => {
            emit_u8(&mut out, 12);
            emit_opt_str(&mut out, o);
        },
        DaemonMessage::EnvVars(ps) => {
            emit_u8(&mut out, 13);
            emit_pair_list(&mut out, ps);
        },
        DaemonMessage::SessionExited => {
            emit_u8(&mut out, 14);
        },
    }
    proof {
        assert(out@ =~= enc_daemon(daemon_view(*m)));
    }
    out
}


// ---------------------------------------------------------------------------
// Decoding, defined on the models: each decoder reads one value at byte
// offset `i` and yields the value and the offset just past it.
// ---------------------------------------------------------------------------

pub open spec fn dec_u8(s: Seq<u8>, i: int) -> Option<(u8, int)> {
    if 0 <= i && i + 1 <= s.len() {
        Option::Some((s[i], i + 1))
    } else {
        Option::None
    }
}

pub open spec fn dec_bool(s: Seq<u8>, i: int) -> Option<(bool, int)> {
    match dec_u8(s, i) {
        Option::None => Option::None,
        Option::Some((b, j)) => if b == 0 {
            Option::Some((false, j))
        } else if b == 1 {
            Option::Some((true, j))
        } else {
            Option::None
        },
    }
}

pub open spec fn dec_u16(s: Seq<u8>, i: int) -> Option<(u16, int)> {
    if 0 <= i && i + 2 <= s.len() {
        Option::Some((be16_value(s.subrange(i, i + 2)), i + 2))
    } else {
        Option::None
    }
}

pub open spec fn dec_u32(s: Seq<u8>, i: int) -> Option<(u32, int)> {
    if 0 <= i && i + 4 <= s.len() {
        Option::Some((be32_value(s.subrange(i, i + 4)), i + 4))
    } else {
        Option::None
    }
}

pub open spec fn dec_u64(s: Seq<u8>, i: int) -> Option<(u64, int)> {
    if 0 <= i && i + 8 <= s.len() {
        Option::Some((be64_value(s.subrange(i, i + 8)), i + 8))
    } else {
        Option::None
    }
}

pub open spec fn dec_byte_str(s: Seq<u8>, i: int) -> Option<(Seq<u8>, int)> {
    match dec_u32(s, i) {
        Option::None => Option::None,
        Option::Some((n, j)) => if j + n <= s.len() {
            Option::Some((s.subrange(j, j + n), j + n))
        } else {
            Option::None
        },
    }
}

pub open spec fn dec_str(s: Seq<u8>, i: int) -> Option<(Seq<char>, int)> {
    match dec_byte_str(s, i) {
        Option::None => Option::None,
        Option::Some((b, j)) => if valid_utf8(b) {
            Option::Some((decode_utf8(b), j))
        } else {
            Option::None
        },
    }
}

pub open spec fn dec_opt_str(s: Seq<u8>, i: int) -> Option<(Option<Seq<char>>, int)> {
    match dec_u8(s, i) {
        Option::None => Option::None,
        Option::Some((t, j)) => if t == 0 {
            Option::Some((Option::None, j))
        } else if t == 1 {
            match dec_str(s, j) {
                Option::None => Option::None,
                Option::Some((v, k)) => Option::Some((Option::Some(v), k)),
            }
        } else {
            Option::None
        },
    }
}

pub open spec fn dec_str_items(s: Seq<u8>, i: int, k: nat) -> Option<(Seq<Seq<char>>, int)>
    decreases k,
{
    if k == 0 {
        Option::Some((Seq::empty(), i))
    } else {
        match dec_str(s, i) {
            Option::None => Option::None,
            Option::Some((v, j)) => match dec_str_items(s, j, (k - 1) as nat) {
                Option::None => Option::None,
                Option::Some((vs, end)) => Option::Some((seq![v] + vs, end)),
            },
        }
    }
}

pub open spec fn dec_str_list(s: Seq<u8>, i: int) -> Option<(Seq<Seq<char>>, int)> {
    match dec_u32(s, i) {
        Option::None => Option::None,
        Option::Some((n, j)) => dec_str_items(s, j, n as nat),
    }
}

pub open spec fn dec_pair_items(s: Seq<u8>, i: int, k: nat) -> Option<
    (Seq<(Seq<char>, Seq<char>)>, int),
>
    decreases k,
{
    if k == 0 {
        Option::Some((Seq::empty(), i))
    } else {
        match dec_str(s, i) {
            Option::None => Option::None,
            Option::Some((a, j)) => match dec_str(s, j) {
                Option::None => Option::None,
                Option::Some((b, j2)) => match dec_pair_items(s, j2, (k - 1) as nat) {
                    Option::None => Option::None,
                    Option::Some((ps, end)) => Option::Some((seq![(a, b)] + ps, end)),
                },
            },
        }
    }
}

pub open spec fn dec_pair_list(s: Seq<u8>, i: int) -> Option<(Seq<(Seq<char>, Seq<char>)>, int)> {
    match dec_u32(s, i) {
        Option::None => Option::None,
        Option::Some((n, j)) => dec_pair_items(s, j, n as nat),
    }
}

pub open spec fn dec_opt_pair_list(s: Seq<u8>, i: int) -> Option<
    (Option<Seq<(Seq<char>, Seq<char>)>>, int),
> {
    match dec_u8(s, i) {
        Option::None => Option::None,
        Option::Some((t, j)) => if t == 0 {
            Option::Some((Option::None, j))
        } else if t == 1 {
            match dec_pair_list(s, j) {
                Option::None => Option::None,
                Option::Some((ps, k)) => Option::Some((Option::Some(ps), k)),
            }
        } else {
            Option::None
        },
    }
}

pub open spec fn dec_info(s: Seq<u8>, i: int) -> Option<(SessionInfoV, int)> {
    match dec_str(s, i) {
        Option::None => Option::None,
        Option::Some((name, i1)) => match dec_str(s, i1) {
            Option::None => Option::None,
            Option::Some((command, i2)) => match dec_u32(s, i2) {
                Option::None => Option::None,
                Option::Some((pid, i3)) => match dec_bool(s, i3) {
                    Option::None => Option::None,
                    Option::Some((alive, i4)) => match dec_str(s, i4) {
                        Option::None => Option::None,
                        Option::Some((created_at, i5)) => match dec_u64(s, i5) {
                            Option::None => Option::None,
                            Option::Some((uptime_secs, i6)) => match dec_str(s, i6) {
                                Option::None => Option::None,
                                Option::Some((last_activity, i7)) => match dec_u64(s, i7) {
                                    Option::None => Option::None,
                                    Option::Some((idle_secs, i8)) => Option::Some(
                                        (
                                            SessionInfoV {
                                                name,
                                                command,
                                                pid,
                                                alive,
                                                created_at,
                                                uptime_secs,
                                                last_activity,
                                                idle_secs,
                                            },
                                            i8,
                                        ),
                                    ),
                                },
                            },
                        },
                    },
                },
            },
        },
    }
}

pub open spec fn dec_info_items(s: Seq<u8>, i: int, k: nat) -> Option<(Seq<SessionInfoV>, int)>
    decreases k,
{
    if k == 0 {
        Option::Some((Seq::empty(), i))
    } else {
        match dec_info(s, i) {
            Option::None => Option::None,
            Option::Some((v, j)) => match dec_info_items(s, j, (k - 1) as nat) {
                Option::None => Option::None,
                Option::Some((vs, end)) => Option::Some((seq![v] + vs, end)),
            },
        }
    }
}

pub open spec fn dec_info_list(s: Seq<u8>, i: int) -> Option<(Seq<SessionInfoV>, int)> {
    match dec_u32(s, i) {
        Option::None => Option::None,
        Option::Some((n, j)) => dec_info_items(s, j, n as nat),
    }
}

/// What one whole buffer decodes to as a client message: the tag chooses
/// the variant, the fields follow, and every byte must be consumed.
pub open spec fn dec_client(s: Seq<u8>) -> Option<ClientMsgV> {
    match dec_u8(s, 0) {
        Option::None => Option::None,
        Option::Some((tag, j)) => if tag == 0 {
            if j == s.len() {
                Option::Some(ClientMsgV::Ping)
            } else {
                Option::None
            }
        } else if tag == 1 {
            if j == s.len() {
                Option::Some(ClientMsgV::KillServer)
            } else {
                Option::None
            }
        } else if tag == 2 {
            match dec_opt_str(s, j) {
                Option::None => Option::None,
                Option::Some((name, j1)) => match dec_str_list(s, j1) {
                    Option::None => Option::None,
                    Option::Some((command, j2)) => match dec_opt_pair_list(s, j2) {
                        Option::None => Option::None,
                        Option::Some((env, j3)) => if j3 == s.len() {
                            Option::Some(ClientMsgV::CreateSession { name, command, env })
                        } else {
                            Option::None
                        },
                    },
                },
            }
        } else if tag == 3 {
            if j == s.len() {
                Option::Some(ClientMsgV::ListSessions)
            } else {
                Option::None
            }
        } else if tag == 4 {
            match dec_str(s, j) {
                Option::None => Option::None,
                Option::Some((name, j1)) => if j1 == s.len() {
                    Option::Some(ClientMsgV::GetSessionInfo { name })
                } else {
                    Option::None
                },
            }
        } else if tag == 5 {
            match dec_str(s, j) {
                Option::None => Option::None,
                Option::Some((name, j1)) => if j1 == s.len() {
                    Option::Some(ClientMsgV::KillSession { name })
                } else {
                    Option::None
                },
            }
        } else if tag == 6 {
            if j == s.len() {
                Option::Some(ClientMsgV::KillAllSessions)
            } else {
                Option::None
            }
        } else if tag == 7 {
            match dec_str(s, j) {
                Option::None => Option::None,
                Option::Some((name, j1)) => match dec_u16(s, j1) {
                    Option::None => Option::None,
                    Option::Some((cols, j2)) => match dec_u16(s, j2) {
                        Option::None => Option::None,
                        Option::Some((rows, j3)) => if j3 == s.len() {
                            Option::Some(ClientMsgV::Attach { name, cols, rows })
                        } else {
                            Option::None
                        },
                    },
                },
            }
        } else if tag == 8 {
            match dec_byte_str(s, j) {
                Option::None => Option::None,
                Option::Some((data, j1)) => if j1 == s.len() {
                    Option::Some(ClientMsgV::AttachInput(data))
                } else {
                    Option::None
                },
            }
        } else if tag == 9 {
            match dec_u16(s, j) {
                Option::None => Option::None,
                Option::Some((cols, j1)) => match dec_u16(s, j1) {
                    Option::None => Option::None,
                    Option::Some((rows, j2)) => if j2 == s.len() {
                        Option::Some(ClientMsgV::AttachResize { cols, rows })
                    } else {
                        Option::None
                    },
                },
            }
        } else if tag == 10 {
            if j == s.len() {
                Option::Some(ClientMsgV::Detach)
            } else {
                Option::None
            }
        } else if tag == 11 {
            match dec_str(s, j) {
                Option::None => Option::None,
                Option::Some((name, j1)) => match dec_byte_str(s, j1) {
                    Option::None => Option::None,
                    Option::Some((data, j2)) => match dec_bool(s, j2) {
                        Option::None => Option::None,
                        Option::Some((newline, j3)) => if j3 == s.len() {
                            Option::Some(ClientMsgV::SendInput { name, data, newline })
                        } else {
                            Option::None
                        },
                    },
                },
            }
        } else if tag == 12 {
            match dec_str(s, j) {
                Option::None => Option::None,
                Option::Some((name, j1)) => if j1 == s.len() {
                    Option::Some(ClientMsgV::HasSession { name })
                } else {
                    Option::None
                },
            }
        } else if tag == 13 {
            match dec_str(s, j) {
                Option::None => Option::None,
                Option::Some((name, j1)) => match dec_u64(s, j1) {
                    Option::None => Option::None,
                    Option::Some((lines, j2)) => if j2 == s.len() && lines <= usize::MAX as u64 {
                        Option::Some(
                            ClientMsgV::CaptureScrollback { name, lines: lines as usize },
                        )
                    } else {
                        Option::None
                    },
                },
            }
        } else if tag == 14 {
            match dec_str(s, j) {
                Option::None => Option::None,
                Option::Some((name, j1)) => match dec_str(s, j1) {
                    Option::None => Option::None,
                    Option::Some((key, j2)) => match dec_str(s, j2) {
                        Option::None => Option::None,
                        Option::Some((value, j3)) => if j3 == s.len() {
                            Option::Some(ClientMsgV::SetEnv { name, key, value })
                        } else {
                            Option::None
                        },
                    },
                },
            }
        } else if tag == 15 {
            match dec_str(s, j) {
                Option::None => Option::None,
                Option::Some((name, j1)) => match dec_str(s, j1) {
                    Option::None => Option::None,
                    Option::Some((key, j2)) => if j2 == s.len() {
                        Option::Some(ClientMsgV::GetEnv { name, key })
                    } else {
                        Option::None
                    },
                },
            }
        } else if tag == 16 {
            match dec_str(s, j) {
                Option::None => Option::None,
                Option::Some((name, j1)) => if j1 == s.len() {
                    Option::Some(ClientMsgV::GetAllEnv { name })
                } else {
                    Option::None
                },
            }
        } else if tag == 17 {
            match dec_str(s, j) {
                Option::None => Option::None,
                Option::Some((name, j1)) => match dec_u64(s, j1) {
                    Option::None => Option::None,
                    Option::Some((timeout_secs, j2)) => if j2 == s.len() {
                        Option::Some(ClientMsgV::WaitSession { name, timeout_secs })
                    } else {
                        Option::None
                    },
                },
            }
        } else {
            Option::None
        },
    }
}

/// What one whole buffer decodes to as a daemon message.
pub open spec fn dec_daemon(s: Seq<u8>) -> Option<DaemonMsgV> {
    match dec_u8(s, 0) {
        Option::None => Option::None,
        Option::Some((tag, j)) => if tag == 0 {
            if j == s.len() {
                Option::Some(DaemonMsgV::Pong)
            } else {
                Option::None
            }
        } else if tag == 1 {
            if j == s.len() {
                Option::Some(DaemonMsgV::Okay)
            } else {
                Option::None
            }
        } else if tag == 2 {
            match dec_str(s, j) {
                Option::None => Option::None,
                Option::Some((e, j1)) => if j1 == s.len() {
                    Option::Some(DaemonMsgV::Error(e))
                } else {
                    Option::None
                },
            }
        } else if tag == 3 {
            match dec_str(s, j) {
                Option::None => Option::None,
                Option::Some((name, j1)) => if j1 == s.len() {
                    Option::Some(DaemonMsgV::SessionCreated { name })
                } else {
                    Option::None
                },
            }
        } else if tag == 4 {
            match dec_info_list(s, j) {
                Option::None => Option::None,
                Option::Some((v, j1)) => if j1 == s.len() {
                    Option::Some(DaemonMsgV::SessionList(v))
                } else {
                    Option::None
                },
            }
        } else if tag == 5 {
            match dec_info(s, j) {
                Option::None => Option::None,
                Option::Some((i, j1)) => if j1 == s.len() {
                    Option::Some(DaemonMsgV::SessionDetail(i))
                } else {
                    Option::None
                },
            }
        } else if tag == 6 {
            match dec_byte_str(s, j) {
                Option::None => Option::None,
                Option::Some((b, j1)) => if j1 == s.len() {
                    Option::Some(DaemonMsgV::Output(b))
                } else {
                    Option::None
                },
            }
        } else if tag == 7 {
            if j == s.len() {
                Option::Some(DaemonMsgV::SessionEnded)
            } else {
                Option::None
            }
        } else if tag == 8 {
            match dec_bool(s, j) {
                Option::None => Option::None,
                Option::Some((b, j1)) => if j1 == s.len() {
                    Option::Some(DaemonMsgV::SessionExists(b))
                } else {
                    Option::None
                },
            }
        } else if tag == 9 {
            match dec_u64(s, j) {
                Option::None => Option::None,
                Option::Some((count, j1)) => if j1 == s.len() && count <= usize::MAX as u64 {
                    Option::Some(DaemonMsgV::KilledSessions { count: count as usize })
                } else {
                    Option::None
                },
            }
        } else if tag == 10 {
            match dec_byte_str(s, j) {
                Option::None => Option::None,
                Option::Some((b, j1)) => if j1 == s.len() {
                    Option::Some(DaemonMsgV::CaptureOutput(b))
                } else {
                    Option::None
                },
            }
        } else if tag == 11 {
            if j == s.len() {
                Option::Some(DaemonMsgV::InputSent)
            } else {
                Option::None
            }
        } else if tag == 12 {
            match dec_opt_str(s, j) {
                Option::None => Option::None,
                Option::Some((o, j1)) => if j1 == s.len() {
                    Option::Some(DaemonMsgV::EnvValue(o))
                } else {
                    Option::None
                },
            }
        } else if tag == 13 {
            match dec_pair_list(s, j) {
                Option::None => Option::None,
                Option::Some((ps, j1)) => if j1 == s.len() {
                    Option::Some(DaemonMsgV::EnvVars(ps))
                } else {
                    Option::None
                },
            }
        } else if tag == 14 {
            if j == s.len() {
                Option::Some(DaemonMsgV::SessionExited)
            } else {
                Option::None
            }
        } else {
            Option::None
        },
    }
}


// ---------------------------------------------------------------------------
// Round trip: decoding reads back exactly what encoding wrote.
// ---------------------------------------------------------------------------

/// Splitting a subrange known to hold `a + b` into the two halves.
proof fn lemma_subrange_split(s: Seq<u8>, i: int, a: Seq<u8>, b: Seq<u8>)
    requires
        0 <= i,
        i + a.len() + b.len() <= s.len(),
        s.subrange(i, i + a.len() + b.len()) == a + b,
    ensures
        s.subrange(i, i + a.len()) == a,
        s.subrange(i + a.len(), i + a.len() + b.len()) == b,
{
    let n = a.len() as int;
    let m = b.len() as int;
    let whole = s.subrange(i, i + n + m);
    assert forall|j: int| 0 <= j < n implies s.subrange(i, i + n)[j] == a[j] by {
        assert(whole[j] == (a + b)[j]);
    }
    assert(s.subrange(i, i + n) =~= a);
    assert forall|j: int| 0 <= j < m implies s.subrange(i + n, i + n + m)[j] == b[j] by {
        assert(whole[n + j] == (a + b)[n + j]);
    }
    assert(s.subrange(i + n, i + n + m) =~= b);
}

proof fn lemma_dec_u8_at(s: Seq<u8>, i: int, x: u8)
    requires
        0 <= i,
        i + 1 <= s.len(),
        s.subrange(i, i + 1) == seq![x],
    ensures
        dec_u8(s, i) == Option::Some((x, i + 1)),
{
    assert(s[i] == s.subrange(i, i + 1)[0]);
}

proof fn lemma_dec_bool_at(s: Seq<u8>, i: int, b: bool)
    requires
        0 <= i,
        i + 1 <= s.len(),
        s.subrange(i, i + 1) == enc_bool(b),
    ensures
        dec_bool(s, i) == Option::Some((b, i + 1)),
{
    lemma_dec_u8_at(s, i, if b { 1u8 } else { 0u8 });
}

proof fn lemma_dec_u16_at(s: Seq<u8>, i: int, x: u16)
    requires
        0 <= i,
        i + 2 <= s.len(),
        s.subrange(i, i + 2) == be16_bytes(x),
    ensures
        dec_u16(s, i) == Option::Some((x, i + 2)),
{
    lemma_be16_round_trip(x);
}

proof fn lemma_dec_u32_at(s: Seq<u8>, i: int, x: u32)
    requires
        0 <= i,
        i + 4 <= s.len(),
        s.subrange(i, i + 4) == be32_bytes(x),
    ensures
        dec_u32(s, i) == Option::Some((x, i + 4)),
{
    lemma_be32_round_trip(x);
}

proof fn lemma_dec_u64_at(s: Seq<u8>, i: int, x: u64)
    requires
        0 <= i,
        i + 8 <= s.len(),
        s.subrange(i, i + 8) == be64_bytes(x),
    ensures
        dec_u64(s, i) == Option::Some((x, i + 8)),
{
    lemma_be64_round_trip(x);
}

proof fn lemma_dec_byte_str_at(s: Seq<u8>, i: int, b: Seq<u8>)
    requires
        0 <= i,
        bytes_fits(b),
        i + enc_byte_str(b).len() <= s.len(),
        s.subrange(i, i + enc_byte_str(b).len()) == enc_byte_str(b),
    ensures
        enc_byte_str(b).len() == 4 + b.len(),
        dec_byte_str(s, i) == Option::Some((b, i + 4 + b.len())),
{
    lemma_subrange_split(s, i, be32_bytes(b.len() as u32), b);
    lemma_dec_u32_at(s, i, b.len() as u32);
    lemma_be32_round_trip(b.len() as u32);
}

proof fn lemma_dec_str_at(s: Seq<u8>, i: int, v: Seq<char>)
    requires
        0 <= i,
        str_fits(v),
        i + enc_str(v).len() <= s.len(),
        s.subrange(i, i + enc_str(v).len()) == enc_str(v),
    ensures
        enc_str(v).len() == 4 + encode_utf8(v).len(),
        dec_str(s, i) == Option::Some((v, i + enc_str(v).len())),
{
    assert(enc_str(v) == enc_byte_str(encode_utf8(v)));
    lemma_dec_byte_str_at(s, i, encode_utf8(v));
    vstd::utf8::encode_utf8_valid_utf8(v);
    vstd::utf8::encode_utf8_decode_utf8(v);
}

proof fn lemma_dec_opt_str_at(s: Seq<u8>, i: int, o: Option<Seq<char>>)
    requires
        0 <= i,
        (o matches Option::Some(v) ==> str_fits(v)),
        i + enc_opt_str(o).len() <= s.len(),
        s.subrange(i, i + enc_opt_str(o).len()) == enc_opt_str(o),
    ensures
        dec_opt_str(s, i) == Option::Some((o, i + enc_opt_str(o).len())),
{
    match o {
        Option::None => {
            lemma_dec_u8_at(s, i, 0);
        },
        Option::Some(v) => {
            lemma_subrange_split(s, i, seq![1u8], enc_str(v));
            lemma_dec_u8_at(s, i, 1);
            lemma_dec_str_at(s, i + 1, v);
        },
    }
}

proof fn lemma_dec_str_items_at(s: Seq<u8>, i: int, ss: Seq<Seq<char>>)
    requires
        0 <= i,
        forall|k: int| 0 <= k < ss.len() ==> str_fits(#[trigger] ss[k]),
        i + enc_str_items(ss).len() <= s.len(),
        s.subrange(i, i + enc_str_items(ss).len()) == enc_str_items(ss),
    ensures
        dec_str_items(s, i, ss.len()) == Option::Some((ss, i + enc_str_items(ss).len())),
    decreases ss.len(),
{
    if ss.len() == 0 {
        assert(dec_str_items(s, i, 0) == Option::Some((Seq::<Seq<char>>::empty(), i)));
        assert(ss =~= Seq::<Seq<char>>::empty());
    } else {
        assert(enc_str_items(ss) == enc_str(ss[0]) + enc_str_items(ss.skip(1)));
        lemma_subrange_split(s, i, enc_str(ss[0]), enc_str_items(ss.skip(1)));
        lemma_dec_str_at(s, i, ss[0]);
        let j = i + enc_str(ss[0]).len();
        lemma_dec_str_items_at(s, j, ss.skip(1));
        assert(seq![ss[0]] + ss.skip(1) =~= ss);
    }
}

proof fn lemma_dec_str_list_at(s: Seq<u8>, i: int, ss: Seq<Seq<char>>)
    requires
        0 <= i,
        strs_fit(ss),
        i + enc_str_list(ss).len() <= s.len(),
        s.subrange(i, i + enc_str_list(ss).len()) == enc_str_list(ss),
    ensures
        dec_str_list(s, i) == Option::Some((ss, i + enc_str_list(ss).len())),
{
    lemma_subrange_split(s, i, be32_bytes(ss.len() as u32), enc_str_items(ss));
    lemma_dec_u32_at(s, i, ss.len() as u32);
    lemma_be32_round_trip(ss.len() as u32);
    lemma_dec_str_items_at(s, i + 4, ss);
}

proof fn lemma_dec_pair_items_at(s: Seq<u8>, i: int, ps: Seq<(Seq<char>, Seq<char>)>)
    requires
        0 <= i,
        forall|k: int|
            0 <= k < ps.len() ==> str_fits(#[trigger] ps[k].0) && str_fits(ps[k].1),
        i + enc_pair_items(ps).len() <= s.len(),
        s.subrange(i, i + enc_pair_items(ps).len()) == enc_pair_items(ps),
    ensures
        dec_pair_items(s, i, ps.len()) == Option::Some((ps, i + enc_pair_items(ps).len())),
    decreases ps.len(),
{
    if ps.len() == 0 {
        assert(ps =~= Seq::<(Seq<char>, Seq<char>)>::empty());
    } else {
        assert(enc_pair_items(ps) == enc_str(ps[0].0) + enc_str(ps[0].1) + enc_pair_items(
            ps.skip(1),
        ));
        assert(enc_str(ps[0].0) + enc_str(ps[0].1) + enc_pair_items(ps.skip(1)) =~= enc_str(
            ps[0].0,
        ) + (enc_str(ps[0].1) + enc_pair_items(ps.skip(1))));
        lemma_subrange_split(s, i, enc_str(ps[0].0), enc_str(ps[0].1) + enc_pair_items(ps.skip(1)));
        lemma_dec_str_at(s, i, ps[0].0);
        let j = i + enc_str(ps[0].0).len();
        lemma_subrange_split(s, j, enc_str(ps[0].1), enc_pair_items(ps.skip(1)));
        lemma_dec_str_at(s, j, ps[0].1);
        let j2 = j + enc_str(ps[0].1).len();
        lemma_dec_pair_items_at(s, j2, ps.skip(1));
        assert(seq![(ps[0].0, ps[0].1)] + ps.skip(1) =~= ps);
    }
}

proof fn lemma_dec_pair_list_at(s: Seq<u8>, i: int, ps: Seq<(Seq<char>, Seq<char>)>)
    requires
        0 <= i,
        pairs_fit(ps),
        i + enc_pair_list(ps).len() <= s.len(),
        s.subrange(i, i + enc_pair_list(ps).len()) == enc_pair_list(ps),
    ensures
        dec_pair_list(s, i) == Option::Some((ps, i + enc_pair_list(ps).len())),
{
    lemma_subrange_split(s, i, be32_bytes(ps.len() as u32), enc_pair_items(ps));
    lemma_dec_u32_at(s, i, ps.len() as u32);
    lemma_be32_round_trip(ps.len() as u32);
    lemma_dec_pair_items_at(s, i + 4, ps);
}

proof fn lemma_dec_opt_pair_list_at(s: Seq<u8>, i: int, o: Option<Seq<(Seq<char>, Seq<char>)>>)
    requires
        0 <= i,
        (o matches Option::Some(ps) ==> pairs_fit(ps)),
        i + enc_opt_pair_list(o).len() <= s.len(),
        s.subrange(i, i + enc_opt_pair_list(o).len()) == enc_opt_pair_list(o),
    ensures
        dec_opt_pair_list(s, i) == Option::Some((o, i + enc_opt_pair_list(o).len())),
{
    match o {
        Option::None => {
            lemma_dec_u8_at(s, i, 0);
        },
        Option::Some(ps) => {
            lemma_subrange_split(s, i, seq![1u8], enc_pair_list(ps));
            lemma_dec_u8_at(s, i, 1);
            lemma_dec_pair_list_at(s, i + 1, ps);
        },
    }
}

#[verifier::rlimit(50)]
proof fn lemma_dec_info_at(s: Seq<u8>, i: int, v: SessionInfoV)
    requires
        0 <= i,
        info_v_fits(v),
        i + enc_info(v).len() <= s.len(),
        s.subrange(i, i + enc_info(v).len()) == enc_info(v),
    ensures
        dec_info(s, i) == Option::Some((v, i + enc_info(v).len())),
{
    let p1 = enc_str(v.name);
    let p2 = enc_str(v.command);
    let p3 = be32_bytes(v.pid);
    let p4 = enc_bool(v.alive);
    let p5 = enc_str(v.created_at);
    let p6 = be64_bytes(v.uptime_secs);
    let p7 = enc_str(v.last_activity);
    let p8 = be64_bytes(v.idle_secs);
    assert(enc_info(v) =~= p1 + (p2 + (p3 + (p4 + (p5 + (p6 + (p7 + p8)))))));
    lemma_subrange_split(s, i, p1, p2 + (p3 + (p4 + (p5 + (p6 + (p7 + p8))))));
    lemma_dec_str_at(s, i, v.name);
    let i1 = i + p1.len();
    lemma_subrange_split(s, i1, p2, p3 + (p4 + (p5 + (p6 + (p7 + p8)))));
    lemma_dec_str_at(s, i1, v.command);
    let i2 = i1 + p2.len();
    lemma_subrange_split(s, i2, p3, p4 + (p5 + (p6 + (p7 + p8))));
    lemma_dec_u32_at(s, i2, v.pid);
    let i3 = i2 + p3.len();
    lemma_subrange_split(s, i3, p4, p5 + (p6 + (p7 + p8)));
    lemma_dec_bool_at(s, i3, v.alive);
    let i4 = i3 + p4.len();
    lemma_subrange_split(s, i4, p5, p6 + (p7 + p8));
    lemma_dec_str_at(s, i4, v.created_at);
    let i5 = i4 + p5.len();
    lemma_subrange_split(s, i5, p6, p7 + p8);
    lemma_dec_u64_at(s, i5, v.uptime_secs);
    let i6 = i5 + p6.len();
    lemma_subrange_split(s, i6, p7, p8);
    lemma_dec_str_at(s, i6, v.last_activity);
    let i7 = i6 + p7.len();
    lemma_dec_u64_at(s, i7, v.idle_secs);
}

#[verifier::rlimit(100)]
proof fn lemma_dec_info_items_at(s: Seq<u8>, i: int, vs: Seq<SessionInfoV>)
    requires
        0 <= i,
        forall|k: int| 0 <= k < vs.len() ==> info_v_fits(#[trigger] vs[k]),
        i + enc_info_items(vs).len() <= s.len(),
        s.subrange(i, i + enc_info_items(vs).len()) == enc_info_items(vs),
    ensures
        dec_info_items(s, i, vs.len()) == Option::Some((vs, i + enc_info_items(vs).len())),
    decreases vs.len(),
{
    if vs.len() == 0 {
        assert(vs =~= Seq::<SessionInfoV>::empty());
    } else {
        assert(enc_info_items(vs) == enc_info(vs[0]) + enc_info_items(vs.skip(1)));
        lemma_subrange_split(s, i, enc_info(vs[0]), enc_info_items(vs.skip(1)));
        lemma_dec_info_at(s, i, vs[0]);
        let j = i + enc_info(vs[0]).len();
        lemma_dec_info_items_at(s, j, vs.skip(1));
        assert(seq![vs[0]] + vs.skip(1) =~= vs);
    }
}

proof fn lemma_dec_info_list_at(s: Seq<u8>, i: int, vs: Seq<SessionInfoV>)
    requires
        0 <= i,
        infos_fit(vs),
        i + enc_info_list(vs).len() <= s.len(),
        s.subrange(i, i + enc_info_list(vs).len()) == enc_info_list(vs),
    ensures
        dec_info_list(s, i) == Option::Some((vs, i + enc_info_list(vs).len())),
{
    lemma_subrange_split(s, i, be32_bytes(vs.len() as u32), enc_info_items(vs));
    lemma_dec_u32_at(s, i, vs.len() as u32);
    lemma_be32_round_trip(vs.len() as u32);
    lemma_dec_info_items_at(s, i + 4, vs);
}

#[verifier::rlimit(100)]
proof fn rt_client_createsession(v: ClientMsgV)
    requires
        client_v_fits(v),
        v matches ClientMsgV::CreateSession{ .. },
    ensures
        dec_client(enc_client(v)) == Option::Some(v),
{
    let s = enc_client(v);
    let tag = client_tag(v);
    assert(s.subrange(0, 1) =~= seq![tag]);
    lemma_dec_u8_at(s, 0, tag);
    match v {
        ClientMsgV::CreateSession { name, command, env } => {
            let p1 = enc_opt_str(name);
            let p2 = enc_str_list(command);
            let p3 = enc_opt_pair_list(env);
            assert(s.subrange(1, s.len() as int) =~= p1 + (p2 + p3));
            lemma_subrange_split(s, 1, p1, p2 + p3);
            lemma_dec_opt_str_at(s, 1, name);
            let j1: int = 1 + p1.len() as int;
            lemma_subrange_split(s, j1, p2, p3);
            lemma_dec_str_list_at(s, j1, command);
            let j2: int = j1 + p2.len() as int;
            lemma_dec_opt_pair_list_at(s, j2, env);
        },
        _ => {},
    }
}

#[verifier::rlimit(100)]
proof fn rt_client_getsessioninfo(v: ClientMsgV)
    requires
        client_v_fits(v),
        v matches ClientMsgV::GetSessionInfo{ .. },
    ensures
        dec_client(enc_client(v)) == Option::Some(v),
{
    let s = enc_client(v);
    let tag = client_tag(v);
    assert(s.subrange(0, 1) =~= seq![tag]);
    lemma_dec_u8_at(s, 0, tag);
    match v {
        ClientMsgV::GetSessionInfo { name } => {
            assert(s.subrange(1, s.len() as int) =~= enc_str(name));
            lemma_dec_str_at(s, 1, name);
        },
        _ => {},
    }
}

#[verifier::rlimit(100)]
proof fn rt_client_killsession(v: ClientMsgV)
    requires
        client_v_fits(v),
        v matches ClientMsgV::KillSession{ .. },
    ensures
        dec_client(enc_client(v)) == Option::Some(v),
{
    let s = enc_client(v);
    let tag = client_tag(v);
    assert(s.subrange(0, 1) =~= seq![tag]);
    lemma_dec_u8_at(s, 0, tag);
    match v {
        ClientMsgV::KillSession { name } => {
            assert(s.subrange(1, s.len() as int) =~= enc_str(name));
            lemma_dec_str_at(s, 1, name);
        },
        _ => {},
    }
}

#[verifier::rlimit(100)]
proof fn rt_client_attach(v: ClientMsgV)
    requires
        client_v_fits(v),
        v matches ClientMsgV::Attach{ .. },
    ensures
        dec_client(enc_client(v)) == Option::Some(v),
{
    let s = enc_client(v);
    let tag = client_tag(v);
    assert(s.subrange(0, 1) =~= seq![tag]);
    lemma_dec_u8_at(s, 0, tag);
    match v {
        ClientMsgV::Attach { name, cols, rows } => {
            let p1 = enc_str(name);
            let p2 = be16_bytes(cols);
            let p3 = be16_bytes(rows);
            assert(s.subrange(1, s.len() as int) =~= p1 + (p2 + p3));
            lemma_subrange_split(s, 1, p1, p2 + p3);
            lemma_dec_str_at(s, 1, name);
            let j1: int = 1 + p1.len() as int;
            lemma_subrange_split(s, j1, p2, p3);
            lemma_dec_u16_at(s, j1, cols);
            lemma_dec_u16_at(s, j1 + 2, rows);
        },
        _ => {},
    }
}

#[verifier::rlimit(100)]
proof fn rt_client_attachinput(v: ClientMsgV)
    requires
        client_v_fits(v),
        v matches ClientMsgV::AttachInput(..),
    ensures
        dec_client(enc_client(v)) == Option::Some(v),
{
    let s = enc_client(v);
    let tag = client_tag(v);
    assert(s.subrange(0, 1) =~= seq![tag]);
    lemma_dec_u8_at(s, 0, tag);
    match v {
        ClientMsgV::AttachInput(data) => {
            assert(s.subrange(1, s.len() as int) =~= enc_byte_str(data));
            lemma_dec_byte_str_at(s, 1, data);
        },
        _ => {},
    }
}

#[verifier::rlimit(100)]
proof fn rt_client_attachresize(v: ClientMsgV)
    requires
        client_v_fits(v),
        v matches ClientMsgV::AttachResize{ .. },
    ensures
        dec_client(enc_client(v)) == Option::Some(v),
{
    let s = enc_client(v);
    let tag = client_tag(v);
    assert(s.subrange(0, 1) =~= seq![tag]);
    lemma_dec_u8_at(s, 0, tag);
    match v {
        ClientMsgV::AttachResize { cols, rows } => {
            let p1 = be16_bytes(cols);
            let p2 = be16_bytes(rows);
            assert(s.subrange(1, s.len() as int) =~= p1 + p2);
            lemma_subrange_split(s, 1, p1, p2);
            lemma_dec_u16_at(s, 1, cols);
            lemma_dec_u16_at(s, 3, rows);
        },
        _ => {},
    }
}

#[verifier::rlimit(100)]
proof fn rt_client_sendinput(v: ClientMsgV)
    requires
        client_v_fits(v),
        v matches ClientMsgV::SendInput{ .. },
    ensures
        dec_client(enc_client(v)) == Option::Some(v),
{
    let s = enc_client(v);
    let tag = client_tag(v);
    assert(s.subrange(0, 1) =~= seq![tag]);
    lemma_dec_u8_at(s, 0, tag);
    match v {
        ClientMsgV::SendInput { name, data, newline } => {
            let p1 = enc_str(name);
            let p2 = enc_byte_str(data);
            let p3 = enc_bool(newline);
            assert(s.subrange(1, s.len() as int) =~= p1 + (p2 + p3));
            lemma_subrange_split(s, 1, p1, p2 + p3);
            lemma_dec_str_at(s, 1, name);
            let j1: int = 1 + p1.len() as int;
            lemma_subrange_split(s, j1, p2, p3);
            lemma_dec_byte_str_at(s, j1, data);
            let j2: int = j1 + p2.len() as int;
            lemma_dec_bool_at(s, j2, newline);
        },
        _ => {},
    }
}

#[verifier::rlimit(100)]
proof fn rt_client_hassession(v: ClientMsgV)
    requires
        client_v_fits(v),
        v matches ClientMsgV::HasSession{ .. },
    ensures
        dec_client(enc_client(v)) == Option::Some(v),
{
    let s = enc_client(v);
    let tag = client_tag(v);
    assert(s.subrange(0, 1) =~= seq![tag]);
    lemma_dec_u8_at(s, 0, tag);
    match v {
        ClientMsgV::HasSession { name } => {
            assert(s.subrange(1, s.len() as int) =~= enc_str(name));
            lemma_dec_str_at(s, 1, name);
        },
        _ => {},
    }
}

#[verifier::rlimit(100)]
proof fn rt_client_capturescrollback(v: ClientMsgV)
    requires
        client_v_fits(v),
        v matches ClientMsgV::CaptureScrollback{ .. },
    ensures
        dec_client(enc_client(v)) == Option::Some(v),
{
    let s = enc_client(v);
    let tag = client_tag(v);
    assert(s.subrange(0, 1) =~= seq![tag]);
    lemma_dec_u8_at(s, 0, tag);
    match v {
        ClientMsgV::CaptureScrollback { name, lines } => {
            let p1 = enc_str(name);
            let p2 = be64_bytes(lines as u64);
            assert(s.subrange(1, s.len() as int) =~= p1 + p2);
            lemma_subrange_split(s, 1, p1, p2);
            lemma_dec_str_at(s, 1, name);
            lemma_dec_u64_at(s, 1 + p1.len() as int, lines as u64);
        },
        _ => {},
    }
}

#[verifier::rlimit(100)]
proof fn rt_client_setenv(v: ClientMsgV)
    requires
        client_v_fits(v),
        v matches ClientMsgV::SetEnv{ .. },
    ensures
        dec_client(enc_client(v)) == Option::Some(v),
{
    let s = enc_client(v);
    let tag = client_tag(v);
    assert(s.subrange(0, 1) =~= seq![tag]);
    lemma_dec_u8_at(s, 0, tag);
    match v {
        ClientMsgV::SetEnv { name, key, value } => {
            let p1 = enc_str(name);
            let p2 = enc_str(key);
            let p3 = enc_str(value);
            assert(s.subrange(1, s.len() as int) =~= p1 + (p2 + p3));
            lemma_subrange_split(s, 1, p1, p2 + p3);
            lemma_dec_str_at(s, 1, name);
            let j1: int = 1 + p1.len() as int;
            lemma_subrange_split(s, j1, p2, p3);
            lemma_dec_str_at(s, j1, key);
            let j2: int = j1 + p2.len() as int;
            lemma_dec_str_at(s, j2, value);
        },
        _ => {},
    }
}

#[verifier::rlimit(100)]
proof fn rt_client_getenv(v: ClientMsgV)
    requires
        client_v_fits(v),
        v matches ClientMsgV::GetEnv{ .. },
    ensures
        dec_client(enc_client(v)) == Option::Some(v),
{
    let s = enc_client(v);
    let tag = client_tag(v);
    assert(s.subrange(0, 1) =~= seq![tag]);
    lemma_dec_u8_at(s, 0, tag);
    match v {
        ClientMsgV::GetEnv { name, key } => {
            let p1 = enc_str(name);
            let p2 = enc_str(key);
            assert(s.subrange(1, s.len() as int) =~= p1 + p2);
            lemma_subrange_split(s, 1, p1, p2);
            lemma_dec_str_at(s, 1, name);
            lemma_dec_str_at(s, 1 + p1.len() as int, key);
        },
        _ => {},
    }
}

#[verifier::rlimit(100)]
proof fn rt_client_getallenv(v: ClientMsgV)
    requires
        client_v_fits(v),
        v matches ClientMsgV::GetAllEnv{ .. },
    ensures
        dec_client(enc_client(v)) == Option::Some(v),
{
    let s = enc_client(v);
    let tag = client_tag(v);
    assert(s.subrange(0, 1) =~= seq![tag]);
    lemma_dec_u8_at(s, 0, tag);
    match v {
        ClientMsgV::GetAllEnv { name } => {
            assert(s.subrange(1, s.len() as int) =~= enc_str(name));
            lemma_dec_str_at(s, 1, name);
        },
        _ => {},
    }
}

#[verifier::rlimit(100)]
proof fn rt_client_waitsession(v: ClientMsgV)
    requires
        client_v_fits(v),
        v matches ClientMsgV::WaitSession{ .. },
    ensures
        dec_client(enc_client(v)) == Option::Some(v),
{
    let s = enc_client(v);
    let tag = client_tag(v);
    assert(s.subrange(0, 1) =~= seq![tag]);
    lemma_dec_u8_at(s, 0, tag);
    match v {
        ClientMsgV::WaitSession { name, timeout_secs } => {
            let p1 = enc_str(name);
            let p2 = be64_bytes(timeout_secs);
            assert(s.subrange(1, s.len() as int) =~= p1 + p2);
            lemma_subrange_split(s, 1, p1, p2);
            lemma_dec_str_at(s, 1, name);
            lemma_dec_u64_at(s, 1 + p1.len() as int, timeout_secs);
        },
        _ => {},
    }
}

#[verifier::rlimit(100)]
proof fn rt_daemon_error(v: DaemonMsgV)
    requires
        daemon_v_fits(v),
        v matches DaemonMsgV::Error(..),
    ensures
        dec_daemon(enc_daemon(v)) == Option::Some(v),
{
    let s = enc_daemon(v);
    let tag = daemon_tag(v);
    assert(s.subrange(0, 1) =~= seq![tag]);
    lemma_dec_u8_at(s, 0, tag);
    match v {
        DaemonMsgV::Error(e) => {
            assert(s.subrange(1, s.len() as int) =~= enc_str(e));
            lemma_dec_str_at(s, 1, e);
        },
        _ => {},
    }
}

#[verifier::rlimit(100)]
proof fn rt_daemon_sessioncreated(v: DaemonMsgV)
    requires
        daemon_v_fits(v),
        v matches DaemonMsgV::SessionCreated{ .. },
    ensures
        dec_daemon(enc_daemon(v)) == Option::Some(v),
{
    let s = enc_daemon(v);
    let tag = daemon_tag(v);
    assert(s.subrange(0, 1) =~= seq![tag]);
    lemma_dec_u8_at(s, 0, tag);
    match v {
        DaemonMsgV::SessionCreated { name } => {
            assert(s.subrange(1, s.len() as int) =~= enc_str(name));
            lemma_dec_str_at(s, 1, name);
        },
        _ => {},
    }
}

#[verifier::rlimit(100)]
proof fn rt_daemon_sessionlist(v: DaemonMsgV)
    requires
        daemon_v_fits(v),
        v matches DaemonMsgV::SessionList(..),
    ensures
        dec_daemon(enc_daemon(v)) == Option::Some(v),
{
    let s = enc_daemon(v);
    let tag = daemon_tag(v);
    assert(s.subrange(0, 1) =~= seq![tag]);
    lemma_dec_u8_at(s, 0, tag);
    match v {
        DaemonMsgV::SessionList(vs) => {
            assert(s.subrange(1, s.len() as int) =~= enc_info_list(vs));
            lemma_dec_info_list_at(s, 1, vs);
        },
        _ => {},
    }
}

#[verifier::rlimit(100)]
proof fn rt_daemon_sessiondetail(v: DaemonMsgV)
    requires
        daemon_v_fits(v),
        v matches DaemonMsgV::SessionDetail(..),
    ensures
        dec_daemon(enc_daemon(v)) == Option::Some(v),
{
    let s = enc_daemon(v);
    let tag = daemon_tag(v);
    assert(s.subrange(0, 1) =~= seq![tag]);
    lemma_dec_u8_at(s, 0, tag);
    match v {
        DaemonMsgV::SessionDetail(i) => {
            assert(s.subrange(1, s.len() as int) =~= enc_info(i));
            lemma_dec_info_at(s, 1, i);
        },
        _ => {},
    }
}

#[verifier::rlimit(100)]
proof fn rt_daemon_output(v: DaemonMsgV)
    requires
        daemon_v_fits(v),
        v matches DaemonMsgV::Output(..),
    ensures
        dec_daemon(enc_daemon(v)) == Option::Some(v),
{
    let s = enc_daemon(v);
    let tag = daemon_tag(v);
    assert(s.subrange(0, 1) =~= seq![tag]);
    lemma_dec_u8_at(s, 0, tag);
    match v {
        DaemonMsgV::Output(b) => {
            assert(s.subrange(1, s.len() as int) =~= enc_byte_str(b));
            lemma_dec_byte_str_at(s, 1, b);
        },
        _ => {},
    }
}

#[verifier::rlimit(100)]
proof fn rt_daemon_sessionexists(v: DaemonMsgV)
    requires
        daemon_v_fits(v),
        v matches DaemonMsgV::SessionExists(..),
    ensures
        dec_daemon(enc_daemon(v)) == Option::Some(v),
{
    let s = enc_daemon(v);
    let tag = daemon_tag(v);
    assert(s.subrange(0, 1) =~= seq![tag]);
    lemma_dec_u8_at(s, 0, tag);
    match v {
        DaemonMsgV::SessionExists(b) => {
            assert(s.subrange(1, s.len() as int) =~= enc_bool(b));
            lemma_dec_bool_at(s, 1, b);
        },
        _ => {},
    }
}

#[verifier::rlimit(100)]
proof fn rt_daemon_killedsessions(v: DaemonMsgV)
    requires
        daemon_v_fits(v),
        v matches DaemonMsgV::KilledSessions{ .. },
    ensures
        dec_daemon(enc_daemon(v)) == Option::Some(v),
{
    let s = enc_daemon(v);
    let tag = daemon_tag(v);
    assert(s.subrange(0, 1) =~= seq![tag]);
    lemma_dec_u8_at(s, 0, tag);
    match v {
        DaemonMsgV::KilledSessions { count } => {
            assert(s.subrange(1, s.len() as int) =~= be64_bytes(count as u64));
            lemma_dec_u64_at(s, 1, count as u64);
        },
        _ => {},
    }
}

#[verifier::rlimit(100)]
proof fn rt_daemon_captureoutput(v: DaemonMsgV)
    requires
        daemon_v_fits(v),
        v matches DaemonMsgV::CaptureOutput(..),
    ensures
        dec_daemon(enc_daemon(v)) == Option::Some(v),
{
    let s = enc_daemon(v);
    let tag = daemon_tag(v);
    assert(s.subrange(0, 1) =~= seq![tag]);
    lemma_dec_u8_at(s, 0, tag);
    match v {
        DaemonMsgV::CaptureOutput(b) => {
            assert(s.subrange(1, s.len() as int) =~= enc_byte_str(b));
            lemma_dec_byte_str_at(s, 1, b);
        },
        _ => {},
    }
}

#[verifier::rlimit(100)]
proof fn rt_daemon_envvalue(v: DaemonMsgV)
    requires
        daemon_v_fits(v),
        v matches DaemonMsgV::EnvValue(..),
    ensures
        dec_daemon(enc_daemon(v)) == Option::Some(v),
{
    let s = enc_daemon(v);
    let tag = daemon_tag(v);
    assert(s.subrange(0, 1) =~= seq![tag]);
    lemma_dec_u8_at(s, 0, tag);
    match v {
        DaemonMsgV::EnvValue(o) => {
            assert(s.subrange(1, s.len() as int) =~= enc_opt_str(o));
            lemma_dec_opt_str_at(s, 1, o);
        },
        _ => {},
    }
}

#[verifier::rlimit(100)]
proof fn rt_daemon_envvars(v: DaemonMsgV)
    requires
        daemon_v_fits(v),
        v matches DaemonMsgV::EnvVars(..),
    ensures
        dec_daemon(enc_daemon(v)) == Option::Some(v),
{
    let s = enc_daemon(v);
    let tag = daemon_tag(v);
    assert(s.subrange(0, 1) =~= seq![tag]);
    lemma_dec_u8_at(s, 0, tag);
    match v {
        DaemonMsgV::EnvVars(ps) => {
            assert(s.subrange(1, s.len() as int) =~= enc_pair_list(ps));
            lemma_dec_pair_list_at(s, 1, ps);
        },
        _ => {},
    }
}

/// Every client message decodes back to itself: the round-trip law of the
/// wire format, for each variant and all field values within size bounds.
pub proof fn lemma_client_round_trip(v: ClientMsgV)
    requires
        client_v_fits(v),
    ensures
        dec_client(enc_client(v)) == Option::Some(v),
{
    let s = enc_client(v);
    let tag = client_tag(v);
    assert(s.subrange(0, 1) =~= seq![tag]);
    lemma_dec_u8_at(s, 0, tag);
    match v {
        ClientMsgV::Ping => {},
        ClientMsgV::KillServer => {},
        ClientMsgV::ListSessions => {},
        ClientMsgV::KillAllSessions => {},
        ClientMsgV::Detach => {},
        ClientMsgV::CreateSession { .. } => {
            rt_client_createsession(v);
        },
        ClientMsgV::GetSessionInfo { .. } => {
            rt_client_getsessioninfo(v);
        },
        ClientMsgV::KillSession { .. } => {
            rt_client_killsession(v);
        },
        ClientMsgV::Attach { .. } => {
            rt_client_attach(v);
        },
        ClientMsgV::AttachInput(..) => {
            rt_client_attachinput(v);
        },
        ClientMsgV::AttachResize { .. } => {
            rt_client_attachresize(v);
        },
        ClientMsgV::SendInput { .. } => {
            rt_client_sendinput(v);
        },
        ClientMsgV::HasSession { .. } => {
            rt_client_hassession(v);
        },
        ClientMsgV::CaptureScrollback { .. } => {
            rt_client_capturescrollback(v);
        },
        ClientMsgV::SetEnv { .. } => {
            rt_client_setenv(v);
        },
        ClientMsgV::GetEnv { .. } => {
            rt_client_getenv(v);
        },
        ClientMsgV::GetAllEnv { .. } => {
            rt_client_getallenv(v);
        },
        ClientMsgV::WaitSession { .. } => {
            rt_client_waitsession(v);
        },
    }
}

/// Every daemon message decodes back to itself.
pub proof fn lemma_daemon_round_trip(v: DaemonMsgV)
    requires
        daemon_v_fits(v),
    ensures
        dec_daemon(enc_daemon(v)) == Option::Some(v),
{
    let s = enc_daemon(v);
    let tag = daemon_tag(v);
    assert(s.subrange(0, 1) =~= seq![tag]);
    lemma_dec_u8_at(s, 0, tag);
    match v {
        DaemonMsgV::Pong => {},
        DaemonMsgV::Okay => {},
        DaemonMsgV::SessionEnded => {},
        DaemonMsgV::InputSent => {},
        DaemonMsgV::SessionExited => {},
        DaemonMsgV::Error(..) => {
            rt_daemon_error(v);
        },
        DaemonMsgV::SessionCreated { .. } => {
            rt_daemon_sessioncreated(v);
        },
        DaemonMsgV::SessionList(..) => {
            rt_daemon_sessionlist(v);
        },
        DaemonMsgV::SessionDetail(..) => {
            rt_daemon_sessiondetail(v);
        },
        DaemonMsgV::Output(..) => {
            rt_daemon_output(v);
        },
        DaemonMsgV::SessionExists(..) => {
            rt_daemon_sessionexists(v);
        },
        DaemonMsgV::KilledSessions { .. } => {
            rt_daemon_killedsessions(v);
        },
        DaemonMsgV::CaptureOutput(..) => {
            rt_daemon_captureoutput(v);
        },
        DaemonMsgV::EnvValue(..) => {
            rt_daemon_envvalue(v);
        },
        DaemonMsgV::EnvVars(..) => {
            rt_daemon_envvars(v);
        },
    }
}


// ---------------------------------------------------------------------------
// Executable decoders.
// ---------------------------------------------------------------------------

/// Why a payload failed to decode as a message.
#[derive(Clone, Copy, Debug, PartialEq, Eq, Structural)]
pub enum DecodeError {
    Malformed,
}

/// Relies on `String::from_utf8`: it succeeds exactly on valid UTF-8 and
/// yields the characters that the bytes encode.
#[verifier::external_body]
pub(crate) fn bytes_to_string(bytes: Vec<u8>) -> (r: Option<String>)
    ensures
        r is Some <==> valid_utf8(bytes@),
        (r matches Some(s) ==> s@ == decode_utf8(bytes@)),
{
    match String::from_utf8(bytes) {
        Ok(s) => Some(s),
        Err(_) => None,
    }
}

fn read_u8(s: &[u8], i: usize) -> (r: Result<(u8, usize), DecodeError>)
    ensures
        ({
            match dec_u8(s@, i as int) {
                Option::Some((v, j)) => r matches Ok((rv, rj)) && rv == v && rj == j,
                Option::None => r matches Err(_),
            }
        }),
{
    if i < s.len() {
        Ok((*vstd::slice::slice_index_get(s, i), i + 1))
    } else {
        Err(DecodeError::Malformed)
    }
}

fn read_bool(s: &[u8], i: usize) -> (r: Result<(bool, usize), DecodeError>)
    ensures
        ({
            match dec_bool(s@, i as int) {
                Option::Some((v, j)) => r matches Ok((rv, rj)) && rv == v && rj == j,
                Option::None => r matches Err(_),
            }
        }),
{
    match read_u8(s, i) {
        Ok((b, j)) => {
            if b == 0 {
                Ok((false, j))
            } else if b == 1 {
                Ok((true, j))
            } else {
                Err(DecodeError::Malformed)
            }
        },
        Err(e) => Err(e),
    }
}

fn read_u16(s: &[u8], i: usize) -> (r: Result<(u16, usize), DecodeError>)
    ensures
        ({
            match dec_u16(s@, i as int) {
                Option::Some((v, j)) => r matches Ok((rv, rj)) && rv == v && rj == j,
                Option::None => r matches Err(_),
            }
        }),
{
    if i <= s.len() && s.len() - i >= 2 {
        Ok((u16_from_be(s, i), i + 2))
    } else {
        Err(DecodeError::Malformed)
    }
}

fn read_u32(s: &[u8], i: usize) -> (r: Result<(u32, usize), DecodeError>)
    ensures
        ({
            match dec_u32(s@, i as int) {
                Option::Some((v, j)) => r matches Ok((rv, rj)) && rv == v && rj == j,
                Option::None => r matches Err(_),
            }
        }),
{
    if i <= s.len() && s.len() - i >= 4 {
        Ok((u32_from_be(s, i), i + 4))
    } else {
        Err(DecodeError::Malformed)
    }
}

fn read_u64(s: &[u8], i: usize) -> (r: Result<(u64, usize), DecodeError>)
    ensures
        ({
            match dec_u64(s@, i as int) {
                Option::Some((v, j)) => r matches Ok((rv, rj)) && rv == v && rj == j,
                Option::None => r matches Err(_),
            }
        }),
{
    if i <= s.len() && s.len() - i >= 8 {
        Ok((u64_from_be(s, i), i + 8))
    } else {
        Err(DecodeError::Malformed)
    }
}

fn read_byte_str(s: &[u8], i: usize) -> (r: Result<(Vec<u8>, usize), DecodeError>)
    ensures
        ({
            match dec_byte_str(s@, i as int) {
                Option::Some((v, j)) => r matches Ok((rv, rj)) && rv@ == v && rj == j,
                Option::None => r matches Err(_),
            }
        }),
{
    match read_u32(s, i) {
        Ok((n32, j)) => {
            let n = n32 as usize;
            if s.len() - j >= n {
                let sub = vstd::slice::slice_subrange(s, j, j + n);
                let v = vstd::slice::slice_to_vec(sub);
                Ok((v, j + n))
            } else {
                Err(DecodeError::Malformed)
            }
        },
        Err(e) => Err(e),
    }
}

fn read_str(s: &[u8], i: usize) -> (r: Result<(String, usize), DecodeError>)
    ensures
        ({
            match dec_str(s@, i as int) {
                Option::Some((v, j)) => r matches Ok((rv, rj)) && rv@ == v && rj == j,
                Option::None => r matches Err(_),
            }
        }),
{
    match read_byte_str(s, i) {
        Ok((bytes, j)) => {
            match bytes_to_string(bytes) {
                Some(st) => Ok((st, j)),
                None => Err(DecodeError::Malformed),
            }
        },
        Err(e) => Err(e),
    }
}

fn read_opt_str(s: &[u8], i: usize) -> (r: Result<(Option<String>, usize), DecodeError>)
    ensures
        ({
            match dec_opt_str(s@, i as int) {
                Option::Some((v, j)) => r matches Ok((rv, rj)) && opt_str_view(rv) == v && rj
                    == j,
                Option::None => r matches Err(_),
            }
        }),
{
    match read_u8(s, i) {
        Ok((t, j)) => {
            if t == 0 {
                Ok((None, j))
            } else if t == 1 {
                match read_str(s, j) {
                    Ok((st, k)) => Ok((Some(st), k)),
                    Err(e) => Err(e),
                }
            } else {
                Err(DecodeError::Malformed)
            }
        },
        Err(e) => Err(e),
    }
}

fn read_str_list(s: &[u8], i: usize) -> (r: Result<(Vec<String>, usize), DecodeError>)
    ensures
        ({
            match dec_str_list(s@, i as int) {
                Option::Some((v, j)) => r matches Ok((rv, rj)) && strs_view(rv) == v && rj == j,
                Option::None => r matches Err(_),
            }
        }),
{
    match read_u32(s, i) {
        Ok((n32, j0)) => {
            let ghost count: nat = n32 as nat;
            let mut acc: Vec<String> = Vec::new();
            let mut pos: usize = j0;
            let mut rem: usize = n32 as usize;
            proof {
                assert(strs_view(acc) =~= Seq::<Seq<char>>::empty());
                match dec_str_items(s@, j0 as int, count) {
                    Option::Some((tail, end)) => {
                        assert(strs_view(acc) + tail =~= tail);
                    },
                    Option::None => {},
                }
            }
            while rem > 0
                invariant
                    pos <= s@.len(),
                    rem as nat <= count,
                    dec_str_list(s@, i as int) == (match dec_str_items(
                        s@,
                        pos as int,
                        rem as nat,
                    ) {
                        Option::Some((tail, end)) => Option::Some(
                            (strs_view(acc) + tail, end),
                        ),
                        Option::None => Option::None::<(Seq<Seq<char>>, int)>,
                    }),
                decreases rem,
            {
                match read_str(s, pos) {
                    Ok((st, np)) => {
                        proof {
                            assert(dec_str(s@, pos as int) == Option::Some((st@, np as int)));
                        }
                        let ghost old_acc = acc;
                        acc.push(st);
                        proof {
                            assert(strs_view(acc) =~= strs_view(old_acc) + seq![st@]);
                            match dec_str_items(s@, np as int, (rem - 1) as nat) {
                                Option::Some((t2, e2)) => {
                                    assert(strs_view(old_acc) + (seq![st@] + t2) =~= strs_view(
                                        acc,
                                    ) + t2);
                                },
                                Option::None => {},
                            }
                        }
                        pos = np;
                        rem = rem - 1;
                    },
                    Err(e) => {
                        proof {
                            assert(dec_str_items(s@, pos as int, rem as nat) is None);
                        }
                        return Err(e);
                    },
                }
            }
            proof {
                assert(dec_str_items(s@, pos as int, 0) == Option::Some(
                    (Seq::<Seq<char>>::empty(), pos as int),
                ));
                assert(strs_view(acc) + Seq::<Seq<char>>::empty() =~= strs_view(acc));
            }
            Ok((acc, pos))
        },
        Err(e) => Err(e),
    }
}

fn read_pair_list(s: &[u8], i: usize) -> (r: Result<(EnvPairs, usize), DecodeError>)
    ensures
        ({
            match dec_pair_list(s@, i as int) {
                Option::Some((v, j)) => r matches Ok((rv, rj)) && pairs_view(rv) == v && rj == j,
                Option::None => r matches Err(_),
            }
        }),
{
    match read_u32(s, i) {
        Ok((n32, j0)) => {
            let ghost count: nat = n32 as nat;
            let mut acc: EnvPairs = Vec::new();
            let mut pos: usize = j0;
            let mut rem: usize = n32 as usize;
            proof {
                assert(pairs_view(acc) =~= Seq::<(Seq<char>, Seq<char>)>::empty());
                match dec_pair_items(s@, j0 as int, count) {
                    Option::Some((tail, end)) => {
                        assert(pairs_view(acc) + tail =~= tail);
                    },
                    Option::None => {},
                }
            }
            while rem > 0
                invariant
                    pos <= s@.len(),
                    rem as nat <= count,
                    dec_pair_list(s@, i as int) == (match dec_pair_items(
                        s@,
                        pos as int,
                        rem as nat,
                    ) {
                        Option::Some((tail, end)) => Option::Some(
                            (pairs_view(acc) + tail, end),
                        ),
                        Option::None => Option::None::<(Seq<(Seq<char>, Seq<char>)>, int)>,
                    }),
                decreases rem,
            {
                match read_str(s, pos) {
                    Ok((k, p1)) => {
                        match read_str(s, p1) {
                            Ok((val, p2)) => {
                                proof {
                                    assert(dec_str(s@, pos as int) == Option::Some(
                                        (k@, p1 as int),
                                    ));
                                    assert(dec_str(s@, p1 as int) == Option::Some(
                                        (val@, p2 as int),
                                    ));
                                }
                                let ghost old_acc = acc;
                                acc.push((k, val));
                                proof {
                                    assert(pairs_view(acc) =~= pairs_view(old_acc) + seq![
                                        (acc@[acc@.len() - 1].0@, acc@[acc@.len() - 1].1@),
                                    ]);
                                    match dec_pair_items(s@, p2 as int, (rem - 1) as nat) {
                                        Option::Some((t2, e2)) => {
                                            assert(pairs_view(old_acc) + (seq![
                                                (acc@[acc@.len() - 1].0@, acc@[acc@.len() - 1].1@),
                                            ] + t2) =~= pairs_view(acc) + t2);
                                        },
                                        Option::None => {},
                                    }
                                }
                                pos = p2;
                                rem = rem - 1;
                            },
                            Err(e) => {
                                proof {
                                    assert(dec_pair_items(s@, pos as int, rem as nat) is None);
                                }
                                return Err(e);
                            },
                        }
                    },
                    Err(e) => {
                        proof {
                            assert(dec_pair_items(s@, pos as int, rem as nat) is None);
                        }
                        return Err(e);
                    },
                }
            }
            proof {
                assert(dec_pair_items(s@, pos as int, 0) == Option::Some(
                    (Seq::<(Seq<char>, Seq<char>)>::empty(), pos as int),
                ));
                assert(pairs_view(acc) + Seq::<(Seq<char>, Seq<char>)>::empty() =~= pairs_view(
                    acc,
                ));
            }
            Ok((acc, pos))
        },
        Err(e) => Err(e),
    }
}

fn read_opt_pair_list(s: &[u8], i: usize) -> (r: Result<(Option<EnvPairs>, usize), DecodeError>)
    ensures
        ({
            match dec_opt_pair_list(s@, i as int) {
                Option::Some((v, j)) => r matches Ok((rv, rj)) && opt_pairs_view(rv) == v && rj
                    == j,
                Option::None => r matches Err(_),
            }
        }),
{
    match read_u8(s, i) {
        Ok((t, j)) => {
            if t == 0 {
                Ok((None, j))
            } else if t == 1 {
                match read_pair_list(s, j) {
                    Ok((ps, k)) => Ok((Some(ps), k)),
                    Err(e) => Err(e),
                }
            } else {
                Err(DecodeError::Malformed)
            }
        },
        Err(e) => Err(e),
    }
}

#[verifier::rlimit(100)]
fn read_info(s: &[u8], i: usize) -> (r: Result<(SessionInfo, usize), DecodeError>)
    ensures
        ({
            match dec_info(s@, i as int) {
                Option::Some((v, j)) => r matches Ok((rv, rj)) && info_view(rv) == v && rj == j,
                Option::None => r matches Err(_),
            }
        }),
{
    match read_str(s, i) {
        Err(e) => Err(e),
        Ok((name, i1)) => match read_str(s, i1) {
            Err(e) => Err(e),
            Ok((command, i2)) => match read_u32(s, i2) {
                Err(e) => Err(e),
                Ok((pid, i3)) => match read_bool(s, i3) {
                    Err(e) => Err(e),
                    Ok((alive, i4)) => match read_str(s, i4) {
                        Err(e) => Err(e),
                        Ok((created_at, i5)) => match read_u64(s, i5) {
                            Err(e) => Err(e),
                            Ok((uptime_secs, i6)) => match read_str(s, i6) {
                                Err(e) => Err(e),
                                Ok((last_activity, i7)) => match read_u64(s, i7) {
                                    Err(e) => Err(e),
                                    Ok((idle_secs, i8)) => {
                                        let info = SessionInfo {
                                            name,
                                            command,
                                            pid,
                                            alive,
                                            created_at,
                                            uptime_secs,
                                            last_activity,
                                            idle_secs,
                                        };
                                        Ok((info, i8))
                                    },
                                },
                            },
                        },
                    },
                },
            },
        },
    }
}

fn read_info_list(s: &[u8], i: usize) -> (r: Result<(Vec<SessionInfo>, usize), DecodeError>)
    ensures
        ({
            match dec_info_list(s@, i as int) {
                Option::Some((v, j)) => r matches Ok((rv, rj)) && infos_view(rv) == v && rj == j,
                Option::None => r matches Err(_),
            }
        }),
{
    match read_u32(s, i) {
        Ok((n32, j0)) => {
            let ghost count: nat = n32 as nat;
            let mut acc: Vec<SessionInfo> = Vec::new();
            let mut pos: usize = j0;
            let mut rem: usize = n32 as usize;
            proof {
                assert(infos_view(acc) =~= Seq::<SessionInfoV>::empty());
                match dec_info_items(s@, j0 as int, count) {
                    Option::Some((tail, end)) => {
                        assert(infos_view(acc) + tail =~= tail);
                    },
                    Option::None => {},
                }
            }
            while rem > 0
                invariant
                    pos <= s@.len(),
                    rem as nat <= count,
                    dec_info_list(s@, i as int) == (match dec_info_items(
                        s@,
                        pos as int,
                        rem as nat,
                    ) {
                        Option::Some((tail, end)) => Option::Some(
                            (infos_view(acc) + tail, end),
                        ),
                        Option::None => Option::None::<(Seq<SessionInfoV>, int)>,
                    }),
                decreases rem,
            {
                match read_info(s, pos) {
                    Ok((info, np)) => {
                        proof {
                            assert(dec_info(s@, pos as int) == Option::Some(
                                (info_view(info), np as int),
                            ));
                        }
                        let ghost old_acc = acc;
                        let ghost ghost_info = info;
                        acc.push(info);
                        proof {
                            assert(infos_view(acc) =~= infos_view(old_acc) + seq![
                                info_view(ghost_info),
                            ]);
                            match dec_info_items(s@, np as int, (rem - 1) as nat) {
                                Option::Some((t2, e2)) => {
                                    assert(infos_view(old_acc) + (seq![info_view(ghost_info)]
                                        + t2) =~= infos_view(acc) + t2);
                                },
                                Option::None => {},
                            }
                        }
                        pos = np;
                        rem = rem - 1;
                    },
                    Err(e) => {
                        proof {
                            assert(dec_info_items(s@, pos as int, rem as nat) is None);
                        }
                        return Err(e);
                    },
                }
            }
            proof {
                assert(dec_info_items(s@, pos as int, 0) == Option::Some(
                    (Seq::<SessionInfoV>::empty(), pos as int),
                ));
                assert(infos_view(acc) + Seq::<SessionInfoV>::empty() =~= infos_view(acc));
            }
            Ok((acc, pos))
        },
        Err(e) => Err(e),
    }
}


/// Decode one whole frame payload as a client message.
#[verifier::rlimit(100)]
pub fn decode_client_message(input: &[u8]) -> (r: Result<ClientMessage, DecodeError>)
    ensures
        ({
            match dec_client(input@) {
                Option::Some(v) => r matches Ok(m) && client_view(m) == v,
                Option::None => r matches Err(_),
            }
        }),
{
    let tag = match read_u8(input, 0) {
        Ok((t, _)) => t,
        Err(e) => {
            return Err(e);
        },
    };
    let j: usize = 1;
    if tag == 0 {
        if j == input.len() {
            Ok(ClientMessage::Ping)
        } else {
            Err(DecodeError::Malformed)
        }
    } else if tag == 1 {
        if j == input.len() {
            Ok(ClientMessage::KillServer)
        } else {
            Err(DecodeError::Malformed)
        }
    } else if tag == 2 {
        match read_opt_str(input, j) {
            Err(e) => Err(e),
            Ok((name, j1)) => match read_str_list(input, j1) {
                Err(e) => Err(e),
                Ok((command, j2)) => match read_opt_pair_list(input, j2) {
                    Err(e) => Err(e),
                    Ok((env, j3)) => {
                        if j3 == input.len() {
                            Ok(ClientMessage::CreateSession { name, command, env })
                        } else {
                            Err(DecodeError::Malformed)
                        }
                    },
                },
            },
        }
    } else if tag == 3 {
        if j == input.len() {
            Ok(ClientMessage::ListSessions)
        } else {
            Err(DecodeError::Malformed)
        }
    } else if tag == 4 {
        match read_str(input, j) {
            Err(e) => Err(e),
            Ok((name, j1)) => {
                if j1 == input.len() {
                    Ok(ClientMessage::GetSessionInfo { name })
                } else {
                    Err(DecodeError::Malformed)
                }
            },
        }
    } else if tag == 5 {
        match read_str(input, j) {
            Err(e) => Err(e),
            Ok((name, j1)) => {
                if j1 == input.len() {
                    Ok(ClientMessage::KillSession { name })
                } else {
                    Err(DecodeError::Malformed)
                }
            },
        }
    } else if tag == 6 {
        if j == input.len() {
            Ok(ClientMessage::KillAllSessions)
        } else {
            Err(DecodeError::Malformed)
        }
    } else if tag == 7 {
        match read_str(input, j) {
            Err(e) => Err(e),
            Ok((name, j1)) => match read_u16(input, j1) {
                Err(e) => Err(e),
                Ok((cols, j2)) => match read_u16(input, j2) {
                    Err(e) => Err(e),
                    Ok((rows, j3)) => {
                        if j3 == input.len() {
                            Ok(ClientMessage::Attach { name, cols, rows })
                        } else {
                            Err(DecodeError::Malformed)
                        }
                    },
                },
            },
        }
    } else if tag == 8 {
        match read_byte_str(input, j) {
            Err(e) => Err(e),
            Ok((data, j1)) => {
                if j1 == input.len() {
                    Ok(ClientMessage::AttachInput(data))
                } else {
                    Err(DecodeError::Malformed)
                }
            },
        }
    } else if tag == 9 {
        match read_u16(input, j) {
            Err(e) => Err(e),
            Ok((cols, j1)) => match read_u16(input, j1) {
                Err(e) => Err(e),
                Ok((rows, j2)) => {
                    if j2 == input.len() {
                        Ok(ClientMessage::AttachResize { cols, rows })
                    } else {
                        Err(DecodeError::Malformed)
                    }
                },
            },
        }
    } else if tag == 10 {
        if j == input.len() {
            Ok(ClientMessage::Detach)
        } else {
            Err(DecodeError::Malformed)
        }
    } else if tag == 11 {
        match read_str(input, j) {
            Err(e) => Err(e),
            Ok((name, j1)) => match read_byte_str(input, j1) {
                Err(e) => Err(e),
                Ok((data, j2)) => match read_bool(input, j2) {
                    Err(e) => Err(e),
                    Ok((newline, j3)) => {
                        if j3 == input.len() {
                            Ok(ClientMessage::SendInput { name, data, newline })
                        } else {
                            Err(DecodeError::Malformed)
                        }
                    },
                },
            },
        }
    } else if tag == 12 {
        match read_str(input, j) {
            Err(e) => Err(e),
            Ok((name, j1)) => {
                if j1 == input.len() {
                    Ok(ClientMessage::HasSession { name })
                } else {
                    Err(DecodeError::Malformed)
                }
            },
        }
    } else if tag == 13 {
        match read_str(input, j) {
            Err(e) => Err(e),
            Ok((name, j1)) => match read_u64(input, j1) {
                Err(e) => Err(e),
                Ok((lines, j2)) => {
                    if j2 == input.len() && lines <= usize::MAX as u64 {
                        Ok(ClientMessage::CaptureScrollback { name, lines: lines as usize })
                    } else {
                        Err(DecodeError::Malformed)
                    }
                },
            },
        }
    } else if tag == 14 {
        match read_str(input, j) {
            Err(e) => Err(e),
            Ok((name, j1)) => match read_str(input, j1) {
                Err(e) => Err(e),
                Ok((key, j2)) => match read_str(input, j2) {
                    Err(e) => Err(e),
                    Ok((value, j3)) => {
                        if j3 == input.len() {
                            Ok(ClientMessage::SetEnv { name, key, value })
                        } else {
                            Err(DecodeError::Malformed)
                        }
                    },
                },
            },
        }
    } else if tag == 15 {
        match read_str(input, j) {
            Err(e) => Err(e),
            Ok((name, j1)) => match read_str(input, j1) {
                Err(e) => Err(e),
                Ok((key, j2)) => {
                    if j2 == input.len() {
                        Ok(ClientMessage::GetEnv { name, key })
                    } else {
                        Err(DecodeError::Malformed)
                    }
                },
            },
        }
    } else if tag == 16 {
        match read_str(input, j) {
            Err(e) => Err(e),
            Ok((name, j1)) => {
                if j1 == input.len() {
                    Ok(ClientMessage::GetAllEnv { name })
                } else {
                    Err(DecodeError::Malformed)
                }
            },
        }
    } else if tag == 17 {
        match read_str(input, j) {
            Err(e) => Err(e),
            Ok((name, j1)) => match read_u64(input, j1) {
                Err(e) => Err(e),
                Ok((timeout_secs, j2)) => {
                    if j2 == input.len() {
                        Ok(ClientMessage::WaitSession { name, timeout_secs })
                    } else {
                        Err(DecodeError::Malformed)
                    }
                },
            },
        }
    } else {
        Err(DecodeError::Malformed)
    }
}

/// Decode one whole frame payload as a daemon message.
#[verifier::rlimit(100)]
pub fn decode_daemon_message(input: &[u8]) -> (r: Result<DaemonMessage, DecodeError>)
    ensures
        ({
            match dec_daemon(input@) {
                Option::Some(v) => r matches Ok(m) && daemon_view(m) == v,
                Option::None => r matches Err(_),
            }
        }),
{
    let tag = match read_u8(input, 0) {
        Ok((t, _)) => t,
        Err(e) => {
            return Err(e);
        },
    };
    let j: usize = 1;
    if tag == 0 {
        if j == input.len() {
            Ok(DaemonMessage::Pong)
        } else {
            Err(DecodeError::Malformed)
        }
    } else if tag == 1 {
        if j == input.len() {
            Ok(DaemonMessage::Okay)
        } else {
            Err(DecodeError::Malformed)
        }
    } else if tag == 2 {
        match read_str(input, j) {
            Err(e) => Err(e),
            Ok((e_msg, j1)) => {
                if j1 == input.len() {
                    Ok(DaemonMessage::Error(e_msg))
                } else {
                    Err(DecodeError::Malformed)
                }
            },
        }
    } else if tag == 3 {
        match read_str(input, j) {
            Err(e) => Err(e),
            Ok((name, j1)) => {
                if j1 == input.len() {
                    Ok(DaemonMessage::SessionCreated { name })
                } else {
                    Err(DecodeError::Malformed)
                }
            },
        }
    } else if tag == 4 {
        match read_info_list(input, j) {
            Err(e) => Err(e),
            Ok((v, j1)) => {
                if j1 == input.len() {
                    Ok(DaemonMessage::SessionList(v))
                } else {
                    Err(DecodeError::Malformed)
                }
            },
        }
    } else if tag == 5 {
        match read_info(input, j) {
            Err(e) => Err(e),
            Ok((i, j1)) => {
                if j1 == input.len() {
                    Ok(DaemonMessage::SessionDetail(i))
                } else {
                    Err(DecodeError::Malformed)
                }
            },
        }
    } else if tag == 6 {
        match read_byte_str(input, j) {
            Err(e) => Err(e),
            Ok((b, j1)) => {
                if j1 == input.len() {
                    Ok(DaemonMessage::Output(b))
                } else {
                    Err(DecodeError::Malformed)
                }
            },
        }
    } else if tag == 7 {
        if j == input.len() {
            Ok(DaemonMessage::SessionEnded)
        } else {
            Err(DecodeError::Malformed)
        }
    } else if tag == 8 {
        match read_bool(input, j) {
            Err(e) => Err(e),
            Ok((b, j1)) => {
                if j1 == input.len() {
                    Ok(DaemonMessage::SessionExists(b))
                } else {
                    Err(DecodeError::Malformed)
                }
            },
        }
    } else if tag == 9 {
        match read_u64(input, j) {
            Err(e) => Err(e),
            Ok((count, j1)) => {
                if j1 == input.len() && count <= usize::MAX as u64 {
                    Ok(DaemonMessage::KilledSessions { count: count as usize })
                } else {
                    Err(DecodeError::Malformed)
                }
            },
        }
    } else if tag == 10 {
        match read_byte_str(input, j) {
            Err(e) => Err(e),
            Ok((b, j1)) => {
                if j1 == input.len() {
                    Ok(DaemonMessage::CaptureOutput(b))
                } else {
                    Err(DecodeError::Malformed)
                }
            },
        }
    } else if tag == 11 {
        if j == input.len() {
            Ok(DaemonMessage::InputSent)
        } else {
            Err(DecodeError::Malformed)
        }
    } else if tag == 12 {
        match read_opt_str(input, j) {
            Err(e) => Err(e),
            Ok((o, j1)) => {
                if j1 == input.len() {
                    Ok(DaemonMessage::EnvValue(o))
                } else {
                    Err(DecodeError::Malformed)
                }
            },
        }
    } else if tag == 13 {
        match read_pair_list(input, j) {
            Err(e) => Err(e),
            Ok((ps, j1)) => {
                if j1 == input.len() {
                    Ok(DaemonMessage::EnvVars(ps))
                } else {
                    Err(DecodeError::Malformed)
                }
            },
        }
    } else if tag == 14 {
        if j == input.len() {
            Ok(DaemonMessage::SessionExited)
        } else {
            Err(DecodeError::Malformed)
        }
    } else {
        Err(DecodeError::Malformed)
    }
}


// ---------------------------------------------------------------------------
// Size checks: whether a message fits the 4-byte length prefixes.
// ---------------------------------------------------------------------------

fn str_fits_exec(s: &String) -> (r: bool)
    ensures
        r == str_fits(s@),
{
    s.as_str().as_bytes().len() <= 0xFFFF_FFFFusize
}

fn bytes_fits_exec(b: &Vec<u8>) -> (r: bool)
    ensures
        r == bytes_fits(b@),
{
    b.len() <= 0xFFFF_FFFFusize
}

fn strs_fit_exec(v: &Vec<String>) -> (r: bool)
    ensures
        r == strs_fit(strs_view(*v)),
{
    if v.len() > 0xFFFF_FFFFusize {
        return false;
    }
    let mut i: usize = 0;
    while i < v.len()
        invariant
            i <= v@.len(),
            forall|j: int| 0 <= j < i ==> str_fits(#[trigger] strs_view(*v)[j]),
        decreases v@.len() - i,
    {
        proof {
            assert(strs_view(*v)[i as int] == v@[i as int]@);
        }
        if !str_fits_exec(&v[i]) {
            return false;
        }
        i = i + 1;
    }
    true
}

fn pairs_fit_exec(v: &EnvPairs) -> (r: bool)
    ensures
        r == pairs_fit(pairs_view(*v)),
{
    if v.len() > 0xFFFF_FFFFusize {
        return false;
    }
    let mut i: usize = 0;
    while i < v.len()
        invariant
            i <= v@.len(),
            forall|j: int|
                0 <= j < i ==> str_fits((#[trigger] pairs_view(*v)[j]).0) && str_fits(
                    pairs_view(*v)[j].1,
                ),
        decreases v@.len() - i,
    {
        proof {
            assert(pairs_view(*v)[i as int] == (v@[i as int].0@, v@[i as int].1@));
        }
        let k_ok = str_fits_exec(&v[i].0);
        let v_ok = str_fits_exec(&v[i].1);
        if !k_ok || !v_ok {
            proof {
                let ps = pairs_view(*v);
                assert(ps.len() == v@.len());
                assert(!(str_fits(ps[i as int].0) && str_fits(ps[i as int].1)));
                assert(!pairs_fit(ps)) by {
                    if pairs_fit(ps) {
                        assert(str_fits(ps[i as int].0) && str_fits(ps[i as int].1));
                    }
                }
            }
            return false;
        }
        i = i + 1;
    }
    true
}

fn info_fits_exec(i: &SessionInfo) -> (r: bool)
    ensures
        r == info_v_fits(info_view(*i)),
{
    str_fits_exec(&i.name) && str_fits_exec(&i.command) && str_fits_exec(&i.created_at)
        && str_fits_exec(&i.last_activity)
}

fn infos_fit_exec(v: &Vec<SessionInfo>) -> (r: bool)
    ensures
        r == infos_fit(infos_view(*v)),
{
    if v.len() > 0xFFFF_FFFFusize {
        return false;
    }
    let mut i: usize = 0;
    while i < v.len()
        invariant
            i <= v@.len(),
            forall|j: int| 0 <= j < i ==> info_v_fits(#[trigger] infos_view(*v)[j]),
        decreases v@.len() - i,
    {
        proof {
            assert(infos_view(*v)[i as int] == info_view(v@[i as int]));
        }
        if !info_fits_exec(&v[i]) {
            return false;
        }
        i = i + 1;
    }
    true
}

/// Whether every field of this message fits its length prefix.
pub fn client_message_fits(m: &ClientMessage) -> (r: bool)
    ensures
        r == client_v_fits(client_view(*m)),
{
    match m {
        ClientMessage::Ping => true,
        ClientMessage::KillServer => true,
        ClientMessage::CreateSession { name, command, env } => {
            let name_ok = match name {
                Option::Some(n) => str_fits_exec(n),
                Option::None => true,
            };
            let env_ok = match env {
                Option::Some(e) => pairs_fit_exec(e),
                Option::None => true,
            };
            name_ok && strs_fit_exec(command) && env_ok
        },
        ClientMessage::ListSessions => true,
        ClientMessage::GetSessionInfo { name } => str_fits_exec(name),
        ClientMessage::KillSession { name } => str_fits_exec(name),
        ClientMessage::KillAllSessions => true,
        ClientMessage::Attach { name, cols: _, rows: _ } => str_fits_exec(name),
        ClientMessage::AttachInput(data) => bytes_fits_exec(data),
        ClientMessage::AttachResize { cols: _, rows: _ } => true,
        ClientMessage::Detach => true,
        ClientMessage::SendInput { name, data, newline: _ } => str_fits_exec(name)
            && bytes_fits_exec(data),
        ClientMessage::HasSession { name } => str_fits_exec(name),
        ClientMessage::CaptureScrollback { name, lines: _ } => str_fits_exec(name),
        ClientMessage::SetEnv { name, key, value } => str_fits_exec(name) && str_fits_exec(key)
            && str_fits_exec(value),
        ClientMessage::GetEnv { name, key } => str_fits_exec(name) && str_fits_exec(key),
        ClientMessage::GetAllEnv { name } => str_fits_exec(name),
        ClientMessage::WaitSession { name, timeout_secs: _ } => str_fits_exec(name),
    }
}

/// Whether every field of this message fits its length prefix.
pub fn daemon_message_fits(m: &DaemonMessage) -> (r: bool)
    ensures
        r == daemon_v_fits(daemon_view(*m)),
{
    match m {
        DaemonMessage::Pong => true,
        DaemonMessage::Okay => true,
        DaemonMessage::Error(e) => str_fits_exec(e),
        DaemonMessage::SessionCreated { name } => str_fits_exec(name),
        DaemonMessage::SessionList(v) => infos_fit_exec(v),
        DaemonMessage::SessionDetail(i) => info_fits_exec(i),
        DaemonMessage::Output(b) => bytes_fits_exec(b),
        DaemonMessage::SessionEnded => true,
        DaemonMessage::SessionExists(_) => true,
        DaemonMessage::KilledSessions { count: _ } => true,
        DaemonMessage::CaptureOutput(b) => bytes_fits_exec(b),
        DaemonMessage::InputSent => true,
        DaemonMessage::EnvValue(o) => match o {
            Option::Some(s) => str_fits_exec(s),
            Option::None => true,
        },
        DaemonMessage::EnvVars(ps) => pairs_fit_exec(ps),
        DaemonMessage::SessionExited => true,
    }
}

/// Encode a client message after checking its size bounds: too-large
/// fields yield nothing.
pub fn encode_client_checked(m: &ClientMessage) -> (r: Option<Vec<u8>>)
    ensures
        r is Some <==> client_v_fits(client_view(*m)),
        (r matches Some(b) ==> b@ == enc_client(client_view(*m))),
{
    if client_message_fits(m) {
        Some(encode_client_message(m))
    } else {
        None
    }
}

/// Encode a daemon message after checking its size bounds: too-large
/// fields yield nothing.
pub fn encode_daemon_checked(m: &DaemonMessage) -> (r: Option<Vec<u8>>)
    ensures
        r is Some <==> daemon_v_fits(daemon_view(*m)),
        (r matches Some(b) ==> b@ == enc_daemon(daemon_view(*m))),
{
    if daemon_message_fits(m) {
        Some(encode_daemon_message(m))
    } else {
        None
    }
}

} // verus!






