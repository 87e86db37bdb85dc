//! The session registry: the process-wide table from session name to live
//! session, together with the session record itself.
//!
//! A session's channels come from the async runtime and are held here as
//! opaque handles; the scrollback, the metadata map and every piece of
//! bookkeeping the control plane reads are plain verified state.

use vstd::prelude::*;
use tokio::sync::broadcast;
use tokio::sync::mpsc;
use tokio::sync::oneshot;
use crate::messages::{pairs_view, EnvPairs};
use crate::scrollback::Scrollback;
use crate::timefmt::dec_digits;

verus! {

/// Declares `tokio::sync::mpsc::Sender` so session handles can hold it.
#[verifier::external_type_specification]
#[verifier::external_body]
#[verifier::reject_recursive_types(T)]
pub struct ExMpscSender<T>(mpsc::Sender<T>);

/// Declares `tokio::sync::broadcast::Sender` for the output fan-out.
#[verifier::external_type_specification]
#[verifier::external_body]
#[verifier::reject_recursive_types(T)]
pub struct ExBroadcastSender<T>(broadcast::Sender<T>);

/// Declares `tokio::sync::broadcast::Receiver` for attach subscriptions.
#[verifier::external_type_specification]
#[verifier::external_body]
#[verifier::reject_recursive_types(T)]
pub struct ExBroadcastReceiver<T>(broadcast::Receiver<T>);

/// Declares `tokio::sync::oneshot::Sender` for the one-shot kill signal.
#[verifier::external_type_specification]
#[verifier::external_body]
#[verifier::reject_recursive_types(T)]
pub struct ExOneshotSender<T>(oneshot::Sender<T>);

/// Relies on `nix::sys::signal::kill` with no signal: it probes whether a
/// process exists.  The outcome depends on the machine's process table,
/// so nothing is promised of it.
#[verifier::external_body]
pub fn pid_alive(pid: i32) -> bool {
    nix::sys::signal::kill(nix::unistd::Pid::from_raw(pid), None::<nix::sys::signal::Signal>)
        .is_ok()
}

/// Relies on `tokio::sync::oneshot::Sender::send`: fires the one-shot
/// kill signal, consuming the sender; a gone receiver is tolerated.
#[verifier::external_body]
fn oneshot_fire(tx: oneshot::Sender<()>) {
    let _ = tx.send(());
}

/// Relies on `tokio::sync::broadcast::Sender::subscribe`: a new receiver
/// that observes values sent after this call.
#[verifier::external_body]
fn subscribe_output(tx: &broadcast::Sender<Vec<u8>>) -> broadcast::Receiver<Vec<u8>> {
    tx.subscribe()
}

/// Relies on `Clone for tokio::sync::mpsc::Sender`: another handle to the
/// same queue.
#[verifier::external_body]
fn clone_byte_sender(tx: &mpsc::Sender<Vec<u8>>) -> mpsc::Sender<Vec<u8>> {
    tx.clone()
}

/// Relies on `Clone for tokio::sync::mpsc::Sender`: another handle to the
/// same queue.
#[verifier::external_body]
fn clone_resize_sender(tx: &mpsc::Sender<(u16, u16)>) -> mpsc::Sender<(u16, u16)> {
    tx.clone()
}

/// First index in `ps` whose key is `k`, or -1.
pub open spec fn env_idx(ps: Seq<(Seq<char>, Seq<char>)>, k: Seq<char>) -> int
    decreases ps.len(),
{
    if ps.len() == 0 {
        -1
    } else if ps[0].0 == k {
        0
    } else {
        let r = env_idx(ps.skip(1), k);
        if r < 0 {
            -1
        } else {
            r + 1
        }
    }
}

/// The value bound to key `k`, if any.
pub open spec fn env_get(ps: Seq<(Seq<char>, Seq<char>)>, k: Seq<char>) -> Option<Seq<char>> {
    if env_idx(ps, k) >= 0 {
        Option::Some(ps[env_idx(ps, k)].1)
    } else {
        Option::None
    }
}

/// Keys are pairwise distinct.
pub open spec fn env_unique(ps: Seq<(Seq<char>, Seq<char>)>) -> bool {
    forall|i: int, j: int| 0 <= i < j < ps.len() ==> (#[trigger] ps[i]).0 != (#[trigger] ps[j]).0
}

pub proof fn lemma_env_idx(ps: Seq<(Seq<char>, Seq<char>)>, k: Seq<char>)
    ensures
        env_idx(ps, k) == -1 ==> (forall|i: int| 0 <= i < ps.len() ==> (#[trigger] ps[i]).0 != k),
        env_idx(ps, k) >= 0 ==> {
            &&& env_idx(ps, k) < ps.len()
            &&& ps[env_idx(ps, k)].0 == k
            &&& forall|i: int| 0 <= i < env_idx(ps, k) ==> (#[trigger] ps[i]).0 != k
        },
    decreases ps.len(),
{
    if ps.len() > 0 && ps[0].0 != k {
        lemma_env_idx(ps.skip(1), k);
        assert(forall|i: int|
            1 <= i < ps.len() ==> (#[trigger] ps[i]).0 == ps.skip(1)[i - 1].0);
    }
}

/// One running child process and its handles.
pub struct Session {
    pub name: String,
    pub command: String,
    pub child_pid: i32,
    /// Seconds since the Unix epoch at creation.
    pub created_at: u64,
    /// Seconds since the Unix epoch of the last PTY output.
    pub last_activity: u64,
    pub input_tx: mpsc::Sender<Vec<u8>>,
    pub output_tx: broadcast::Sender<Vec<u8>>,
    pub resize_tx: mpsc::Sender<(u16, u16)>,
    pub kill_tx: Option<oneshot::Sender<()>>,
    pub scrollback: Scrollback,
    /// Session-level metadata, distinct from the process environment.
    pub env_vars: EnvPairs,
}

impl Session {
    /// The scrollback is within its cap and metadata keys are unique.
    pub open spec fn wf(&self) -> bool {
        &&& self.scrollback.wf()
        &&& env_unique(pairs_view(self.env_vars))
    }

    /// Assemble the record for a freshly spawned child.
    pub fn new(
        name: String,
        command: String,
        child_pid: i32,
        created_at: u64,
        env: Option<EnvPairs>,
        input_tx: mpsc::Sender<Vec<u8>>,
        output_tx: broadcast::Sender<Vec<u8>>,
        resize_tx: mpsc::Sender<(u16, u16)>,
        kill_tx: oneshot::Sender<()>,
    ) -> (r: Session)
        ensures
            r.wf(),
            r.name == name,
            r.command == command,
            r.child_pid == child_pid,
            r.created_at == created_at,
            r.last_activity == created_at,
            r.scrollback@ == Seq::<u8>::empty(),
            r.kill_tx is Some,
            (match env {
                Option::Some(e) => env_unique(pairs_view(e)) ==> pairs_view(r.env_vars)
                    == pairs_view(e),
                Option::None => pairs_view(r.env_vars) == Seq::<(Seq<char>, Seq<char>)>::empty(),
            }),
    {
        let env_vars = match env {
            Some(e) => env_dedup(e),
            None => {
                let v: EnvPairs = Vec::new();
                proof {
                    assert(pairs_view(v) =~= Seq::<(Seq<char>, Seq<char>)>::empty());
                }
                v
            },
        };
        Session {
            name,
            command,
            child_pid,
            created_at,
            last_activity: created_at,
            input_tx,
            output_tx,
            resize_tx,
            kill_tx: Some(kill_tx),
            scrollback: Scrollback::new(),
            env_vars,
        }
    }

    /// Bind `key` to `value` in the metadata map, replacing any previous
    /// binding of the key.
    pub fn set_env(&mut self, key: String, value: String)
        requires
            old(self).wf(),
        ensures
            final(self).wf(),
            pairs_view(final(self).env_vars) == (if env_idx(
                pairs_view(old(self).env_vars),
                key@,
            ) >= 0 {
                pairs_view(old(self).env_vars).update(
                    env_idx(pairs_view(old(self).env_vars), key@),
                    (key@, value@),
                )
            } else {
                pairs_view(old(self).env_vars).push((key@, value@))
            }),
            final(self).name == old(self).name,
            final(self).scrollback == old(self).scrollback,
            *final(self) == (Session { env_vars: final(self).env_vars, ..*old(self) }),
    {
        env_put(&mut self.env_vars, key, value);
    }

    /// Look up a metadata key.
    pub fn get_env(&self, key: &String) -> (r: Option<String>)
        ensures
            ({
                match env_get(pairs_view(self.env_vars), key@) {
                    Option::Some(v) => r matches Some(s) && s@ == v,
                    Option::None => r is None,
                }
            }),
    {
        let ghost ps = pairs_view(self.env_vars);
        proof {
            lemma_env_idx(ps, key@);
        }
        let mut i: usize = 0;
        while i < self.env_vars.len()
            invariant
                i <= self.env_vars@.len(),
                ps == pairs_view(self.env_vars),
                forall|j: int| 0 <= j < i ==> (#[trigger] ps[j]).0 != key@,
            decreases self.env_vars@.len() - i,
        {
            proof {
                assert(ps[i as int] == (self.env_vars@[i as int].0@,
                    self.env_vars@[i as int].1@));
            }
            if self.env_vars[i].0 == *key {
                proof {
                    lemma_env_idx_found(ps, key@, i as int);
                }
                return Some(self.env_vars[i].1.clone());
            }
            i = i + 1;
        }
        proof {
            lemma_env_idx_none(ps, key@);
        }
        None
    }

    /// A copy of the whole metadata map.
    pub fn get_all_env(&self) -> (r: EnvPairs)
        ensures
            pairs_view(r) == pairs_view(self.env_vars),
    {
        let mut out: EnvPairs = Vec::new();
        let mut i: usize = 0;
        proof {
            assert(pairs_view(out) =~= pairs_view(self.env_vars).take(0));
        }
        while i < self.env_vars.len()
            invariant
                i <= self.env_vars@.len(),
                pairs_view(out) == pairs_view(self.env_vars).take(i as int),
            decreases self.env_vars@.len() - i,
        {
            let pair = (self.env_vars[i].0.clone(), self.env_vars[i].1.clone());
            out.push(pair);
            proof {
                let ps = pairs_view(self.env_vars);
                assert(ps[i as int] == (self.env_vars@[i as int].0@,
                    self.env_vars@[i as int].1@));
                assert(ps.take(i + 1) =~= ps.take(i as int).push(ps[i as int]));
                assert(pairs_view(out) =~= ps.take(i as int).push(ps[i as int]));
            }
            i = i + 1;
        }
        proof {
            assert(pairs_view(self.env_vars).take(self.env_vars@.len() as int) =~= pairs_view(
                self.env_vars,
            ));
        }
        out
    }

    /// Whether the child process is currently alive: an observation of the
    /// process table, not a cached flag.
    pub fn is_alive(&self) -> bool {
        pid_alive(self.child_pid)
    }
}

/// When the scan of `set_env` stops at `i` with a key match and no
/// earlier match, `i` is the key's index.
proof fn lemma_env_idx_found(ps: Seq<(Seq<char>, Seq<char>)>, k: Seq<char>, i: int)
    requires
        0 <= i < ps.len(),
        ps[i].0 == k,
        forall|j: int| 0 <= j < i ==> (#[trigger] ps[j]).0 != k,
    ensures
        env_idx(ps, k) == i,
    decreases ps.len(),
{
    if i > 0 {
        lemma_env_idx_found(ps.skip(1), k, i - 1);
        assert(forall|j: int|
            0 <= j < ps.skip(1).len() ==> ps.skip(1)[j] == (#[trigger] ps[j + 1]));
    }
}

/// When the scan finds no match at all, the key is absent.
proof fn lemma_env_idx_none(ps: Seq<(Seq<char>, Seq<char>)>, k: Seq<char>)
    requires
        forall|j: int| 0 <= j < ps.len() ==> (#[trigger] ps[j]).0 != k,
    ensures
        env_idx(ps, k) == -1,
    decreases ps.len(),
{
    if ps.len() > 0 {
        lemma_env_idx_none(ps.skip(1), k);
        assert(forall|j: int|
            0 <= j < ps.skip(1).len() ==> ps.skip(1)[j] == (#[trigger] ps[j + 1]));
    }
}


/// First index in `ss` whose session is named `n`, or -1.
pub open spec fn reg_idx(ss: Seq<Session>, n: Seq<char>) -> int
    decreases ss.len(),
{
    if ss.len() == 0 {
        -1
    } else if ss[0].name@ == n {
        0
    } else {
        let r = reg_idx(ss.skip(1), n);
        if r < 0 {
            -1
        } else {
            r + 1
        }
    }
}

proof fn lemma_reg_idx_found(ss: Seq<Session>, n: Seq<char>, i: int)
    requires
        0 <= i < ss.len(),
        ss[i].name@ == n,
        forall|j: int| 0 <= j < i ==> (#[trigger] ss[j]).name@ != n,
    ensures
        reg_idx(ss, n) == i,
    decreases ss.len(),
{
    if i > 0 {
        lemma_reg_idx_found(ss.skip(1), n, i - 1);
        assert(forall|j: int| 0 <= j < ss.skip(1).len() ==> ss.skip(1)[j] == (#[trigger] ss[j + 1]));
    }
}

proof fn lemma_reg_idx_none(ss: Seq<Session>, n: Seq<char>)
    requires
        forall|j: int| 0 <= j < ss.len() ==> (#[trigger] ss[j]).name@ != n,
    ensures
        reg_idx(ss, n) == -1,
    decreases ss.len(),
{
    if ss.len() > 0 {
        lemma_reg_idx_none(ss.skip(1), n);
        assert(forall|j: int| 0 <= j < ss.skip(1).len() ==> ss.skip(1)[j] == (#[trigger] ss[j + 1]));
    }
}

/// The sessions of `ss` whose flag is set, in order.
pub open spec fn keep_flagged(ss: Seq<Session>, fl: Seq<bool>) -> Seq<Session>
    decreases ss.len(),
{
    if ss.len() == 0 {
        Seq::empty()
    } else if 0 < fl.len() && fl[0] {
        seq![ss[0]] + keep_flagged(ss.skip(1), fl.skip(1))
    } else {
        keep_flagged(ss.skip(1), fl.skip(1))
    }
}

/// The names of the sessions of `ss` whose flag is clear, in order.
pub open spec fn dropped_names(ss: Seq<Session>, fl: Seq<bool>) -> Seq<Seq<char>>
    decreases ss.len(),
{
    if ss.len() == 0 {
        Seq::empty()
    } else if 0 < fl.len() && fl[0] {
        dropped_names(ss.skip(1), fl.skip(1))
    } else {
        seq![ss[0].name@] + dropped_names(ss.skip(1), fl.skip(1))
    }
}

proof fn lemma_keep_flagged_snoc(ss: Seq<Session>, fl: Seq<bool>, x: Session, b: bool)
    requires
        ss.len() == fl.len(),
    ensures
        keep_flagged(ss.push(x), fl.push(b)) == keep_flagged(ss, fl) + (if b {
            seq![x]
        } else {
            Seq::empty()
        }),
        dropped_names(ss.push(x), fl.push(b)) == dropped_names(ss, fl) + (if b {
            Seq::empty()
        } else {
            seq![x.name@]
        }),
    decreases ss.len(),
{
    if ss.len() == 0 {
        assert(ss.push(x).skip(1) =~= Seq::<Session>::empty());
        assert(fl.push(b).skip(1) =~= Seq::<bool>::empty());
        assert(keep_flagged(ss.push(x).skip(1), fl.push(b).skip(1)) == Seq::<Session>::empty());
        assert(dropped_names(ss.push(x).skip(1), fl.push(b).skip(1)) == Seq::<Seq<char>>::empty());
        if b {
            assert(keep_flagged(ss.push(x), fl.push(b)) =~= keep_flagged(ss, fl) + seq![x]);
            assert(dropped_names(ss.push(x), fl.push(b)) =~= dropped_names(ss, fl));
        } else {
            assert(keep_flagged(ss.push(x), fl.push(b)) =~= keep_flagged(ss, fl));
            assert(dropped_names(ss.push(x), fl.push(b)) =~= dropped_names(ss, fl) + seq![
                x.name@,
            ]);
        }
    } else {
        assert(ss.push(x).skip(1) =~= ss.skip(1).push(x));
        assert(fl.push(b).skip(1) =~= fl.skip(1).push(b));
        lemma_keep_flagged_snoc(ss.skip(1), fl.skip(1), x, b);
        assert(keep_flagged(ss.push(x), fl.push(b)) =~= keep_flagged(ss, fl) + (if b {
            seq![x]
        } else {
            Seq::<Session>::empty()
        }));
        assert(dropped_names(ss.push(x), fl.push(b)) =~= dropped_names(ss, fl) + (if b {
            Seq::<Seq<char>>::empty()
        } else {
            seq![x.name@]
        }));
    }
}

/// Every kept session appears in the original sequence, and keeping
/// preserves distinctness of names.
proof fn lemma_keep_flagged_sub(ss: Seq<Session>, fl: Seq<bool>)
    ensures
        forall|k: int|
            0 <= k < keep_flagged(ss, fl).len() ==> exists|i: int|
                0 <= i < ss.len() && #[trigger] keep_flagged(ss, fl)[k] == ss[i],
    decreases ss.len(),
{
    if ss.len() > 0 {
        lemma_keep_flagged_sub(ss.skip(1), fl.skip(1));
        let kept = keep_flagged(ss, fl);
        assert forall|k: int| 0 <= k < kept.len() implies exists|i: int|
            0 <= i < ss.len() && #[trigger] kept[k] == ss[i] by {
            if 0 < fl.len() && fl[0] {
                if k == 0 {
                    assert(kept[0] == ss[0]);
                } else {
                    let k2 = k - 1;
                    assert(kept[k] == keep_flagged(ss.skip(1), fl.skip(1))[k2]);
                    let i2 = choose|i2: int|
                        0 <= i2 < ss.skip(1).len() && keep_flagged(ss.skip(1), fl.skip(1))[k2]
                            == ss.skip(1)[i2];
                    assert(ss.skip(1)[i2] == ss[i2 + 1]);
                }
            } else {
                assert(kept[k] == keep_flagged(ss.skip(1), fl.skip(1))[k]);
                let i2 = choose|i2: int|
                    0 <= i2 < ss.skip(1).len() && keep_flagged(ss.skip(1), fl.skip(1))[k]
                        == ss.skip(1)[i2];
                assert(ss.skip(1)[i2] == ss[i2 + 1]);
            }
        }
    }
}

/// How one session is reflected in a wire-visible `SessionInfo` at time
/// `now`: every field but the liveness flag is pinned.
pub open spec fn info_matches(s: Session, now: u64, iv: crate::messages::SessionInfoV) -> bool {
    &&& iv.name == s.name@
    &&& iv.command == s.command@
    &&& iv.pid == s.child_pid as u32
    &&& iv.uptime_secs == (if now >= s.created_at {
        (now - s.created_at) as u64
    } else {
        0u64
    })
    &&& iv.idle_secs == (if now >= s.last_activity {
        (now - s.last_activity) as u64
    } else {
        0u64
    })
    &&& (exists|y: int, mo: int, dd: int|
        crate::timefmt::valid_date(y, mo, dd) && crate::timefmt::days_from_civil(y, mo, dd)
            == s.created_at as int / 86400 && iv.created_at == #[trigger] crate::timefmt::iso_chars(
            y,
            mo,
            dd,
            s.created_at as int % 86400,
        ))
    &&& (exists|y: int, mo: int, dd: int|
        crate::timefmt::valid_date(y, mo, dd) && crate::timefmt::days_from_civil(y, mo, dd)
            == s.last_activity as int / 86400 && iv.last_activity
            == #[trigger] crate::timefmt::iso_chars(y, mo, dd, s.last_activity as int % 86400))
}

/// The process-wide table of live sessions.
pub struct Registry {
    pub sessions: Vec<Session>,
    /// Monotonic counter behind default names.
    pub counter: u64,
}

impl Registry {
    /// Names are unique, every session is well formed, and child process
    /// identifiers are non-negative.
    pub open spec fn wf(&self) -> bool {
        &&& (forall|i: int, j: int|
            0 <= i < j < self.sessions@.len() ==> (#[trigger] self.sessions@[i]).name@ != (
            #[trigger] self.sessions@[j]).name@)
        &&& (forall|i: int|
            0 <= i < self.sessions@.len() ==> (#[trigger] self.sessions@[i]).wf()
                && self.sessions@[i].child_pid >= 0)
    }

    /// Whether a session named `n` is present.
    pub open spec fn contains_name(&self, n: Seq<char>) -> bool {
        exists|i: int| 0 <= i < self.sessions@.len() && (#[trigger] self.sessions@[i]).name@ == n
    }

    /// An empty registry.
    pub fn new() -> (r: Registry)
        ensures
            r.wf(),
            r.sessions@.len() == 0,
            r.counter == 0,
    {
        Registry { sessions: Vec::new(), counter: 0 }
    }

    /// Index of the session named `name`, if present.
    fn find(&self, name: &String) -> (r: Option<usize>)
        ensures
            ({
                match r {
                    Some(i) => i < self.sessions@.len() && self.sessions@[i as int].name@
                        == name@ && reg_idx(self.sessions@, name@) == i,
                    None => !self.contains_name(name@) && reg_idx(self.sessions@, name@) == -1,
                }
            }),
    {
        let mut i: usize = 0;
        while i < self.sessions.len()
            invariant
                i <= self.sessions@.len(),
                forall|j: int| 0 <= j < i ==> (#[trigger] self.sessions@[j]).name@ != name@,
            decreases self.sessions@.len() - i,
        {
            if self.sessions[i].name == *name {
                proof {
                    lemma_reg_idx_found(self.sessions@, name@, i as int);
                }
                return Some(i);
            }
            i = i + 1;
        }
        proof {
            lemma_reg_idx_none(self.sessions@, name@);
        }
        None
    }

    /// Whether a session named `name` is present.
    pub fn has_session(&self, name: &String) -> (r: bool)
        ensures
            r == self.contains_name(name@),
    {
        match self.find(name) {
            Some(_) => true,
            None => false,
        }
    }

    /// Borrow the session named `name`.
    pub fn get(&self, name: &String) -> (r: Option<&Session>)
        ensures
            ({
                match r {
                    Some(s) => self.contains_name(name@) && *s == self.sessions@[reg_idx(
                        self.sessions@,
                        name@,
                    )] && s.name@ == name@,
                    None => !self.contains_name(name@),
                }
            }),
    {
        match self.find(name) {
            Some(i) => Some(vstd::std_specs::vec::vec_index(&self.sessions, i)),
            None => None,
        }
    }

    /// Add a freshly spawned session under its name; refused when the
    /// name is already present, handing the record back.
    pub fn install(&mut self, sess: Session) -> (r: Result<(), Session>)
        requires
            old(self).wf(),
            sess.wf(),
            sess.child_pid >= 0,
        ensures
            final(self).wf(),
            final(self).counter == old(self).counter,
            !old(self).contains_name(sess.name@) ==> r is Ok && final(self).sessions@
                == old(self).sessions@.push(sess),
            old(self).contains_name(sess.name@) ==> (r matches Err(s) && s == sess)
                && final(self).sessions@ == old(self).sessions@,
    {
        let present = self.has_session(&sess.name);
        if present {
            Err(sess)
        } else {
            self.sessions.push(sess);
            proof {
                assert forall|i: int, j: int|
                    0 <= i < j < self.sessions@.len() implies (#[trigger] self.sessions@[i]).name@
                    != (#[trigger] self.sessions@[j]).name@ by {
                    if j == self.sessions@.len() - 1 {
                        assert(!old(self).contains_name(self.sessions@[j].name@));
                    }
                }
            }
            Ok(())
        }
    }

    /// Remove the session named `name` and fire its kill signal; an
    /// absent name is an error and changes nothing.
    pub fn kill(&mut self, name: &String) -> (r: Result<(), ()>)
        requires
            old(self).wf(),
        ensures
            final(self).wf(),
            final(self).counter == old(self).counter,
            r is Ok <==> old(self).contains_name(name@),
            r is Ok ==> final(self).sessions@ == old(self).sessions@.remove(
                reg_idx(old(self).sessions@, name@),
            ),
            r is Err ==> final(self).sessions@ == old(self).sessions@,
            !final(self).contains_name(name@),
    {
        match self.find(name) {
            Some(i) => {
                let sess = self.sessions.remove(i);
                match sess.kill_tx {
                    Some(tx) => oneshot_fire(tx),
                    None => {},
                }
                proof {
                    let olds = old(self).sessions@;
                    assert forall|k: int|
                        0 <= k < self.sessions@.len() implies (#[trigger] self.sessions@[k]).name@
                        != name@ by {
                        if k < i as int {
                            assert(self.sessions@[k] == olds[k]);
                        } else {
                            assert(self.sessions@[k] == olds[k + 1]);
                        }
                    }
                }
                Ok(())
            },
            None => Err(()),
        }
    }

    /// Remove every session and fire each kill signal; the count removed.
    pub fn kill_all(&mut self) -> (r: usize)
        requires
            old(self).wf(),
        ensures
            final(self).wf(),
            r == old(self).sessions@.len(),
            final(self).sessions@.len() == 0,
            final(self).counter == old(self).counter,
    {
        let count = self.sessions.len();
        while self.sessions.len() > 0
            invariant
                self.counter == old(self).counter,
            decreases self.sessions@.len(),
        {
            match self.sessions.pop() {
                Some(sess) => {
                    match sess.kill_tx {
                        Some(tx) => oneshot_fire(tx),
                        None => {},
                    }
                },
                None => {},
            }
        }
        count
    }

    /// Remove exactly the sessions whose flag is cleared, returning
    /// their names in order: the verified core of the reaper's sweep,
    /// pinned for every value of the observed liveness flags.
    pub fn reap_flagged(&mut self, alive: &Vec<bool>) -> (r: Vec<String>)
        requires
            old(self).wf(),
            alive@.len() == old(self).sessions@.len(),
        ensures
            final(self).wf(),
            final(self).counter == old(self).counter,
            final(self).sessions@ == keep_flagged(old(self).sessions@, alive@),
            crate::messages::strs_view(r) == dropped_names(old(self).sessions@, alive@),
    {
        let ghost olds = self.sessions@;
        let ghost n = olds.len();
        let mut names: Vec<String> = Vec::new();
        let mut i: usize = 0;
        let mut examined: usize = 0;
        proof {
            assert(olds.take(0) =~= Seq::<Session>::empty());
            assert(alive@.take(0) =~= Seq::<bool>::empty());
            assert(olds.skip(0) =~= olds);
            assert(keep_flagged(olds.take(0), alive@.take(0)) + olds.skip(0) =~= olds);
            assert(crate::messages::strs_view(names) =~= Seq::<Seq<char>>::empty());
        }
        while examined < alive.len()
            invariant
                old(self).wf(),
                olds == old(self).sessions@,
                n == olds.len(),
                alive@.len() == n,
                self.counter == old(self).counter,
                examined <= n,
                i == keep_flagged(olds.take(examined as int), alive@.take(examined as int)).len(),
                i <= self.sessions@.len(),
                self.sessions@ == keep_flagged(
                    olds.take(examined as int),
                    alive@.take(examined as int),
                ) + olds.skip(examined as int),
                crate::messages::strs_view(names) == dropped_names(
                    olds.take(examined as int),
                    alive@.take(examined as int),
                ),
            decreases n - examined,
        {
            let ghost g = examined as int;
            proof {
                assert(self.sessions@.len() == i + (n - g));
                assert(g < n);
                assert(self.sessions@[i as int] == olds[g]);
                assert(olds.take(g + 1) =~= olds.take(g).push(olds[g]));
                assert(alive@.take(g + 1) =~= alive@.take(g).push(alive@[g]));
            }
            let flag = alive[examined];
            proof {
                lemma_keep_flagged_snoc(olds.take(g), alive@.take(g), olds[g], flag);
            }
            if flag {
                proof {
                    vstd::std_specs::vec::axiom_spec_len(&self.sessions);
                }
                i = i + 1;
            } else {
                let sess = self.sessions.remove(i);
                names.push(sess.name);
                proof {
                    assert(crate::messages::strs_view(names) =~= dropped_names(
                        olds.take(g + 1),
                        alive@.take(g + 1),
                    ));
                }
            }
            proof {
                assert(self.sessions@ =~= keep_flagged(olds.take(g + 1), alive@.take(g + 1))
                    + olds.skip(g + 1));
            }
            examined = examined + 1;
        }
        proof {
            assert(olds.take(n as int) =~= olds);
            assert(alive@.take(n as int) =~= alive@);
            assert(olds.skip(n as int) =~= Seq::<Session>::empty());
            assert(self.sessions@ =~= keep_flagged(olds, alive@));
            lemma_keep_flagged_sub(olds, alive@);
            assert forall|k: int|
                0 <= k < self.sessions@.len() implies (#[trigger] self.sessions@[k]).wf()
                && self.sessions@[k].child_pid >= 0 by {
                let i2 = choose|i2: int|
                    0 <= i2 < olds.len() && keep_flagged(olds, alive@)[k] == olds[i2];
                assert(olds[i2].wf() && olds[i2].child_pid >= 0);
            }
            assert forall|a: int, b: int|
                0 <= a < b < self.sessions@.len() implies (#[trigger] self.sessions@[a]).name@ != (
            #[trigger] self.sessions@[b]).name@ by {
                lemma_keep_distinct(olds, alive@, a, b);
            }
        }
        names
    }

    /// Remove exactly the sessions whose child is no longer alive,
    /// returning their names: one liveness probe per session, then the
    /// exact `reap_flagged` sweep over the observed flags.
    pub fn reap_dead(&mut self) -> (r: Vec<String>)
        requires
            old(self).wf(),
        ensures
            final(self).wf(),
            final(self).counter == old(self).counter,
            exists|fl: Seq<bool>|
                fl.len() == old(self).sessions@.len() && final(self).sessions@ == keep_flagged(
                    old(self).sessions@,
                    fl,
                ) && crate::messages::strs_view(r) == dropped_names(old(self).sessions@, fl),
    {
        let mut alive: Vec<bool> = Vec::new();
        let mut i: usize = 0;
        while i < self.sessions.len()
            invariant
                self == old(self),
                alive@.len() == i,
                i <= self.sessions@.len(),
            decreases self.sessions@.len() - i,
        {
            let flag = self.sessions[i].is_alive();
            alive.push(flag);
            i = i + 1;
        }
        let names = self.reap_flagged(&alive);
        proof {
            let fl = alive@;
            assert(fl.len() == old(self).sessions@.len() && self.sessions@ == keep_flagged(
                old(self).sessions@,
                fl,
            ) && crate::messages::strs_view(names) == dropped_names(old(self).sessions@, fl));
        }
        names
    }
}


/// Two session lists with the same names at every position agree on
/// where any name stands.
proof fn lemma_reg_idx_same_names(ss1: Seq<Session>, ss2: Seq<Session>, n: Seq<char>)
    requires
        ss1.len() == ss2.len(),
        forall|i: int| 0 <= i < ss1.len() ==> (#[trigger] ss1[i]).name@ == ss2[i].name@,
    ensures
        reg_idx(ss1, n) == reg_idx(ss2, n),
    decreases ss1.len(),
{
    if ss1.len() > 0 {
        assert(forall|i: int|
            0 <= i < ss1.skip(1).len() ==> (#[trigger] ss1.skip(1)[i]).name@ == ss1[i + 1].name@
                && ss2.skip(1)[i].name@ == ss2[i + 1].name@);
        lemma_reg_idx_same_names(ss1.skip(1), ss2.skip(1), n);
    }
}

/// Distinct positions of the kept sequence come from distinct positions
/// of the original, so distinct names survive.
proof fn lemma_keep_distinct(ss: Seq<Session>, fl: Seq<bool>, a: int, b: int)
    requires
        forall|i: int, j: int|
            0 <= i < j < ss.len() ==> (#[trigger] ss[i]).name@ != (#[trigger] ss[j]).name@,
        0 <= a < b < keep_flagged(ss, fl).len(),
    ensures
        keep_flagged(ss, fl)[a].name@ != keep_flagged(ss, fl)[b].name@,
    decreases ss.len(),
{
    if ss.len() > 0 {
        let tail = keep_flagged(ss.skip(1), fl.skip(1));
        assert(forall|i: int, j: int|
            0 <= i < j < ss.skip(1).len() ==> (#[trigger] ss.skip(1)[i]).name@ != (
            #[trigger] ss.skip(1)[j]).name@) by {
            assert(forall|i: int|
                0 <= i < ss.skip(1).len() ==> ss.skip(1)[i] == (#[trigger] ss[i + 1]));
        }
        if 0 < fl.len() && fl[0] {
            if a == 0 {
                lemma_keep_flagged_sub(ss.skip(1), fl.skip(1));
                let i2 = choose|i2: int|
                    0 <= i2 < ss.skip(1).len() && tail[b - 1] == ss.skip(1)[i2];
                assert(ss.skip(1)[i2] == ss[i2 + 1]);
                assert(keep_flagged(ss, fl)[b] == tail[b - 1]);
            } else {
                lemma_keep_distinct(ss.skip(1), fl.skip(1), a - 1, b - 1);
            }
        } else {
            lemma_keep_distinct(ss.skip(1), fl.skip(1), a, b);
        }
    }
}


/// The `j`-th default-name candidate after counter value `base`, with
/// 64-bit wraparound.
pub open spec fn cand_val(base: u64, j: int) -> u64 {
    ((base + j) % 0x1_0000_0000_0000_0000) as u64
}

proof fn lemma_cand_step(base: u64, j: int)
    requires
        j >= 0,
    ensures
        cand_val(base, j + 1) == vstd::wrapping::u64_specs::wrapping_add(cand_val(base, j), 1),
{
    let m: int = 0x1_0000_0000_0000_0000;
    let v: int = (base + j) % m;
    vstd::arithmetic::div_mod::lemma_mod_bound(base + j, m);
    vstd::arithmetic::div_mod::lemma_add_mod_noop(base + j, 1, m);
    vstd::arithmetic::div_mod::lemma_small_mod(1nat, m as nat);
    if v + 1 == m {
        vstd::arithmetic::div_mod::lemma_mod_self_0(m);
    } else {
        vstd::arithmetic::div_mod::lemma_small_mod((v + 1) as nat, m as nat);
    }
}

/// Candidate positions compose: `y` more steps after `x` steps is
/// `x + y` steps from the start.
pub proof fn lemma_cand_compose(base: u64, x: int, y: int)
    requires
        x >= 0,
        y >= 0,
    ensures
        cand_val(cand_val(base, x), y) == cand_val(base, x + y),
{
    let m: int = 0x1_0000_0000_0000_0000;
    vstd::arithmetic::div_mod::lemma_mod_bound(base + x, m);
    vstd::arithmetic::div_mod::lemma_add_mod_noop(base + x, y, m);
    vstd::arithmetic::div_mod::lemma_add_mod_noop_right((base + x) % m, y, m);
}

/// Distinct candidate positions within one 64-bit wrap mint distinct
/// decimal names: with `lemma_cand_compose`, any two names minted by
/// successive calls render distinct counter candidates and so differ.
pub proof fn lemma_minted_names_distinct(base: u64, a1: int, a2: int)
    requires
        0 <= a1 < a2 < 0x1_0000_0000_0000_0000,
    ensures
        dec_digits(cand_val(base, a1) as int) != dec_digits(cand_val(base, a2) as int),
{
    lemma_cand_distinct(base, a1, a2);
    if dec_digits(cand_val(base, a1) as int) == dec_digits(cand_val(base, a2) as int) {
        crate::timefmt::lemma_dec_digits_injective(
            cand_val(base, a1) as int,
            cand_val(base, a2) as int,
        );
    }
}

proof fn lemma_cand_distinct(base: u64, j1: int, j2: int)
    requires
        0 <= j1 < j2 < 0x1_0000_0000_0000_0000,
    ensures
        cand_val(base, j1) != cand_val(base, j2),
{
    let m: int = 0x1_0000_0000_0000_0000;
    if cand_val(base, j1) == cand_val(base, j2) {
        vstd::arithmetic::div_mod::lemma_fundamental_div_mod(base + j1, m);
        vstd::arithmetic::div_mod::lemma_fundamental_div_mod(base + j2, m);
        vstd::arithmetic::div_mod::lemma_mod_bound(base + j1, m);
        vstd::arithmetic::div_mod::lemma_mod_bound(base + j2, m);
        let q1 = (base + j1) / m;
        let q2 = (base + j2) / m;
        assert(j2 - j1 == m * (q2 - q1));
        assert(q2 - q1 >= 1 ==> 0x1_0000_0000_0000_0000 * (q2 - q1)
            >= 0x1_0000_0000_0000_0000);
        assert(q2 - q1 <= 0 ==> 0x1_0000_0000_0000_0000 * (q2 - q1) <= 0);
    }
}

impl Registry {
    /// Return the requested name unchanged, or mint a default one: the
    /// first decimal rendering of the running counter that names no
    /// current session.  A minted name is never one already present; it
    /// renders the `a`-th counter candidate, and the counter advances
    /// just past it (with the 64-bit wraparound the counter admits).
    pub fn allocate_name(&mut self, requested: Option<String>) -> (r: String)
        requires
            old(self).wf(),
        ensures
            final(self).wf(),
            final(self).sessions@ == old(self).sessions@,
            (requested matches Some(n) ==> r == n && final(self).counter == old(self).counter),
            (requested is None ==> !final(self).contains_name(r@)),
            (requested is None ==> exists|a: int|
                #![trigger cand_val(old(self).counter, a)]
                {
                    &&& 0 <= a <= old(self).sessions@.len()
                    &&& r@ == dec_digits(cand_val(old(self).counter, a) as int)
                    &&& final(self).counter == cand_val(old(self).counter, a + 1)
                }),
    {
        match requested {
            Some(n) => n,
            None => {
                let ghost olds = self.sessions@;
                let ghost base = self.counter;
                let ghost mut seen: Set<int> = Set::empty();
                let ghost mut a: int = 0;
                let nlen = self.sessions.len();
                proof {
                    vstd::arithmetic::div_mod::lemma_small_mod(
                        base as nat,
                        0x1_0000_0000_0000_0000nat,
                    );
                }
                loop
                    invariant
                        requested is None,
                        base == old(self).counter,
                        self.sessions@ == olds,
                        olds == old(self).sessions@,
                        old(self).wf(),
                        nlen == olds.len(),
                        olds.len() < 0x1_0000_0000_0000_0000,
                        0 <= a <= olds.len(),
                        seen.finite(),
                        seen.len() == a,
                        seen.subset_of(vstd::set_lib::set_int_range(0, olds.len() as int)),
                        forall|idx: int|
                            seen.contains(idx) ==> exists|j: int|
                                0 <= j < a && (#[trigger] olds[idx]).name@ == dec_digits(
                                    cand_val(base, j) as int,
                                ),
                        self.counter == cand_val(base, a),
                    decreases olds.len() - a,
                {
                    let name = crate::timefmt::u64_to_string(self.counter);
                    let ghost c = self.counter;
                    self.counter = self.counter.wrapping_add(1);
                    proof {
                        lemma_cand_step(base, a);
                    }
                    match self.find(&name) {
                        None => {
                            proof {
                                assert(name@ == dec_digits(cand_val(base, a) as int));
                                assert(self.counter == cand_val(base, a + 1));
                            }
                            return name;
                        },
                        Some(i) => {
                            proof {
                                assert(olds[i as int].name@ == dec_digits(c as int));
                                if seen.contains(i as int) {
                                    let j = choose|j: int|
                                        0 <= j < a && olds[i as int].name@ == dec_digits(
                                            cand_val(base, j) as int,
                                        );
                                    crate::timefmt::lemma_dec_digits_injective(
                                        cand_val(base, j) as int,
                                        c as int,
                                    );
                                    lemma_cand_distinct(base, j, a);
                                    assert(false);
                                }
                                if a == olds.len() {
                                    vstd::set_lib::lemma_int_range(0, olds.len() as int);
                                    vstd::set_lib::lemma_subset_equality(
                                        seen,
                                        vstd::set_lib::set_int_range(0, olds.len() as int),
                                    );
                                    assert(seen.contains(i as int));
                                    assert(false);
                                }
                                seen = seen.insert(i as int);
                                a = a + 1;
                            }
                        },
                    }
                }
            },
        }
    }
}


impl Registry {
    /// Append one PTY output chunk to the named session's scrollback and
    /// stamp its last activity; an absent name changes nothing.
    pub fn record_output(&mut self, name: &String, data: &[u8], now: u64) -> (r: bool)
        requires
            old(self).wf(),
        ensures
            final(self).wf(),
            final(self).counter == old(self).counter,
            r == old(self).contains_name(name@),
            r ==> ({
                let i = reg_idx(old(self).sessions@, name@);
                let olds = old(self).sessions@[i];
                final(self).sessions@ == old(self).sessions@.update(
                    i,
                    Session {
                        last_activity: now,
                        scrollback: final(self).sessions@[i].scrollback,
                        ..olds
                    },
                ) && final(self).sessions@[i].scrollback@ == crate::scrollback::push_model(
                    olds.scrollback@,
                    data@,
                    crate::scrollback::SCROLLBACK_SIZE as nat,
                )
            }),
            !r ==> final(self).sessions@ == old(self).sessions@,
    {
        match self.find(name) {
            Some(i) => {
                let sess = &mut self.sessions[i];
                sess.scrollback.push(data);
                sess.last_activity = now;
                proof {
                    assert forall|a: int, b: int|
                        0 <= a < b < self.sessions@.len() implies (#[trigger] self.sessions@[
                    a]).name@ != (#[trigger] self.sessions@[b]).name@ by {
                        assert(old(self).sessions@[a].name@ != old(self).sessions@[b].name@);
                    }
                }
                true
            },
            None => false,
        }
    }

    /// Bind a metadata key on the named session.
    pub fn set_env_on(&mut self, name: &String, key: String, value: String) -> (r: bool)
        requires
            old(self).wf(),
        ensures
            final(self).wf(),
            final(self).counter == old(self).counter,
            r == old(self).contains_name(name@),
            r ==> ({
                let i = reg_idx(old(self).sessions@, name@);
                &&& final(self).sessions@.len() == old(self).sessions@.len()
                &&& (forall|j: int|
                    0 <= j < old(self).sessions@.len() && j != i ==> final(self).sessions@[j]
                        == #[trigger] old(self).sessions@[j])
                &&& final(self).sessions@[i].name == old(self).sessions@[i].name
                &&& final(self).contains_name(name@)
                &&& reg_idx(final(self).sessions@, name@) == i
                &&& env_get(pairs_view(final(self).sessions@[i].env_vars), key@)
                    == Option::Some(value@)
            }),
            !r ==> final(self).sessions@ == old(self).sessions@,
    {
        match self.find(name) {
            Some(i) => {
                let ghost olds = self.sessions@;
                let ghost oldsess = self.sessions@[i as int];
                let sess = &mut self.sessions[i];
                let ghost k = key@;
                let ghost v = value@;
                sess.set_env(key, value);
                proof {
                    let ps = pairs_view(final(sess).env_vars);
                    let oldps = pairs_view(oldsess.env_vars);
                    lemma_env_idx(oldps, k);
                    if env_idx(oldps, k) >= 0 {
                        lemma_env_idx_found(ps, k, env_idx(oldps, k));
                    } else {
                        lemma_env_idx_found(ps, k, oldps.len() as int);
                    }
                    assert forall|a: int, b: int|
                        0 <= a < b < self.sessions@.len() implies (#[trigger] self.sessions@[
                    a]).name@ != (#[trigger] self.sessions@[b]).name@ by {
                        assert(olds[a].name@ != olds[b].name@);
                    }
                    assert(forall|j: int|
                        0 <= j < olds.len() ==> (#[trigger] self.sessions@[j]).name@
                            == olds[j].name@);
                    lemma_reg_idx_same_names(self.sessions@, olds, name@);
                }
                true
            },
            None => false,
        }
    }

    /// The last `lines` lines of the named session's scrollback.
    pub fn capture(&self, name: &String, lines: usize) -> (r: Option<Vec<u8>>)
        ensures
            ({
                match r {
                    Some(b) => self.contains_name(name@) && b@
                        == crate::scrollback::last_lines_model(
                        self.sessions@[reg_idx(self.sessions@, name@)].scrollback@,
                        lines as nat,
                    ),
                    None => !self.contains_name(name@),
                }
            }),
    {
        match self.find(name) {
            Some(i) => Some(self.sessions[i].scrollback.last_lines(lines)),
            None => None,
        }
    }

    /// The wire-visible view of one session at time `now`.
    fn build_info(sess: &Session, now: u64) -> (r: crate::messages::SessionInfo)
        requires
            sess.child_pid >= 0,
        ensures
            info_matches(*sess, now, crate::messages::info_view(r)),
    {
        let uptime_secs = if now >= sess.created_at {
            now - sess.created_at
        } else {
            0
        };
        let idle_secs = if now >= sess.last_activity {
            now - sess.last_activity
        } else {
            0
        };
        crate::messages::SessionInfo {
            name: sess.name.clone(),
            command: sess.command.clone(),
            pid: sess.child_pid as u32,
            alive: pid_alive(sess.child_pid),
            created_at: crate::timefmt::format_system_time(sess.created_at),
            uptime_secs,
            last_activity: crate::timefmt::format_system_time(sess.last_activity),
            idle_secs,
        }
    }

    /// A snapshot of every session, computed from the clock reading `now`.
    pub fn list(&self, now: u64) -> (r: Vec<crate::messages::SessionInfo>)
        requires
            self.wf(),
        ensures
            r@.len() == self.sessions@.len(),
            forall|i: int|
                0 <= i < r@.len() ==> info_matches(
                    self.sessions@[i],
                    now,
                    crate::messages::info_view(#[trigger] r@[i]),
                ),
    {
        let mut out: Vec<crate::messages::SessionInfo> = Vec::new();
        let mut i: usize = 0;
        while i < self.sessions.len()
            invariant
                self.wf(),
                i <= self.sessions@.len(),
                out@.len() == i,
                forall|j: int|
                    0 <= j < i ==> info_matches(
                        self.sessions@[j],
                        now,
                        crate::messages::info_view(#[trigger] out@[j]),
                    ),
            decreases self.sessions@.len() - i,
        {
            let info = Registry::build_info(&self.sessions[i], now);
            out.push(info);
            i = i + 1;
        }
        out
    }

    /// The snapshot of the named session alone, or nothing.
    pub fn info(&self, name: &String, now: u64) -> (r: Option<crate::messages::SessionInfo>)
        requires
            self.wf(),
        ensures
            ({
                match r {
                    Some(info) => self.contains_name(name@) && info_matches(
                        self.sessions@[reg_idx(self.sessions@, name@)],
                        now,
                        crate::messages::info_view(info),
                    ),
                    None => !self.contains_name(name@),
                }
            }),
    {
        match self.find(name) {
            Some(i) => Some(Registry::build_info(&self.sessions[i], now)),
            None => None,
        }
    }
}

// ---------------------------------------------------------------------------
// Laws of the registry.
// ---------------------------------------------------------------------------

/// Installing a session makes its name present, so a second install under
/// the same name is refused and changes nothing.
pub proof fn lemma_install_twice(reg: Registry, after_first: Registry, sess: Session)
    requires
        reg.wf(),
        !reg.contains_name(sess.name@),
        after_first.sessions@ == reg.sessions@.push(sess),
    ensures
        after_first.contains_name(sess.name@),
{
    assert(after_first.sessions@[reg.sessions@.len() as int].name@ == sess.name@);
}

/// After a kill removed a name, the name is gone, so a second kill of the
/// same name is the error case and removes nothing.
pub proof fn lemma_kill_twice(reg: Registry, name: Seq<char>)
    requires
        reg.wf(),
        !reg.contains_name(name),
    ensures
        reg_idx(reg.sessions@, name) == -1,
{
    lemma_reg_idx_none(reg.sessions@, name);
}


/// Bind `key` to `value` in `vec`, replacing any previous binding.
pub fn env_put(vec: &mut EnvPairs, key: String, value: String)
    requires
        env_unique(pairs_view(*old(vec))),
    ensures
        env_unique(pairs_view(*final(vec))),
        pairs_view(*final(vec)) == (if env_idx(pairs_view(*old(vec)), key@) >= 0 {
            pairs_view(*old(vec)).update(
                env_idx(pairs_view(*old(vec)), key@),
                (key@, value@),
            )
        } else {
            pairs_view(*old(vec)).push((key@, value@))
        }),
{
    let ghost ps = pairs_view(*vec);
    proof {
        lemma_env_idx(ps, key@);
    }
    let mut i: usize = 0;
    while i < vec.len()
        invariant
            i <= vec@.len(),
            *vec == *old(vec),
            env_unique(pairs_view(*old(vec))),
            ps == pairs_view(*vec),
            forall|j: int| 0 <= j < i ==> (#[trigger] ps[j]).0 != key@,
        decreases vec@.len() - i,
    {
        proof {
            assert(ps[i as int] == (vec@[i as int].0@, vec@[i as int].1@));
        }
        if vec[i].0 == key {
            proof {
                assert(env_idx(ps, key@) == i) by {
                    lemma_env_idx_found(ps, key@, i as int);
                }
            }
            vec.set(i, (key, value));
            proof {
                let ups = ps.update(i as int, (key@, value@));
                assert(pairs_view(*vec) =~= ups);
                assert forall|a: int, b: int| 0 <= a < b < ups.len() implies (
                #[trigger] ups[a]).0 != (#[trigger] ups[b]).0 by {
                    assert(ps[a].0 != ps[b].0);
                    assert(ps[i as int].0 == key@);
                }
            }
            return ;
        }
        i = i + 1;
    }
    proof {
        assert(env_idx(ps, key@) == -1) by {
            lemma_env_idx_none(ps, key@);
        }
    }
    vec.push((key, value));
    proof {
        let ups = ps.push((key@, value@));
        assert(pairs_view(*vec) =~= ups);
        assert forall|a: int, b: int| 0 <= a < b < ups.len() implies (#[trigger] ups[a]).0
            != (#[trigger] ups[b]).0 by {
            if b < ps.len() {
                assert(ps[a].0 != ps[b].0);
            } else {
                assert(ps[a].0 != key@);
            }
        }
    }
}

/// Collapse duplicate keys, the later binding winning, as a map built
/// from the pairs would; input without duplicates passes unchanged.
pub fn env_dedup(src: EnvPairs) -> (r: EnvPairs)
    ensures
        env_unique(pairs_view(r)),
        env_unique(pairs_view(src)) ==> pairs_view(r) == pairs_view(src),
        forall|k: Seq<char>|
            (env_idx(pairs_view(r), k) >= 0 <==> #[trigger] env_idx(pairs_view(src), k) >= 0
                || env_idx(pairs_view(src), k) >= 0),
{
    let ghost sv = pairs_view(src);
    let mut out: EnvPairs = Vec::new();
    proof {
        assert(pairs_view(out) =~= Seq::<(Seq<char>, Seq<char>)>::empty());
    }
    let mut i: usize = 0;
    while i < src.len()
        invariant
            i <= src@.len(),
            sv == pairs_view(src),
            env_unique(pairs_view(out)),
            forall|k: Seq<char>|
                #[trigger] env_idx(pairs_view(out), k) >= 0 <==> exists|j: int|
                    0 <= j < i && sv[j].0 == k,
            env_unique(sv) ==> pairs_view(out) == sv.take(i as int),
        decreases src@.len() - i,
    {
        let ghost before = pairs_view(out);
        proof {
            assert(sv[i as int] == (src@[i as int].0@, src@[i as int].1@));
            lemma_env_idx(before, sv[i as int].0);
        }
        env_put(&mut out, src[i].0.clone(), src[i].1.clone());
        proof {
            let after = pairs_view(out);
            let k0 = sv[i as int].0;
            if env_idx(before, k0) >= 0 {
                assert(after =~= before.update(env_idx(before, k0), (k0, sv[i as int].1)));
                assert forall|k: Seq<char>| #[trigger] env_idx(after, k) >= 0 implies (
                exists|j: int| 0 <= j < i + 1 && sv[j].0 == k) by {
                    lemma_env_idx(after, k);
                    let ii = env_idx(after, k);
                    if ii == env_idx(before, k0) {
                        assert(sv[i as int].0 == k);
                    } else {
                        assert(before[ii].0 == k);
                        lemma_env_idx_at(before, ii);
                    }
                }
                assert forall|k: Seq<char>| (exists|j: int| 0 <= j < i + 1 && sv[j].0 == k)
                    implies #[trigger] env_idx(after, k) >= 0 by {
                    lemma_env_idx(after, k);
                    if env_idx(after, k) < 0 {
                        let j = choose|j: int| 0 <= j < i + 1 && sv[j].0 == k;
                        if j < i {
                            lemma_env_idx(before, k);
                            let ii = env_idx(before, k);
                            if ii == env_idx(before, k0) {
                                assert(after[ii].0 == k0);
                            } else {
                                assert(after[ii].0 == k);
                            }
                        } else {
                            assert(after[env_idx(before, k0)].0 == k0);
                        }
                    }
                }
            } else {
                assert(after =~= before.push((k0, sv[i as int].1)));
                assert forall|k: Seq<char>| #[trigger] env_idx(after, k) >= 0 implies (
                exists|j: int| 0 <= j < i + 1 && sv[j].0 == k) by {
                    lemma_env_idx(after, k);
                    let ii = env_idx(after, k);
                    if ii < before.len() {
                        assert(before[ii].0 == k);
                        lemma_env_idx_at(before, ii);
                    } else {
                        assert(sv[i as int].0 == k);
                    }
                }
                assert forall|k: Seq<char>| (exists|j: int| 0 <= j < i + 1 && sv[j].0 == k)
                    implies #[trigger] env_idx(after, k) >= 0 by {
                    lemma_env_idx(after, k);
                    if env_idx(after, k) < 0 {
                        let j = choose|j: int| 0 <= j < i + 1 && sv[j].0 == k;
                        if j < i {
                            lemma_env_idx(before, k);
                            assert(after[env_idx(before, k)].0 == k);
                        } else {
                            assert(after[before.len() as int].0 == k0);
                        }
                    }
                }
            }
            if env_unique(sv) {
                assert(sv.take(i + 1) =~= sv.take(i as int).push(sv[i as int]));
                if env_idx(before, k0) >= 0 {
                    lemma_env_idx(before, k0);
                    let jj = choose|j: int| 0 <= j < i && sv[j].0 == k0;
                    assert(sv[jj].0 == sv[i as int].0);
                    assert(false);
                }
                assert(pairs_view(out) =~= sv.take(i + 1));
            }
        }
        i = i + 1;
    }
    proof {
        if env_unique(sv) {
            assert(sv.take(src@.len() as int) =~= sv);
        }
        assert forall|k: Seq<char>|
            (env_idx(pairs_view(out), k) >= 0 <==> #[trigger] env_idx(sv, k) >= 0) by {
            lemma_env_idx(sv, k);
            if env_idx(sv, k) >= 0 {
                lemma_env_idx_at(sv, env_idx(sv, k));
            }
        }
    }
    out
}

/// An in-range index with key `k` forces `env_idx` to find `k`.
pub proof fn lemma_env_idx_at(ps: Seq<(Seq<char>, Seq<char>)>, i: int)
    requires
        0 <= i < ps.len(),
    ensures
        env_idx(ps, ps[i].0) >= 0,
    decreases ps.len(),
{
    if i > 0 && ps[0].0 != ps[i].0 {
        lemma_env_idx_at(ps.skip(1), i - 1);
        assert(ps.skip(1)[i - 1] == ps[i]);
    }
}


/// Another handle to the session's input queue.
pub fn clone_input_sender(sess: &Session) -> mpsc::Sender<Vec<u8>> {
    clone_byte_sender(&sess.input_tx)
}

/// A fresh subscription to the session's output broadcast.
pub fn subscribe_to_output(sess: &Session) -> broadcast::Receiver<Vec<u8>> {
    subscribe_output(&sess.output_tx)
}

/// Another handle to the session's resize queue.
pub fn clone_resize_sender_of(sess: &Session) -> mpsc::Sender<(u16, u16)> {
    clone_resize_sender(&sess.resize_tx)
}


/// Two maps with the same key at every position agree on where any key
/// stands.
proof fn lemma_env_idx_same_keys(
    ps1: Seq<(Seq<char>, Seq<char>)>,
    ps2: Seq<(Seq<char>, Seq<char>)>,
    k: Seq<char>,
)
    requires
        ps1.len() == ps2.len(),
        forall|j: int| 0 <= j < ps1.len() ==> (#[trigger] ps1[j]).0 == ps2[j].0,
    ensures
        env_idx(ps1, k) == env_idx(ps2, k),
    decreases ps1.len(),
{
    if ps1.len() > 0 {
        assert(forall|j: int|
            0 <= j < ps1.skip(1).len() ==> (#[trigger] ps1.skip(1)[j]).0 == ps1[j + 1].0
                && ps2.skip(1)[j].0 == ps2[j + 1].0);
        lemma_env_idx_same_keys(ps1.skip(1), ps2.skip(1), k);
    }
}

/// What `env_put` leaves for every key: the written key maps to the new
/// value, and every other key keeps its old binding.
pub proof fn lemma_env_get_put(
    ps: Seq<(Seq<char>, Seq<char>)>,
    k0: Seq<char>,
    v0: Seq<char>,
    ps2: Seq<(Seq<char>, Seq<char>)>,
)
    requires
        env_unique(ps),
        ps2 == (if env_idx(ps, k0) >= 0 {
            ps.update(env_idx(ps, k0), (k0, v0))
        } else {
            ps.push((k0, v0))
        }),
    ensures
        forall|k: Seq<char>|
            #[trigger] env_get(ps2, k) == (if k == k0 {
                Option::Some(v0)
            } else {
                env_get(ps, k)
            }),
{
    lemma_env_idx(ps, k0);
    assert forall|k: Seq<char>|
        #[trigger] env_get(ps2, k) == (if k == k0 {
            Option::Some(v0)
        } else {
            env_get(ps, k)
        }) by {
        lemma_env_idx(ps, k);
        if env_idx(ps, k0) >= 0 {
            let i0 = env_idx(ps, k0);
            assert(ps[i0].0 == k0);
            assert(forall|j: int| 0 <= j < ps2.len() ==> (#[trigger] ps2[j]).0 == ps[j].0);
            lemma_env_idx_same_keys(ps2, ps, k);
            lemma_env_idx(ps2, k);
            if k == k0 {
                assert(env_idx(ps2, k) == i0);
                assert(ps2[i0].1 == v0);
            } else {
                let ii = env_idx(ps, k);
                if ii >= 0 {
                    assert(ps[ii].0 == k);
                    assert(ii != i0);
                    assert(ps2[ii] == ps[ii]);
                }
            }
        } else {
            if k == k0 {
                assert(forall|j: int| 0 <= j < ps.len() ==> (#[trigger] ps[j]).0 != k0);
                assert(forall|j: int|
                    0 <= j < ps.len() ==> (#[trigger] ps2[j]).0 == ps[j].0);
                lemma_env_idx_found(ps2, k0, ps.len() as int);
                assert(ps2[ps.len() as int].1 == v0);
            } else {
                let ii = env_idx(ps, k);
                if ii >= 0 {
                    assert(ps[ii].0 == k);
                    assert(forall|j: int| 0 <= j < ii ==> (#[trigger] ps2[j]).0 == ps[j].0);
                    lemma_env_idx_found(ps2, k, ii);
                    assert(ps2[ii] == ps[ii]);
                } else {
                    assert(forall|j: int| 0 <= j < ps.len() ==> (#[trigger] ps[j]).0 != k);
                    assert(forall|j: int|
                        0 <= j < ps2.len() ==> (#[trigger] ps2[j]).0 != k) by {
                        assert(forall|j: int|
                            0 <= j < ps.len() ==> (#[trigger] ps2[j]).0 == ps[j].0);
                        assert(ps2[ps.len() as int].0 == k0);
                    }
                    lemma_env_idx_none(ps2, k);
                }
            }
        }
    }
}

} // verus!






