//! The lifecycle of remote shell sessions, one per host label: connect,
//! health, exclusive use by one in-flight command at a time, and clean
//! teardown.  The transport itself lives outside this crate; the manager
//! here is the book-keeping every remote operation must pass through.

use vstd::prelude::*;
use vstd::pervasive::VecAdditionalExecFns;
use crate::control::ExecError;
use crate::text::str_eq;

verus! {

/// Where one host's session stands.
#[derive(Clone, Copy, Debug, PartialEq, Eq, Structural)]
pub enum SessionState {
    Disconnected,
    Connecting,
    Connected,
    Failed,
}

/// One host's session entry: its state, whether a command is in flight on
/// it, and when the last successful round-trip finished.
#[derive(Clone, Debug)]
pub struct SessionEntry {
    pub host: String,
    pub state: SessionState,
    pub busy: bool,
    pub last_ok_ms: u64,
}

/// Ghost picture of a session entry.
pub ghost struct EntryView {
    pub host: Seq<char>,
    pub state: SessionState,
    pub busy: bool,
    pub last_ok_ms: u64,
}

impl View for SessionEntry {
    type V = EntryView;

    open spec fn view(&self) -> EntryView {
        EntryView {
            host: self.host@,
            state: self.state,
            busy: self.busy,
            last_ok_ms: self.last_ok_ms,
        }
    }
}

/// Index of the entry for host `h`, or a negative value if none exists.
pub open spec fn spec_find_host(es: Seq<EntryView>, h: Seq<char>) -> int
    decreases es.len(),
{
    if es.len() == 0 {
        -1
    } else if es[0].host == h {
        0
    } else {
        let r = spec_find_host(es.drop_first(), h);
        if r < 0 {
            -1
        } else {
            r + 1
        }
    }
}

/// What `spec_find_host` returns: a matching index no later than any
/// other.
pub proof fn lemma_find_host(es: Seq<EntryView>, h: Seq<char>)
    ensures
        spec_find_host(es, h) >= 0 ==> spec_find_host(es, h) < es.len() && es[spec_find_host(
            es,
            h,
        )].host == h,
        forall|j: int| 0 <= j < es.len() && es[j].host == h ==> 0 <= spec_find_host(es, h) <= j,
    decreases es.len(),
{
    if es.len() == 0 {
    } else if es[0].host == h {
    } else {
        lemma_find_host(es.drop_first(), h);
        let r = spec_find_host(es.drop_first(), h);
        if r >= 0 {
            assert(es[r + 1] == es.drop_first()[r]);
        }
        assert forall|j: int| 0 <= j < es.len() && es[j].host == h implies 0 <= spec_find_host(
            es,
            h,
        ) <= j by {
            assert(j != 0);
            assert(es.drop_first()[j - 1] == es[j]);
        }
    }
}

/// Replacing an entry by one for the same host moves no index around.
pub proof fn lemma_find_host_update(es: Seq<EntryView>, i: int, e: EntryView, h: Seq<char>)
    requires
        0 <= i < es.len(),
        e.host == es[i].host,
    ensures
        spec_find_host(es.update(i, e), h) == spec_find_host(es, h),
    decreases es.len(),
{
    if i == 0 {
        assert(es.update(0, e)[0] == e);
        if es[0].host != h {
            assert(es.update(0, e).drop_first() =~= es.drop_first());
        }
    } else {
        assert(es.update(i, e)[0] == es[0]);
        if es[0].host != h {
            assert(es.update(i, e).drop_first() =~= es.drop_first().update(i - 1, e));
            lemma_find_host_update(es.drop_first(), i - 1, e, h);
        }
    }
}

/// Appending an entry for a fresh host: every present host keeps its
/// index; the fresh host lands at the end.
pub proof fn lemma_find_host_push(es: Seq<EntryView>, e: EntryView, h: Seq<char>)
    ensures
        spec_find_host(es.push(e), h) == if spec_find_host(es, h) >= 0 {
            spec_find_host(es, h)
        } else if e.host == h {
            es.len() as int
        } else {
            -1
        },
    decreases es.len(),
{
    if es.len() == 0 {
        assert(es.push(e)[0] == e);
        if e.host != h {
            assert(es.push(e).drop_first() =~= Seq::<EntryView>::empty());
            assert(spec_find_host(Seq::<EntryView>::empty(), h) == -1);
            assert(spec_find_host(es.push(e), h) == -1);
        }
    } else {
        assert(es.push(e)[0] == es[0]);
        if es[0].host != h {
            assert(es.push(e).drop_first() =~= es.drop_first().push(e));
            lemma_find_host_push(es.drop_first(), e, h);
        }
    }
}

/// The state of host `h`: `Disconnected` when no entry exists.
pub open spec fn spec_state_of(es: Seq<EntryView>, h: Seq<char>) -> SessionState {
    let i = spec_find_host(es, h);
    if i >= 0 {
        es[i].state
    } else {
        SessionState::Disconnected
    }
}

/// Whether a command is in flight on host `h`'s session.
pub open spec fn spec_busy_of(es: Seq<EntryView>, h: Seq<char>) -> bool {
    let i = spec_find_host(es, h);
    i >= 0 && es[i].busy
}

/// When host `h`'s session last completed a round-trip.
pub open spec fn spec_last_ok_of(es: Seq<EntryView>, h: Seq<char>) -> u64 {
    let i = spec_find_host(es, h);
    if i >= 0 {
        es[i].last_ok_ms
    } else {
        0
    }
}

/// Whether a command may be put on host `h`'s session now: connected and
/// nothing in flight.
pub open spec fn spec_can_acquire(es: Seq<EntryView>, h: Seq<char>) -> bool {
    spec_state_of(es, h) is Connected && !spec_busy_of(es, h)
}

/// The table with host `h`'s in-flight flag set to `b`; without an entry
/// for `h` the table is unchanged.
pub open spec fn spec_with_busy(es: Seq<EntryView>, h: Seq<char>, b: bool) -> Seq<EntryView> {
    let i = spec_find_host(es, h);
    if i >= 0 {
        es.update(i, EntryView { busy: b, ..es[i] })
    } else {
        es
    }
}

/// Taking the session of one host for one command shuts every later
/// taker out: once a command is in flight, the same host's session can
/// not be acquired again until it is released.  One session is one
/// ordered command stream.
pub proof fn lemma_session_serialized(es: Seq<EntryView>, h: Seq<char>)
    ensures
        !spec_can_acquire(spec_with_busy(es, h, true), h),
{
    lemma_find_host(es, h);
    let i = spec_find_host(es, h);
    if i >= 0 {
        let e = EntryView { busy: true, ..es[i] };
        lemma_find_host_update(es, i, e, h);
        assert(spec_busy_of(spec_with_busy(es, h, true), h));
    }
}

/// Sessions of different hosts are independent: taking or releasing one
/// host's session changes nothing another host sees, so operations
/// against different hosts never block each other.
pub proof fn lemma_hosts_independent(es: Seq<EntryView>, h1: Seq<char>, h2: Seq<char>, b: bool)
    requires
        h1 != h2,
    ensures
        spec_state_of(spec_with_busy(es, h1, b), h2) == spec_state_of(es, h2),
        spec_busy_of(spec_with_busy(es, h1, b), h2) == spec_busy_of(es, h2),
        spec_can_acquire(spec_with_busy(es, h1, b), h2) == spec_can_acquire(es, h2),
{
    lemma_find_host(es, h1);
    lemma_find_host(es, h2);
    let i1 = spec_find_host(es, h1);
    let i2 = spec_find_host(es, h2);
    if i1 >= 0 {
        let e = EntryView { busy: b, ..es[i1] };
        lemma_find_host_update(es, i1, e, h1);
        lemma_find_host_update(es, i1, e, h2);
        if i2 >= 0 {
            assert(es[i1].host == h1);
            assert(es[i2].host == h2);
            assert(i1 != i2);
            assert(spec_with_busy(es, h1, b)[i2] == es[i2]);
        }
    }
}

/// What to do before the next operation against a host: reuse the session
/// that is already there, or establish one first.
#[derive(Clone, Copy, Debug, PartialEq, Eq, Structural)]
pub enum ConnectPlan {
    UseExisting,
    ConnectFirst,
}

/// The session table: the lifecycle book-keeping of every remote host, at
/// most one entry per host label.
pub struct SessionManager {
    entries: Vec<SessionEntry>,
}

impl View for SessionManager {
    type V = Seq<EntryView>;

    closed spec fn view(&self) -> Seq<EntryView> {
        self.entries@.map_values(|e: SessionEntry| e@)
    }
}

impl SessionManager {
    /// At most one entry per host label.
    pub open spec fn wf(&self) -> bool {
        forall|i: int, j: int|
            0 <= i < j < self@.len() ==> (#[trigger] self@[i].host) != (#[trigger] self@[j].host)
    }

    /// An empty table: every host is disconnected.
    pub fn new() -> (r: SessionManager)
        ensures
            r.wf(),
            r@ == Seq::<EntryView>::empty(),
    {
        let r = SessionManager { entries: Vec::new() };
        proof {
            assert(r@ =~= Seq::<EntryView>::empty());
        }
        r
    }

    /// Index of the entry for `host`, if one exists.
    fn index_of(&self, host: &str) -> (r: Option<usize>)
        ensures
            (match r {
                Some(i) => i as int == spec_find_host(self@, host@) && i < self@.len(),
                None => spec_find_host(self@, host@) < 0,
            }),
    {
        let n = self.entries.len();
        let mut i: usize = 0;
        while i < n
            invariant
                n == self.entries@.len(),
                n == self@.len(),
                i <= n,
                forall|j: int| 0 <= j < i ==> (#[trigger] self@[j].host) != host@,
            decreases n - i,
        {
            proof {
                assert(self@[i as int] == self.entries@[i as int]@);
            }
            if str_eq(self.entries[i].host.as_str(), host) {
                proof {
                    lemma_find_host(self@, host@);
                }
                return Some(i);
            }
            i = i + 1;
        }
        proof {
            lemma_find_host(self@, host@);
            if spec_find_host(self@, host@) >= 0 {
                assert(self@[spec_find_host(self@, host@)].host == host@);
                assert(false);
            }
        }
        None
    }

    /// The state of `host`'s session; a host without an entry is
    /// disconnected.
    pub fn state_of(&self, host: &str) -> (r: SessionState)
        ensures
            r == spec_state_of(self@, host@),
    {
        match self.index_of(host) {
            Some(i) => {
                proof {
                    assert(self@[i as int] == self.entries@[i as int]@);
                }
                self.entries[i].state
            },
            None => SessionState::Disconnected,
        }
    }

    /// Marks `host` as connecting: the transport is being opened and
    /// authenticated.  Every other host's entry is untouched.
    pub fn begin_connect(&mut self, host: &str)
        requires
            old(self).wf(),
        ensures
            final(self).wf(),
            spec_state_of(final(self)@, host@) is Connecting,
            !spec_busy_of(final(self)@, host@),
            forall|h2: Seq<char>|
                h2 != host@ ==> #[trigger] spec_state_of(final(self)@, h2) == spec_state_of(
                    old(self)@,
                    h2,
                ) && spec_busy_of(final(self)@, h2) == spec_busy_of(old(self)@, h2),
    {
        match self.index_of(host) {
            Some(i) => {
                proof {
                    assert(self@[i as int] == self.entries@[i as int]@);
                }
                let e = SessionEntry {
                    host: self.entries[i].host.clone(),
                    state: SessionState::Connecting,
                    busy: false,
                    last_ok_ms: self.entries[i].last_ok_ms,
                };
                proof {
                    assert(e@.host == self@[i as int].host);
                }
                let ghost before = self@;
                self.entries.set(i, e);
                proof {
                    assert(self@ =~= before.update(i as int, e@));
                    lemma_find_host(before, host@);
                    lemma_find_host_update(before, i as int, e@, host@);
                    assert(spec_state_of(self@, host@) is Connecting);
                    assert forall|h2: Seq<char>| h2 != host@ implies #[trigger] spec_state_of(
                        self@,
                        h2,
                    ) == spec_state_of(before, h2) && spec_busy_of(self@, h2) == spec_busy_of(
                        before,
                        h2,
                    ) by {
                        lemma_find_host(before, h2);
                        lemma_find_host_update(before, i as int, e@, h2);
                        let i2 = spec_find_host(before, h2);
                        if i2 >= 0 {
                            assert(before[i2].host == h2);
                            assert(before[i as int].host == host@);
                            assert(i2 != i as int);
                            assert(self@[i2] == before[i2]);
                        }
                    }
                    assert forall|a: int, b: int| 0 <= a < b < self@.len() implies (
                    #[trigger] self@[a].host) != (#[trigger] self@[b].host) by {
                        assert(self@[a].host == before[a].host);
                        assert(self@[b].host == before[b].host);
                    }
                }
            },
            None => {
                let e = SessionEntry {
                    host: host.to_owned(),
                    state: SessionState::Connecting,
                    busy: false,
                    last_ok_ms: 0,
                };
                let ghost before = self@;
                self.entries.push(e);
                proof {
                    assert(self@ =~= before.push(e@));
                    lemma_find_host(before, host@);
                    lemma_find_host_push(before, e@, host@);
                    assert(spec_find_host(self@, host@) == before.len() as int);
                    assert(self@[before.len() as int] == e@);
                    assert forall|h2: Seq<char>| h2 != host@ implies #[trigger] spec_state_of(
                        self@,
                        h2,
                    ) == spec_state_of(before, h2) && spec_busy_of(self@, h2) == spec_busy_of(
                        before,
                        h2,
                    ) by {
                        lemma_find_host(before, h2);
                        lemma_find_host_push(before, e@, h2);
                        let i2 = spec_find_host(before, h2);
                        if i2 >= 0 {
                            assert(self@[i2] == before[i2]);
                        }
                    }
                    assert forall|a: int, b: int| 0 <= a < b < self@.len() implies (
                    #[trigger] self@[a].host) != (#[trigger] self@[b].host) by {
                        if b < before.len() {
                            assert(self@[a].host == before[a].host);
                            assert(self@[b].host == before[b].host);
                        } else {
                            assert(self@[b] == e@);
                            assert(self@[a].host == before[a].host);
                            lemma_find_host(before, host@);
                            if before[a].host == host@ {
                                assert(spec_find_host(before, host@) >= 0);
                                assert(false);
                            }
                        }
                    }
                }
            },
        }
    }

    /// Records the outcome of the connection attempt for `host`: connected
    /// with a fresh round-trip stamp, or failed.
    pub fn finish_connect(&mut self, host: &str, ok: bool, now_ms: u64)
        requires
            old(self).wf(),
            spec_state_of(old(self)@, host@) is Connecting,
        ensures
            final(self).wf(),
            spec_state_of(final(self)@, host@) == if ok {
                SessionState::Connected
            } else {
                SessionState::Failed
            },
            !spec_busy_of(final(self)@, host@),
            ok ==> spec_last_ok_of(final(self)@, host@) == now_ms,
            forall|h2: Seq<char>|
                h2 != host@ ==> #[trigger] spec_state_of(final(self)@, h2) == spec_state_of(
                    old(self)@,
                    h2,
                ) && spec_busy_of(final(self)@, h2) == spec_busy_of(old(self)@, h2),
    {
        let i = match self.index_of(host) {
            Some(i) => i,
            None => {
                proof {
                    assert(false);
                }
                0
            },
        };
        proof {
            assert(self@[i as int] == self.entries@[i as int]@);
        }
        let e = SessionEntry {
            host: self.entries[i].host.clone(),
            state: if ok {
                SessionState::Connected
            } else {
                SessionState::Failed
            },
            busy: false,
            last_ok_ms: if ok {
                now_ms
            } else {
                self.entries[i].last_ok_ms
            },
        };
        let ghost before = self@;
        proof {
            lemma_find_host(before, host@);
            assert(before[i as int].host == host@);
        }
        self.entries.set(i, e);
        proof {
            assert(self@ =~= before.update(i as int, e@));
            lemma_find_host_update(before, i as int, e@, host@);
            assert forall|h2: Seq<char>| h2 != host@ implies #[trigger] spec_state_of(self@, h2)
                == spec_state_of(before, h2) && spec_busy_of(self@, h2) == spec_busy_of(
                before,
                h2,
            ) by {
                lemma_find_host(before, h2);
                lemma_find_host_update(before, i as int, e@, h2);
                let i2 = spec_find_host(before, h2);
                if i2 >= 0 {
                    assert(before[i2].host == h2);
                    assert(i2 != i as int);
                    assert(self@[i2] == before[i2]);
                }
            }
            assert forall|a: int, b: int| 0 <= a < b < self@.len() implies (
            #[trigger] self@[a].host) != (#[trigger] self@[b].host) by {
                assert(self@[a].host == before[a].host);
                assert(self@[b].host == before[b].host);
            }
        }
    }

    /// Tears `host`'s session down.  Idempotent: a host without an entry,
    /// or one already disconnected, is left disconnected.
    pub fn disconnect(&mut self, host: &str)
        requires
            old(self).wf(),
        ensures
            final(self).wf(),
            spec_state_of(final(self)@, host@) is Disconnected,
            !spec_busy_of(final(self)@, host@),
            forall|h2: Seq<char>|
                h2 != host@ ==> #[trigger] spec_state_of(final(self)@, h2) == spec_state_of(
                    old(self)@,
                    h2,
                ) && spec_busy_of(final(self)@, h2) == spec_busy_of(old(self)@, h2),
    {
        match self.index_of(host) {
            Some(i) => {
                proof {
                    assert(self@[i as int] == self.entries@[i as int]@);
                }
                let e = SessionEntry {
                    host: self.entries[i].host.clone(),
                    state: SessionState::Disconnected,
                    busy: false,
                    last_ok_ms: self.entries[i].last_ok_ms,
                };
                let ghost before = self@;
                proof {
                    lemma_find_host(before, host@);
                    assert(before[i as int].host == host@);
                }
                self.entries.set(i, e);
                proof {
                    assert(self@ =~= before.update(i as int, e@));
                    lemma_find_host_update(before, i as int, e@, host@);
                    assert forall|h2: Seq<char>| h2 != host@ implies #[trigger] spec_state_of(
                        self@,
                        h2,
                    ) == spec_state_of(before, h2) && spec_busy_of(self@, h2) == spec_busy_of(
                        before,
                        h2,
                    ) by {
                        lemma_find_host(before, h2);
                        lemma_find_host_update(before, i as int, e@, h2);
                        let i2 = spec_find_host(before, h2);
                        if i2 >= 0 {
                            assert(before[i2].host == h2);
                            assert(i2 != i as int);
                            assert(self@[i2] == before[i2]);
                        }
                    }
                    assert forall|a: int, b: int| 0 <= a < b < self@.len() implies (
                    #[trigger] self@[a].host) != (#[trigger] self@[b].host) by {
                        assert(self@[a].host == before[a].host);
                        assert(self@[b].host == before[b].host);
                    }
                }
            },
            None => {
            },
        }
    }

    /// The check every remote command passes first: without an
    /// established session the call fails with the no-session error, and
    /// with one it may proceed.  It never panics and never waits.
    pub fn require_connected(&self, host: &str) -> (r: Result<(), ExecError>)
        ensures
            r is Ok <==> spec_state_of(self@, host@) is Connected,
            r is Err ==> r == Err::<(), ExecError>(ExecError::NoSession),
    {
        match self.state_of(host) {
            SessionState::Connected => Ok(()),
            _ => Err(ExecError::NoSession),
        }
    }

    /// Takes `host`'s session for one command, if it is connected and
    /// free.  On success the session is marked in flight; nothing else
    /// changes, and no other host's entry moves either way.
    pub fn acquire(&mut self, host: &str) -> (r: bool)
        requires
            old(self).wf(),
        ensures
            final(self).wf(),
            r == spec_can_acquire(old(self)@, host@),
            r ==> final(self)@ == spec_with_busy(old(self)@, host@, true),
            !r ==> final(self)@ == old(self)@,
    {
        match self.index_of(host) {
            Some(i) => {
                proof {
                    assert(self@[i as int] == self.entries@[i as int]@);
                }
                let connected = matches!(self.entries[i].state, SessionState::Connected);
                if connected && !self.entries[i].busy {
                    let e = SessionEntry {
                        host: self.entries[i].host.clone(),
                        state: self.entries[i].state,
                        busy: true,
                        last_ok_ms: self.entries[i].last_ok_ms,
                    };
                    let ghost before = self@;
                    proof {
                        lemma_find_host(before, host@);
                        assert(before[i as int].host == host@);
                    }
                    self.entries.set(i, e);
                    proof {
                        assert(e@ == EntryView { busy: true, ..before[i as int] });
                        assert(self@ =~= before.update(i as int, e@));
                        assert(self@ =~= spec_with_busy(before, host@, true));
                        assert forall|a: int, b: int| 0 <= a < b < self@.len() implies (
                        #[trigger] self@[a].host) != (#[trigger] self@[b].host) by {
                            assert(self@[a].host == before[a].host);
                            assert(self@[b].host == before[b].host);
                        }
                    }
                    true
                } else {
                    false
                }
            },
            None => false,
        }
    }

    /// Releases `host`'s session after its command was drained, recording
    /// the round-trip on success and invalidating the session on a
    /// transport failure.
    pub fn finish_command(&mut self, host: &str, ok: bool, now_ms: u64)
        requires
            old(self).wf(),
        ensures
            final(self).wf(),
            !spec_busy_of(final(self)@, host@),
            spec_find_host(old(self)@, host@) >= 0 ==> spec_state_of(final(self)@, host@) == (
            if ok {
                spec_state_of(old(self)@, host@)
            } else {
                SessionState::Failed
            }),
            spec_find_host(old(self)@, host@) >= 0 && ok ==> spec_last_ok_of(final(self)@, host@)
                == now_ms,
            forall|h2: Seq<char>|
                h2 != host@ ==> #[trigger] spec_state_of(final(self)@, h2) == spec_state_of(
                    old(self)@,
                    h2,
                ) && spec_busy_of(final(self)@, h2) == spec_busy_of(old(self)@, h2),
    {
        match self.index_of(host) {
            Some(i) => {
                proof {
                    assert(self@[i as int] == self.entries@[i as int]@);
                }
                let e = SessionEntry {
                    host: self.entries[i].host.clone(),
                    state: if ok {
                        self.entries[i].state
                    } else {
                        SessionState::Failed
                    },
                    busy: false,
                    last_ok_ms: if ok {
                        now_ms
                    } else {
                        self.entries[i].last_ok_ms
                    },
                };
                let ghost before = self@;
                proof {
                    lemma_find_host(before, host@);
                    assert(before[i as int].host == host@);
                }
                self.entries.set(i, e);
                proof {
                    assert(self@ =~= before.update(i as int, e@));
                    lemma_find_host_update(before, i as int, e@, host@);
                    assert forall|h2: Seq<char>| h2 != host@ implies #[trigger] spec_state_of(
                        self@,
                        h2,
                    ) == spec_state_of(before, h2) && spec_busy_of(self@, h2) == spec_busy_of(
                        before,
                        h2,
                    ) by {
                        lemma_find_host(before, h2);
                        lemma_find_host_update(before, i as int, e@, h2);
                        let i2 = spec_find_host(before, h2);
                        if i2 >= 0 {
                            assert(before[i2].host == h2);
                            assert(i2 != i as int);
                            assert(self@[i2] == before[i2]);
                        }
                    }
                    assert forall|a: int, b: int| 0 <= a < b < self@.len() implies (
                    #[trigger] self@[a].host) != (#[trigger] self@[b].host) by {
                        assert(self@[a].host == before[a].host);
                        assert(self@[b].host == before[b].host);
                    }
                }
            },
            None => {
            },
        }
    }

    /// Decides how the next operation against `host` starts: an existing
    /// session is reused only while it is connected and not stale; in
    /// every other state a connect comes first.  Consulting the caller's
    /// credential source is the caller's business and happens only when
    /// this says to connect.
    pub fn connect_plan(&self, host: &str, now_ms: u64, window_ms: u64) -> (r: ConnectPlan)
        ensures
            r is UseExisting <==> (spec_state_of(self@, host@) is Connected && !(now_ms
                > spec_last_ok_of(self@, host@) + window_ms)),
    {
        match self.state_of(host) {
            SessionState::Connected => {
                if self.is_stale(host, now_ms, window_ms) {
                    ConnectPlan::ConnectFirst
                } else {
                    ConnectPlan::UseExisting
                }
            },
            _ => ConnectPlan::ConnectFirst,
        }
    }

    /// Whether `host`'s session has gone stale: connected, but the last
    /// successful round-trip lies further back than the staleness window.
    /// A stale session calls for a reconnect, not for a silent failure.
    pub fn is_stale(&self, host: &str, now_ms: u64, window_ms: u64) -> (r: bool)
        ensures
            r == (spec_state_of(self@, host@) is Connected && now_ms > spec_last_ok_of(
                self@,
                host@,
            ) + window_ms),
    {
        match self.index_of(host) {
            Some(i) => {
                proof {
                    assert(self@[i as int] == self.entries@[i as int]@);
                }
                let connected = matches!(self.entries[i].state, SessionState::Connected);
                if !connected {
                    return false;
                }
                let last = self.entries[i].last_ok_ms;
                if now_ms > last {
                    now_ms - last > window_ms
                } else {
                    false
                }
            },
            None => false,
        }
    }
}

} // verus!
