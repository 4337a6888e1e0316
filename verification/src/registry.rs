//! The process registry: the authoritative map from proc id to record,
//! with its notification plane and shutdown latch.
//!
//! Registry operations emit `Notification` values; the caller broadcasts
//! them to subscribers in order.  A ghost history of everything emitted
//! carries the ordering guarantee: per proc id, subscribers see prefixes of
//! `Start`, optionally `NotRunning`, then `Delete`, per lifecycle.

use vstd::prelude::*;

use crate::err::ProcError;
use crate::order::{
    lemma_seq_lt_connected, lemma_seq_lt_irrefl, lemma_seq_lt_trans, seq_lt, str_lt,
};
use crate::fd::str_eq;
use crate::proc::{Proc, ProcRes, ProcStat, WaitInfo};
use crate::state::State;

verus! {

/// The kind of a lifecycle notification.
#[derive(Clone, Copy, Debug, PartialEq, Eq, Structural)]
pub enum NoteKind {
    /// A process was created and registered.
    Start,
    /// A process is no longer running: it terminated or erred.
    NotRunning,
    /// A process was removed from the registry.
    Delete,
}

/// An asynchronous notification to subscribers.
#[derive(Clone, Debug)]
pub enum Notification {
    /// A process has been created and started.
    Start(String),
    /// A process is not running any more, because it terminated or
    /// because of an error.
    NotRunning(String),
    /// A process has been deleted.
    Delete(String),
}

/// The kind of a notification.
pub open spec fn note_kind(n: Notification) -> NoteKind {
    match n {
        Notification::Start(_) => NoteKind::Start,
        Notification::NotRunning(_) => NoteKind::NotRunning,
        Notification::Delete(_) => NoteKind::Delete,
    }
}

/// The proc id a notification speaks of.
pub open spec fn note_id(n: Notification) -> Seq<char> {
    match n {
        Notification::Start(id) => id@,
        Notification::NotRunning(id) => id@,
        Notification::Delete(id) => id@,
    }
}

/// One registry slot: an id, its record, and whether `NotRunning` has
/// been published for the current lifecycle.
pub struct ProcEntry {
    pub id: String,
    pub proc: Proc,
    pub notified: bool,
}

/// The notifications about one id, in emission order.
pub open spec fn proj(h: Seq<(NoteKind, Seq<char>)>, id: Seq<char>) -> Seq<NoteKind>
    decreases h.len(),
{
    if h.len() == 0 {
        Seq::empty()
    } else {
        let rest = proj(h.drop_last(), id);
        if h.last().1 == id {
            rest.push(h.last().0)
        } else {
            rest
        }
    }
}

/// The state of one id's notification stream, read as an automaton: `0`
/// between lifecycles, `1` after a `Start`, `2` after its `NotRunning`.
/// `None` marks a stream no subscriber may ever see.  A stream in a `Some`
/// state is a concatenation of complete lifecycles — `Start`, optionally
/// `NotRunning`, `Delete` — followed by a prefix of one.
pub open spec fn stream_state(p: Seq<NoteKind>) -> Option<int>
    decreases p.len(),
{
    if p.len() == 0 {
        Some(0int)
    } else {
        match stream_state(p.drop_last()) {
            None => None,
            Some(st) => {
                if st == 0 {
                    if p.last() == NoteKind::Start {
                        Some(1int)
                    } else {
                        None
                    }
                } else if st == 1 {
                    if p.last() == NoteKind::NotRunning {
                        Some(2int)
                    } else if p.last() == NoteKind::Delete {
                        Some(0int)
                    } else {
                        None
                    }
                } else {
                    if p.last() == NoteKind::Delete {
                        Some(0int)
                    } else {
                        None
                    }
                }
            },
        }
    }
}

/// Appending one notification moves the projection of its id one step and
/// leaves every other id's projection unchanged.
pub proof fn lemma_proj_push(h: Seq<(NoteKind, Seq<char>)>, n: (NoteKind, Seq<char>), id: Seq<char>)
    ensures
        n.1 == id ==> proj(h.push(n), id) == proj(h, id).push(n.0),
        n.1 != id ==> proj(h.push(n), id) == proj(h, id),
{
    assert(h.push(n).drop_last() =~= h);
    assert(h.push(n).last() == n);
}

/// Whether some entry has the given id.
pub open spec fn has_id(es: Seq<ProcEntry>, id: Seq<char>) -> bool {
    exists|i: int| 0 <= i < es.len() && es[i].id@ == id
}

/// The pids of the running records among the entries, in entry order.
pub open spec fn running_pids_of(es: Seq<ProcEntry>) -> Seq<i32>
    decreases es.len(),
{
    if es.len() == 0 {
        Seq::empty()
    } else {
        let rest = running_pids_of(es.drop_last());
        if es.last().proc.state() == State::Running {
            rest.push(es.last().proc.pid)
        } else {
            rest
        }
    }
}

/// The registry: records in ascending id order, the ghost history of all
/// notifications emitted, and the shutdown latch.
pub struct Procs {
    pub entries: Vec<ProcEntry>,
    pub shutdown: bool,
    pub shutdown_on_idle: bool,
    pub hist: Ghost<Seq<(NoteKind, Seq<char>)>>,
}

/// Registry invariant over the entries and the notification history:
/// entries strictly sorted by id (hence unique); every record well formed
/// under a non-empty id; `NotRunning` is published only for records that
/// are not running, at most once per lifecycle; and every id's
/// notification stream is well formed — ids present sit mid-lifecycle,
/// ids absent between lifecycles.
pub open spec fn reg_wf(es: Seq<ProcEntry>, h: Seq<(NoteKind, Seq<char>)>) -> bool {
    &&& forall|i: int, j: int|
        0 <= i < j < es.len() ==> seq_lt((#[trigger] es[i]).id@, (#[trigger] es[j]).id@)
    &&& forall|i: int| 0 <= i < es.len() ==> (#[trigger] es[i]).proc.wf() && es[i].id@.len() > 0
    &&& forall|i: int|
        0 <= i < es.len() && (#[trigger] es[i]).notified ==> es[i].proc.state() != State::Running
    &&& forall|i: int|
        0 <= i < es.len() ==> stream_state(proj(h, (#[trigger] es[i]).id@)) == Some(
            if es[i].notified {
                2int
            } else {
                1int
            },
        )
    &&& forall|id: Seq<char>|
        !has_id(es, id) ==> stream_state(#[trigger] proj(h, id)) == Some(0int)
}

/// The `Delete` notifications for a sequence of entries, in order.
pub open spec fn delete_notes(es: Seq<ProcEntry>) -> Seq<(NoteKind, Seq<char>)>
    decreases es.len(),
{
    if es.len() == 0 {
        Seq::empty()
    } else {
        delete_notes(es.drop_last()).push((NoteKind::Delete, es.last().id@))
    }
}

/// In a sorted registry an id occurs at most once.
pub proof fn lemma_unique_ids_public(
    es: Seq<ProcEntry>,
    h: Seq<(NoteKind, Seq<char>)>,
    i: int,
    j: int,
)
    requires
        reg_wf(es, h),
        0 <= i < es.len(),
        0 <= j < es.len(),
        i != j,
    ensures
        es[i].id@ != es[j].id@,
{
    lemma_unique_ids(es, h, i, j);
}

/// In a sorted registry an id occurs at most once: any entry other than
/// the one at a known position carries a different id.
proof fn lemma_unique_ids(es: Seq<ProcEntry>, h: Seq<(NoteKind, Seq<char>)>, i: int, j: int)
    requires
        reg_wf(es, h),
        0 <= i < es.len(),
        0 <= j < es.len(),
        i != j,
    ensures
        es[i].id@ != es[j].id@,
{
    if i < j {
        lemma_seq_lt_irrefl(es[i].id@);
    } else {
        lemma_seq_lt_irrefl(es[i].id@);
    }
}

/// Removing the entry at a position and publishing its `Delete` keeps the
/// registry invariant.
proof fn lemma_delete_step(es: Seq<ProcEntry>, h: Seq<(NoteKind, Seq<char>)>, i: int)
    requires
        reg_wf(es, h),
        0 <= i < es.len(),
    ensures
        reg_wf(es.remove(i), h.push((NoteKind::Delete, es[i].id@))),
{
    let pid = es[i].id@;
    let newe = es.remove(i);
    let newh = h.push((NoteKind::Delete, pid));
    assert forall|a: int, b: int| 0 <= a < b < newe.len() implies seq_lt(
        (#[trigger] newe[a]).id@,
        (#[trigger] newe[b]).id@,
    ) by {
        let a0 = if a < i {
            a
        } else {
            a + 1
        };
        let b0 = if b < i {
            b
        } else {
            b + 1
        };
        assert(newe[a] == es[a0]);
        assert(newe[b] == es[b0]);
    }
    assert forall|a: int| 0 <= a < newe.len() implies (#[trigger] newe[a]).id@ != pid by {
        let a0 = if a < i {
            a
        } else {
            a + 1
        };
        assert(newe[a] == es[a0]);
        lemma_unique_ids(es, h, a0, i);
    }
    assert(stream_state(proj(newh, pid)) == Some(0int)) by {
        lemma_proj_push(h, (NoteKind::Delete, pid), pid);
        assert(proj(newh, pid).drop_last() =~= proj(h, pid));
    }
    assert forall|a: int| 0 <= a < newe.len() implies stream_state(
        proj(newh, (#[trigger] newe[a]).id@),
    ) == Some(
        if newe[a].notified {
            2int
        } else {
            1int
        },
    ) by {
        let a0 = if a < i {
            a
        } else {
            a + 1
        };
        assert(newe[a] == es[a0]);
        lemma_proj_push(h, (NoteKind::Delete, pid), newe[a].id@);
    }
    assert forall|id2: Seq<char>| !has_id(newe, id2) implies stream_state(
        #[trigger] proj(newh, id2),
    ) == Some(0int) by {
        if id2 == pid {
            assert(stream_state(proj(newh, pid)) == Some(0int));
        } else {
            lemma_proj_push(h, (NoteKind::Delete, pid), id2);
            assert(!has_id(es, id2)) by {
                if has_id(es, id2) {
                    let k = choose|k: int| 0 <= k < es.len() && es[k].id@ == id2;
                    assert(k != i);
                    if k < i {
                        assert(newe[k].id@ == id2);
                    } else {
                        assert(newe[k - 1].id@ == id2);
                    }
                }
            }
        }
    }
    assert forall|a: int| 0 <= a < newe.len() implies (#[trigger] newe[a]).proc.wf()
        && newe[a].id@.len() > 0 by {
        let a0 = if a < i {
            a
        } else {
            a + 1
        };
        assert(newe[a] == es[a0]);
    }
    assert forall|a: int|
        0 <= a < newe.len() && (#[trigger] newe[a]).notified implies newe[a].proc.state()
        != State::Running by {
        let a0 = if a < i {
            a
        } else {
            a + 1
        };
        assert(newe[a] == es[a0]);
    }
}

/// Replacing an entry in place — same id, record still well formed, the
/// published flag unchanged, a record that was flagged not running staying
/// so — keeps the registry invariant.
proof fn lemma_update_step(es: Seq<ProcEntry>, h: Seq<(NoteKind, Seq<char>)>, i: int, e: ProcEntry)
    requires
        reg_wf(es, h),
        0 <= i < es.len(),
        e.id@ == es[i].id@,
        e.proc.wf(),
        e.notified == es[i].notified,
        e.notified ==> e.proc.state() != State::Running,
    ensures
        reg_wf(es.update(i, e), h),
{
    let newe = es.update(i, e);
    assert forall|a: int, b: int| 0 <= a < b < newe.len() implies seq_lt(
        (#[trigger] newe[a]).id@,
        (#[trigger] newe[b]).id@,
    ) by {
        assert(newe[a].id@ == es[a].id@);
        assert(newe[b].id@ == es[b].id@);
    }
    assert forall|id2: Seq<char>| !has_id(newe, id2) implies stream_state(
        #[trigger] proj(h, id2),
    ) == Some(0int) by {
        if has_id(es, id2) {
            let k = choose|k: int| 0 <= k < es.len() && es[k].id@ == id2;
            assert(newe[k].id@ == id2);
        }
    }
    assert forall|a: int| 0 <= a < newe.len() implies stream_state(
        proj(h, (#[trigger] newe[a]).id@),
    ) == Some(
        if newe[a].notified {
            2int
        } else {
            1int
        },
    ) by {
        assert(newe[a].id@ == es[a].id@);
        assert(newe[a].notified == es[a].notified);
    }
}

/// Publishing `NotRunning` for the entry at a position — not running, not
/// yet published — and flagging it keeps the registry invariant.
proof fn lemma_notify_step(es: Seq<ProcEntry>, h: Seq<(NoteKind, Seq<char>)>, i: int, e: ProcEntry)
    requires
        reg_wf(es, h),
        0 <= i < es.len(),
        e.id@ == es[i].id@,
        e.proc == es[i].proc,
        !es[i].notified,
        e.notified,
        e.proc.state() != State::Running,
    ensures
        reg_wf(es.update(i, e), h.push((NoteKind::NotRunning, es[i].id@))),
{
    let pid = es[i].id@;
    let newe = es.update(i, e);
    let newh = h.push((NoteKind::NotRunning, pid));
    assert forall|a: int, b: int| 0 <= a < b < newe.len() implies seq_lt(
        (#[trigger] newe[a]).id@,
        (#[trigger] newe[b]).id@,
    ) by {
        assert(newe[a].id@ == es[a].id@);
        assert(newe[b].id@ == es[b].id@);
    }
    assert(stream_state(proj(newh, pid)) == Some(2int)) by {
        lemma_proj_push(h, (NoteKind::NotRunning, pid), pid);
        assert(proj(newh, pid).drop_last() =~= proj(h, pid));
    }
    assert forall|a: int| 0 <= a < newe.len() implies stream_state(
        proj(newh, (#[trigger] newe[a]).id@),
    ) == Some(
        if newe[a].notified {
            2int
        } else {
            1int
        },
    ) by {
        if a == i {
            assert(stream_state(proj(newh, pid)) == Some(2int));
        } else {
            assert(newe[a] == es[a]);
            lemma_unique_ids(es, h, a, i);
            lemma_proj_push(h, (NoteKind::NotRunning, pid), newe[a].id@);
        }
    }
    assert forall|id2: Seq<char>| !has_id(newe, id2) implies stream_state(
        #[trigger] proj(newh, id2),
    ) == Some(0int) by {
        assert(id2 != pid) by {
            assert(newe[i].id@ == pid);
        }
        lemma_proj_push(h, (NoteKind::NotRunning, pid), id2);
        assert(!has_id(es, id2)) by {
            if has_id(es, id2) {
                let k = choose|k: int| 0 <= k < es.len() && es[k].id@ == id2;
                assert(newe[k].id@ == id2);
            }
        }
    }
}

/// Inserting a fresh entry at its sorted position and publishing its
/// `Start` keeps the registry invariant.
#[verifier::rlimit(100)]
#[verifier::spinoff_prover]
proof fn lemma_insert_step(es: Seq<ProcEntry>, h: Seq<(NoteKind, Seq<char>)>, p: int, e: ProcEntry)
    requires
        reg_wf(es, h),
        0 <= p <= es.len(),
        !has_id(es, e.id@),
        e.id@.len() > 0,
        e.proc.wf(),
        !e.notified,
        forall|j: int| 0 <= j < p ==> seq_lt((#[trigger] es[j]).id@, e.id@),
        p < es.len() ==> seq_lt(e.id@, es[p].id@),
    ensures
        reg_wf(es.insert(p, e), h.push((NoteKind::Start, e.id@))),
{
    let pid = e.id@;
    let newe = es.insert(p, e);
    let newh = h.push((NoteKind::Start, pid));
    assert forall|a: int, b: int| 0 <= a < b < newe.len() implies seq_lt(
        (#[trigger] newe[a]).id@,
        (#[trigger] newe[b]).id@,
    ) by {
        if a == p && b > p {
            assert(newe[b] == es[b - 1]);
            if b - 1 > p {
                lemma_seq_lt_trans(pid, es[p].id@, es[b - 1].id@);
            }
        } else if b == p && a < p {
            assert(newe[a] == es[a]);
        } else if a < p && b > p {
            assert(newe[a] == es[a]);
            assert(newe[b] == es[b - 1]);
            if b - 1 == p {
                lemma_seq_lt_trans(es[a].id@, pid, es[b - 1].id@);
            }
        } else if a < p && b < p {
            assert(newe[a] == es[a]);
            assert(newe[b] == es[b]);
        } else {
            assert(newe[a] == es[a - 1]);
            assert(newe[b] == es[b - 1]);
        }
    }
    assert(stream_state(proj(newh, pid)) == Some(1int)) by {
        lemma_proj_push(h, (NoteKind::Start, pid), pid);
        assert(proj(newh, pid).drop_last() =~= proj(h, pid));
    }
    assert forall|a: int| 0 <= a < newe.len() implies stream_state(
        proj(newh, (#[trigger] newe[a]).id@),
    ) == Some(
        if newe[a].notified {
            2int
        } else {
            1int
        },
    ) by {
        lemma_proj_push(h, (NoteKind::Start, pid), newe[a].id@);
        if a != p {
            let k = if a < p {
                a
            } else {
                a - 1
            };
            assert(newe[a] == es[k]);
            assert(has_id(es, newe[a].id@));
            assert(newe[a].id@ != pid);
        }
    }
    assert forall|id2: Seq<char>| !has_id(newe, id2) implies stream_state(
        #[trigger] proj(newh, id2),
    ) == Some(0int) by {
        lemma_proj_push(h, (NoteKind::Start, pid), id2);
        assert(id2 != pid) by {
            assert(newe[p].id@ == pid);
        }
        assert(!has_id(es, id2)) by {
            if has_id(es, id2) {
                let k = choose|k: int| 0 <= k < es.len() && es[k].id@ == id2;
                if k < p {
                    assert(newe[k].id@ == id2);
                } else {
                    assert(newe[k + 1].id@ == id2);
                }
            }
        }
    }
    assert forall|a: int| 0 <= a < newe.len() implies (#[trigger] newe[a]).proc.wf()
        && newe[a].id@.len() > 0 by {
        if a != p {
            let k = if a < p {
                a
            } else {
                a - 1
            };
            assert(newe[a] == es[k]);
        }
    }
    assert forall|a: int|
        0 <= a < newe.len() && (#[trigger] newe[a]).notified implies newe[a].proc.state()
        != State::Running by {
        if a != p {
            let k = if a < p {
                a
            } else {
                a - 1
            };
            assert(newe[a] == es[k]);
        }
    }
}

impl Procs {
    /// Registry invariant; see `reg_wf`.
    pub open spec fn wf(&self) -> bool {
        reg_wf(self.entries@, self.hist@)
    }

    /// A fresh, empty registry.
    pub fn new() -> (r: Procs)
        ensures
            r.wf(),
            r.entries@.len() == 0,
            !r.shutdown,
            !r.shutdown_on_idle,
            r.hist@ == Seq::<(NoteKind, Seq<char>)>::empty(),
    {
        let r = Procs {
            entries: Vec::new(),
            shutdown: false,
            shutdown_on_idle: false,
            hist: Ghost(Seq::empty()),
        };
        proof {
            assert forall|id: Seq<char>| !has_id(r.entries@, id) implies stream_state(
                #[trigger] proj(r.hist@, id),
            ) == Some(0int) by {
                assert(proj(r.hist@, id) =~= Seq::<NoteKind>::empty());
            }
        }
        r
    }

    /// How many records the registry holds.
    pub fn len(&self) -> (r: usize)
        ensures
            r == self.entries@.len(),
    {
        self.entries.len()
    }

    /// The proc ids, in ascending order.
    pub fn get_proc_ids(&self) -> (r: Vec<String>)
        ensures
            r@.len() == self.entries@.len(),
            forall|i: int| 0 <= i < r@.len() ==> (#[trigger] r@[i])@ == self.entries@[i].id@,
    {
        let mut out: Vec<String> = Vec::new();
        let mut i: usize = 0;
        while i < self.entries.len()
            invariant
                0 <= i <= self.entries@.len(),
                out@.len() == i,
                forall|j: int| 0 <= j < i ==> (#[trigger] out@[j])@ == self.entries@[j].id@,
            decreases self.entries@.len() - i,
        {
            out.push(self.entries[i].id.clone());
            i += 1;
        }
        out
    }

    /// The position of an id's entry, if present.
    fn find(&self, id: &str) -> (r: Option<usize>)
        ensures
            match r {
                Some(i) => i < self.entries@.len() && self.entries@[i as int].id@ == id@,
                None => !has_id(self.entries@, id@),
            },
    {
        let mut i: usize = 0;
        while i < self.entries.len()
            invariant
                0 <= i <= self.entries@.len(),
                forall|j: int| 0 <= j < i ==> (#[trigger] self.entries@[j]).id@ != id@,
            decreases self.entries@.len() - i,
        {
            if str_eq(self.entries[i].id.as_str(), id) {
                return Some(i);
            }
            i += 1;
        }
        None
    }

    /// The record registered under an id, if any.
    pub fn get(&self, id: &str) -> (r: Option<&Proc>)
        ensures
            match r {
                Some(p) => exists|i: int|
                    0 <= i < self.entries@.len() && (#[trigger] self.entries@[i]).id@ == id@ && *p
                        == self.entries@[i].proc,
                None => !has_id(self.entries@, id@),
            },
    {
        match self.find(id) {
            Some(i) => Some(&self.entries[i].proc),
            None => None,
        }
    }

    /// The first entry in id order, if any.
    pub fn first(&self) -> (r: Option<(&String, &Proc)>)
        ensures
            match r {
                Some((id, p)) => self.entries@.len() > 0 && id@ == self.entries@[0].id@ && *p
                    == self.entries@[0].proc,
                None => self.entries@.len() == 0,
            },
    {
        if self.entries.len() > 0 {
            Some((&self.entries[0].id, &self.entries[0].proc))
        } else {
            None
        }
    }

    /// The first entry in id order whose record is running, if any.
    pub fn first_running(&self) -> (r: Option<(&String, &Proc)>)
        ensures
            match r {
                Some((id, p)) => exists|i: int|
                    {
                        &&& 0 <= i < self.entries@.len()
                        &&& id@ == (#[trigger] self.entries@[i]).id@
                        &&& *p == self.entries@[i].proc
                        &&& self.entries@[i].proc.state() == State::Running
                        &&& forall|j: int|
                            0 <= j < i ==> (#[trigger] self.entries@[j]).proc.state()
                                != State::Running
                    },
                None => forall|i: int|
                    0 <= i < self.entries@.len() ==> (#[trigger] self.entries@[i]).proc.state()
                        != State::Running,
            },
    {
        let mut i: usize = 0;
        while i < self.entries.len()
            invariant
                0 <= i <= self.entries@.len(),
                forall|j: int|
                    0 <= j < i ==> (#[trigger] self.entries@[j]).proc.state() != State::Running,
            decreases self.entries@.len() - i,
        {
            let st = self.entries[i].proc.get_state();
            if st == State::Running {
                return Some((&self.entries[i].id, &self.entries[i].proc));
            }
            i += 1;
        }
        None
    }

    /// The pids of all running records, in id order; `send_signal_all`
    /// is the caller delivering a signal to each of these.
    #[verifier::loop_isolation(false)]
    pub fn running_pids(&self) -> (r: Vec<i32>)
        ensures
            r@ == running_pids_of(self.entries@),
    {
        let mut out: Vec<i32> = Vec::new();
        let mut i: usize = 0;
        proof {
            assert(self.entries@.take(0) =~= Seq::empty());
        }
        while i < self.entries.len()
            invariant
                0 <= i <= self.entries@.len(),
                out@ == running_pids_of(self.entries@.take(i as int)),
            decreases self.entries@.len() - i,
        {
            proof {
                assert(self.entries@.take(i + 1).drop_last() =~= self.entries@.take(i as int));
                assert(self.entries@.take(i + 1).last() == self.entries@[i as int]);
            }
            let st = self.entries[i].proc.get_state();
            if st == State::Running {
                let pid = self.entries[i].proc.pid;
                out.push(pid);
            }
            i += 1;
        }
        proof {
            assert(self.entries@.take(self.entries@.len() as int) =~= self.entries@);
        }
        out
    }

    /// Registers a record under a fresh id and reports the `Start`
    /// notification to broadcast.
    #[verifier::loop_isolation(false)]
    #[verifier::rlimit(100)]
    pub fn insert(&mut self, id: String, proc: Proc) -> (r: Notification)
        requires
            old(self).wf(),
            proc.wf(),
            id@.len() > 0,
            !has_id(old(self).entries@, id@),
        ensures
            final(self).wf(),
            final(self).hist@ == old(self).hist@.push((NoteKind::Start, id@)),
            final(self).shutdown == old(self).shutdown,
            final(self).shutdown_on_idle == old(self).shutdown_on_idle,
            note_kind(r) == NoteKind::Start,
            note_id(r) == id@,
            final(self).entries@.len() == old(self).entries@.len() + 1,
            has_id(final(self).entries@, id@),
            exists|p: int|
                {
                    &&& 0 <= p <= old(self).entries@.len()
                    &&& final(self).entries@ == old(self).entries@.insert(
                        p,
                        final(self).entries@[p],
                    )
                    &&& (#[trigger] final(self).entries@[p]).id@ == id@
                    &&& final(self).entries@[p].proc == proc
                    &&& !final(self).entries@[p].notified
                },
    {
        let note = Notification::Start(id.clone());
        let mut lo: usize = 0;
        let n = self.entries.len();
        while lo < n && str_lt(self.entries[lo].id.as_str(), id.as_str())
            invariant
                0 <= lo <= n,
                forall|j: int| 0 <= j < lo ==> seq_lt((#[trigger] self.entries@[j]).id@, id@),
            decreases n - lo,
        {
            lo += 1;
        }
        proof {
            if lo < n {
                lemma_seq_lt_connected(self.entries@[lo as int].id@, id@);
                assert(self.entries@[lo as int].id@ != id@);
                assert(seq_lt(id@, self.entries@[lo as int].id@));
            }
        }
        let ghost before = self.entries@;
        let entry = ProcEntry { id, proc, notified: false };
        proof {
            lemma_insert_step(
                before,
                self.hist@,
                lo as int,
                ProcEntry { id: entry.id, proc: entry.proc, notified: false },
            );
        }
        self.entries.insert(lo, entry);
        self.hist = Ghost(self.hist@.push((NoteKind::Start, note_id(note))));
        proof {
            assert(self.entries@ =~= before.insert(lo as int, self.entries@[lo as int]));
            assert(self.entries@[lo as int].id@ == note_id(note));
        }
        note
    }

    /// Latches the shutdown request.
    pub fn set_shutdown(&mut self)
        requires
            old(self).wf(),
        ensures
            final(self).wf(),
            final(self).shutdown,
            final(self).entries == old(self).entries,
            final(self).hist == old(self).hist,
            final(self).shutdown_on_idle == old(self).shutdown_on_idle,
    {
        self.shutdown = true;
    }

    /// Projects every record into a result tree entry, without removing
    /// anything.
    #[verifier::loop_isolation(false)]
    pub fn to_result(&self) -> (r: Vec<(String, ProcRes)>)
        requires
            self.wf(),
        ensures
            r@.len() == self.entries@.len(),
            forall|i: int|
                0 <= i < r@.len() ==> (#[trigger] r@[i]).0@ == self.entries@[i].id@
                    && self.entries@[i].proc.res_matches(None, r@[i].1),
    {
        let mut out: Vec<(String, ProcRes)> = Vec::new();
        let mut i: usize = 0;
        while i < self.entries.len()
            invariant
                0 <= i <= self.entries@.len(),
                out@.len() == i,
                forall|j: int|
                    0 <= j < i ==> (#[trigger] out@[j]).0@ == self.entries@[j].id@
                        && self.entries@[j].proc.res_matches(None, out@[j].1),
            decreases self.entries@.len() - i,
        {
            let id = self.entries[i].id.clone();
            let res = self.entries[i].proc.to_result(None);
            out.push((id, res));
            i += 1;
        }
        out
    }

    /// Removes a record, provided it is not running: fails with
    /// `ProcRunning` on a running record — a no-op apart from the error —
    /// and with `NoProcId` when the id is unknown.  On success the record
    /// and its `Delete` notification are handed back, and shutdown is
    /// latched if it was requested for idle and the registry emptied.
    pub fn remove_if_not_running(&mut self, id: &str) -> (r: Result<(Proc, Notification), ProcError>)
        requires
            old(self).wf(),
        ensures
            final(self).wf(),
            final(self).shutdown_on_idle == old(self).shutdown_on_idle,
            match r {
                Ok((p, n)) => {
                    &&& exists|i: int|
                        {
                            &&& 0 <= i < old(self).entries@.len()
                            &&& (#[trigger] old(self).entries@[i]).id@ == id@
                            &&& old(self).entries@[i].proc.state() != State::Running
                            &&& p == old(self).entries@[i].proc
                            &&& final(self).entries@ == old(self).entries@.remove(i)
                        }
                    &&& note_kind(n) == NoteKind::Delete
                    &&& note_id(n) == id@
                    &&& final(self).hist@ == old(self).hist@.push((NoteKind::Delete, id@))
                    &&& final(self).shutdown == (old(self).shutdown || (old(
                        self,
                    ).shutdown_on_idle && old(self).entries@.len() == 1))
                },
                Err(ProcError::ProcRunning(s)) => {
                    &&& s@ == id@
                    &&& exists|i: int|
                        0 <= i < old(self).entries@.len() && (#[trigger] old(
                            self,
                        ).entries@[i]).id@ == id@ && old(self).entries@[i].proc.state()
                            == State::Running
                    &&& final(self).entries == old(self).entries
                    &&& final(self).hist == old(self).hist
                    &&& final(self).shutdown == old(self).shutdown
                },
                Err(ProcError::NoProcId(s)) => {
                    &&& s@ == id@
                    &&& !has_id(old(self).entries@, id@)
                    &&& final(self).entries == old(self).entries
                    &&& final(self).hist == old(self).hist
                    &&& final(self).shutdown == old(self).shutdown
                },
                _ => false,
            },
    {
        match self.find(id) {
            None => Err(ProcError::NoProcId(String::from_str(id))),
            Some(i) => {
                let st = self.entries[i].proc.get_state();
                if st == State::Running {
                    Err(ProcError::ProcRunning(String::from_str(id)))
                } else {
                    proof {
                        lemma_delete_step(self.entries@, self.hist@, i as int);
                    }
                    let entry = self.entries.remove(i);
                    self.hist = Ghost(self.hist@.push((NoteKind::Delete, entry.id@)));
                    let note = Notification::Delete(entry.id);
                    if self.shutdown_on_idle && self.entries.len() == 0 {
                        self.shutdown = true;
                    }
                    Ok((entry.proc, note))
                }
            },
        }
    }

    /// Removes the first record in id order, whatever its state, handing
    /// back the id, the record and the `Delete` notification; latches
    /// shutdown if it was requested for idle and the registry emptied.
    pub fn pop(&mut self) -> (r: Option<(String, Proc, Notification)>)
        requires
            old(self).wf(),
        ensures
            final(self).wf(),
            final(self).shutdown_on_idle == old(self).shutdown_on_idle,
            match r {
                Some((id, p, n)) => {
                    &&& old(self).entries@.len() > 0
                    &&& id@ == old(self).entries@[0].id@
                    &&& p == old(self).entries@[0].proc
                    &&& final(self).entries@ == old(self).entries@.remove(0)
                    &&& note_kind(n) == NoteKind::Delete
                    &&& note_id(n) == id@
                    &&& final(self).hist@ == old(self).hist@.push((NoteKind::Delete, id@))
                    &&& final(self).shutdown == (old(self).shutdown || (old(
                        self,
                    ).shutdown_on_idle && old(self).entries@.len() == 1))
                },
                None => {
                    &&& old(self).entries@.len() == 0
                    &&& final(self).entries == old(self).entries
                    &&& final(self).hist == old(self).hist
                    &&& final(self).shutdown == old(self).shutdown
                },
            },
    {
        if self.entries.len() == 0 {
            return None;
        }
        proof {
            lemma_delete_step(self.entries@, self.hist@, 0);
        }
        let entry = self.entries.remove(0);
        self.hist = Ghost(self.hist@.push((NoteKind::Delete, entry.id@)));
        let note = Notification::Delete(entry.id.clone());
        if self.shutdown_on_idle && self.entries.len() == 0 {
            self.shutdown = true;
        }
        Some((entry.id, entry.proc, note))
    }

    /// Publishes `NotRunning` for a record that has stopped running, once
    /// per lifecycle: emits nothing when the id is unknown, when the
    /// record is still running, or when its `NotRunning` was already
    /// published — so the per-id stream order is never violated.
    pub fn notify_not_running(&mut self, id: &str) -> (r: Option<Notification>)
        requires
            old(self).wf(),
        ensures
            final(self).wf(),
            final(self).shutdown == old(self).shutdown,
            final(self).shutdown_on_idle == old(self).shutdown_on_idle,
            (exists|i: int|
                0 <= i < old(self).entries@.len() && (#[trigger] old(self).entries@[i]).id@ == id@
                    && !old(self).entries@[i].notified && old(self).entries@[i].proc.state()
                    != State::Running) <==> r is Some,
            match r {
                Some(n) => {
                    &&& note_kind(n) == NoteKind::NotRunning
                    &&& note_id(n) == id@
                    &&& final(self).hist@ == old(self).hist@.push((NoteKind::NotRunning, id@))
                    &&& exists|i: int|
                        {
                            &&& 0 <= i < old(self).entries@.len()
                            &&& (#[trigger] old(self).entries@[i]).id@ == id@
                            &&& final(self).entries@ == old(self).entries@.update(
                                i,
                                final(self).entries@[i],
                            )
                            &&& final(self).entries@[i].id == old(self).entries@[i].id
                            &&& final(self).entries@[i].proc == old(self).entries@[i].proc
                            &&& final(self).entries@[i].notified
                        }
                },
                None => {
                    &&& final(self).entries == old(self).entries
                    &&& final(self).hist == old(self).hist
                },
            },
    {
        match self.find(id) {
            None => None,
            Some(i) => {
                let st = self.entries[i].proc.get_state();
                if self.entries[i].notified || st == State::Running {
                    proof {
                        if exists|j: int|
                            0 <= j < old(self).entries@.len() && (#[trigger] old(
                                self,
                            ).entries@[j]).id@ == id@ && !old(self).entries@[j].notified && old(
                                self,
                            ).entries@[j].proc.state() != State::Running {
                            let j = choose|j: int|
                                0 <= j < old(self).entries@.len() && (#[trigger] old(
                                    self,
                                ).entries@[j]).id@ == id@ && !old(self).entries@[j].notified
                                    && old(self).entries@[j].proc.state() != State::Running;
                            if j != i {
                                lemma_unique_ids_public(
                                    old(self).entries@,
                                    old(self).hist@,
                                    j,
                                    i as int,
                                );
                            }
                        }
                    }
                    None
                } else {
                    let ghost before = self.entries@;
                    let mut entry = self.entries.remove(i);
                    entry.notified = true;
                    proof {
                        lemma_notify_step(
                            before,
                            self.hist@,
                            i as int,
                            ProcEntry { id: entry.id, proc: entry.proc, notified: true },
                        );
                    }
                    let note = Notification::NotRunning(entry.id.clone());
                    self.entries.insert(i, entry);
                    self.hist = Ghost(self.hist@.push((NoteKind::NotRunning, note_id(note))));
                    proof {
                        assert(self.entries@ =~= before.update(i as int, self.entries@[i as int]));
                        assert(0 <= i < old(self).entries@.len() && (#[trigger] old(
                            self,
                        ).entries@[i as int]).id@ == id@ && !old(self).entries@[i as int].notified
                            && old(self).entries@[i as int].proc.state() != State::Running);
                    }
                    Some(note)
                }
            },
        }
    }

    /// Removes all records at once, projecting each into its result and
    /// publishing exactly one `Delete` per previously present id, in id
    /// order; the registry is empty afterwards, and shutdown is latched if
    /// it was requested for idle.
    #[verifier::loop_isolation(false)]
    #[verifier::rlimit(100)]
    #[verifier::spinoff_prover]
    pub fn collect_results(&mut self) -> (r: (Vec<(String, ProcRes)>, Vec<Notification>))
        requires
            old(self).wf(),
        ensures
            final(self).wf(),
            final(self).entries@.len() == 0,
            final(self).shutdown_on_idle == old(self).shutdown_on_idle,
            final(self).shutdown == (old(self).shutdown || old(self).shutdown_on_idle),
            r.0@.len() == old(self).entries@.len(),
            r.1@.len() == old(self).entries@.len(),
            forall|i: int|
                0 <= i < r.0@.len() ==> (#[trigger] r.0@[i]).0@ == old(self).entries@[i].id@
                    && old(self).entries@[i].proc.res_matches(None, r.0@[i].1),
            forall|i: int|
                0 <= i < r.1@.len() ==> note_kind(#[trigger] r.1@[i]) == NoteKind::Delete
                    && note_id(r.1@[i]) == old(self).entries@[i].id@,
            final(self).hist@ == old(self).hist@ + delete_notes(old(self).entries@),
    {
        let ghost orig = self.entries@;
        let ghost h0 = self.hist@;
        let mut results: Vec<(String, ProcRes)> = Vec::new();
        let mut notes: Vec<Notification> = Vec::new();
        proof {
            assert(orig.skip(0) =~= orig);
            assert(delete_notes(orig.take(0)) =~= Seq::<(NoteKind, Seq<char>)>::empty());
            assert(h0 + delete_notes(orig.take(0)) =~= h0);
        }
        while self.entries.len() > 0
            invariant
                self.wf(),
                results@.len() == notes@.len(),
                results@.len() + self.entries@.len() == orig.len(),
                self.entries@ == orig.skip(results@.len() as int),
                forall|j: int|
                    0 <= j < results@.len() ==> (#[trigger] results@[j]).0@ == orig[j].id@
                        && orig[j].proc.res_matches(None, results@[j].1),
                forall|j: int|
                    0 <= j < notes@.len() ==> note_kind(#[trigger] notes@[j]) == NoteKind::Delete
                        && note_id(notes@[j]) == orig[j].id@,
                self.hist@ == h0 + delete_notes(orig.take(results@.len() as int)),
                self.shutdown == old(self).shutdown,
                self.shutdown_on_idle == old(self).shutdown_on_idle,
            decreases self.entries@.len(),
        {
            let ghost k = results@.len() as int;
            proof {
                assert(orig.skip(k)[0] == orig[k]);
                lemma_delete_step(self.entries@, self.hist@, 0);
                assert(self.entries@.remove(0) =~= orig.skip(k + 1));
                assert(orig.take(k + 1).drop_last() =~= orig.take(k));
                assert(orig.take(k + 1).last() == orig[k]);
            }
            let entry = self.entries.remove(0);
            self.hist = Ghost(self.hist@.push((NoteKind::Delete, entry.id@)));
            let res = entry.proc.to_result(None);
            let note = Notification::Delete(entry.id.clone());
            notes.push(note);
            results.push((entry.id, res));
            proof {
                assert(self.hist@ =~= h0 + delete_notes(orig.take(k + 1)));
            }
        }
        proof {
            assert(orig.take(orig.len() as int) =~= orig);
        }
        if self.shutdown_on_idle {
            self.shutdown = true;
        }
        (results, notes)
    }

    /// Appends drained diagnostics to the record registered under an id;
    /// reports whether the id was present.
    pub fn append_errors_to(&mut self, id: &str, errors: &mut Vec<String>) -> (r: bool)
        requires
            old(self).wf(),
        ensures
            final(self).wf(),
            final(self).hist == old(self).hist,
            final(self).shutdown == old(self).shutdown,
            final(self).shutdown_on_idle == old(self).shutdown_on_idle,
            r == has_id(old(self).entries@, id@),
            !r ==> final(self).entries == old(self).entries && *final(errors) == *old(errors),
            r ==> final(errors)@.len() == 0 && exists|i: int|
                {
                    &&& 0 <= i < old(self).entries@.len()
                    &&& (#[trigger] old(self).entries@[i]).id@ == id@
                    &&& final(self).entries@ == old(self).entries@.update(
                        i,
                        final(self).entries@[i],
                    )
                    &&& final(self).entries@[i].id == old(self).entries@[i].id
                    &&& final(self).entries@[i].notified == old(self).entries@[i].notified
                    &&& final(self).entries@[i].proc.errors@ == old(
                        self,
                    ).entries@[i].proc.errors@ + old(errors)@
                    &&& final(self).entries@[i].proc.wait_info == old(
                        self,
                    ).entries@[i].proc.wait_info
                    &&& final(self).entries@[i].proc.pid == old(self).entries@[i].proc.pid
                    &&& final(self).entries@[i].proc.fd_handlers == old(
                        self,
                    ).entries@[i].proc.fd_handlers
                },
    {
        match self.find(id) {
            None => false,
            Some(i) => {
                let ghost before = self.entries@;
                let mut entry = self.entries.remove(i);
                entry.proc.append_errors(errors);
                proof {
                    lemma_update_step(
                        before,
                        self.hist@,
                        i as int,
                        ProcEntry { id: entry.id, proc: entry.proc, notified: entry.notified },
                    );
                }
                self.entries.insert(i, entry);
                proof {
                    assert(self.entries@ =~= before.update(i as int, self.entries@[i as int]));
                }
                true
            },
        }
    }

    /// Appends bytes drained from a capture pipe to the record registered
    /// under an id; reports whether the id was present and a capture
    /// handler for the fd exists.
    pub fn append_capture_to(&mut self, id: &str, fd: i32, bytes: &[u8]) -> (r: bool)
        requires
            old(self).wf(),
        ensures
            final(self).wf(),
            final(self).hist == old(self).hist,
            final(self).shutdown == old(self).shutdown,
            final(self).shutdown_on_idle == old(self).shutdown_on_idle,
            !has_id(old(self).entries@, id@) ==> !r && final(self).entries == old(self).entries,
            has_id(old(self).entries@, id@) ==> exists|i: int|
                {
                    &&& 0 <= i < old(self).entries@.len()
                    &&& (#[trigger] old(self).entries@[i]).id@ == id@
                    &&& final(self).entries@ == old(self).entries@.update(
                        i,
                        final(self).entries@[i],
                    )
                    &&& final(self).entries@[i].id == old(self).entries@[i].id
                    &&& final(self).entries@[i].notified == old(self).entries@[i].notified
                    &&& final(self).entries@[i].proc.errors == old(self).entries@[i].proc.errors
                    &&& final(self).entries@[i].proc.wait_info == old(
                        self,
                    ).entries@[i].proc.wait_info
                    &&& final(self).entries@[i].proc.pid == old(self).entries@[i].proc.pid
                    &&& final(self).entries@[i].proc.fd_handlers@.len() == old(
                        self,
                    ).entries@[i].proc.fd_handlers@.len()
                    &&& r == exists|j: int|
                        0 <= j < old(self).entries@[i].proc.fd_handlers@.len() && (#[trigger] old(
                            self,
                        ).entries@[i].proc.fd_handlers@[j]).0 == fd && old(
                            self,
                        ).entries@[i].proc.fd_handlers@[j].1 is Capture
                },
    {
        match self.find(id) {
            None => false,
            Some(i) => {
                let ghost before = self.entries@;
                let mut entry = self.entries.remove(i);
                let r = entry.proc.append_capture(fd, bytes);
                proof {
                    lemma_update_step(
                        before,
                        self.hist@,
                        i as int,
                        ProcEntry { id: entry.id, proc: entry.proc, notified: entry.notified },
                    );
                }
                self.entries.insert(i, entry);
                proof {
                    assert(self.entries@ =~= before.update(i as int, self.entries@[i as int]));
                }
                r
            },
        }
    }

    /// Records the reap of the child registered under an id: sets its wait
    /// information, the pre-reap status snapshot and the stop timestamps,
    /// exactly once.  Reports whether a record was finalized; nothing
    /// changes when the id is unknown, when the record was already
    /// finalized, or when the pid of the wait information or the snapshot
    /// does not belong to the record.
    pub fn finalize_proc(&mut self, id: &str, wait_info: WaitInfo, proc_stat: Option<ProcStat>) -> (r:
        bool)
        requires
            old(self).wf(),
        ensures
            final(self).wf(),
            final(self).hist == old(self).hist,
            final(self).shutdown == old(self).shutdown,
            final(self).shutdown_on_idle == old(self).shutdown_on_idle,
            r == exists|i: int|
                {
                    &&& 0 <= i < old(self).entries@.len()
                    &&& (#[trigger] old(self).entries@[i]).id@ == id@
                    &&& old(self).entries@[i].proc.wait_info is None
                    &&& wait_info.pid == old(self).entries@[i].proc.pid
                    &&& match proc_stat {
                        Some(ps) => ps.pid == old(self).entries@[i].proc.pid,
                        None => true,
                    }
                },
            !r ==> final(self).entries == old(self).entries,
            r ==> exists|i: int|
                {
                    &&& 0 <= i < old(self).entries@.len()
                    &&& (#[trigger] old(self).entries@[i]).id@ == id@
                    &&& final(self).entries@ == old(self).entries@.update(
                        i,
                        final(self).entries@[i],
                    )
                    &&& final(self).entries@[i].id == old(self).entries@[i].id
                    &&& final(self).entries@[i].notified == old(self).entries@[i].notified
                    &&& final(self).entries@[i].proc.wait_info == Some(wait_info)
                    &&& crate::proc::stat_eqv(final(self).entries@[i].proc.proc_stat, proc_stat)
                    &&& final(self).entries@[i].proc.state() == State::Terminated
                    &&& final(self).entries@[i].proc.errors == old(self).entries@[i].proc.errors
                    &&& final(self).entries@[i].proc.pid == old(self).entries@[i].proc.pid
                    &&& final(self).entries@[i].proc.fd_handlers == old(
                        self,
                    ).entries@[i].proc.fd_handlers
                },
    {
        match self.find(id) {
            None => false,
            Some(i) => {
                let pid_matches = wait_info.pid == self.entries[i].proc.pid;
                let stat_matches = match &proc_stat {
                    Some(ps) => ps.pid == self.entries[i].proc.pid,
                    None => true,
                };
                if self.entries[i].proc.wait_info.is_some() || !pid_matches || !stat_matches {
                    proof {
                        if exists|j: int|
                            0 <= j < old(self).entries@.len() && (#[trigger] old(
                                self,
                            ).entries@[j]).id@ == id@ && old(self).entries@[j].proc.wait_info
                                is None && wait_info.pid == old(self).entries@[j].proc.pid
                                && match proc_stat {
                                Some(ps) => ps.pid == old(self).entries@[j].proc.pid,
                                None => true,
                            } {
                            let j = choose|j: int|
                                0 <= j < old(self).entries@.len() && (#[trigger] old(
                                    self,
                                ).entries@[j]).id@ == id@ && old(self).entries@[j].proc.wait_info
                                    is None && wait_info.pid == old(self).entries@[j].proc.pid
                                    && match proc_stat {
                                    Some(ps) => ps.pid == old(self).entries@[j].proc.pid,
                                    None => true,
                                };
                            lemma_unique_ids_public(old(self).entries@, old(self).hist@, j, i as int);
                        }
                    }
                    false
                } else {
                    let ghost before = self.entries@;
                    let mut entry = self.entries.remove(i);
                    entry.proc.finalize(wait_info, proc_stat);
                    proof {
                        lemma_update_step(
                            before,
                            self.hist@,
                            i as int,
                            ProcEntry { id: entry.id, proc: entry.proc, notified: entry.notified },
                        );
                    }
                    self.entries.insert(i, entry);
                    proof {
                        assert(self.entries@ =~= before.update(i as int, self.entries@[i as int]));
                    }
                    true
                }
            },
        }
    }

    /// Requests shutdown for when no records remain.
    pub fn set_shutdown_on_idle(&mut self)
        requires
            old(self).wf(),
        ensures
            final(self).wf(),
            final(self).shutdown_on_idle,
            final(self).entries == old(self).entries,
            final(self).hist == old(self).hist,
            final(self).shutdown == old(self).shutdown,
    {
        self.shutdown_on_idle = true;
    }
}

/// The notification-order law: under the registry invariant, the stream
/// of notifications ever emitted about any one proc id is well formed —
/// complete `Start`, optionally `NotRunning`, then `Delete` lifecycles,
/// followed by a prefix of one.  A subscriber present before an insert
/// therefore observes, for that lifecycle, a prefix of `Start`,
/// `NotRunning`, `Delete`, in that order.  While the id is registered its
/// stream sits mid-lifecycle; while it is absent its stream holds only
/// complete lifecycles.
pub proof fn lemma_notification_stream(procs: &Procs, id: Seq<char>)
    requires
        procs.wf(),
    ensures
        stream_state(proj(procs.hist@, id)) is Some,
        !has_id(procs.entries@, id) ==> stream_state(proj(procs.hist@, id)) == Some(0int),
        has_id(procs.entries@, id) ==> stream_state(proj(procs.hist@, id)) == Some(1int)
            || stream_state(proj(procs.hist@, id)) == Some(2int),
{
    if has_id(procs.entries@, id) {
        let i = choose|i: int| 0 <= i < procs.entries@.len() && procs.entries@[i].id@ == id;
        assert(stream_state(proj(procs.hist@, procs.entries@[i].id@)) == Some(
            if procs.entries@[i].notified {
                2int
            } else {
                1int
            },
        ));
    }
}

/// Whether a notification ends a wait for a given id to stop running:
/// its `NotRunning` or `Delete` does.
pub fn wait_running_done(n: &Notification, id: &str) -> (r: bool)
    ensures
        r == ((note_kind(*n) == NoteKind::NotRunning || note_kind(*n) == NoteKind::Delete)
            && note_id(*n) == id@),
{
    match n {
        Notification::NotRunning(i) => str_eq(i.as_str(), id),
        Notification::Delete(i) => str_eq(i.as_str(), id),
        Notification::Start(_) => false,
    }
}

/// Whether a notification ends a wait for a given id to be deleted.
pub fn wait_idle_done(n: &Notification, id: &str) -> (r: bool)
    ensures
        r == (note_kind(*n) == NoteKind::Delete && note_id(*n) == id@),
{
    match n {
        Notification::Delete(i) => str_eq(i.as_str(), id),
        _ => false,
    }
}

} // verus!
