//! The per-process record: state, timestamps, captured output, errors and
//! termination information.

use vstd::prelude::*;

use crate::clock::{now_rfc3339, now_unix_ms};
use crate::err::ProcError;
use crate::fd::{matches_result, name_of_fd, FdHandler, FdRes};
use crate::state::{state_of, State};

verus! {

/// Resource usage of a reaped child, as the host reports it.
#[derive(Clone, Copy, Debug, PartialEq, Eq, Structural)]
pub struct Rusage {
    /// User CPU time, microseconds.
    pub utime_us: i64,
    /// System CPU time, microseconds.
    pub stime_us: i64,
    /// Maximum resident set size, kilobytes.
    pub maxrss_kb: i64,
}

/// What a successful wait returns: the pid reaped, the raw status word and
/// the child's resource usage.
#[derive(Clone, Copy, Debug, PartialEq, Eq, Structural)]
pub struct WaitInfo {
    pub pid: i32,
    pub status: i32,
    pub rusage: Rusage,
}

/// A snapshot of the host's per-process status line, taken before the
/// process was reaped; the pid records which process it belongs to.
#[derive(Clone, Debug)]
pub struct ProcStat {
    pub pid: i32,
    pub raw: String,
}

/// A snapshot of the host's per-process memory summary.
#[derive(Clone, Copy, Debug, PartialEq, Eq, Structural)]
pub struct ProcStatm {
    pub size_kb: i64,
    pub resident_kb: i64,
}

/// A decoded exit status: an exit code if the child exited, a signal
/// number and core-dump flag if it was killed by a signal.
#[derive(Clone, Copy, Debug)]
pub struct Status {
    pub exit_code: Option<i32>,
    pub signum: Option<i32>,
    pub core_dump: bool,
}

impl Status {
    /// Decodes a raw wait status word: the low seven bits are zero for a
    /// normal exit, whose code is the next eight bits; a value between one
    /// and the stop marker is the fatal signal, with the eighth bit set
    /// when a core was dumped.
    pub fn new(status: i32) -> (r: Status)
        ensures
            (status & 0x7f) == 0 ==> r.exit_code == Some((status >> 8) & 0xff) && r.signum
                is None && !r.core_dump,
            0 < (status & 0x7f) < 0x7f ==> r.exit_code is None && r.signum == Some(status & 0x7f)
                && r.core_dump == ((status & 0x80) != 0),
            (status & 0x7f) == 0x7f ==> r.exit_code is None && r.signum is None && !r.core_dump,
    {
        let low = status & 0x7f;
        proof {
            assert(0 <= status & 0x7f <= 0x7f) by (bit_vector);
        }
        if low == 0 {
            Status { exit_code: Some((status >> 8) & 0xff), signum: None, core_dump: false }
        } else if low < 0x7f {
            Status { exit_code: None, signum: Some(low), core_dump: (status & 0x80) != 0 }
        } else {
            Status { exit_code: None, signum: None, core_dump: false }
        }
    }
}

/// Whether two optional status snapshots carry the same data.
pub open spec fn stat_eqv(a: Option<ProcStat>, b: Option<ProcStat>) -> bool {
    match (a, b) {
        (Some(x), Some(y)) => x.pid == y.pid && x.raw@ == y.raw@,
        (Option::<ProcStat>::None, Option::<ProcStat>::None) => true,
        _ => false,
    }
}

/// The first position among the handlers that sets up the given fd, if
/// any.
pub open spec fn fd_index(hs: Seq<(i32, FdHandler)>, fd: i32) -> Option<int>
    decreases hs.len(),
{
    if hs.len() == 0 {
        None
    } else if hs[0].0 == fd {
        Some(0int)
    } else {
        match fd_index(hs.drop_first(), fd) {
            Some(i) => Some(i + 1),
            None => None,
        }
    }
}

/// The in-memory record of one supervised process.
pub struct Proc {
    /// The child's pid.
    pub pid: i32,
    /// Diagnostics gathered so far, in arrival order.
    pub errors: Vec<String>,
    /// The handlers set up for the child's fds, in spec order.
    pub fd_handlers: Vec<(i32, FdHandler)>,
    /// Wall-clock start time, RFC 3339.
    pub start_time: String,
    /// Wall-clock start time, milliseconds since the epoch.
    pub start_ms: i64,
    /// Set exactly once, when the child is reaped.
    pub wait_info: Option<WaitInfo>,
    /// Status snapshot taken before the reap, if one could be taken.
    pub proc_stat: Option<ProcStat>,
    /// Wall-clock stop time, set together with `wait_info`.
    pub stop_time: Option<String>,
    /// Elapsed run time, set together with `wait_info`.
    pub elapsed_ms: Option<i64>,
}

impl Proc {
    /// Record invariant: termination data is set together and at most
    /// once; every snapshot belongs to this pid; handlers are well formed.
    pub open spec fn wf(&self) -> bool {
        &&& match self.wait_info {
            Some(w) => w.pid == self.pid,
            None => true,
        }
        &&& match self.proc_stat {
            Some(ps) => ps.pid == self.pid,
            None => true,
        }
        &&& (self.wait_info is Some <==> self.stop_time is Some)
        &&& (self.wait_info is Some <==> self.elapsed_ms is Some)
        &&& match self.elapsed_ms {
            Some(e) => e >= 0,
            None => true,
        }
        &&& self.start_ms >= 0
        &&& forall|i: int|
            0 <= i < self.fd_handlers@.len() ==> (#[trigger] self.fd_handlers@[i]).1.wf()
                && self.fd_handlers@[i].0 >= 0
    }

    /// The record's lifecycle state, a function of its errors and its
    /// termination information alone.
    pub open spec fn state(&self) -> State {
        state_of(self.errors@.len(), self.wait_info is Some)
    }

    /// A fresh record for a just-forked child, stamped with the current
    /// wall-clock time.
    pub fn new(pid: i32, fd_handlers: Vec<(i32, FdHandler)>) -> (r: Proc)
        requires
            forall|i: int|
                0 <= i < fd_handlers@.len() ==> (#[trigger] fd_handlers@[i]).1.wf()
                    && fd_handlers@[i].0 >= 0,
        ensures
            r.wf(),
            r.pid == pid,
            r.errors@.len() == 0,
            r.fd_handlers == fd_handlers,
            r.wait_info is None,
            r.proc_stat is None,
            r.stop_time is None,
            r.elapsed_ms is None,
            r.state() == State::Running,
    {
        let start_time = now_rfc3339();
        let t = now_unix_ms();
        let start_ms: i64 = if t >= 0 {
            t
        } else {
            0
        };
        Proc {
            pid,
            errors: Vec::new(),
            fd_handlers,
            start_time,
            start_ms,
            wait_info: None,
            proc_stat: None,
            stop_time: None,
            elapsed_ms: None,
        }
    }

    /// The record's state: `Terminated` once reaped, `Error` when errors
    /// arrived before any reap, `Running` otherwise.
    pub fn get_state(&self) -> (r: State)
        ensures
            r == self.state(),
    {
        if self.wait_info.is_some() {
            State::Terminated
        } else if self.errors.len() > 0 {
            State::Error
        } else {
            State::Running
        }
    }

    /// Appends diagnostics drained from the error pipe or reported by
    /// parent-side fd setup.
    pub fn append_errors(&mut self, errors: &mut Vec<String>)
        requires
            old(self).wf(),
        ensures
            final(self).wf(),
            final(self).errors@ == old(self).errors@ + old(errors)@,
            final(errors)@.len() == 0,
            final(self).pid == old(self).pid,
            final(self).fd_handlers == old(self).fd_handlers,
            final(self).start_time == old(self).start_time,
            final(self).start_ms == old(self).start_ms,
            final(self).wait_info == old(self).wait_info,
            final(self).proc_stat == old(self).proc_stat,
            final(self).stop_time == old(self).stop_time,
            final(self).elapsed_ms == old(self).elapsed_ms,
    {
        self.errors.append(errors);
    }

    /// Finalizes the record when its child has been reaped: records the
    /// wait information and the pre-reap status snapshot, stamps the stop
    /// time and the elapsed time.  Called at most once; afterwards the
    /// record is `Terminated` and never leaves that state.
    pub fn finalize(&mut self, wait_info: WaitInfo, proc_stat: Option<ProcStat>)
        requires
            old(self).wf(),
            old(self).wait_info is None,
            wait_info.pid == old(self).pid,
            match proc_stat {
                Some(ps) => ps.pid == old(self).pid,
                None => true,
            },
        ensures
            final(self).wf(),
            final(self).wait_info == Some(wait_info),
            stat_eqv(final(self).proc_stat, proc_stat),
            final(self).stop_time is Some,
            final(self).elapsed_ms is Some,
            final(self).state() == State::Terminated,
            final(self).pid == old(self).pid,
            final(self).errors == old(self).errors,
            final(self).fd_handlers == old(self).fd_handlers,
            final(self).start_time == old(self).start_time,
            final(self).start_ms == old(self).start_ms,
    {
        self.wait_info = Some(wait_info);
        self.proc_stat = proc_stat;
        self.stop_time = Some(now_rfc3339());
        let now = now_unix_ms();
        let elapsed: i64 = if now >= self.start_ms {
            now - self.start_ms
        } else {
            0
        };
        self.elapsed_ms = Some(elapsed);
    }

    /// Appends bytes read from a capture pipe to the buffer of the first
    /// handler configured for the given fd; reports whether such a capture
    /// handler exists.
    #[verifier::loop_isolation(false)]
    pub fn append_capture(&mut self, fd: i32, bytes: &[u8]) -> (r: bool)
        requires
            old(self).wf(),
        ensures
            final(self).wf(),
            final(self).pid == old(self).pid,
            final(self).errors == old(self).errors,
            final(self).wait_info == old(self).wait_info,
            final(self).proc_stat == old(self).proc_stat,
            final(self).stop_time == old(self).stop_time,
            final(self).elapsed_ms == old(self).elapsed_ms,
            final(self).start_time == old(self).start_time,
            final(self).start_ms == old(self).start_ms,
            final(self).fd_handlers@.len() == old(self).fd_handlers@.len(),
            forall|i: int|
                0 <= i < old(self).fd_handlers@.len() && old(self).fd_handlers@[i].0 != fd
                    ==> #[trigger] final(self).fd_handlers@[i] == old(self).fd_handlers@[i],
            r == exists|i: int|
                0 <= i < old(self).fd_handlers@.len() && (#[trigger] old(
                    self,
                ).fd_handlers@[i]).0 == fd && old(self).fd_handlers@[i].1 is Capture,
            r ==> exists|i: int|
                {
                    &&& 0 <= i < old(self).fd_handlers@.len()
                    &&& (#[trigger] old(self).fd_handlers@[i]).0 == fd
                    &&& match (old(self).fd_handlers@[i].1, final(self).fd_handlers@[i].1) {
                        (
                            FdHandler::Capture { format: f0, buf: b0 },
                            FdHandler::Capture { format: f1, buf: b1 },
                        ) => f1 == f0 && b1.cap == b0.cap && b1.data@ == crate::fd::append_model(
                            b0.data@,
                            b0.cap as nat,
                            bytes@,
                        ) && b1.truncated == (b0.truncated || b0.data@.len() + bytes@.len()
                            > b0.cap),
                        _ => false,
                    }
                    &&& forall|j: int|
                        0 <= j < old(self).fd_handlers@.len() && j != i ==> final(self).fd_handlers@[j] == #[trigger] old(self).fd_handlers@[j]
                },
    {
        let mut i: usize = 0;
        let n = self.fd_handlers.len();
        while i < n
            invariant
                0 <= i <= n,
                n == self.fd_handlers@.len(),
                *self == *old(self),
                forall|j: int|
                    0 <= j < i ==> !((#[trigger] self.fd_handlers@[j]).0 == fd
                        && self.fd_handlers@[j].1 is Capture),
            decreases n - i,
        {
            let is_capture = match &self.fd_handlers[i].1 {
                FdHandler::Capture { .. } => true,
                _ => false,
            };
            if self.fd_handlers[i].0 == fd && is_capture {
                let ghost before = self.fd_handlers@;
                proof {
                    assert(before == old(self).fd_handlers@);
                    assert((before[i as int]).1.wf());
                }
                let (num, handler) = self.fd_handlers.remove(i);
                match handler {
                    FdHandler::Capture { format, mut buf } => {
                        buf.append(bytes);
                        self.fd_handlers.insert(i, (num, FdHandler::Capture { format, buf }));
                        proof {
                            assert(self.fd_handlers@ =~= before.update(
                                i as int,
                                (num, FdHandler::Capture { format, buf }),
                            ));
                            assert((old(self).fd_handlers@[i as int]).0 == fd);
                            assert(old(self).fd_handlers@[i as int].1 is Capture);
                            assert forall|j: int|
                                0 <= j < self.fd_handlers@.len() implies (
                            #[trigger] self.fd_handlers@[j]).1.wf()
                                && self.fd_handlers@[j].0 >= 0 by {
                                if j != i {
                                    assert(self.fd_handlers@[j] == old(self).fd_handlers@[j]);
                                    assert(old(self).fd_handlers@[j].1.wf());
                                }
                            }
                        }
                        return true;
                    },
                    _ => {
                        proof {
                            assert(false);
                        }
                        return false;
                    },
                }
            }
            i += 1;
        }
        false
    }

    /// The first handler configured for an fd, if any.
    #[verifier::loop_isolation(false)]
    pub fn get_fd_handler(&self, fd: i32) -> (r: Option<&FdHandler>)
        ensures
            match (fd_index(self.fd_handlers@, fd), r) {
                (Some(i), Some(h)) => *h == self.fd_handlers@[i].1,
                (Option::<int>::None, Option::<&FdHandler>::None) => true,
                _ => false,
            },
    {
        let mut i: usize = 0;
        let n = self.fd_handlers.len();
        proof {
            assert(self.fd_handlers@.skip(0) =~= self.fd_handlers@);
        }
        while i < n
            invariant
                0 <= i <= n,
                n == self.fd_handlers@.len(),
                forall|j: int| 0 <= j < i ==> (#[trigger] self.fd_handlers@[j]).0 != fd,
                fd_index(self.fd_handlers@, fd) == match fd_index(
                    self.fd_handlers@.skip(i as int),
                    fd,
                ) {
                    Some(k) => Some(k + i),
                    None => None::<int>,
                },
            decreases n - i,
        {
            proof {
                assert(self.fd_handlers@.skip(i as int).drop_first() =~= self.fd_handlers@.skip(
                    i + 1,
                ));
                assert(self.fd_handlers@.skip(i as int)[0] == self.fd_handlers@[i as int]);
            }
            if self.fd_handlers[i].0 == fd {
                return Some(&self.fd_handlers[i].1);
            }
            i += 1;
        }
        proof {
            assert(self.fd_handlers@.skip(n as int) =~= Seq::empty());
        }
        None
    }

    /// The bytes captured for an fd between two offsets: an error if the
    /// fd is not configured, nothing if its handler does not capture.
    pub fn get_fd_data(&self, fd: i32, start: usize, stop: Option<usize>) -> (r: Result<
        Option<Vec<u8>>,
        ProcError,
    >)
        ensures
            match fd_index(self.fd_handlers@, fd) {
                Some(i) => match self.fd_handlers@[i].1 {
                    FdHandler::Capture { buf, .. } => match r {
                        Ok(Some(data)) => data@ == buf.data@.subrange(
                            crate::fd::spec_min(start as int, buf.data@.len() as int),
                            crate::fd::spec_max(
                                crate::fd::spec_min(
                                    match stop {
                                        Some(p) => p as int,
                                        None => buf.data@.len() as int,
                                    },
                                    buf.data@.len() as int,
                                ),
                                crate::fd::spec_min(start as int, buf.data@.len() as int),
                            ),
                        ),
                        _ => false,
                    },
                    _ => r matches Ok(Option::<Vec<u8>>::None),
                },
                None => r matches Err(ProcError::NoFd(f)) && f == fd,
            },
    {
        match self.get_fd_handler(fd) {
            Some(handler) => match handler {
                FdHandler::Capture { buf, .. } => Ok(Some(buf.get_data(start, stop))),
                _ => Ok(None),
            },
            None => Err(ProcError::NoFd(fd)),
        }
    }
}

/// The state law: a record's state is a function of its error count and
/// of whether termination information is present, and of nothing else —
/// two records that agree on those agree on their state.
pub proof fn lemma_state_deterministic(a: &Proc, b: &Proc)
    requires
        a.errors@.len() == b.errors@.len(),
        a.wait_info is Some <==> b.wait_info is Some,
    ensures
        a.state() == b.state(),
{
}

/// The snapshot law: under the record invariant, a status snapshot kept
/// by a terminated record belongs to the record's own pid — the snapshot
/// was taken while the pid still existed, before the reap that freed it.
pub proof fn lemma_stat_sampled_before_reap(p: &Proc)
    requires
        p.wf(),
    ensures
        match p.proc_stat {
            Some(ps) => ps.pid == p.pid,
            None => true,
        },
{
}

/// One process's contribution to the result tree.
pub struct ProcRes {
    pub state: State,
    pub errors: Vec<String>,
    pub pid: i32,
    pub proc_stat: Option<ProcStat>,
    pub proc_statm: Option<ProcStatm>,
    pub times: Times,
    pub status: Option<Status>,
    pub rusage: Option<Rusage>,
    pub fds: Vec<(String, Option<FdRes>)>,
}

/// The timestamps of one process.
pub struct Times {
    /// Start, RFC 3339.
    pub start: String,
    /// Stop, RFC 3339, once terminated.
    pub stop: Option<String>,
    /// Elapsed run time in milliseconds: final once terminated, the time
    /// run so far otherwise.
    pub elapsed_ms: i64,
}

impl Proc {
    /// Whether a result is the projection of this record: the same state,
    /// errors, pid and snapshots, the record's timestamps, the decoded exit
    /// status and resource usage once terminated, and one entry per
    /// configured fd.  The live memory summary is reported only while the
    /// process still runs.
    pub open spec fn res_matches(&self, statm: Option<ProcStatm>, r: ProcRes) -> bool {
        &&& r.state == self.state()
        &&& r.errors.deep_view() == self.errors.deep_view()
        &&& r.pid == self.pid
        &&& stat_eqv(r.proc_stat, self.proc_stat)
        &&& r.proc_statm == if self.wait_info is Some {
            None::<ProcStatm>
        } else {
            statm
        }
        &&& r.times.start@ == self.start_time@
        &&& match (r.times.stop, self.stop_time) {
            (Some(a), Some(b)) => a@ == b@,
            (Option::<String>::None, Option::<String>::None) => true,
            _ => false,
        }
        &&& match self.elapsed_ms {
            Some(e) => r.times.elapsed_ms == e,
            None => r.times.elapsed_ms >= 0,
        }
        &&& match self.wait_info {
            Some(w) => {
                &&& r.rusage == Some(w.rusage)
                &&& match r.status {
                    Some(st) => {
                        &&& (w.status & 0x7f) == 0 ==> st.exit_code == Some(
                            (w.status >> 8) & 0xff,
                        ) && st.signum is None
                        &&& 0 < (w.status & 0x7f) < 0x7f ==> st.exit_code is None && st.signum
                            == Some(w.status & 0x7f) && st.core_dump == ((w.status & 0x80)
                            != 0)
                    },
                    None => false,
                }
            },
            None => r.rusage is None && r.status is None,
        }
        &&& r.fds@.len() == self.fd_handlers@.len()
        &&& forall|i: int|
            0 <= i < self.fd_handlers@.len() ==> (#[trigger] r.fds@[i]).0@ == name_of_fd(
                self.fd_handlers@[i].0 as int,
            ) && matches_result(&self.fd_handlers@[i].1, r.fds@[i].1)
    }

    /// Projects the record into a result.
    #[verifier::loop_isolation(false)]
    pub fn to_result(&self, statm: Option<ProcStatm>) -> (r: ProcRes)
        requires
            self.wf(),
        ensures
            self.res_matches(statm, r),
    {
        let (status, rusage) = match &self.wait_info {
            Some(w) => (Some(Status::new(w.status)), Some(w.rusage)),
            None => (None, None),
        };
        let proc_statm = if self.wait_info.is_some() {
            None
        } else {
            statm
        };
        let proc_stat = match &self.proc_stat {
            Some(ps) => Some(ProcStat { pid: ps.pid, raw: ps.raw.clone() }),
            None => None,
        };
        let mut errors: Vec<String> = Vec::new();
        let mut i: usize = 0;
        while i < self.errors.len()
            invariant
                0 <= i <= self.errors@.len(),
                errors@.len() == i,
                forall|j: int| 0 <= j < i ==> (#[trigger] errors@[j])@ == self.errors@[j]@,
            decreases self.errors@.len() - i,
        {
            errors.push(self.errors[i].clone());
            i += 1;
        }
        proof {
            assert(errors.deep_view() =~= self.errors.deep_view());
        }
        let mut fds: Vec<(String, Option<FdRes>)> = Vec::new();
        let mut i: usize = 0;
        while i < self.fd_handlers.len()
            invariant
                0 <= i <= self.fd_handlers@.len(),
                self.wf(),
                fds@.len() == i,
                forall|j: int|
                    0 <= j < i ==> (#[trigger] fds@[j]).0@ == name_of_fd(
                        self.fd_handlers@[j].0 as int,
                    ) && matches_result(&self.fd_handlers@[j].1, fds@[j].1),
            decreases self.fd_handlers@.len() - i,
        {
            let fd = self.fd_handlers[i].0;
            let name = crate::fd::get_fd_name(fd);
            let res = self.fd_handlers[i].1.get_result();
            fds.push((name, res));
            i += 1;
        }
        let elapsed_ms: i64 = match &self.elapsed_ms {
            Some(e) => *e,
            None => {
                let now = now_unix_ms();
                if now >= self.start_ms {
                    now - self.start_ms
                } else {
                    0
                }
            },
        };
        let stop = match &self.stop_time {
            Some(t) => Some(t.clone()),
            None => None,
        };
        let times = Times { start: self.start_time.clone(), stop, elapsed_ms };
        ProcRes {
            state: self.get_state(),
            errors,
            pid: self.pid,
            proc_stat,
            proc_statm,
            times,
            status,
            rusage,
            fds,
        }
    }
}

} // verus!
