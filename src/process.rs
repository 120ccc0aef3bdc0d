//! A process: its thread table, children, signal schedules, checkpoint
//! state and completion.

use vstd::prelude::*;

use core::ops::Range;
use core::time::Duration;
use std::collections::HashMap;
use wasmer_types::ModuleHash;

use crate::backoff::WasiProcessCpuBackoff;
use crate::exit::{ExitCode, TaskResult};
use crate::ids::{WasiProcessId, WasiThreadId};
use crate::signal::{Signal, WasiSignalInterval};
use crate::task::TaskStatus;
use crate::thread::{thread_finished, thread_signaled, ThreadStartType, WasiThread};

verus! {

broadcast use vstd::std_specs::hash::group_hash_axioms;

/// Thread id that, in a signal to a thread, stands for the process itself:
/// the largest value of the 30-bit thread id field that libc uses.
pub const PROCESS_SIGNAL_TID: u32 = 1073741823;

/// Longest pause of a process's CPU backoff, in milliseconds.
pub const MAX_CPU_BACKOFF_MS: u64 = 30_000;

/// Cool-off floor of a process's CPU backoff, in milliseconds.
pub const MAX_CPU_COOL_OFF_MS: u64 = 500;

/// A freeze of all threads to act on the whole process at once, as a
/// snapshot needs. Only normal execution exists so far.
#[derive(Clone, Copy, PartialEq, Eq, Structural, PartialOrd, Ord, Debug)]
pub enum WasiProcessCheckpoint {
    /// No checkpoint takes place: the process executes normally.
    Execute,
}

/// A region of guest memory, `start..end`, that a snapshot covers.
#[derive(Clone, Copy, PartialEq, Eq, Structural, PartialOrd, Ord, Hash, Debug)]
pub struct MemorySnapshotRegion {
    pub start: u64,
    pub end: u64,
}

impl From<Range<u64>> for MemorySnapshotRegion {
    fn from(value: Range<u64>) -> Self {
        MemorySnapshotRegion { start: value.start, end: value.end }
    }
}

impl vstd::std_specs::convert::FromSpecImpl<Range<u64>> for MemorySnapshotRegion {
    open spec fn obeys_from_spec() -> bool {
        true
    }

    open spec fn from_spec(v: Range<u64>) -> Self {
        MemorySnapshotRegion { start: v.start, end: v.end }
    }
}

impl From<MemorySnapshotRegion> for Range<u64> {
    fn from(value: MemorySnapshotRegion) -> Self {
        value.start..value.end
    }
}

impl vstd::std_specs::convert::FromSpecImpl<MemorySnapshotRegion> for Range<u64> {
    open spec fn obeys_from_spec() -> bool {
        true
    }

    open spec fn from_spec(v: MemorySnapshotRegion) -> Self {
        Range { start: v.start, end: v.end }
    }
}

/// The mutable body of a process.
#[derive(Debug)]
pub struct WasiProcessInner {
    /// Id of the process.
    pub pid: WasiProcessId,
    /// The threads of the process, one entry per thread id.
    pub threads: Vec<WasiThread>,
    /// Number of threads in the table.
    pub thread_count: u32,
    /// Signal schedules, keyed by signal number.
    pub signal_intervals: HashMap<u8, WasiSignalInterval>,
    /// Child processes, in the order they were attached.
    pub children: Vec<WasiProcessId>,
    /// The checkpoint that the threads should reach.
    pub checkpoint: WasiProcessCheckpoint,
    /// Whether journaling stops after the next checkpoint.
    pub disable_journaling_after_checkpoint: bool,
    /// Throttling of the process's CPU use while idle.
    pub backoff: WasiProcessCpuBackoff,
}

/// A process: identity, thread table, children, signal schedules and the
/// completion of its main thread, which is the completion of the process.
#[derive(Debug)]
pub struct WasiProcess {
    /// Unique id of the process.
    pub pid: WasiProcessId,
    /// Hash of the module that the process runs.
    pub module_hash: ModuleHash,
    /// The parent process, if any.
    pub parent: Option<WasiProcessId>,
    /// Threads, children, schedules and checkpoint state.
    pub inner: WasiProcessInner,
    /// Completion of the main thread and so of the process.
    pub finished: TaskStatus,
    /// Number of threads blocked waiting, for a join or for children.
    pub waiting: u32,
    /// Number of reasons held to keep the CPU unthrottled.
    pub cpu_run_tokens: u32,
}

/// `after` is `before` with only its thread table changed.
pub open spec fn threads_replaced(before: WasiProcess, after: WasiProcess) -> bool {
    after == WasiProcess {
        inner: WasiProcessInner { threads: after.inner.threads, ..before.inner },
        ..before
    }
}

/// `after` is `before` with `n` more deliveries of `sig` queued on every thread.
pub open spec fn signals_appended(before: WasiProcess, after: WasiProcess, sig: Signal, n: nat) -> bool {
    &&& threads_replaced(before, after)
    &&& after.inner.threads@.len() == before.inner.threads@.len()
    &&& forall|i: int|
        0 <= i < before.inner.threads@.len() ==> #[trigger] thread_signaled(
            before.inner.threads@[i],
            after.inner.threads@[i],
            sig,
            n,
        )
}

/// Queuing `m` and then `n` deliveries is queuing `m + n` of them.
pub proof fn lemma_signals_appended_compose(
    a: WasiProcess,
    b: WasiProcess,
    c: WasiProcess,
    sig: Signal,
    m: nat,
    n: nat,
)
    requires
        signals_appended(a, b, sig, m),
        signals_appended(b, c, sig, n),
    ensures
        signals_appended(a, c, sig, m + n),
{
    assert forall|i: int| 0 <= i < a.inner.threads@.len() implies #[trigger] thread_signaled(
        a.inner.threads@[i],
        c.inner.threads@[i],
        sig,
        m + n,
    ) by {
        assert(thread_signaled(a.inner.threads@[i], b.inner.threads@[i], sig, m));
        assert(thread_signaled(b.inner.threads@[i], c.inner.threads@[i], sig, n));
        assert(c.inner.threads@[i].signals@ =~= a.inner.threads@[i].signals@ + Seq::new(
            m + n,
            |_j: int| sig,
        ));
    }
    assert(c.inner.threads@ =~= c.inner.threads@);
}

/// No deliveries leave a process as it was.
pub proof fn lemma_signals_appended_none(a: WasiProcess, sig: Signal)
    ensures
        signals_appended(a, a, sig, 0),
{
    assert forall|i: int| 0 <= i < a.inner.threads@.len() implies #[trigger] thread_signaled(
        a.inner.threads@[i],
        a.inner.threads@[i],
        sig,
        0,
    ) by {
        assert(a.inner.threads@[i].signals@ =~= a.inner.threads@[i].signals@ + Seq::new(
            0,
            |_j: int| sig,
        ));
    }
}

impl WasiProcess {
    /// The thread table has one entry per id, counted by `thread_count`, all
    /// of this process; the main thread shares the process's completion.
    pub open spec fn wf(self) -> bool {
        &&& self.inner.pid == self.pid
        &&& self.inner.thread_count == self.inner.threads@.len()
        &&& self.inner.backoff.wf()
        &&& forall|i: int, j: int|
            0 <= i < j < self.inner.threads@.len() ==> #[trigger] self.inner.threads@[i].tid
                != #[trigger] self.inner.threads@[j].tid
        &&& forall|i: int|
            0 <= i < self.inner.threads@.len() ==> (#[trigger] self.inner.threads@[i]).pid
                == self.pid
    }

    /// Completion state of the thread at position `i`: a main thread's is
    /// the process's own.
    pub open spec fn thread_status(self, i: int) -> TaskStatus {
        if self.inner.threads@[i].is_main {
            self.finished
        } else {
            self.inner.threads@[i].status
        }
    }

    /// Whether a thread with id `tid` is in the table.
    pub open spec fn has_thread(self, tid: WasiThreadId) -> bool {
        exists|i: int| 0 <= i < self.inner.threads@.len() && #[trigger] self.inner.threads@[i].tid == tid
    }

    /// Position of the thread with id `tid` in the table.
    pub open spec fn thread_index(self, tid: WasiThreadId) -> int {
        choose|i: int| 0 <= i < self.inner.threads@.len() && #[trigger] self.inner.threads@[i].tid == tid
    }

    /// Whether the table holds the main thread.
    pub open spec fn has_main_thread(self) -> bool {
        exists|i: int| 0 <= i < self.inner.threads@.len() && #[trigger] self.inner.threads@[i].is_main
    }

    /// The thread that a signal to `tid` reaches: the reserved id stands for
    /// the process, whose main thread has the process id.
    pub open spec fn signal_target(self, tid: WasiThreadId) -> WasiThreadId {
        if tid.0 == PROCESS_SIGNAL_TID {
            WasiThreadId(self.pid.0)
        } else {
            tid
        }
    }

    /// The parent's id, or 0 for a process without a parent.
    pub open spec fn spec_ppid(self) -> WasiProcessId {
        match self.parent {
            Some(p) => p,
            None => WasiProcessId(0),
        }
    }

    /// A fresh process: no threads, children or schedules, pending, executing
    /// normally, with a CPU backoff of at most thirty seconds after a half
    /// second of cool-off.
    pub fn new(pid: WasiProcessId, module_hash: ModuleHash) -> (r: Self)
        ensures
            is_fresh_process(r, pid, module_hash),
    {
        WasiProcess {
            pid,
            module_hash,
            parent: None,
            inner: WasiProcessInner {
                pid,
                threads: Vec::new(),
                thread_count: 0,
                signal_intervals: HashMap::new(),
                children: Vec::new(),
                checkpoint: WasiProcessCheckpoint::Execute,
                disable_journaling_after_checkpoint: false,
                backoff: WasiProcessCpuBackoff::new(MAX_CPU_BACKOFF_MS, MAX_CPU_COOL_OFF_MS),
            },
            finished: TaskStatus::Pending,
            waiting: 0,
            cpu_run_tokens: 0,
        }
    }

    /// Id of this process.
    pub fn pid(&self) -> (r: WasiProcessId)
        ensures
            r == self.pid,
    {
        self.pid
    }

    /// Id of the parent process, 0 if there is none.
    pub fn ppid(&self) -> (r: WasiProcessId)
        ensures
            r == self.spec_ppid(),
    {
        match self.parent {
            Some(p) => p,
            None => WasiProcessId(0),
        }
    }

    /// Number of threads in the table.
    pub fn active_threads(&self) -> (r: u32)
        ensures
            r == self.inner.thread_count,
    {
        self.inner.thread_count
    }

    /// The process's result if it has finished, without waiting.
    pub fn try_join(&self) -> (r: Option<TaskResult>)
        ensures
            r == self.finished.spec_finished(),
    {
        self.finished.into_finished()
    }

    /// Position of the thread `tid` in the table, if present.
    fn find_thread(&self, tid: WasiThreadId) -> (r: Option<usize>)
        requires
            self.wf(),
        ensures
            r.is_some() == self.has_thread(tid),
            r matches Some(i) ==> i == self.thread_index(tid) && i < self.inner.threads@.len()
                && self.inner.threads@[i as int].tid == tid,
    {
        let mut i: usize = 0;
        while i < self.inner.threads.len()
            invariant
                self.wf(),
                i <= self.inner.threads@.len(),
                forall|j: int| 0 <= j < i ==> #[trigger] self.inner.threads@[j].tid != tid,
            decreases self.inner.threads@.len() - i,
        {
            if self.inner.threads[i].tid == tid {
                let ghost k = self.thread_index(tid);
                assert(self.has_thread(tid));
                assert(k == i as int) by {
                    if k != i as int {
                        assert(self.inner.threads@[k].tid == tid);
                    }
                }
                return Some(i);
            }
            i += 1;
        }
        None
    }

    /// The thread with id `tid`, if present.
    pub fn get_thread(&self, tid: &WasiThreadId) -> (r: Option<&WasiThread>)
        requires
            self.wf(),
        ensures
            r.is_some() == self.has_thread(*tid),
            r matches Some(t) ==> *t == self.inner.threads@[self.thread_index(*tid)],
    {
        match self.find_thread(*tid) {
            Some(i) => Some(&self.inner.threads[i]),
            None => None,
        }
    }
}

impl WasiProcess {
    /// Queues `sig` on every thread of the table.
    pub fn signal_threads(&mut self, sig: Signal)
        requires
            old(self).wf(),
        ensures
            final(self).wf(),
            signals_appended(*old(self), *final(self), sig, 1),
    {
        let n = self.inner.threads.len();
        let mut i: usize = 0;
        while i < n
            invariant
                n == old(self).inner.threads@.len(),
                i <= n,
                threads_replaced(*old(self), *self),
                self.inner.threads@.len() == n,
                forall|j: int|
                    0 <= j < i ==> #[trigger] thread_signaled(
                        old(self).inner.threads@[j],
                        self.inner.threads@[j],
                        sig,
                        1,
                    ),
                forall|j: int| i <= j < n ==> #[trigger] self.inner.threads@[j] == old(self).inner.threads@[j],
            decreases n - i,
        {
            self.inner.threads[i].signal(sig);
            i += 1;
        }
        assert forall|j: int, k: int|
            0 <= j < k < self.inner.threads@.len() implies #[trigger] self.inner.threads@[j].tid
            != #[trigger] self.inner.threads@[k].tid by {
            assert(thread_signaled(old(self).inner.threads@[j], self.inner.threads@[j], sig, 1));
            assert(thread_signaled(old(self).inner.threads@[k], self.inner.threads@[k], sig, 1));
            assert(old(self).inner.threads@[j].tid != old(self).inner.threads@[k].tid);
        }
        assert forall|j: int| 0 <= j < self.inner.threads@.len() implies (#[trigger] self.inner.threads@[j]).pid
            == self.pid by {
            assert(thread_signaled(old(self).inner.threads@[j], self.inner.threads@[j], sig, 1));
        }
    }

    /// Queues `sig` on the thread `tid`, where the reserved id stands for the
    /// main thread. A signal to a thread that is not in the table is dropped.
    pub fn signal_thread(&mut self, tid: &WasiThreadId, sig: Signal)
        requires
            old(self).wf(),
        ensures
            final(self).wf(),
            thread_signal_delivered(*old(self), *final(self), *tid, sig),
    {
        let target = if tid.0 == PROCESS_SIGNAL_TID {
            WasiThreadId(self.pid.0)
        } else {
            *tid
        };
        match self.find_thread(target) {
            Some(i) => {
                self.inner.threads[i].signal(sig);
            },
            None => {},
        }
    }

    /// Installs a schedule that delivers `sig` every `interval`, stamped with
    /// the monotonic time `now`; with no interval, removes the schedule of `sig`.
    pub fn signal_interval(&mut self, sig: Signal, interval: Option<Duration>, repeat: bool, now: u128)
        requires
            old(self).wf(),
        ensures
            final(self).wf(),
            signal_interval_set(*old(self), *final(self), sig, interval, repeat, now),
    {
        let key = sig.number();
        match interval {
            None => {
                self.inner.signal_intervals.remove(&key);
            },
            Some(d) => {
                self.inner.signal_intervals.insert(
                    key,
                    WasiSignalInterval { signal: sig, interval: d, last_signal: now, repeat },
                );
            },
        }
    }

    /// Finishes the thread `tid` with `res`; finishing the main thread
    /// finishes the process. Returns whether a pending thread was settled.
    pub fn set_thread_finished(&mut self, tid: &WasiThreadId, res: TaskResult) -> (settled: bool)
        requires
            old(self).wf(),
        ensures
            final(self).wf(),
            settled == (old(self).has_thread(*tid) && old(self).thread_status(
                old(self).thread_index(*tid),
            ).spec_finished().is_none()),
            thread_settled(*old(self), *final(self), *tid, res),
    {
        match self.find_thread(*tid) {
            Some(i) => {
                let is_main = self.inner.threads[i].is_main;
                let own = self.inner.threads[i].set_status_finished(res);
                let settled = if is_main {
                    self.finished.set_finished(res)
                } else {
                    own
                };
                assert forall|j: int, k: int|
                    0 <= j < k < self.inner.threads@.len() implies #[trigger] self.inner.threads@[j].tid
                    != #[trigger] self.inner.threads@[k].tid by {
                    assert(old(self).inner.threads@[j].tid != old(self).inner.threads@[k].tid);
                }
                settled
            },
            None => false,
        }
    }

    /// Marks every thread of the table finished with `exit_code`, and the
    /// process too where its main thread is among them. Threads that had
    /// already finished keep their result.
    pub fn terminate(&mut self, exit_code: ExitCode)
        requires
            old(self).wf(),
        ensures
            final(self).wf(),
            terminated(*old(self), *final(self), exit_code),
    {
        let n = self.inner.threads.len();
        let mut main_seen = false;
        let mut i: usize = 0;
        while i < n
            invariant
                n == old(self).inner.threads@.len(),
                i <= n,
                threads_replaced(*old(self), *self),
                self.inner.threads@.len() == n,
                main_seen == exists|j: int| 0 <= j < i && #[trigger] old(self).inner.threads@[j].is_main,
                forall|j: int|
                    0 <= j < i ==> #[trigger] thread_finished(
                        old(self).inner.threads@[j],
                        self.inner.threads@[j],
                        Ok(exit_code),
                    ),
                forall|j: int| i <= j < n ==> #[trigger] self.inner.threads@[j] == old(self).inner.threads@[j],
            decreases n - i,
        {
            if self.inner.threads[i].is_main {
                main_seen = true;
            }
            self.inner.threads[i].set_status_finished(Ok(exit_code));
            i += 1;
        }
        if main_seen {
            self.finished.set_finished(Ok(exit_code));
        }
        assert forall|j: int, k: int|
            0 <= j < k < self.inner.threads@.len() implies #[trigger] self.inner.threads@[j].tid
            != #[trigger] self.inner.threads@[k].tid by {
            assert(thread_finished(old(self).inner.threads@[j], self.inner.threads@[j], Ok(exit_code)));
            assert(thread_finished(old(self).inner.threads@[k], self.inner.threads@[k], Ok(exit_code)));
            assert(old(self).inner.threads@[j].tid != old(self).inner.threads@[k].tid);
        }
        assert forall|j: int| 0 <= j < self.inner.threads@.len() implies (#[trigger] self.inner.threads@[j]).pid
            == self.pid by {
            assert(thread_finished(old(self).inner.threads@[j], self.inner.threads@[j], Ok(exit_code)));
        }
    }
}

impl WasiProcess {
    /// Adds `thread` to the table, replacing the entry with the same id if
    /// there is one, which is handed back.
    pub(crate) fn insert_thread(&mut self, thread: WasiThread) -> (replaced: Option<WasiThread>)
        requires
            old(self).wf(),
            thread.pid == old(self).pid,
            old(self).has_thread(thread.tid) || old(self).inner.thread_count < u32::MAX,
        ensures
            final(self).wf(),
            *final(self) == (WasiProcess {
                inner: WasiProcessInner {
                    threads: final(self).inner.threads,
                    thread_count: final(self).inner.thread_count,
                    ..old(self).inner
                },
                ..*old(self)
            }),
            final(self).has_thread(thread.tid),
            old(self).has_thread(thread.tid) ==> replaced == Some(
                old(self).inner.threads@[old(self).thread_index(thread.tid)],
            ) && final(self).inner.threads@ == old(self).inner.threads@.update(
                old(self).thread_index(thread.tid),
                thread,
            ),
            !old(self).has_thread(thread.tid) ==> replaced.is_none()
                && final(self).inner.threads@ == old(self).inner.threads@.push(thread),
    {
        let ghost tid = thread.tid;
        match self.find_thread(thread.tid) {
            Some(i) => {
                let previous = self.inner.threads.remove(i);
                self.inner.threads.insert(i, thread);
                assert(self.inner.threads@ =~= old(self).inner.threads@.update(i as int, thread));
                assert forall|j: int, k: int|
                    0 <= j < k < self.inner.threads@.len() implies #[trigger] self.inner.threads@[j].tid
                    != #[trigger] self.inner.threads@[k].tid by {
                    assert(old(self).inner.threads@[j].tid != old(self).inner.threads@[k].tid);
                }
                assert(self.inner.threads@[i as int].tid == tid);
                Some(previous)
            },
            None => {
                self.inner.threads.push(thread);
                self.inner.thread_count = self.inner.thread_count + 1;
                let ghost last = self.inner.threads@.len() - 1;
                assert(self.inner.threads@[last].tid == tid);
                assert forall|j: int, k: int|
                    0 <= j < k < self.inner.threads@.len() implies #[trigger] self.inner.threads@[j].tid
                    != #[trigger] self.inner.threads@[k].tid by {
                    if k < last {
                        assert(old(self).inner.threads@[j].tid != old(self).inner.threads@[k].tid);
                    } else {
                        assert(old(self).inner.threads@[j].tid == self.inner.threads@[j].tid);
                    }
                }
                None
            },
        }
    }

    /// Takes the thread `tid` out of the table, as when its last handle goes.
    /// The thread keeps its task slot, for the caller to give back.
    pub fn remove_thread(&mut self, tid: &WasiThreadId) -> (r: Option<WasiThread>)
        requires
            old(self).wf(),
        ensures
            final(self).wf(),
            r.is_some() == old(self).has_thread(*tid),
            r is None ==> *final(self) == *old(self),
            r matches Some(t) ==> t == old(self).inner.threads@[old(self).thread_index(*tid)]
                && t.tid == *tid && thread_removed(*old(self), *final(self), *tid),
    {
        match self.find_thread(*tid) {
            Some(i) => {
                let t = self.inner.threads.remove(i);
                self.inner.thread_count = self.inner.thread_count - 1;
                assert forall|j: int, k: int|
                    0 <= j < k < self.inner.threads@.len() implies #[trigger] self.inner.threads@[j].tid
                    != #[trigger] self.inner.threads@[k].tid by {
                    if j < i {
                        if k < i {
                            assert(old(self).inner.threads@[j].tid != old(self).inner.threads@[k].tid);
                        } else {
                            assert(old(self).inner.threads@[j].tid != old(self).inner.threads@[k
                                + 1].tid);
                        }
                    } else {
                        assert(old(self).inner.threads@[j + 1].tid != old(self).inner.threads@[k
                            + 1].tid);
                    }
                }
                assert forall|j: int| 0 <= j < self.inner.threads@.len() implies (#[trigger] self.inner.threads@[j]).pid
                    == self.pid by {
                    if j >= i {
                        assert(self.inner.threads@[j] == old(self).inner.threads@[j + 1]);
                    }
                }
                Some(t)
            },
            None => None,
        }
    }

    /// Takes one more run token: the CPU runs freely while any is held.
    pub fn acquire_run_token(&mut self)
        requires
            old(self).cpu_run_tokens < u32::MAX,
        ensures
            *final(self) == (WasiProcess { cpu_run_tokens: (old(self).cpu_run_tokens + 1) as u32, ..*old(self) }),
    {
        self.cpu_run_tokens = self.cpu_run_tokens + 1;
    }

    /// Gives back a run token.
    pub fn release_run_token(&mut self)
        requires
            old(self).cpu_run_tokens > 0,
        ensures
            *final(self) == (WasiProcess { cpu_run_tokens: (old(self).cpu_run_tokens - 1) as u32, ..*old(self) }),
    {
        self.cpu_run_tokens = self.cpu_run_tokens - 1;
    }

    /// Consults the CPU backoff with the run tokens now held: how long to
    /// sleep before resuming guest code.
    pub fn cpu_backoff(&mut self) -> (sleep: u64)
        requires
            old(self).wf(),
        ensures
            final(self).wf(),
            sleep == old(self).inner.backoff.suggestion(old(self).cpu_run_tokens),
            *final(self) == (WasiProcess {
                inner: WasiProcessInner {
                    backoff: old(self).inner.backoff.consulted(old(self).cpu_run_tokens),
                    ..old(self).inner
                },
                ..*old(self)
            }),
    {
        let tokens = self.cpu_run_tokens;
        self.inner.backoff.backoff(tokens)
    }
}

/// A thread's registration as waiting on its process; the process routes
/// signals to its children while any is registered.
#[derive(Debug)]
pub struct WasiProcessWait {
    pid: WasiProcessId,
}

impl WasiProcessWait {
    /// The process that the wait is registered with.
    pub closed spec fn spec_pid(&self) -> WasiProcessId {
        self.pid
    }

    /// The process that the wait is registered with.
    pub fn pid(&self) -> (r: WasiProcessId)
        ensures
            r == self.spec_pid(),
    {
        self.pid
    }

    /// Registers a waiting thread with `process`.
    pub fn new(process: &mut WasiProcess) -> (r: Self)
        requires
            old(process).waiting < u32::MAX,
        ensures
            r.spec_pid() == old(process).pid,
            *final(process) == (WasiProcess { waiting: (old(process).waiting + 1) as u32, ..*old(process) }),
    {
        process.waiting = process.waiting + 1;
        WasiProcessWait { pid: process.pid }
    }

    /// Ends the wait: the process counts one waiting thread less.
    pub fn release(self, process: &mut WasiProcess)
        requires
            old(process).pid == self.spec_pid(),
            old(process).waiting > 0,
        ensures
            *final(process) == (WasiProcess { waiting: (old(process).waiting - 1) as u32, ..*old(process) }),
    {
        process.waiting = process.waiting - 1;
    }
}

/// `p` is a process just created under `pid` to run `module_hash`: no parent,
/// threads, children or schedules, pending, executing normally, nobody
/// waiting, no run token, and its CPU backoff at the cool-off floor.
pub open spec fn is_fresh_process(p: WasiProcess, pid: WasiProcessId, module_hash: ModuleHash) -> bool {
    &&& p.wf()
    &&& p.pid == pid
    &&& p.module_hash == module_hash
    &&& p.parent.is_none()
    &&& p.inner.threads@.len() == 0
    &&& p.inner.signal_intervals@ == Map::<u8, WasiSignalInterval>::empty()
    &&& p.inner.children@.len() == 0
    &&& p.inner.checkpoint == WasiProcessCheckpoint::Execute
    &&& !p.inner.disable_journaling_after_checkpoint
    &&& p.inner.backoff == (WasiProcessCpuBackoff {
        cpu_backoff_time: MAX_CPU_COOL_OFF_MS,
        max_cpu_backoff_time: MAX_CPU_BACKOFF_MS,
        max_cpu_cool_off_time: MAX_CPU_COOL_OFF_MS,
    })
    &&& p.finished == TaskStatus::Pending
    &&& p.waiting == 0
    &&& p.cpu_run_tokens == 0
}

/// `t` is the entry of a thread `tid` that was just admitted into `p`,
/// started as `start`.
pub open spec fn is_new_thread_entry(t: WasiThread, p: WasiProcess, tid: WasiThreadId, start: ThreadStartType) -> bool {
    &&& t.pid == p.pid
    &&& t.tid == tid
    &&& t.start == start
    &&& t.is_main == (start == ThreadStartType::MainThread)
    &&& t.signals@.len() == 0
    &&& t.status == if t.is_main {
        p.finished
    } else {
        TaskStatus::Pending
    }
}

/// `after` is `before` with a new thread `tid` in its table, in place of
/// the entry with that id if there was one, else at the end.
pub open spec fn thread_added(before: WasiProcess, after: WasiProcess, tid: WasiThreadId, start: ThreadStartType) -> bool {
    let t = after.inner.threads@[after.thread_index(tid)];
    &&& after == (WasiProcess {
        inner: WasiProcessInner {
            threads: after.inner.threads,
            thread_count: after.inner.thread_count,
            ..before.inner
        },
        ..before
    })
    &&& after.has_thread(tid)
    &&& is_new_thread_entry(t, before, tid, start)
    &&& if before.has_thread(tid) {
        &&& after.inner.threads@ == before.inner.threads@.update(before.thread_index(tid), t)
        &&& after.inner.thread_count == before.inner.thread_count
    } else {
        &&& after.inner.threads@ == before.inner.threads@.push(t)
        &&& after.inner.thread_count == before.inner.thread_count + 1
    }
}

/// `after` is `before` without its thread `tid`.
pub open spec fn thread_removed(before: WasiProcess, after: WasiProcess, tid: WasiThreadId) -> bool {
    &&& before.has_thread(tid)
    &&& after == (WasiProcess {
        inner: WasiProcessInner {
            threads: after.inner.threads,
            thread_count: after.inner.thread_count,
            ..before.inner
        },
        ..before
    })
    &&& after.inner.threads@ == before.inner.threads@.remove(before.thread_index(tid))
    &&& after.inner.thread_count == before.inner.thread_count - 1
}

/// In a well-formed process, the thread with a given id sits at one place.
pub proof fn lemma_thread_index(p: WasiProcess, i: int)
    requires
        p.wf(),
        0 <= i < p.inner.threads@.len(),
    ensures
        p.has_thread(p.inner.threads@[i].tid),
        p.thread_index(p.inner.threads@[i].tid) == i,
{
    let tid = p.inner.threads@[i].tid;
    assert(p.has_thread(tid));
    let k = p.thread_index(tid);
    if k != i {
        assert(p.inner.threads@[k].tid == tid);
    }
}

/// The active thread count is the size of the thread table: a thread added
/// under a new id counts one more, and removing it again brings the count
/// back to where it was.
pub proof fn lemma_active_threads_follow_table(
    a: WasiProcess,
    b: WasiProcess,
    c: WasiProcess,
    tid: WasiThreadId,
    start: ThreadStartType,
)
    requires
        a.wf(),
        b.wf(),
        c.wf(),
        !a.has_thread(tid),
        thread_added(a, b, tid, start),
        thread_removed(b, c, tid),
    ensures
        a.inner.thread_count == a.inner.threads@.len(),
        b.inner.thread_count == a.inner.thread_count + 1,
        c.inner.thread_count == a.inner.thread_count,
        c.inner.thread_count == c.inner.threads@.len(),
        c.inner.threads@ == a.inner.threads@,
{
    lemma_thread_index(b, a.inner.threads@.len() as int);
    assert(c.inner.threads@ =~= a.inner.threads@);
}

/// `after` is `before` with `sig` queued on the thread that a signal to `tid`
/// reaches, if that thread is in the table.
pub open spec fn thread_signal_delivered(before: WasiProcess, after: WasiProcess, tid: WasiThreadId, sig: Signal) -> bool {
    &&& threads_replaced(before, after)
    &&& after.inner.threads@.len() == before.inner.threads@.len()
    &&& forall|i: int|
        0 <= i < before.inner.threads@.len() ==> if before.inner.threads@[i].tid == before.signal_target(
            tid,
        ) {
            thread_signaled(before.inner.threads@[i], after.inner.threads@[i], sig, 1)
        } else {
            after.inner.threads@[i] == before.inner.threads@[i]
        }
}

/// `after` is `before` with the schedule of `sig` installed at time `now`,
/// or removed when there is no interval.
pub open spec fn signal_interval_set(
    before: WasiProcess,
    after: WasiProcess,
    sig: Signal,
    interval: Option<Duration>,
    repeat: bool,
    now: u128,
) -> bool {
    &&& after.inner.signal_intervals@ == match interval {
        None => before.inner.signal_intervals@.remove(sig@),
        Some(d) => before.inner.signal_intervals@.insert(
            sig@,
            WasiSignalInterval { signal: sig, interval: d, last_signal: now, repeat },
        ),
    }
    &&& after == (WasiProcess {
        inner: WasiProcessInner { signal_intervals: after.inner.signal_intervals, ..before.inner },
        ..before
    })
}

/// `after` is `before` with thread `tid` finished on `res` where it was
/// pending; for the main thread, the process with it.
pub open spec fn thread_settled(before: WasiProcess, after: WasiProcess, tid: WasiThreadId, res: TaskResult) -> bool {
    &&& after == (WasiProcess {
        inner: WasiProcessInner { threads: after.inner.threads, ..before.inner },
        finished: after.finished,
        ..before
    })
    &&& after.inner.threads@.len() == before.inner.threads@.len()
    &&& forall|i: int|
        0 <= i < before.inner.threads@.len() ==> if before.inner.threads@[i].tid == tid {
            thread_finished(before.inner.threads@[i], after.inner.threads@[i], res)
        } else {
            after.inner.threads@[i] == before.inner.threads@[i]
        }
    &&& after.finished == if before.has_thread(tid) && before.inner.threads@[before.thread_index(
        tid,
    )].is_main {
        before.finished.spec_finish(res)
    } else {
        before.finished
    }
}

/// `after` is `before` with every thread finished on `Ok(exit_code)` where it
/// was pending, and the process with them where its main thread is there.
pub open spec fn terminated(before: WasiProcess, after: WasiProcess, exit_code: ExitCode) -> bool {
    &&& after == (WasiProcess {
        inner: WasiProcessInner { threads: after.inner.threads, ..before.inner },
        finished: after.finished,
        ..before
    })
    &&& after.inner.threads@.len() == before.inner.threads@.len()
    &&& forall|i: int|
        0 <= i < before.inner.threads@.len() ==> #[trigger] thread_finished(
            before.inner.threads@[i],
            after.inner.threads@[i],
            Ok(exit_code),
        )
    &&& after.finished == if before.has_main_thread() {
        before.finished.spec_finish(Ok(exit_code))
    } else {
        before.finished
    }
}

/// Installing a schedule for `sig` and then setting it with no interval
/// leaves no schedule for `sig`, and the other schedules as they were.
pub proof fn lemma_interval_round_trip(
    a: WasiProcess,
    b: WasiProcess,
    c: WasiProcess,
    sig: Signal,
    d: Duration,
    repeat: bool,
    again: bool,
    now: u128,
    later: u128,
)
    requires
        signal_interval_set(a, b, sig, Some(d), repeat, now),
        signal_interval_set(b, c, sig, None, again, later),
    ensures
        !c.inner.signal_intervals@.contains_key(sig@),
        c.inner.signal_intervals@ == a.inner.signal_intervals@.remove(sig@),
{
    assert(c.inner.signal_intervals@ =~= a.inner.signal_intervals@.remove(sig@));
}

/// Number of additions among the table changes `adds` describes.
pub open spec fn count_adds(adds: Seq<bool>) -> nat
    decreases adds.len(),
{
    if adds.len() == 0 {
        0
    } else {
        count_adds(adds.drop_last()) + if adds.last() {
            1nat
        } else {
            0nat
        }
    }
}

/// Step `i` of `states` adds a thread under a new id where `adds[i]` holds,
/// and removes a thread of the table otherwise.
pub open spec fn table_steps(states: Seq<WasiProcess>, adds: Seq<bool>) -> bool {
    &&& states.len() == adds.len() + 1
    &&& forall|i: int|
        0 <= i < adds.len() ==> if #[trigger] adds[i] {
            exists|tid: WasiThreadId, start: ThreadStartType|
                !states[i].has_thread(tid) && #[trigger] thread_added(states[i], states[i + 1], tid, start)
        } else {
            exists|tid: WasiThreadId| #[trigger] thread_removed(states[i], states[i + 1], tid)
        }
}

/// After any run of thread additions under new ids and removals of present
/// threads, the active thread count is the starting count plus the additions
/// minus the removals; at every step it is the size of the thread table, so
/// it never goes below zero.
pub proof fn lemma_active_threads_count_steps(states: Seq<WasiProcess>, adds: Seq<bool>)
    requires
        states.len() > 0,
        states[0].wf(),
        table_steps(states, adds),
    ensures
        states.last().inner.thread_count == states[0].inner.thread_count + count_adds(adds) - (
        adds.len() - count_adds(adds)),
        forall|i: int|
            0 <= i < states.len() ==> (#[trigger] states[i]).inner.thread_count
                == states[i].inner.threads@.len(),
    decreases adds.len(),
{
    if adds.len() > 0 {
        let n = adds.len() - 1;
        let prefix = states.drop_last();
        assert(table_steps(prefix, adds.drop_last())) by {
            assert forall|i: int| 0 <= i < adds.drop_last().len() implies if #[trigger] adds.drop_last()[i] {
                exists|tid: WasiThreadId, start: ThreadStartType|
                    !prefix[i].has_thread(tid) && #[trigger] thread_added(prefix[i], prefix[i + 1], tid, start)
            } else {
                exists|tid: WasiThreadId| #[trigger] thread_removed(prefix[i], prefix[i + 1], tid)
            } by {
                assert(adds[i] == adds.drop_last()[i]);
                assert(prefix[i] == states[i]);
                assert(prefix[i + 1] == states[i + 1]);
                if adds[i] {
                    let (tid, start) = choose|tid: WasiThreadId, start: ThreadStartType|
                        !states[i].has_thread(tid) && #[trigger] thread_added(states[i], states[i + 1], tid, start);
                    assert(!prefix[i].has_thread(tid) && thread_added(prefix[i], prefix[i + 1], tid, start));
                } else {
                    let tid = choose|tid: WasiThreadId| #[trigger] thread_removed(states[i], states[i + 1], tid);
                    assert(thread_removed(prefix[i], prefix[i + 1], tid));
                }
            }
        }
        lemma_active_threads_count_steps(prefix, adds.drop_last());
        let a = states[n];
        let b = states[n + 1];
        assert(prefix.last() == a);
        assert(a.inner.thread_count == a.inner.threads@.len());
        if adds[n] {
            let (tid, start) = choose|tid: WasiThreadId, start: ThreadStartType|
                !a.has_thread(tid) && thread_added(a, b, tid, start);
            assert(b.inner.thread_count == b.inner.threads@.len());
        } else {
            let tid = choose|tid: WasiThreadId| thread_removed(a, b, tid);
            let k = a.thread_index(tid);
            assert(0 <= k < a.inner.threads@.len());
            assert(b.inner.thread_count == b.inner.threads@.len());
        }
        assert forall|i: int| 0 <= i < states.len() implies (#[trigger] states[i]).inner.thread_count
            == states[i].inner.threads@.len() by {
            if i < n + 1 {
                assert(states[i] == prefix[i]);
            }
        }
    }
}

} // verus!
