//! Threads of a process.

use vstd::prelude::*;

use crate::control_plane::TaskCountGuard;
use crate::exit::TaskResult;
use crate::ids::{WasiProcessId, WasiThreadId};
use crate::signal::Signal;
use crate::task::TaskStatus;

verus! {

/// How a thread starts: as the main thread of its process, or spawned at a
/// start function of the guest.
#[derive(Clone, Copy, PartialEq, Eq, Structural, Debug)]
pub enum ThreadStartType {
    MainThread,
    ThreadSpawn { start_ptr: u64 },
}

impl ThreadStartType {
    /// Whether this starts the main thread.
    pub fn is_main(&self) -> (r: bool)
        ensures
            r == (*self == ThreadStartType::MainThread),
    {
        match self {
            ThreadStartType::MainThread => true,
            ThreadStartType::ThreadSpawn { .. } => false,
        }
    }
}

/// One entry of a process's thread table.
#[derive(Debug)]
pub struct WasiThread {
    /// Process that owns the thread.
    pub pid: WasiProcessId,
    /// The thread's id; the main thread's equals its process id.
    pub tid: WasiThreadId,
    /// Whether this is the main thread, whose status is its process's.
    pub is_main: bool,
    /// How the thread was started.
    pub start: ThreadStartType,
    /// Completion state of the thread.
    pub status: TaskStatus,
    /// Signals delivered to the thread, oldest first, for it to handle.
    pub signals: Vec<Signal>,
    /// The task slot that admitted the thread.
    pub task_count_guard: TaskCountGuard,
}

/// `after` is `before` with `n` more deliveries of `sig` queued.
pub open spec fn thread_signaled(before: WasiThread, after: WasiThread, sig: Signal, n: nat) -> bool {
    &&& after == WasiThread { signals: after.signals, ..before }
    &&& after.signals@ == before.signals@ + Seq::new(n, |_i: int| sig)
}

/// `after` is `before` with its status finished on `res`, unless already finished.
pub open spec fn thread_finished(before: WasiThread, after: WasiThread, res: TaskResult) -> bool {
    &&& after == WasiThread { status: after.status, ..before }
    &&& after.status == before.status.spec_finish(res)
}

impl WasiThread {
    /// A thread with no pending signals.
    pub fn new(
        pid: WasiProcessId,
        tid: WasiThreadId,
        is_main: bool,
        status: TaskStatus,
        task_count_guard: TaskCountGuard,
        start: ThreadStartType,
    ) -> (r: Self)
        ensures
            r.pid == pid,
            r.tid == tid,
            r.is_main == is_main,
            r.status == status,
            r.start == start,
            r.signals@ == Seq::<Signal>::empty(),
            r.task_count_guard == task_count_guard,
    {
        WasiThread { pid, tid, is_main, start, status, signals: Vec::new(), task_count_guard }
    }

    /// Queues `sig` for the thread.
    pub fn signal(&mut self, sig: Signal)
        ensures
            thread_signaled(*old(self), *final(self), sig, 1),
    {
        self.signals.push(sig);
        assert(self.signals@ =~= old(self).signals@ + Seq::new(1, |_i: int| sig));
    }

    /// Finishes the thread with `res`; returns `false`, changing nothing, if
    /// it had already finished.
    pub fn set_status_finished(&mut self, res: TaskResult) -> (settled: bool)
        ensures
            settled == old(self).status.spec_finished().is_none(),
            thread_finished(*old(self), *final(self), res),
    {
        self.status.set_finished(res)
    }
}

} // verus!
