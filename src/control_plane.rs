//! The control plane: task admission, the shared id counter, the registry
//! of processes, and every operation that changes a registered process.

use vstd::prelude::*;

use core::time::Duration;
use std::collections::HashMap;
use wasmer_types::ModuleHash;

use crate::children::{
    child_finished, first_finished_at, lemma_retain_children_subset, reaped_by, retain_children,
};
use crate::exit::{exit_code_of, spec_exit_code_of, ExitCode, TaskResult};
use crate::ids::{WasiProcessId, WasiThreadId};
use crate::process::{
    is_fresh_process, lemma_signals_appended_compose, lemma_signals_appended_none, lemma_thread_index,
    signal_interval_set, signals_appended, terminated, thread_added, thread_removed, thread_settled,
    thread_signal_delivered, WasiProcess, WasiProcessWait,
};
use crate::routing::{deliveries_below, delivery_count, lemma_links_kept, signal_links};
use crate::signal::{is_signal_number, Signal, SignalDeliveryError};
use crate::task::TaskStatus;
use crate::thread::{ThreadStartType, WasiThread};

verus! {

broadcast use vstd::std_specs::hash::group_hash_axioms;

/// Settings of a control plane.
#[derive(Clone, Debug)]
pub struct ControlPlaneConfig {
    /// Total number of tasks (processes and threads) that may be spawned.
    /// Carried for the embedder; admission does not enforce it.
    pub max_task_count: Option<usize>,
    /// Whether asynchronous threading is enabled (opt-in).
    pub enable_asynchronous_threading: bool,
    /// When set, the longest pause of the exponential CPU backoff that
    /// processes apply while no run token is held (default: off).
    pub enable_exponential_cpu_backoff: Option<Duration>,
}

impl ControlPlaneConfig {
    /// No task limit, synchronous threading, no CPU backoff.
    pub fn new() -> (r: Self)
        ensures
            r.max_task_count.is_none(),
            !r.enable_asynchronous_threading,
            r.enable_exponential_cpu_backoff.is_none(),
    {
        ControlPlaneConfig {
            max_task_count: None,
            enable_asynchronous_threading: false,
            enable_exponential_cpu_backoff: None,
        }
    }
}

impl Default for ControlPlaneConfig {
    fn default() -> (r: Self)
        ensures
            r.max_task_count.is_none(),
            !r.enable_asynchronous_threading,
            r.enable_exponential_cpu_backoff.is_none(),
    {
        Self::new()
    }
}

/// Token for one taken task slot of a control plane. Only admission
/// hands it out; giving it back to the plane frees the slot.
#[derive(Debug)]
pub struct TaskCountGuard {
    admitted: (),
}

impl TaskCountGuard {
    pub(crate) fn admitted() -> Self {
        TaskCountGuard { admitted: () }
    }
}

/// Errors of the control plane.
#[derive(Clone, Copy, PartialEq, Eq, Structural, Debug)]
pub enum ControlPlaneError {
    /// The maximum number of execution tasks has been reached.
    TaskLimitReached {
        /// The maximum number of tasks.
        max: usize,
    },
}

/// The processes keyed by id are well formed, each under its own id, no id
/// above the last one handed out, and every child is a registered process
/// with a higher id than its parent.
pub open spec fn processes_wf(procs: Map<u32, WasiProcess>, seed: u32) -> bool {
    forall|k: u32| #[trigger] procs.contains_key(k) ==> process_placed(procs, seed, k)
}

/// The process under key `k` is well formed and placed as `processes_wf` asks.
pub open spec fn process_placed(procs: Map<u32, WasiProcess>, seed: u32, k: u32) -> bool {
    let p = procs[k];
    &&& p.wf()
    &&& p.pid.0 == k
    &&& 0 < k <= seed
    &&& forall|j: int|
        0 <= j < p.inner.children@.len() ==> #[trigger] p.inner.children@[j].0 > k
            && procs.contains_key(p.inner.children@[j].0)
}

/// Replacing one process by a well-formed one with the same id and children
/// keeps the registry well formed.
pub proof fn lemma_replace_keeps_wf(procs: Map<u32, WasiProcess>, seed: u32, k: u32, p: WasiProcess)
    requires
        processes_wf(procs, seed),
        procs.contains_key(k),
        p.wf(),
        p.pid == procs[k].pid,
        p.inner.children@ == procs[k].inner.children@,
    ensures
        processes_wf(procs.insert(k, p), seed),
{
    let m = procs.insert(k, p);
    assert forall|q: u32| #[trigger] m.contains_key(q) implies process_placed(m, seed, q) by {
        assert(process_placed(procs, seed, q));
    }
}

/// The process-wide registry: admitted task count, the id counter shared by
/// processes and threads, and every process created, by id. Created
/// processes stay registered.
///
/// The plane owns the state of every process. Operations that change a
/// process go through the plane by process id, so that what holds across
/// processes (children are registered, with ids above their parent's) holds
/// after each of them.
#[derive(Debug)]
pub struct WasiControlPlane {
    task_count: usize,
    process_seed: u32,
    processes: HashMap<u32, WasiProcess>,
}

impl WasiControlPlane {
    /// Number of admitted tasks.
    pub closed spec fn tasks(&self) -> usize {
        self.task_count
    }

    /// The last id handed out, 0 before the first.
    pub closed spec fn seed(&self) -> u32 {
        self.process_seed
    }

    /// The processes, by id.
    pub closed spec fn processes(&self) -> Map<u32, WasiProcess> {
        self.processes@
    }

    pub open spec fn wf(&self) -> bool {
        processes_wf(self.processes(), self.seed())
    }

    /// A control plane with no tasks, no processes and the id counter at 0.
    pub fn new() -> (r: Self)
        ensures
            r.wf(),
            r.tasks() == 0,
            r.seed() == 0,
            r.processes() == Map::<u32, WasiProcess>::empty(),
    {
        WasiControlPlane { task_count: 0, process_seed: 0, processes: HashMap::new() }
    }

    /// Number of admitted tasks.
    pub fn active_task_count(&self) -> (r: usize)
        ensures
            r == self.tasks(),
    {
        self.task_count
    }

    /// Admits one more task. The counter is not capped: admission fails only
    /// where it cannot count any further.
    pub fn register_task(&mut self) -> (r: Result<TaskCountGuard, ControlPlaneError>)
        ensures
            r.is_err() == (old(self).tasks() == usize::MAX),
            r is Err ==> r == Err::<TaskCountGuard, ControlPlaneError>(
                ControlPlaneError::TaskLimitReached { max: usize::MAX },
            ) && *final(self) == *old(self),
            r is Ok ==> admitted(*old(self), *final(self)),
    {
        if self.task_count == usize::MAX {
            return Err(ControlPlaneError::TaskLimitReached { max: usize::MAX });
        }
        self.task_count = self.task_count + 1;
        Ok(TaskCountGuard::admitted())
    }

    /// Gives back the task slot that `guard` holds.
    pub fn release_task(&mut self, guard: TaskCountGuard)
        requires
            old(self).tasks() > 0,
        ensures
            released(*old(self), *final(self)),
    {
        self.task_count = self.task_count - 1;
    }

    /// The next id of the shared counter; fails once the counter is exhausted.
    fn next_process_id(&mut self) -> (r: Result<WasiProcessId, ControlPlaneError>)
        ensures
            r.is_err() == (old(self).seed() == u32::MAX),
            r is Err ==> r == Err::<WasiProcessId, ControlPlaneError>(
                ControlPlaneError::TaskLimitReached { max: u32::MAX as usize },
            ) && *final(self) == *old(self),
            r matches Ok(id) ==> id.0 == old(self).seed() + 1 && *final(self) == (WasiControlPlane {
                process_seed: id.0,
                ..*old(self)
            }),
    {
        match self.process_seed.checked_add(1) {
            Some(id) => {
                self.process_seed = id;
                Ok(WasiProcessId(id))
            },
            None => Err(ControlPlaneError::TaskLimitReached { max: u32::MAX as usize }),
        }
    }

    /// Mints a fresh id from the counter shared by processes and threads.
    pub fn generate_id(&mut self) -> (r: Result<WasiProcessId, ControlPlaneError>)
        requires
            old(self).wf(),
        ensures
            final(self).wf(),
            r.is_err() == (old(self).seed() == u32::MAX),
            r is Err ==> r == Err::<WasiProcessId, ControlPlaneError>(
                ControlPlaneError::TaskLimitReached { max: u32::MAX as usize },
            ) && *final(self) == *old(self),
            r matches Ok(id) ==> {
                &&& id.0 == old(self).seed() + 1
                &&& *final(self) == old(self).with_seed(id.0)
                &&& final(self).seed() == id.0
                &&& final(self).tasks() == old(self).tasks()
                &&& final(self).processes() == old(self).processes()
                &&& forall|k: u32| #[trigger] old(self).processes().contains_key(k) ==> k < id.0
                &&& !final(self).processes().contains_key(id.0)
            },
    {
        let r = self.next_process_id();
        proof {
            assert forall|k: u32| #[trigger] self.processes@.contains_key(k) implies process_placed(
                self.processes@,
                self.process_seed,
                k,
            ) by {
                assert(process_placed(old(self).processes@, old(self).process_seed, k));
            }
            assert forall|k: u32| #[trigger] old(self).processes@.contains_key(k) implies k
                <= old(self).process_seed by {
                assert(process_placed(old(self).processes@, old(self).process_seed, k));
            }
        }
        r
    }

    /// The process with id `pid`, if one was created.
    pub fn get_process(&self, pid: WasiProcessId) -> (r: Option<&WasiProcess>)
        ensures
            r.is_some() == self.processes().contains_key(pid.0),
            r matches Some(p) ==> *p == self.processes()[pid.0],
    {
        self.processes.get(&pid.0)
    }
}

/// `after` is `before` with one more task admitted.
pub open spec fn admitted(before: WasiControlPlane, after: WasiControlPlane) -> bool {
    &&& after.tasks() == before.tasks() + 1
    &&& after.seed() == before.seed()
    &&& after.processes() == before.processes()
}

/// `after` is `before` with one task slot given back.
pub open spec fn released(before: WasiControlPlane, after: WasiControlPlane) -> bool {
    &&& after.tasks() == before.tasks() - 1
    &&& after.seed() == before.seed()
    &&& after.processes() == before.processes()
}

/// Admitting a task and giving its slot back leaves the task count, and the
/// whole plane, as it was before the admission.
pub proof fn lemma_admission_round_trip(a: WasiControlPlane, b: WasiControlPlane, c: WasiControlPlane)
    requires
        admitted(a, b),
        released(b, c),
    ensures
        c.tasks() == a.tasks(),
        c.seed() == a.seed(),
        c.processes() == a.processes(),
{
}

/// `after` is `before` with a process created under the next id, above
/// every id tracked before, running `module_hash`.
pub open spec fn process_created(
    before: WasiControlPlane,
    after: WasiControlPlane,
    pid: WasiProcessId,
    module_hash: ModuleHash,
) -> bool {
    &&& pid.0 == before.seed() + 1
    &&& after.seed() == pid.0
    &&& after.tasks() == before.tasks()
    &&& !before.processes().contains_key(pid.0)
    &&& forall|k: u32| #[trigger] before.processes().contains_key(k) ==> k < pid.0
    &&& after.processes() == before.processes().insert(pid.0, after.processes()[pid.0])
    &&& is_fresh_process(after.processes()[pid.0], pid, module_hash)
}

/// `after` is `before` with a child of `parent` created under the next id,
/// running `module_hash` and appended to the parent's children.
pub open spec fn child_created(
    before: WasiControlPlane,
    after: WasiControlPlane,
    parent: WasiProcessId,
    pid: WasiProcessId,
    module_hash: ModuleHash,
) -> bool {
    let p = before.processes()[parent.0];
    let q = after.processes()[parent.0];
    let c = after.processes()[pid.0];
    &&& pid.0 == before.seed() + 1
    &&& after.seed() == pid.0
    &&& after.tasks() == before.tasks()
    &&& !before.processes().contains_key(pid.0)
    &&& forall|k: u32| #[trigger] before.processes().contains_key(k) ==> k < pid.0
    &&& after.processes() == before.processes().insert(parent.0, q).insert(pid.0, c)
    &&& q == (WasiProcess {
        inner: crate::process::WasiProcessInner { children: q.inner.children, ..p.inner },
        ..p
    })
    &&& q.inner.children@ == p.inner.children@.push(pid)
    &&& c.parent == Some(parent)
    &&& is_fresh_process(WasiProcess { parent: None, ..c }, pid, module_hash)
}

/// What admitting thread `tid` into process `pid` gives: the thread table
/// is full for a new id, the task counter is exhausted, or the thread is in
/// the table, replacing the entry with its id, whose slot is given back.
pub open spec fn thread_admission(
    before: WasiControlPlane,
    after: WasiControlPlane,
    pid: WasiProcessId,
    start: ThreadStartType,
    tid: WasiThreadId,
    r: Result<WasiThreadId, ControlPlaneError>,
) -> bool {
    let p = before.processes()[pid.0];
    let table_full = !p.has_thread(tid) && p.inner.thread_count == u32::MAX;
    &&& r.is_err() == (table_full || before.tasks() == usize::MAX)
    &&& table_full ==> r == Err::<WasiThreadId, ControlPlaneError>(
        ControlPlaneError::TaskLimitReached { max: u32::MAX as usize },
    )
    &&& !table_full && before.tasks() == usize::MAX ==> r == Err::<WasiThreadId, ControlPlaneError>(
        ControlPlaneError::TaskLimitReached { max: usize::MAX },
    )
    &&& r is Err ==> after == before
    &&& r matches Ok(t) ==> {
        &&& t == tid
        &&& after.seed() == before.seed()
        &&& after.tasks() == if p.has_thread(tid) {
            before.tasks() as int
        } else {
            before.tasks() + 1
        }
        &&& after.processes() == before.processes().insert(pid.0, after.processes()[pid.0])
        &&& thread_added(p, after.processes()[pid.0], tid, start)
    }
}

impl WasiControlPlane {
    /// The plane with its id counter at `seed`.
    pub closed spec fn with_seed(self, seed: u32) -> WasiControlPlane {
        WasiControlPlane { process_seed: seed, ..self }
    }

    /// Moving the id counter changes nothing else.
    pub proof fn lemma_with_seed(self, seed: u32)
        ensures
            self.with_seed(seed).seed() == seed,
            self.with_seed(seed).tasks() == self.tasks(),
            self.with_seed(seed).processes() == self.processes(),
    {
    }

    /// Creates a process under the next id and registers it.
    pub fn new_process(&mut self, module_hash: ModuleHash) -> (r: Result<WasiProcessId, ControlPlaneError>)
        requires
            old(self).wf(),
        ensures
            final(self).wf(),
            r.is_err() == (old(self).seed() == u32::MAX),
            r is Err ==> r == Err::<WasiProcessId, ControlPlaneError>(
                ControlPlaneError::TaskLimitReached { max: u32::MAX as usize },
            ) && *final(self) == *old(self),
            r matches Ok(pid) ==> process_created(*old(self), *final(self), pid, module_hash),
    {
        let pid = self.next_process_id()?;
        let process = WasiProcess::new(pid, module_hash);
        self.processes.insert(pid.0, process);
        proof {
            assert forall|k: u32| #[trigger] old(self).processes@.contains_key(k) implies k < pid.0 by {
                assert(process_placed(old(self).processes@, old(self).process_seed, k));
            }
            assert forall|k: u32| #[trigger] self.processes@.contains_key(k) implies process_placed(
                self.processes@,
                self.process_seed,
                k,
            ) by {
                if k != pid.0 {
                    assert(process_placed(old(self).processes@, old(self).process_seed, k));
                }
            }
        }
        Ok(pid)
    }

    /// Creates a process under the next id as a child of `parent`.
    pub fn new_child_process(&mut self, parent: WasiProcessId, module_hash: ModuleHash) -> (r: Result<
        WasiProcessId,
        ControlPlaneError,
    >)
        requires
            old(self).wf(),
            old(self).processes().contains_key(parent.0),
        ensures
            final(self).wf(),
            r.is_err() == (old(self).seed() == u32::MAX),
            r is Err ==> r == Err::<WasiProcessId, ControlPlaneError>(
                ControlPlaneError::TaskLimitReached { max: u32::MAX as usize },
            ) && *final(self) == *old(self),
            r matches Ok(pid) ==> child_created(*old(self), *final(self), parent, pid, module_hash),
    {
        let pid = self.next_process_id()?;
        let mut child = WasiProcess::new(pid, module_hash);
        child.parent = Some(parent);
        let mut p = self.processes.remove(&parent.0).unwrap();
        p.inner.children.push(pid);
        self.processes.insert(parent.0, p);
        self.processes.insert(pid.0, child);
        proof {
            assert(self.processes@ =~= old(self).processes@.insert(parent.0, p).insert(pid.0, child));
            assert(process_placed(old(self).processes@, old(self).process_seed, parent.0));
            assert forall|k: u32| #[trigger] old(self).processes@.contains_key(k) implies k < pid.0 by {
                assert(process_placed(old(self).processes@, old(self).process_seed, k));
            }
            assert forall|k: u32| #[trigger] self.processes@.contains_key(k) implies process_placed(
                self.processes@,
                self.process_seed,
                k,
            ) by {
                if k != pid.0 && k != parent.0 {
                    assert(process_placed(old(self).processes@, old(self).process_seed, k));
                }
                if k == parent.0 {
                    let q = self.processes@[k];
                    assert forall|j: int| 0 <= j < q.inner.children@.len() implies #[trigger] q.inner.children@[j].0
                        > k && self.processes@.contains_key(q.inner.children@[j].0) by {
                        if j < q.inner.children@.len() - 1 {
                            assert(q.inner.children@[j] == old(self).processes@[k].inner.children@[j]);
                        }
                    }
                }
            }
        }
        Ok(pid)
    }

    /// Admits a thread `tid` into process `pid`, started as `start`; the main
    /// thread shares the completion of its process. Fails where the thread
    /// table cannot count one more thread, or admission fails; the plane is
    /// then unchanged.
    pub fn new_thread_with_id(&mut self, pid: WasiProcessId, start: ThreadStartType, tid: WasiThreadId) -> (r:
        Result<WasiThreadId, ControlPlaneError>)
        requires
            old(self).wf(),
            old(self).processes().contains_key(pid.0),
        ensures
            final(self).wf(),
            thread_admission(*old(self), *final(self), pid, start, tid, r),
    {
        let p = self.processes.get(&pid.0).unwrap();
        let present = p.get_thread(&tid).is_some();
        if !present && p.active_threads() == u32::MAX {
            return Err(ControlPlaneError::TaskLimitReached { max: u32::MAX as usize });
        }
        let is_main = start.is_main();
        let status = if is_main {
            p.finished
        } else {
            TaskStatus::Pending
        };
        let guard = self.register_task()?;
        let thread = WasiThread::new(pid, tid, is_main, status, guard, start);
        let mut p = self.processes.remove(&pid.0).unwrap();
        let ghost before = p;
        let replaced = p.insert_thread(thread);
        proof {
            if before.has_thread(tid) {
                lemma_thread_index(p, before.thread_index(tid));
            } else {
                lemma_thread_index(p, before.inner.threads@.len() as int);
            }
        }
        self.processes.insert(pid.0, p);
        proof {
            assert(self.processes@ =~= old(self).processes@.insert(pid.0, p));
            assert(process_placed(old(self).processes@, old(self).process_seed, pid.0));
            lemma_replace_keeps_wf(old(self).processes@, old(self).process_seed, pid.0, p);
        }
        match replaced {
            Some(previous) => self.release_task(previous.task_count_guard),
            None => {},
        }
        Ok(tid)
    }

    /// Admits a new thread into process `pid`: the main thread takes the
    /// process id as its thread id, any other a fresh id from the counter.
    pub fn new_thread(&mut self, pid: WasiProcessId, start: ThreadStartType) -> (r: Result<
        WasiThreadId,
        ControlPlaneError,
    >)
        requires
            old(self).wf(),
            old(self).processes().contains_key(pid.0),
        ensures
            final(self).wf(),
            start == ThreadStartType::MainThread ==> thread_admission(
                *old(self),
                *final(self),
                pid,
                start,
                WasiThreadId(pid.0),
                r,
            ),
            start != ThreadStartType::MainThread && old(self).seed() == u32::MAX ==> r == Err::<
                WasiThreadId,
                ControlPlaneError,
            >(ControlPlaneError::TaskLimitReached { max: u32::MAX as usize })
                && *final(self) == *old(self),
            start != ThreadStartType::MainThread && old(self).seed() < u32::MAX ==> thread_admission(
                old(self).with_seed((old(self).seed() + 1) as u32),
                *final(self),
                pid,
                start,
                WasiThreadId((old(self).seed() + 1) as u32),
                r,
            ),
            start == ThreadStartType::MainThread ==> final(self).seed() == old(self).seed(),
            start != ThreadStartType::MainThread && old(self).seed() < u32::MAX ==> {
                &&& final(self).seed() == old(self).seed() + 1
                &&& forall|k: u32| #[trigger] old(self).processes().contains_key(k) ==> k < final(self).seed()
                &&& r is Err ==> final(self).tasks() == old(self).tasks() && final(self).processes()
                    == old(self).processes()
                &&& r matches Ok(t) ==> t.0 == final(self).seed() && final(self).processes()
                    == old(self).processes().insert(pid.0, final(self).processes()[pid.0])
                    && thread_added(old(self).processes()[pid.0], final(self).processes()[pid.0], t, start)
            },
    {
        let tid = if start.is_main() {
            WasiThreadId(pid.0)
        } else {
            let id = self.generate_id()?;
            proof {
                old(self).lemma_with_seed(id.0);
            }
            WasiThreadId(id.0)
        };
        self.new_thread_with_id(pid, start, tid)
    }
}

impl WasiControlPlane {
    /// A copy of the children list of process `pid`.
    fn children_of(&self, pid: WasiProcessId) -> (r: Vec<WasiProcessId>)
        requires
            self.processes().contains_key(pid.0),
        ensures
            r@ == self.processes()[pid.0].inner.children@,
    {
        let p = self.processes.get(&pid.0).unwrap();
        let mut out: Vec<WasiProcessId> = Vec::new();
        let mut i: usize = 0;
        while i < p.inner.children.len()
            invariant
                i <= p.inner.children@.len(),
                out@ == p.inner.children@.take(i as int),
            decreases p.inner.children@.len() - i,
        {
            out.push(p.inner.children[i]);
            i += 1;
            assert(out@ =~= p.inner.children@.take(i as int));
        }
        assert(out@ =~= p.inner.children@);
        out
    }

    /// Delivers `sig` to process `pid`. While a thread of the process waits
    /// and it has children, the signal goes to each child in turn, by the same
    /// rule; otherwise every thread of the process receives it once. A signal
    /// to an unknown process is dropped.
    pub fn signal_process(&mut self, pid: WasiProcessId, sig: Signal)
        requires
            old(self).wf(),
        ensures
            final(self).wf(),
            final(self).seed() == old(self).seed(),
            final(self).tasks() == old(self).tasks(),
            final(self).processes().dom() == old(self).processes().dom(),
            forall|k: u32| #[trigger] old(self).processes().contains_key(k) ==> signals_appended(
                old(self).processes()[k],
                final(self).processes()[k],
                sig,
                delivery_count(signal_links(old(self).processes()), pid.0, k),
            ),
        decreases 0x1_0000_0000 - pid.0,
    {
        let ghost l = signal_links(old(self).processes@);
        let forwarding = match self.processes.get(&pid.0) {
            None => {
                proof {
                    assert forall|k: u32| #[trigger] old(self).processes@.contains_key(k) implies signals_appended(
                        old(self).processes@[k],
                        self.processes@[k],
                        sig,
                        delivery_count(l, pid.0, k),
                    ) by {
                        lemma_signals_appended_none(old(self).processes@[k], sig);
                    }
                }
                return ;
            },
            Some(p) => p.waiting > 0 && p.inner.children.len() > 0,
        };
        if forwarding {
            let kids = self.children_of(pid);
            let mut j: usize = 0;
            proof {
                assert forall|k: u32| #[trigger] old(self).processes@.contains_key(k) implies signals_appended(
                    old(self).processes@[k],
                    self.processes@[k],
                    sig,
                    deliveries_below(l, pid.0, kids@.take(0), k),
                ) by {
                    lemma_signals_appended_none(old(self).processes@[k], sig);
                }
            }
            while j < kids.len()
                invariant
                    self.wf(),
                    self.seed() == old(self).seed(),
                    self.tasks() == old(self).tasks(),
                    self.processes@.dom() == old(self).processes@.dom(),
                    signal_links(self.processes@) == l,
                    l == signal_links(old(self).processes@),
                    old(self).processes@.contains_key(pid.0),
                    kids@ == old(self).processes@[pid.0].inner.children@,
                    j <= kids@.len(),
                    forall|k: u32| #[trigger] old(self).processes@.contains_key(k) ==> signals_appended(
                        old(self).processes@[k],
                        self.processes@[k],
                        sig,
                        deliveries_below(l, pid.0, kids@.take(j as int), k),
                    ),
                decreases kids@.len() - j,
            {
                let kid = kids[j];
                proof {
                    assert(process_placed(self.processes@, self.process_seed, pid.0));
                    assert(l[pid.0].1 == self.processes@[pid.0].inner.children@);
                    assert(self.processes@[pid.0].inner.children@[j as int] == kid);
                }
                let ghost mid = self.processes@;
                self.signal_process(kid, sig);
                proof {
                    lemma_links_kept(mid, self.processes@);
                    let taken = kids@.take(j as int + 1);
                    assert(taken.drop_last() =~= kids@.take(j as int));
                    assert(taken.last() == kid);
                    assert forall|k: u32| #[trigger] old(self).processes@.contains_key(k) implies signals_appended(
                        old(self).processes@[k],
                        self.processes@[k],
                        sig,
                        deliveries_below(l, pid.0, taken, k),
                    ) by {
                        assert(mid.contains_key(k));
                        lemma_signals_appended_compose(
                            old(self).processes@[k],
                            mid[k],
                            self.processes@[k],
                            sig,
                            deliveries_below(l, pid.0, kids@.take(j as int), k),
                            delivery_count(l, kid.0, k),
                        );
                    }
                }
                j += 1;
            }
            proof {
                assert(kids@.take(kids@.len() as int) =~= kids@);
            }
        } else {
            let mut p = self.processes.remove(&pid.0).unwrap();
            p.signal_threads(sig);
            self.processes.insert(pid.0, p);
            proof {
                assert(self.processes@ =~= old(self).processes@.insert(pid.0, p));
                assert(process_placed(old(self).processes@, old(self).process_seed, pid.0));
                lemma_replace_keeps_wf(old(self).processes@, old(self).process_seed, pid.0, p);
                assert forall|k: u32| #[trigger] old(self).processes@.contains_key(k) implies signals_appended(
                    old(self).processes@[k],
                    self.processes@[k],
                    sig,
                    delivery_count(l, pid.0, k),
                ) by {
                    if k != pid.0 {
                        lemma_signals_appended_none(old(self).processes@[k], sig);
                    }
                }
            }
        }
    }
}

/// `after` is `before` with the children list of `pid` replaced by `kids`.
pub open spec fn children_replaced(
    before: WasiControlPlane,
    after: WasiControlPlane,
    pid: WasiProcessId,
    kids: Seq<WasiProcessId>,
) -> bool {
    let p = before.processes()[pid.0];
    let q = after.processes()[pid.0];
    &&& after.seed() == before.seed()
    &&& after.tasks() == before.tasks()
    &&& after.processes() == before.processes().insert(pid.0, q)
    &&& q == (WasiProcess {
        inner: crate::process::WasiProcessInner { children: q.inner.children, ..p.inner },
        ..p
    })
    &&& q.inner.children@ == kids
}

/// `join_any_child` was asked of a process without children.
#[derive(Clone, Copy, PartialEq, Eq, Structural, Debug)]
pub struct NoChild;

/// One look at the children that `join_children` waits for.
#[derive(Clone, Copy, PartialEq, Eq, Debug)]
pub enum ChildrenJoin {
    /// There was no child to wait for.
    NoChildren,
    /// Some child has not finished yet.
    Waiting,
    /// All have finished; the result of the first of them.
    Finished(TaskResult),
}

impl WasiControlPlane {
    /// Replaces the children list of `pid` by the entries of it that `keep`
    /// does not drop: `drop_finished` drops the finished processes of
    /// `snapshot`, otherwise `target` is dropped.
    fn prune_children(
        &mut self,
        pid: WasiProcessId,
        target: WasiProcessId,
        snapshot: &Vec<WasiProcessId>,
        drop_finished: bool,
        gone: Ghost<spec_fn(WasiProcessId) -> bool>,
    )
        requires
            old(self).wf(),
            old(self).processes().contains_key(pid.0),
            forall|c: WasiProcessId|
                #[trigger] gone@(c) == if drop_finished {
                    reaped_by(old(self).processes(), snapshot@, c)
                } else {
                    c == target
                },
        ensures
            final(self).wf(),
            children_replaced(
                *old(self),
                *final(self),
                pid,
                retain_children(old(self).processes()[pid.0].inner.children@, gone@),
            ),
    {
        let ghost gone = gone@;
        proof {
            assert(process_placed(old(self).processes@, old(self).process_seed, pid.0));
        }
        let mut p = self.processes.remove(&pid.0).unwrap();
        let ghost kids = p.inner.children@;
        let mut kept: Vec<WasiProcessId> = Vec::new();
        let mut i: usize = 0;
        while i < p.inner.children.len()
            invariant
                i <= kids.len(),
                kids == p.inner.children@,
                kept@ == retain_children(kids.take(i as int), gone),
                self.processes@ == old(self).processes@.remove(pid.0),
                forall|j: int| 0 <= j < kids.len() ==> #[trigger] kids[j].0 > pid.0,
                forall|c: WasiProcessId|
                    #[trigger] gone(c) == if drop_finished {
                        reaped_by(old(self).processes(), snapshot@, c)
                    } else {
                        c == target
                    },
            decreases kids.len() - i,
        {
            let c = p.inner.children[i];
            assert(c.0 != pid.0);
            let drop = if drop_finished {
                self.is_finished_child(c, snapshot, pid)
            } else {
                c == target
            };
            proof {
                if drop_finished {
                    assert(self.processes@.contains_key(c.0) == old(self).processes@.contains_key(c.0));
                    assert(self.processes@.contains_key(c.0) ==> self.processes@[c.0] == old(
                        self,
                    ).processes@[c.0]);
                    assert(drop == reaped_by(old(self).processes(), snapshot@, c));
                } else {
                    assert(drop == (c == target));
                }
                assert(drop == gone(c));
            }
            if !drop {
                kept.push(c);
            }
            i += 1;
            proof {
                assert(kids.take(i as int).drop_last() =~= kids.take(i as int - 1));
                assert(kids.take(i as int).last() == c);
            }
        }
        proof {
            assert(kids.take(kids.len() as int) =~= kids);
        }
        p.inner.children = kept;
        self.processes.insert(pid.0, p);
        proof {
            assert(self.processes@ =~= old(self).processes@.insert(pid.0, p));
            assert(process_placed(old(self).processes@, old(self).process_seed, pid.0));
            lemma_retain_children_subset(kids, gone);
            assert forall|k: u32| #[trigger] self.processes@.contains_key(k) implies process_placed(
                self.processes@,
                self.process_seed,
                k,
            ) by {
                assert(process_placed(old(self).processes@, old(self).process_seed, k));
                if k == pid.0 {
                    let q = self.processes@[k];
                    assert forall|j: int| 0 <= j < q.inner.children@.len() implies #[trigger] q.inner.children@[j].0
                        > k && self.processes@.contains_key(q.inner.children@[j].0) by {
                        assert(kids.contains(q.inner.children@[j]));
                        let m = choose|m: int| 0 <= m < kids.len() && kids[m] == q.inner.children@[j];
                        assert(old(self).processes@[k].inner.children@[m] == kids[m]);
                    }
                }
            }
        }
    }

    /// Whether `c` is in `snapshot` and a finished process; `pid`'s entry is
    /// out of the map while this is asked.
    fn is_finished_child(&self, c: WasiProcessId, snapshot: &Vec<WasiProcessId>, pid: WasiProcessId) -> (r: bool)
        ensures
            r == (snapshot@.contains(c) && self.processes().contains_key(c.0) && child_finished(
                self.processes(),
                c,
            )),
    {
        let mut listed = false;
        let mut j: usize = 0;
        while j < snapshot.len()
            invariant
                j <= snapshot@.len(),
                listed == exists|m: int| 0 <= m < j && snapshot@[m] == c,
            decreases snapshot@.len() - j,
        {
            if snapshot[j] == c {
                listed = true;
            }
            j += 1;
        }
        if !listed {
            return false;
        }
        match self.processes.get(&c.0) {
            Some(q) => q.finished.is_finished(),
            None => false,
        }
    }
}

impl WasiControlPlane {
    /// Collects one finished child of process `pid`: the first in the list
    /// whose process has finished, which leaves the list, with its exit code.
    /// `Ok(None)` while no child has finished; fails if there are no children.
    pub fn join_any_child(&mut self, pid: WasiProcessId) -> (r: Result<Option<(WasiProcessId, ExitCode)>, NoChild>)
        requires
            old(self).wf(),
            old(self).processes().contains_key(pid.0),
        ensures
            final(self).wf(),
            r.is_err() == (old(self).processes()[pid.0].inner.children@.len() == 0),
            (r == Ok::<Option<(WasiProcessId, ExitCode)>, NoChild>(None)) == (old(
                self,
            ).processes()[pid.0].inner.children@.len() > 0 && forall|j: int|
                0 <= j < old(self).processes()[pid.0].inner.children@.len() ==> !child_finished(
                    old(self).processes(),
                    #[trigger] old(self).processes()[pid.0].inner.children@[j],
                )),
            r is Err || r == Ok::<Option<(WasiProcessId, ExitCode)>, NoChild>(None) ==> *final(self)
                == *old(self),
            r matches Ok(Some((c, code))) ==> exists|j: int|
                first_finished_at(old(self).processes(), old(self).processes()[pid.0].inner.children@, j)
                    && old(self).processes()[pid.0].inner.children@[j] == c && code
                    == spec_exit_code_of(
                    old(self).processes()[c.0].finished.spec_finished().unwrap(),
                ) && children_replaced(
                    *old(self),
                    *final(self),
                    pid,
                    retain_children(
                        old(self).processes()[pid.0].inner.children@,
                        |x: WasiProcessId| x == c,
                    ),
                ),
    {
        let kids = self.children_of(pid);
        if kids.len() == 0 {
            return Err(NoChild);
        }
        proof {
            assert(process_placed(self.processes@, self.process_seed, pid.0));
        }
        let mut j: usize = 0;
        while j < kids.len()
            invariant
                *self == *old(self),
                self.wf(),
                self.processes@.contains_key(pid.0),
                kids@ == self.processes@[pid.0].inner.children@,
                process_placed(self.processes@, self.process_seed, pid.0),
                j <= kids@.len(),
                forall|i: int| 0 <= i < j ==> !child_finished(self.processes@, #[trigger] kids@[i]),
            decreases kids@.len() - j,
        {
            let c = kids[j];
            assert(self.processes@.contains_key(kids@[j as int].0));
            let status = self.processes.get(&c.0).unwrap().finished;
            match status.into_finished() {
                Some(res) => {
                    let code = exit_code_of(&res);
                    let none: Vec<WasiProcessId> = Vec::new();
                    self.prune_children(pid, c, &none, false, Ghost(|x: WasiProcessId| x == c));
                    proof {
                        assert(first_finished_at(old(self).processes(), kids@, j as int));
                    }
                    return Ok(Some((c, code)));
                },
                None => {},
            }
            j += 1;
        }
        Ok(None)
    }

    /// One look at the children that a `join_children` call waits for,
    /// `snapshot` being the children of `pid` when the call began. Every
    /// child of the snapshot whose process has finished leaves the children
    /// list. Once all the snapshot's processes have finished, gives the result
    /// of the first of them; with no process to wait for, `NoChildren`.
    pub fn join_children(&mut self, pid: WasiProcessId, snapshot: &Vec<WasiProcessId>) -> (r: ChildrenJoin)
        requires
            old(self).wf(),
            old(self).processes().contains_key(pid.0),
        ensures
            final(self).wf(),
            snapshot@.len() == 0 ==> r == ChildrenJoin::NoChildren && *final(self) == *old(self),
            snapshot@.len() > 0 ==> children_replaced(
                *old(self),
                *final(self),
                pid,
                retain_children(
                    old(self).processes()[pid.0].inner.children@,
                    |c: WasiProcessId| reaped_by(old(self).processes(), snapshot@, c),
                ),
            ),
            (r == ChildrenJoin::NoChildren) == forall|j: int|
                0 <= j < snapshot@.len() ==> !old(self).processes().contains_key(
                    #[trigger] snapshot@[j].0,
                ),
            (r == ChildrenJoin::Waiting) == exists|j: int|
                0 <= j < snapshot@.len() && old(self).processes().contains_key(#[trigger] snapshot@[j].0)
                    && !child_finished(old(self).processes(), snapshot@[j]),
            r matches ChildrenJoin::Finished(res) ==> exists|j: int|
                0 <= j < snapshot@.len() && old(self).processes().contains_key(#[trigger] snapshot@[j].0)
                    && (forall|i: int|
                    0 <= i < j ==> !old(self).processes().contains_key(#[trigger] snapshot@[i].0))
                    && old(self).processes()[snapshot@[j].0].finished.spec_finished() == Some(res),
    {
        if snapshot.len() == 0 {
            return ChildrenJoin::NoChildren;
        }
        let mut first: Option<usize> = None;
        let mut pending = false;
        let mut j: usize = 0;
        while j < snapshot.len()
            invariant
                *self == *old(self),
                j <= snapshot@.len(),
                pending == exists|m: int|
                    0 <= m < j && self.processes@.contains_key(#[trigger] snapshot@[m].0)
                        && !child_finished(self.processes@, snapshot@[m]),
                first is None == forall|m: int|
                    0 <= m < j ==> !self.processes@.contains_key(#[trigger] snapshot@[m].0),
                first matches Some(m) ==> m < j && self.processes@.contains_key(snapshot@[m as int].0)
                    && forall|i: int| 0 <= i < m ==> !self.processes@.contains_key(#[trigger] snapshot@[i].0),
            decreases snapshot@.len() - j,
        {
            let c = snapshot[j];
            match self.processes.get(&c.0) {
                Some(q) => {
                    if !q.finished.is_finished() {
                        pending = true;
                    }
                    if first.is_none() {
                        first = Some(j);
                    }
                },
                None => {},
            }
            j += 1;
        }
        let r = match first {
            None => ChildrenJoin::NoChildren,
            Some(m) => if pending {
                ChildrenJoin::Waiting
            } else {
                let c = snapshot[m];
                let q = self.processes.get(&c.0).unwrap();
                ChildrenJoin::Finished(q.finished.into_finished().unwrap())
            },
        };
        let ghost before = *self;
        self.prune_children(
            pid,
            pid,
            snapshot,
            true,
            Ghost(|c: WasiProcessId| reaped_by(old(self).processes(), snapshot@, c)),
        );
        r
    }
}

/// `after` is `before` with only process `pid` changed.
pub open spec fn process_updated(before: WasiControlPlane, after: WasiControlPlane, pid: WasiProcessId) -> bool {
    &&& after.seed() == before.seed()
    &&& after.tasks() == before.tasks()
    &&& after.processes() == before.processes().insert(pid.0, after.processes()[pid.0])
}

impl WasiControlPlane {
    /// Puts back process `p`, taken out under its id, after a change that
    /// kept it well formed and kept its id and children.
    fn put_back(&mut self, p: WasiProcess)
        requires
            !old(self).processes().contains_key(p.pid.0),
        ensures
            final(self).processes() == old(self).processes().insert(p.pid.0, p),
            final(self).seed() == old(self).seed(),
            final(self).tasks() == old(self).tasks(),
    {
        self.processes.insert(p.pid.0, p);
    }

    /// Queues `sig` on thread `tid` of process `pid`; see
    /// `WasiProcess::signal_thread`. Nothing happens for an unknown process.
    pub fn signal_thread(&mut self, pid: WasiProcessId, tid: &WasiThreadId, sig: Signal)
        requires
            old(self).wf(),
        ensures
            final(self).wf(),
            !old(self).processes().contains_key(pid.0) ==> *final(self) == *old(self),
            old(self).processes().contains_key(pid.0) ==> process_updated(*old(self), *final(self), pid)
                && thread_signal_delivered(
                old(self).processes()[pid.0],
                final(self).processes()[pid.0],
                *tid,
                sig,
            ),
    {
        if !self.processes.contains_key(&pid.0) {
            return ;
        }
        proof {
            assert(process_placed(self.processes@, self.process_seed, pid.0));
        }
        let mut p = self.processes.remove(&pid.0).unwrap();
        p.signal_thread(tid, sig);
        self.put_back(p);
        proof {
            assert(self.processes@ =~= old(self).processes@.insert(pid.0, p));
            lemma_replace_keeps_wf(old(self).processes@, old(self).process_seed, pid.0, p);
        }
    }

    /// Installs or removes a signal schedule of process `pid`; see
    /// `WasiProcess::signal_interval`. Nothing happens for an unknown process.
    pub fn signal_interval(
        &mut self,
        pid: WasiProcessId,
        sig: Signal,
        interval: Option<Duration>,
        repeat: bool,
        now: u128,
    )
        requires
            old(self).wf(),
        ensures
            final(self).wf(),
            !old(self).processes().contains_key(pid.0) ==> *final(self) == *old(self),
            old(self).processes().contains_key(pid.0) ==> process_updated(*old(self), *final(self), pid)
                && signal_interval_set(
                old(self).processes()[pid.0],
                final(self).processes()[pid.0],
                sig,
                interval,
                repeat,
                now,
            ),
    {
        if !self.processes.contains_key(&pid.0) {
            return ;
        }
        proof {
            assert(process_placed(self.processes@, self.process_seed, pid.0));
        }
        let mut p = self.processes.remove(&pid.0).unwrap();
        p.signal_interval(sig, interval, repeat, now);
        self.put_back(p);
        proof {
            assert(self.processes@ =~= old(self).processes@.insert(pid.0, p));
            lemma_replace_keeps_wf(old(self).processes@, old(self).process_seed, pid.0, p);
        }
    }

    /// Finishes thread `tid` of process `pid` with `res`; see
    /// `WasiProcess::set_thread_finished`. `false` for an unknown process.
    pub fn set_thread_finished(&mut self, pid: WasiProcessId, tid: &WasiThreadId, res: TaskResult) -> (settled: bool)
        requires
            old(self).wf(),
        ensures
            final(self).wf(),
            !old(self).processes().contains_key(pid.0) ==> !settled && *final(self) == *old(self),
            old(self).processes().contains_key(pid.0) ==> process_updated(*old(self), *final(self), pid)
                && thread_settled(old(self).processes()[pid.0], final(self).processes()[pid.0], *tid, res)
                && settled == (old(self).processes()[pid.0].has_thread(*tid) && old(
                self,
            ).processes()[pid.0].thread_status(
                old(self).processes()[pid.0].thread_index(*tid),
            ).spec_finished().is_none()),
    {
        if !self.processes.contains_key(&pid.0) {
            return false;
        }
        proof {
            assert(process_placed(self.processes@, self.process_seed, pid.0));
        }
        let mut p = self.processes.remove(&pid.0).unwrap();
        let settled = p.set_thread_finished(tid, res);
        self.put_back(p);
        proof {
            assert(self.processes@ =~= old(self).processes@.insert(pid.0, p));
            lemma_replace_keeps_wf(old(self).processes@, old(self).process_seed, pid.0, p);
        }
        settled
    }

    /// Terminates process `pid`; see `WasiProcess::terminate`. Nothing
    /// happens for an unknown process.
    pub fn terminate(&mut self, pid: WasiProcessId, exit_code: ExitCode)
        requires
            old(self).wf(),
        ensures
            final(self).wf(),
            !old(self).processes().contains_key(pid.0) ==> *final(self) == *old(self),
            old(self).processes().contains_key(pid.0) ==> process_updated(*old(self), *final(self), pid)
                && terminated(old(self).processes()[pid.0], final(self).processes()[pid.0], exit_code),
    {
        if !self.processes.contains_key(&pid.0) {
            return ;
        }
        proof {
            assert(process_placed(self.processes@, self.process_seed, pid.0));
        }
        let mut p = self.processes.remove(&pid.0).unwrap();
        p.terminate(exit_code);
        self.put_back(p);
        proof {
            assert(self.processes@ =~= old(self).processes@.insert(pid.0, p));
            lemma_replace_keeps_wf(old(self).processes@, old(self).process_seed, pid.0, p);
        }
    }

    /// Takes thread `tid` out of process `pid`; see `WasiProcess::remove_thread`.
    /// The thread keeps its task slot, for `release_task`.
    pub fn remove_thread(&mut self, pid: WasiProcessId, tid: &WasiThreadId) -> (r: Option<WasiThread>)
        requires
            old(self).wf(),
        ensures
            final(self).wf(),
            r.is_some() == (old(self).processes().contains_key(pid.0) && old(
                self,
            ).processes()[pid.0].has_thread(*tid)),
            r is None ==> final(self).processes() == old(self).processes() && final(self).seed()
                == old(self).seed() && final(self).tasks() == old(self).tasks(),
            r matches Some(t) ==> t.tid == *tid && process_updated(*old(self), *final(self), pid)
                && thread_removed(old(self).processes()[pid.0], final(self).processes()[pid.0], *tid),
    {
        if !self.processes.contains_key(&pid.0) {
            return None;
        }
        proof {
            assert(process_placed(self.processes@, self.process_seed, pid.0));
        }
        let mut p = self.processes.remove(&pid.0).unwrap();
        let r = p.remove_thread(tid);
        self.put_back(p);
        proof {
            assert(self.processes@ =~= old(self).processes@.insert(pid.0, p));
            lemma_replace_keeps_wf(old(self).processes@, old(self).process_seed, pid.0, p);
        }
        r
    }

    /// Registers a thread of process `pid` as waiting; while any is, signals
    /// to the process go to its children.
    pub fn begin_wait(&mut self, pid: WasiProcessId) -> (w: WasiProcessWait)
        requires
            old(self).wf(),
            old(self).processes().contains_key(pid.0),
            old(self).processes()[pid.0].waiting < u32::MAX,
        ensures
            final(self).wf(),
            w.spec_pid() == pid,
            process_updated(*old(self), *final(self), pid),
            final(self).processes()[pid.0] == (WasiProcess {
                waiting: (old(self).processes()[pid.0].waiting + 1) as u32,
                ..old(self).processes()[pid.0]
            }),
    {
        proof {
            assert(process_placed(self.processes@, self.process_seed, pid.0));
        }
        let mut p = self.processes.remove(&pid.0).unwrap();
        let w = WasiProcessWait::new(&mut p);
        self.put_back(p);
        proof {
            assert(self.processes@ =~= old(self).processes@.insert(pid.0, p));
            lemma_replace_keeps_wf(old(self).processes@, old(self).process_seed, pid.0, p);
        }
        w
    }

    /// Ends a wait registered with `begin_wait`.
    pub fn end_wait(&mut self, w: WasiProcessWait)
        requires
            old(self).wf(),
            old(self).processes().contains_key(w.spec_pid().0),
            old(self).processes()[w.spec_pid().0].waiting > 0,
        ensures
            final(self).wf(),
            process_updated(*old(self), *final(self), w.spec_pid()),
            final(self).processes()[w.spec_pid().0] == (WasiProcess {
                waiting: (old(self).processes()[w.spec_pid().0].waiting - 1) as u32,
                ..old(self).processes()[w.spec_pid().0]
            }),
    {
        let pid = w.pid();
        proof {
            assert(process_placed(self.processes@, self.process_seed, pid.0));
        }
        let mut p = self.processes.remove(&pid.0).unwrap();
        w.release(&mut p);
        self.put_back(p);
        proof {
            assert(self.processes@ =~= old(self).processes@.insert(pid.0, p));
            lemma_replace_keeps_wf(old(self).processes@, old(self).process_seed, pid.0, p);
        }
    }

    /// Delivers the signal numbered `sig` to process `pid`, as
    /// `signal_process` does; a number that names no signal is refused.
    pub fn signal(&mut self, pid: WasiProcessId, sig: u8) -> (r: Result<(), SignalDeliveryError>)
        requires
            old(self).wf(),
        ensures
            final(self).wf(),
            r.is_ok() == is_signal_number(sig),
            r is Err ==> *final(self) == *old(self),
            r is Ok ==> final(self).seed() == old(self).seed() && final(self).tasks() == old(self).tasks()
                && final(self).processes().dom() == old(self).processes().dom() && exists|s: Signal|
                s@ == sig && forall|k: u32| #[trigger] old(self).processes().contains_key(k) ==> signals_appended(
                old(self).processes()[k],
                final(self).processes()[k],
                s,
                delivery_count(signal_links(old(self).processes()), pid.0, k),
            ),
    {
        match Signal::from_number(sig) {
            Some(s) => {
                self.signal_process(pid, s);
                Ok(())
            },
            None => Err(SignalDeliveryError),
        }
    }
}

impl WasiControlPlane {
    /// Process `pid` takes one more run token; see `WasiProcess::acquire_run_token`.
    pub fn acquire_run_token(&mut self, pid: WasiProcessId)
        requires
            old(self).wf(),
            old(self).processes().contains_key(pid.0),
            old(self).processes()[pid.0].cpu_run_tokens < u32::MAX,
        ensures
            final(self).wf(),
            process_updated(*old(self), *final(self), pid),
            final(self).processes()[pid.0] == (WasiProcess {
                cpu_run_tokens: (old(self).processes()[pid.0].cpu_run_tokens + 1) as u32,
                ..old(self).processes()[pid.0]
            }),
    {
        proof {
            assert(process_placed(self.processes@, self.process_seed, pid.0));
        }
        let mut p = self.processes.remove(&pid.0).unwrap();
        p.acquire_run_token();
        self.put_back(p);
        proof {
            assert(self.processes@ =~= old(self).processes@.insert(pid.0, p));
            lemma_replace_keeps_wf(old(self).processes@, old(self).process_seed, pid.0, p);
        }
    }

    /// Process `pid` gives back a run token; see `WasiProcess::release_run_token`.
    pub fn release_run_token(&mut self, pid: WasiProcessId)
        requires
            old(self).wf(),
            old(self).processes().contains_key(pid.0),
            old(self).processes()[pid.0].cpu_run_tokens > 0,
        ensures
            final(self).wf(),
            process_updated(*old(self), *final(self), pid),
            final(self).processes()[pid.0] == (WasiProcess {
                cpu_run_tokens: (old(self).processes()[pid.0].cpu_run_tokens - 1) as u32,
                ..old(self).processes()[pid.0]
            }),
    {
        proof {
            assert(process_placed(self.processes@, self.process_seed, pid.0));
        }
        let mut p = self.processes.remove(&pid.0).unwrap();
        p.release_run_token();
        self.put_back(p);
        proof {
            assert(self.processes@ =~= old(self).processes@.insert(pid.0, p));
            lemma_replace_keeps_wf(old(self).processes@, old(self).process_seed, pid.0, p);
        }
    }

    /// Consults the CPU backoff of process `pid`; see `WasiProcess::cpu_backoff`.
    pub fn cpu_backoff(&mut self, pid: WasiProcessId) -> (sleep: u64)
        requires
            old(self).wf(),
            old(self).processes().contains_key(pid.0),
        ensures
            final(self).wf(),
            process_updated(*old(self), *final(self), pid),
            sleep == old(self).processes()[pid.0].inner.backoff.suggestion(
                old(self).processes()[pid.0].cpu_run_tokens,
            ),
            final(self).processes()[pid.0] == (WasiProcess {
                inner: crate::process::WasiProcessInner {
                    backoff: old(self).processes()[pid.0].inner.backoff.consulted(
                        old(self).processes()[pid.0].cpu_run_tokens,
                    ),
                    ..old(self).processes()[pid.0].inner
                },
                ..old(self).processes()[pid.0]
            }),
    {
        proof {
            assert(process_placed(self.processes@, self.process_seed, pid.0));
        }
        let mut p = self.processes.remove(&pid.0).unwrap();
        let sleep = p.cpu_backoff();
        self.put_back(p);
        proof {
            assert(self.processes@ =~= old(self).processes@.insert(pid.0, p));
            lemma_replace_keeps_wf(old(self).processes@, old(self).process_seed, pid.0, p);
        }
        sleep
    }
}

/// Process ids strictly increase over the life of a plane: a process
/// created after another, with any calls between them that leave the id
/// counter no lower (minting ids, admitting threads, creating processes),
/// gets a larger id, one that no process held before it.
pub proof fn lemma_process_ids_increase(
    a: WasiControlPlane,
    b: WasiControlPlane,
    c: WasiControlPlane,
    d: WasiControlPlane,
    first: WasiProcessId,
    second: WasiProcessId,
    first_hash: ModuleHash,
    second_hash: ModuleHash,
)
    requires
        process_created(a, b, first, first_hash),
        b.seed() <= c.seed(),
        process_created(c, d, second, second_hash),
    ensures
        first.0 < second.0,
        first != second,
        !a.processes().contains_key(first.0),
        !c.processes().contains_key(second.0),
        d.processes().contains_key(second.0),
{
}

/// An id handed out by the counter before a process is created, by
/// `generate_id`, a thread admission or an earlier creation, is never the
/// id of that process.
pub proof fn lemma_issued_ids_never_reused(
    c: WasiControlPlane,
    d: WasiControlPlane,
    issued: WasiProcessId,
    created: WasiProcessId,
    module_hash: ModuleHash,
)
    requires
        issued.0 <= c.seed(),
        process_created(c, d, created, module_hash),
    ensures
        issued.0 < created.0,
        issued != created,
{
}

} // verus!
