//! Where a signal sent to a process ends up: the process's own threads,
//! or, while one of its threads waits, its children by the same rule.

use vstd::prelude::*;

use crate::ids::WasiProcessId;
use crate::process::{threads_replaced, WasiProcess};

verus! {

/// Whether a signal to `p` goes to its children instead of its threads:
/// some thread of `p` is waiting and `p` has children.
pub open spec fn forwards_signals(p: WasiProcess) -> bool {
    p.waiting > 0 && p.inner.children@.len() > 0
}

/// What signal routing reads of each process: whether it forwards, and to
/// which children.
pub open spec fn signal_links(procs: Map<u32, WasiProcess>) -> Map<u32, (bool, Seq<WasiProcessId>)> {
    procs.map_values(|p: WasiProcess| (forwards_signals(p), p.inner.children@))
}

/// How many times each thread of process `target` receives a signal sent to
/// process `pid`: a forwarding process hands it to each child in turn, any
/// other delivers it once to each of its own threads.
pub open spec fn delivery_count(l: Map<u32, (bool, Seq<WasiProcessId>)>, pid: u32, target: u32) -> nat
    decreases 0x1_0000_0000 - pid, 1int, 0int,
{
    if !l.contains_key(pid) {
        0
    } else if l[pid].0 {
        deliveries_below(l, pid, l[pid].1, target)
    } else if target == pid {
        1
    } else {
        0
    }
}

/// The deliveries to `target` of a signal forwarded by `parent` to `kids`.
/// Children of a registered process always have higher ids than their
/// parent; the guard on ids only keeps the definition well founded.
pub open spec fn deliveries_below(
    l: Map<u32, (bool, Seq<WasiProcessId>)>,
    parent: u32,
    kids: Seq<WasiProcessId>,
    target: u32,
) -> nat
    decreases 0x1_0000_0000 - parent, 0int, kids.len(),
{
    if kids.len() == 0 {
        0
    } else {
        deliveries_below(l, parent, kids.drop_last(), target) + if kids.last().0 > parent {
            delivery_count(l, kids.last().0, target)
        } else {
            0
        }
    }
}

/// Changing only thread tables leaves the routing as it was.
pub(crate) proof fn lemma_links_kept(a: Map<u32, WasiProcess>, b: Map<u32, WasiProcess>)
    requires
        a.dom() == b.dom(),
        forall|k: u32| #[trigger] a.contains_key(k) ==> threads_replaced(a[k], b[k]),
    ensures
        signal_links(a) == signal_links(b),
{
    assert forall|k: u32| #[trigger] signal_links(a).contains_key(k) implies signal_links(b).contains_key(k)
        && signal_links(a)[k] == signal_links(b)[k] by {
        assert(threads_replaced(a[k], b[k]));
    }
    assert(signal_links(a) =~= signal_links(b));
}

/// A signal to a process without children reaches each thread of that
/// process exactly once, and no thread of any other process.
pub proof fn lemma_childless_signal_reaches_own_threads(procs: Map<u32, WasiProcess>, pid: u32)
    requires
        procs.contains_key(pid),
        procs[pid].inner.children@.len() == 0,
    ensures
        delivery_count(signal_links(procs), pid, pid) == 1,
        forall|k: u32| k != pid ==> delivery_count(signal_links(procs), pid, k) == 0,
{
}

/// A signal only ever reaches the sender's own process or processes with
/// higher ids, its descendants.
pub proof fn lemma_deliveries_go_down(l: Map<u32, (bool, Seq<WasiProcessId>)>, pid: u32, target: u32)
    ensures
        delivery_count(l, pid, target) > 0 ==> target >= pid,
    decreases 0x1_0000_0000 - pid, 1int, 0int,
{
    if l.contains_key(pid) && l[pid].0 {
        lemma_deliveries_below_go_down(l, pid, l[pid].1, target);
    }
}

/// A signal forwarded by `parent` only reaches processes above `parent`.
pub proof fn lemma_deliveries_below_go_down(
    l: Map<u32, (bool, Seq<WasiProcessId>)>,
    parent: u32,
    kids: Seq<WasiProcessId>,
    target: u32,
)
    ensures
        deliveries_below(l, parent, kids, target) > 0 ==> target > parent,
    decreases 0x1_0000_0000 - parent, 0int, kids.len(),
{
    if kids.len() > 0 {
        lemma_deliveries_below_go_down(l, parent, kids.drop_last(), target);
        if kids.last().0 > parent {
            lemma_deliveries_go_down(l, kids.last().0, target);
        }
    }
}

/// While a thread of a process waits and the process has at least one
/// child, a signal to the process goes to its children only: its own threads
/// receive nothing.
pub proof fn lemma_waiting_parent_signal_skips_own_threads(procs: Map<u32, WasiProcess>, pid: u32)
    requires
        procs.contains_key(pid),
        procs[pid].waiting > 0,
        procs[pid].inner.children@.len() > 0,
    ensures
        delivery_count(signal_links(procs), pid, pid) == 0,
{
    let l = signal_links(procs);
    lemma_deliveries_below_go_down(l, pid, l[pid].1, pid);
}

} // verus!
