//! Specifications for collecting finished child processes.

use vstd::prelude::*;

use crate::ids::WasiProcessId;
use crate::process::WasiProcess;

verus! {

/// `kids` without the entries that `gone` picks, in their order.
pub open spec fn retain_children(kids: Seq<WasiProcessId>, gone: spec_fn(WasiProcessId) -> bool) -> Seq<
    WasiProcessId,
>
    decreases kids.len(),
{
    if kids.len() == 0 {
        kids
    } else {
        let rest = retain_children(kids.drop_last(), gone);
        if gone(kids.last()) {
            rest
        } else {
            rest.push(kids.last())
        }
    }
}

/// What `retain_children` keeps was in the list.
pub proof fn lemma_retain_children_subset(kids: Seq<WasiProcessId>, gone: spec_fn(WasiProcessId) -> bool)
    ensures
        forall|i: int|
            0 <= i < retain_children(kids, gone).len() ==> kids.contains(
                #[trigger] retain_children(kids, gone)[i],
            ),
    decreases kids.len(),
{
    if kids.len() > 0 {
        lemma_retain_children_subset(kids.drop_last(), gone);
        let rest = retain_children(kids.drop_last(), gone);
        assert forall|i: int| 0 <= i < retain_children(kids, gone).len() implies kids.contains(
            #[trigger] retain_children(kids, gone)[i],
        ) by {
            if i < rest.len() {
                let j = choose|j: int| 0 <= j < kids.drop_last().len() && kids.drop_last()[j] == rest[i];
                assert(kids[j] == rest[i]);
            } else {
                assert(kids[kids.len() - 1] == kids.last());
            }
        }
    }
}

/// Whether child `c` has finished.
pub open spec fn child_finished(procs: Map<u32, WasiProcess>, c: WasiProcessId) -> bool {
    procs[c.0].finished.spec_finished().is_some()
}

/// `j` is the position of the first finished child in `kids`.
pub open spec fn first_finished_at(procs: Map<u32, WasiProcess>, kids: Seq<WasiProcessId>, j: int) -> bool {
    &&& 0 <= j < kids.len()
    &&& child_finished(procs, kids[j])
    &&& forall|i: int| 0 <= i < j ==> !child_finished(procs, #[trigger] kids[i])
}

/// Whether `c`, one of the children in `snapshot`, is a finished process.
pub open spec fn reaped_by(procs: Map<u32, WasiProcess>, snapshot: Seq<WasiProcessId>, c: WasiProcessId) -> bool {
    snapshot.contains(c) && procs.contains_key(c.0) && child_finished(procs, c)
}

} // verus!
