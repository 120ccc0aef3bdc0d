//! One-shot completion state of a task.

use vstd::prelude::*;

use crate::exit::TaskResult;

verus! {

/// Completion state of a unit of work: pending until it is settled once.
#[derive(Clone, Copy, PartialEq, Eq, Debug)]
pub enum TaskStatus {
    Pending,
    Finished(TaskResult),
}

impl TaskStatus {
    /// The result, once the task has finished.
    pub open spec fn spec_finished(self) -> Option<TaskResult> {
        match self {
            TaskStatus::Pending => None,
            TaskStatus::Finished(res) => Some(res),
        }
    }

    /// The status after an attempt to finish with `res`: a pending status
    /// settles on `res`, a finished one keeps its first result.
    pub open spec fn spec_finish(self, res: TaskResult) -> TaskStatus {
        match self {
            TaskStatus::Pending => TaskStatus::Finished(res),
            TaskStatus::Finished(_) => self,
        }
    }

    /// Whether the task has finished.
    pub fn is_finished(&self) -> (r: bool)
        ensures
            r == self.spec_finished().is_some(),
    {
        match self {
            TaskStatus::Pending => false,
            TaskStatus::Finished(_) => true,
        }
    }

    /// The result if finished; `None` while pending.
    pub fn into_finished(self) -> (r: Option<TaskResult>)
        ensures
            r == self.spec_finished(),
    {
        match self {
            TaskStatus::Pending => None,
            TaskStatus::Finished(res) => Some(res),
        }
    }

    /// Settles a pending status on `res`. A second attempt is reported by
    /// returning `false` and leaves the first result in place.
    pub fn set_finished(&mut self, res: TaskResult) -> (settled: bool)
        ensures
            settled == old(self).spec_finished().is_none(),
            *final(self) == old(self).spec_finish(res),
    {
        match self {
            TaskStatus::Pending => {
                *self = TaskStatus::Finished(res);
                true
            },
            TaskStatus::Finished(_) => false,
        }
    }
}

/// Every join on a task reads the same status: nothing while it is pending,
/// and after it has been finished once, the result of that first finish,
/// whatever later attempts to finish it again hand in.
pub proof fn lemma_joins_see_first_finish(first: TaskResult, later: TaskResult)
    ensures
        TaskStatus::Pending.spec_finished().is_none(),
        TaskStatus::Pending.spec_finish(first).spec_finished() == Some(first),
        TaskStatus::Pending.spec_finish(first).spec_finish(later).spec_finished() == Some(first),
{
}

} // verus!
