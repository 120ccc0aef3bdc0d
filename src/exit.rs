//! Exit codes and task failures.

use vstd::prelude::*;

verus! {

/// The WASI errno number of `ECANCELED` (`Errno::Canceled`), used as the exit code of a child
/// whose join failed without an exit code of its own.
pub const ERRNO_CANCELED: u16 = 11;

/// Exit status of a task, an errno-style value in `0..=u16::MAX`, held as
/// WASIX holds it (`ExitCode(u16)` of `wasmer-wasix-types`, whose `raw` widens
/// it to `i32`).
#[derive(Clone, Copy, PartialEq, Eq, Structural, PartialOrd, Ord, Hash, Debug)]
pub struct ExitCode(pub u16);

impl ExitCode {
    /// The exit status as the guest sees it.
    pub fn raw(&self) -> (r: i32)
        ensures
            r == self.0 as i32,
    {
        self.0 as i32
    }

    /// Whether the task exited successfully.
    pub fn is_success(&self) -> (r: bool)
        ensures
            r == (self.0 == 0),
    {
        self.0 == 0
    }

    /// The exit code reported for a task whose outcome was lost.
    pub fn canceled() -> (r: ExitCode)
        ensures
            r.0 == ERRNO_CANCELED,
    {
        ExitCode(ERRNO_CANCELED)
    }
}

impl From<u16> for ExitCode {
    fn from(value: u16) -> Self {
        ExitCode(value)
    }
}

impl vstd::std_specs::convert::FromSpecImpl<u16> for ExitCode {
    open spec fn obeys_from_spec() -> bool {
        true
    }

    open spec fn from_spec(v: u16) -> Self {
        ExitCode(v)
    }
}

/// Why a task ended in failure.
#[derive(Clone, Copy, PartialEq, Eq, Structural, Debug)]
pub enum TaskError {
    /// The task left through an exit request carrying this code.
    Exit(ExitCode),
    /// The task failed in a way that carries no exit code.
    Failed,
}

impl TaskError {
    pub open spec fn spec_exit_code(self) -> Option<ExitCode> {
        match self {
            TaskError::Exit(code) => Some(code),
            TaskError::Failed => None,
        }
    }

    /// The exit code that this failure stands for, if any.
    pub fn as_exit_code(&self) -> (r: Option<ExitCode>)
        ensures
            r == self.spec_exit_code(),
    {
        match self {
            TaskError::Exit(code) => Some(*code),
            TaskError::Failed => None,
        }
    }
}

/// What a task ends with: an exit code, or a failure.
pub type TaskResult = Result<ExitCode, TaskError>;

/// The exit code reported for a finished join: the code itself, the code
/// that a failure carries, or the canceled code where it carries none.
pub open spec fn spec_exit_code_of(res: TaskResult) -> ExitCode {
    match res {
        Ok(code) => code,
        Err(e) => match e.spec_exit_code() {
            Some(code) => code,
            None => ExitCode(ERRNO_CANCELED),
        },
    }
}

/// Reduces a task's result to the exit code that a waiting parent reports.
pub fn exit_code_of(res: &TaskResult) -> (r: ExitCode)
    ensures
        r == spec_exit_code_of(*res),
{
    match res {
        Ok(code) => *code,
        Err(e) => match e.as_exit_code() {
            Some(code) => code,
            None => ExitCode::canceled(),
        },
    }
}

} // verus!
