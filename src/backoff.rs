//! Exponential CPU backoff of an idle process.

use vstd::prelude::*;

verus! {

/// Throttles a process's CPU use while nothing keeps it busy. Durations are
/// in milliseconds.
///
/// While no run token is held, each consultation suggests a sleep that is at
/// least the previous one, doubling from the cool-off floor up to the
/// maximum backoff. While a token is held the process runs freely and the
/// window drops back to the floor.
#[derive(Clone, Copy, PartialEq, Eq, Structural, Debug)]
pub struct WasiProcessCpuBackoff {
    /// Sleep suggested at the next consultation without run tokens.
    pub cpu_backoff_time: u64,
    /// Ceiling of the suggested sleep.
    pub max_cpu_backoff_time: u64,
    /// Floor of the suggested sleep: where it starts after work resumes.
    pub max_cpu_cool_off_time: u64,
}

impl WasiProcessCpuBackoff {
    /// The window never exceeds the ceiling.
    pub open spec fn wf(self) -> bool {
        self.cpu_backoff_time <= self.max_cpu_backoff_time
    }

    /// Where the window starts: the cool-off floor, held under the ceiling.
    pub open spec fn floor(self) -> u64 {
        if self.max_cpu_cool_off_time <= self.max_cpu_backoff_time {
            self.max_cpu_cool_off_time
        } else {
            self.max_cpu_backoff_time
        }
    }

    /// The window after one more idle consultation: doubled, up to the ceiling.
    pub open spec fn grown(self) -> u64 {
        if 2 * self.cpu_backoff_time >= self.max_cpu_backoff_time {
            self.max_cpu_backoff_time
        } else {
            (2 * self.cpu_backoff_time) as u64
        }
    }

    /// The sleep suggested by a consultation with `run_tokens` tokens held.
    pub open spec fn suggestion(self, run_tokens: u32) -> u64 {
        if run_tokens > 0 {
            0
        } else {
            self.cpu_backoff_time
        }
    }

    /// The controller after a consultation with `run_tokens` tokens held.
    pub open spec fn consulted(self, run_tokens: u32) -> WasiProcessCpuBackoff {
        WasiProcessCpuBackoff {
            cpu_backoff_time: if run_tokens > 0 {
                self.floor()
            } else {
                self.grown()
            },
            ..self
        }
    }

    /// A controller with the given ceiling and floor, its window at the floor.
    pub fn new(max_cpu_backoff_time: u64, max_cpu_cool_off_time: u64) -> (r: Self)
        ensures
            r.wf(),
            r.max_cpu_backoff_time == max_cpu_backoff_time,
            r.max_cpu_cool_off_time == max_cpu_cool_off_time,
            r.cpu_backoff_time == r.floor(),
    {
        let start = if max_cpu_cool_off_time <= max_cpu_backoff_time {
            max_cpu_cool_off_time
        } else {
            max_cpu_backoff_time
        };
        WasiProcessCpuBackoff {
            cpu_backoff_time: start,
            max_cpu_backoff_time,
            max_cpu_cool_off_time,
        }
    }

    /// Consults the controller with `run_tokens` tokens held and returns how
    /// long to sleep before resuming guest code.
    pub fn backoff(&mut self, run_tokens: u32) -> (sleep: u64)
        requires
            old(self).wf(),
        ensures
            final(self).wf(),
            sleep == old(self).suggestion(run_tokens),
            *final(self) == old(self).consulted(run_tokens),
    {
        if run_tokens > 0 {
            let floor = if self.max_cpu_cool_off_time <= self.max_cpu_backoff_time {
                self.max_cpu_cool_off_time
            } else {
                self.max_cpu_backoff_time
            };
            self.cpu_backoff_time = floor;
            0
        } else {
            let sleep = self.cpu_backoff_time;
            let room = self.max_cpu_backoff_time - sleep;
            self.cpu_backoff_time = if sleep >= room {
                self.max_cpu_backoff_time
            } else {
                sleep + sleep
            };
            sleep
        }
    }
}

/// With no run tokens held, successive consultations never suggest a shorter
/// sleep and never one above the ceiling; once a token is held, the next idle
/// consultation starts again from the floor.
pub proof fn lemma_backoff_monotone(b: WasiProcessCpuBackoff, run_tokens: u32)
    requires
        b.wf(),
    ensures
        b.consulted(0).wf(),
        b.suggestion(0) <= b.consulted(0).suggestion(0),
        b.consulted(0).suggestion(0) <= b.max_cpu_backoff_time,
        b.suggestion(run_tokens) <= b.max_cpu_backoff_time,
        run_tokens > 0 ==> b.consulted(run_tokens).suggestion(0) == b.floor(),
        run_tokens > 0 ==> b.consulted(run_tokens).wf(),
{
}

/// The controller after `n` consultations with no run token held.
pub open spec fn idle_consulted(b: WasiProcessCpuBackoff, n: nat) -> WasiProcessCpuBackoff
    decreases n,
{
    if n == 0 {
        b
    } else {
        idle_consulted(b, (n - 1) as nat).consulted(0)
    }
}

/// Over any run of consultations without run tokens, the suggested sleep
/// never decreases and never exceeds the ceiling; however far it has grown,
/// a consultation with a token held suggests no sleep and brings the next
/// idle suggestion back to the floor.
pub proof fn lemma_backoff_run(b: WasiProcessCpuBackoff, n: nat, run_tokens: u32)
    requires
        b.wf(),
    ensures
        idle_consulted(b, n).wf(),
        idle_consulted(b, n).max_cpu_backoff_time == b.max_cpu_backoff_time,
        idle_consulted(b, n).max_cpu_cool_off_time == b.max_cpu_cool_off_time,
        idle_consulted(b, n).suggestion(0) <= idle_consulted(b, n + 1).suggestion(0),
        idle_consulted(b, n).suggestion(0) <= b.max_cpu_backoff_time,
        run_tokens > 0 ==> idle_consulted(b, n).suggestion(run_tokens) == 0,
        run_tokens > 0 ==> idle_consulted(b, n).consulted(run_tokens).suggestion(0) == b.floor(),
    decreases n,
{
    if n > 0 {
        lemma_backoff_run(b, (n - 1) as nat, run_tokens);
    }
    lemma_backoff_monotone(idle_consulted(b, n), run_tokens);
}

} // verus!
