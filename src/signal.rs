//! Signals and signal schedules.

use vstd::prelude::*;

use core::time::Duration;

verus! {

/// Count of signal numbers a guest can name, `0..=32`: from "no signal"
/// through `SIGSYS`, and the host's own wake-up signal last. These are the
/// numbers that the WASIX signal enum (`Signal` of `wasmer-wasix-types`,
/// `#[repr(u8)]` from 0, converted from `u8` by `TryFromPrimitive`) accepts.
pub const SIGNAL_COUNT: u8 = 33;

/// Whether `n` names a signal.
pub open spec fn is_signal_number(n: u8) -> bool {
    n < SIGNAL_COUNT
}

/// A signal, known to be one of the numbers that name a signal.
#[derive(Clone, Copy, PartialEq, Eq, Structural, Hash, Debug)]
pub struct Signal {
    number: u8,
}

impl View for Signal {
    type V = u8;

    closed spec fn view(&self) -> u8 {
        self.number
    }
}

impl Signal {
    /// The signal with number `n`, if `n` names one.
    pub fn from_number(n: u8) -> (r: Option<Signal>)
        ensures
            r.is_some() == is_signal_number(n),
            r matches Some(s) ==> s@ == n,
    {
        if n < SIGNAL_COUNT {
            Some(Signal { number: n })
        } else {
            None
        }
    }

    /// The signal's number.
    pub fn number(&self) -> (r: u8)
        ensures
            r == self@,
    {
        self.number
    }
}

/// The value handed in for delivery names no signal.
#[derive(Clone, Copy, PartialEq, Eq, Structural, Debug)]
pub struct SignalDeliveryError;

/// A signal to redeliver to the process every `interval`, once or repeating.
#[derive(Clone, Copy, Debug)]
pub struct WasiSignalInterval {
    /// Signal to deliver.
    pub signal: Signal,
    /// Time between deliveries.
    pub interval: Duration,
    /// Monotonic time of the last delivery, or of the installation, in nanoseconds.
    pub last_signal: u128,
    /// Whether to keep delivering after the first time.
    pub repeat: bool,
}

} // verus!
