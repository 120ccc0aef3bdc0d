//! Process and thread identifiers.

use vstd::prelude::*;

verus! {

/// Identifier of a process. The main thread of a process reuses it as its
/// thread id, so process and thread ids come from one shared counter.
#[derive(Clone, Copy, PartialEq, Eq, Structural, PartialOrd, Ord, Hash, Debug)]
pub struct WasiProcessId(pub u32);

impl WasiProcessId {
    /// The raw identifier.
    pub fn raw(&self) -> (r: u32)
        ensures
            r == self.0,
    {
        self.0
    }
}

impl From<u32> for WasiProcessId {
    fn from(id: u32) -> Self {
        WasiProcessId(id)
    }
}

impl vstd::std_specs::convert::FromSpecImpl<u32> for WasiProcessId {
    open spec fn obeys_from_spec() -> bool {
        true
    }

    open spec fn from_spec(v: u32) -> Self {
        WasiProcessId(v)
    }
}

impl From<i32> for WasiProcessId {
    fn from(id: i32) -> Self {
        WasiProcessId(id as u32)
    }
}

impl vstd::std_specs::convert::FromSpecImpl<i32> for WasiProcessId {
    open spec fn obeys_from_spec() -> bool {
        true
    }

    open spec fn from_spec(v: i32) -> Self {
        WasiProcessId(v as u32)
    }
}

impl From<WasiProcessId> for u32 {
    fn from(val: WasiProcessId) -> Self {
        val.0
    }
}

impl vstd::std_specs::convert::FromSpecImpl<WasiProcessId> for u32 {
    open spec fn obeys_from_spec() -> bool {
        true
    }

    open spec fn from_spec(v: WasiProcessId) -> Self {
        v.0
    }
}

impl From<WasiProcessId> for i32 {
    fn from(val: WasiProcessId) -> Self {
        val.0 as i32
    }
}

impl vstd::std_specs::convert::FromSpecImpl<WasiProcessId> for i32 {
    open spec fn obeys_from_spec() -> bool {
        true
    }

    open spec fn from_spec(v: WasiProcessId) -> Self {
        v.0 as i32
    }
}

/// Identifier of a thread, drawn from the same counter as process ids.
#[derive(Clone, Copy, PartialEq, Eq, Structural, PartialOrd, Ord, Hash, Debug)]
pub struct WasiThreadId(pub u32);

impl WasiThreadId {
    /// The raw identifier.
    pub fn raw(&self) -> (r: u32)
        ensures
            r == self.0,
    {
        self.0
    }
}

impl From<u32> for WasiThreadId {
    fn from(id: u32) -> Self {
        WasiThreadId(id)
    }
}

impl vstd::std_specs::convert::FromSpecImpl<u32> for WasiThreadId {
    open spec fn obeys_from_spec() -> bool {
        true
    }

    open spec fn from_spec(v: u32) -> Self {
        WasiThreadId(v)
    }
}

} // verus!
