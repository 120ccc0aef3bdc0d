//! Types of other crates that the library carries without looking inside.

use vstd::prelude::*;

verus! {

/// Hash of the compiled module that a process runs (`wasmer_types::ModuleHash`).
/// The library only carries it from process creation to the process record.
#[verifier::external_type_specification]
#[verifier::external_body]
pub struct ExModuleHash(wasmer_types::ModuleHash);

} // verus!
