//! Session coordination and introspection layer around an embedded
//! units-aware expression evaluation engine.
//!
//! The library owns the logic that decides when evaluation commits to the
//! canonical engine state versus running against a disposable snapshot,
//! classifies engine failures into a closed taxonomy, renders semantically
//! tagged markup as HTML, and derives sorted, deduplicated catalogs (units,
//! functions, constants, completions) from engine metadata.

pub mod catalog;
pub mod complete;
mod engine;
pub mod markup;
pub mod order;
pub mod session;
pub mod unicode;

use vstd::prelude::*;

verus! {

/// Version identifier of the embedded evaluation engine. Maintained as a
/// literal constant rather than queried from the engine at run time.
pub fn get_version() -> (r: &'static str)
    ensures
        r@ == "1.24.0"@,
{
    "1.24.0"
}

} // verus!
