//! Error taxonomy of the recommendation core.

use vstd::prelude::*;

verus! {

/// Typed failures surfaced by the core instead of panics.
#[derive(Clone, Copy, Debug, PartialEq, Eq, Structural)]
pub enum CoreError {
    /// Malformed or oversized document data during ingestion.
    Data,
    /// A numeric edge case, such as a zero-norm vector.  The engine
    /// resolves these to a defined value by policy (zero similarity,
    /// exclusion from scoring), so its own pipelines never return this
    /// variant; it names the condition for callers that surface one.
    Numeric,
    /// A requested identifier is absent from the corpus or index.
    Lookup,
    /// The external graph store is unreachable or answered inconsistently.
    Storage,
}

impl CoreError {
    /// A short human-readable tag for logs and transport layers.
    pub fn tag(&self) -> (r: &'static str)
        ensures
            self is Data ==> r@ == "data error"@,
            self is Numeric ==> r@ == "numeric error"@,
            self is Lookup ==> r@ == "lookup error"@,
            self is Storage ==> r@ == "storage error"@,
    {
        match self {
            CoreError::Data => "data error",
            CoreError::Numeric => "numeric error",
            CoreError::Lookup => "lookup error",
            CoreError::Storage => "storage error",
        }
    }
}

} // verus!
