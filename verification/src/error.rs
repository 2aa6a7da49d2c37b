//! The failures the graph reports.

use vstd::prelude::*;

verus! {

/// An identifier that names no node of the arena it was used on.
#[derive(Clone, Copy, Debug, PartialEq, Eq, Structural)]
pub struct DanglingReference;

/// Why a substitution did not happen.
#[derive(Clone, Copy, Debug, PartialEq, Eq, Structural)]
pub enum SubstitutionError {
    /// The node to remove or its replacement is not in the arena.
    DanglingReference,
}

/// Why a folding pass stopped early.
#[derive(Clone, Copy, Debug, PartialEq, Eq, Structural)]
pub enum FoldError {
    /// The pass reached an identifier that is not in the arena.
    DanglingReference,
    /// A constant that had to be compared with zero or one has no
    /// single-precision form.
    NumericConversion,
}

} // verus!
