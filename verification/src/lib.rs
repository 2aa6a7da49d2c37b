//! A mutable tensor-computation graph with an in-place constant-folding pass.
//!
//! Nodes live in an arena and name each other by stable identifiers. A reverse
//! dependency index records, for every identifier, which nodes mention it. The
//! folding pass walks the graph from a root and redirects every user of a
//! redundant arithmetic node (`x + 0`, `x * 1`, `x * 0`) to the simpler operand.

pub mod arena;
pub mod consteval;
pub mod context;
pub mod error;
pub mod graph;
pub mod operation;

pub use arena::ARENA_CAPACITY;
pub use context::Context;
pub use error::{DanglingReference, FoldError, SubstitutionError};
pub use operation::{
    Callsite, ConstantBinding, Dimension, ElementType, Node, NodeIdentifier, Operation,
    OperationDiscriminants, Parameter, ParameterBinding,
};
