//! The error taxonomy.
//!
//! All four kinds are returned, never swallowed, and no operation performs a
//! partial mutation on failure: a build either fully registers an instance
//! or registers nothing.
use crate::shape::Shape;
use vstd::prelude::*;

verus! {

/// A malformed or inconsistent operator configuration at build time.
#[derive(Clone, Copy, Debug, PartialEq, Eq, Structural)]
pub enum OpBuildError {
    /// An input or output node identifier does not belong to the graph the
    /// operator is being registered into (the owning graphs were not
    /// merged beforehand).
    NodeNotInGraph(usize),
}

/// An irreconcilable shape constraint, reported with both conflicting
/// shapes.
#[derive(Clone, Debug)]
pub enum ShapePropError {
    /// A proposed output shape cannot unify with the constraint already on
    /// that node.
    Conflict(Shape, Shape),
    /// A backward operator saw inputs whose shapes were required to agree
    /// but do not.
    InputMismatch(Shape, Shape),
}

/// A runtime failure of the execution engine: an invariant violation, not
/// retried.
#[derive(Clone, Copy, Debug, PartialEq, Eq, Structural)]
pub enum ExecutionError {
    /// The graph's operator instances admit no dependency order.
    Cycle,
    /// A node's shape was not fully resolved before execution.
    ShapeNotResolved(usize),
    /// A node's stored value does not hold exactly one scalar per element
    /// of its resolved shape.
    StorageSizeMismatch(usize),
    /// An instance's declared input and output storage sizes disagree.
    LaneMismatch(usize),
    /// A scalar operation left the range of representable rationals.
    Overflow,
    /// An ill-formed scalar reached the engine.
    BadScalar(usize),
}

/// A failure while constructing a gradient subgraph.
#[derive(Clone, Copy, Debug, PartialEq, Eq, Structural)]
pub enum GradientError {
    /// The operator declares no adjoint of its own: second-order
    /// differentiation is an explicit, not silent, limitation.
    Unimplemented,
    /// Building a backward operator failed.
    Build(OpBuildError),
    /// The forward instances admit no dependency order to walk backwards.
    Cycle,
    /// The requested target node does not belong to the graph.
    NodeNotInGraph(usize),
}

} // verus!
