//! A reverse-mode automatic-differentiation computation-graph engine for
//! dense tensors of exact rational scalars.
//!
//! Users build a graph of tensor-valued nodes and operator instances; the
//! engine infers tensor shapes, executes forward computation in dependency
//! order with in-place accumulation, and synthesizes gradient subgraphs by
//! walking operators in reverse dependency order.
use vstd::prelude::*;

mod engine;
mod errors;
mod grad;
mod exec;
mod graph;
mod ops;
mod outside;
mod rational;
mod shape;
mod shape_prop;

pub use engine::{calc_node, depends, execute_graph, execute_op, materialize, op_applied, storage_ok, topo_order, valid_order};
pub use errors::{ExecutionError, GradientError, OpBuildError, ShapePropError};
pub use exec::{execute_min, execute_min_back, execute_muldiv, execute_muldiv_back, lemma_execution_deterministic, min_back_elem, min_elem, muldiv_back_contrib, muldiv_contrib};
pub use grad::{build_grad, GradientContext};
pub use graph::{Graph, NodeData, NodeID, NodeV};
pub use ops::{
    lemma_min_back_larger_gets_zero, min, min_back_v, muldiv, Min, MinBack, MinBackFunc, MinBackInstance, MinFunc, MinInstance, MulDiv,
    MulDivBack, MulDivBackInstance, MulDivInstance, OpInstance,
};
pub use rational::{add_v, div_v, le_v, min_v, mul_v, neg_v, sub_v, Rat};
pub use shape_prop::{propagate_shapes_pass, propagate_to_fixpoint};
pub use shape::{all_known, dim_merge, lemma_identity_propagation, lemma_merge_commutes, lemma_merge_idempotent, lemma_merge_tightens, shape_merge_v, shape_refines, shapes_compatible, size_of, Dim, Shape};

verus! {

} // verus!
