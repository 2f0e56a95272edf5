//! The shape-propagation pass.
//!
//! Given the current, possibly partially known shapes of an instance's
//! inputs, the pass computes or constrains the shapes of its outputs by
//! merging: unknown axes unify permissively, known sizes must agree, and a
//! merge only ever tightens a constraint, so the pass may be re-invoked
//! after every graph mutation. An irreconcilable constraint is reported
//! with both conflicting shapes. What one step and one sweep do is pinned
//! by [`prop_step_v`] and [`sweep_v`].
use crate::errors::ShapePropError;
use crate::graph::{Graph, NodeID, NodeV};
use crate::ops::OpInstance;
use crate::shape::{
    lemma_merge_tightens, lemma_refines_reflexive, lemma_refines_transitive, shape_merge_v,
    shape_refines, shapes_compatible, Shape,
};
use vstd::prelude::*;

verus! {

impl Graph {
    /// Read an input's current shape, as the propagation context offers
    /// it.
    pub fn input_shape(&self, id: NodeID) -> (r: &Shape)
        requires
            id < self.nodes_v().len(),
        ensures
            r@ == self.nodes_v()[id as int].shape,
    {
        self.node_shape(id)
    }

    /// Merge a proposed shape into an output's current constraint.
    /// Succeeds exactly when the two unify, tightening the node's shape to
    /// the merge and reporting whether it changed; fails with both
    /// conflicting shapes, changing nothing.
    pub fn merge_output_shape(&mut self, id: NodeID, proposed: &Shape) -> (r: Result<
        bool,
        ShapePropError,
    >)
        requires
            old(self).wf(),
            id < old(self).nodes_v().len(),
        ensures
            final(self).wf(),
            final(self).ops@ == old(self).ops@,
            r is Ok <==> shapes_compatible(old(self).nodes_v()[id as int].shape, proposed@),
            r matches Ok(ch) ==> {
                &&& final(self).nodes_v() == old(self).nodes_v().update(
                    id as int,
                    (NodeV {
                        shape: shape_merge_v(old(self).nodes_v()[id as int].shape, proposed@),
                        ..old(self).nodes_v()[id as int]
                    }),
                )
                &&& ch == (shape_merge_v(old(self).nodes_v()[id as int].shape, proposed@) != old(
                    self,
                ).nodes_v()[id as int].shape)
            },
            r matches Err(e) ==> {
                &&& final(self).nodes_v() == old(self).nodes_v()
                &&& e matches ShapePropError::Conflict(s1, s2) && s1@ == old(
                    self,
                ).nodes_v()[id as int].shape && s2@ == proposed@
            },
    {
        let cur = self.node_shape(id);
        match cur.merge(proposed) {
            Some(m) => {
                let changed = !m.same_as(cur);
                self.set_shape(id, m);
                Ok(changed)
            },
            None => {
                let s1 = self.node_shape(id).clone();
                let s2 = proposed.clone();
                proof {
                    assert(final(self).nodes_v() =~= old(self).nodes_v());
                }
                Err(ShapePropError::Conflict(s1, s2))
            },
        }
    }
}

/// Whether one graph's shapes refine another's axis for axis, everything
/// else equal: what a propagation step leaves behind.
pub open spec fn shapes_tightened(post: Seq<NodeV>, pre: Seq<NodeV>) -> bool {
    &&& post.len() == pre.len()
    &&& forall|j: int| 0 <= j < pre.len() ==> shape_refines(
        (#[trigger] post[j]).shape,
        pre[j].shape,
    )
    &&& forall|j: int| 0 <= j < pre.len() ==> (#[trigger] post[j]) == (NodeV {
        shape: post[j].shape,
        ..pre[j]
    })
}

/// What one instance's propagation does to the node arena: `None` when it
/// fails (the backward activation's shape-equality demand, or two known
/// sizes that disagree), else the arena with the output's constraint
/// tightened to the merge, paired with whether that changed anything.
pub open spec fn prop_step_v(inst: OpInstance, nodes: Seq<NodeV>) -> Option<(Seq<NodeV>, bool)> {
    let src = nodes[inst.prop_src() as int].shape;
    let dst = nodes[inst.prop_dst() as int].shape;
    let mismatch = match inst {
        OpInstance::MulDivBack(i) => nodes[i.output_grad as int].shape != src,
        _ => false,
    };
    if mismatch {
        None
    } else if !shapes_compatible(dst, src) {
        None
    } else {
        Some(
            (
                nodes.update(
                    inst.prop_dst() as int,
                    (NodeV { shape: shape_merge_v(dst, src), ..nodes[inst.prop_dst() as int] }),
                ),
                shape_merge_v(dst, src) != dst,
            ),
        )
    }
}

/// What one sweep over the first `k` instances does: the steps chained in
/// registration order, the changed flags joined; `None` as soon as one
/// step fails.
pub open spec fn sweep_v(ops: Seq<OpInstance>, nodes: Seq<NodeV>, k: int) -> Option<
    (Seq<NodeV>, bool),
>
    decreases k when k >= 0
{
    if k <= 0 {
        Some((nodes, false))
    } else {
        match sweep_v(ops, nodes, k - 1) {
            Some(p) => match prop_step_v(ops[k - 1], p.0) {
                Some(q) => Some((q.0, p.1 || q.1)),
                None => None,
            },
            None => None,
        }
    }
}

/// A failed step keeps every longer sweep failed.
proof fn lemma_sweep_none_sticks(ops: Seq<OpInstance>, nodes: Seq<NodeV>, k1: int, k2: int)
    requires
        0 <= k1 <= k2,
        sweep_v(ops, nodes, k1) is None,
    ensures
        sweep_v(ops, nodes, k2) is None,
    decreases k2 - k1,
{
    if k1 < k2 {
        lemma_sweep_none_sticks(ops, nodes, k1, k2 - 1);
    }
}

impl OpInstance {
    /// Propagate this instance's input shapes onto its outputs. All four
    /// operators are shape-preserving: the (first) input's shape is merged
    /// into the output's constraint; the backward activation additionally
    /// requires the output gradient to have exactly the forward input's
    /// shape. The outcome is exactly [`prop_step_v`]; a failure changes
    /// nothing and reports both conflicting shapes.
    pub fn propagate_shapes(&self, g: &mut Graph) -> (r: Result<bool, ShapePropError>)
        requires
            old(g).wf(),
            self.wf(old(g).nodes_v().len() as int),
        ensures
            final(g).wf(),
            final(g).ops@ == old(g).ops@,
            shapes_tightened(final(g).nodes_v(), old(g).nodes_v()),
            r matches Ok(ch) ==> prop_step_v(*self, old(g).nodes_v()) == Some(
                (final(g).nodes_v(), ch),
            ),
            r is Err <==> prop_step_v(*self, old(g).nodes_v()) is None,
            r is Err ==> final(g).nodes_v() == old(g).nodes_v(),
            r matches Err(e) ==> ({
                let src = old(g).nodes_v()[self.prop_src() as int].shape;
                let dst = old(g).nodes_v()[self.prop_dst() as int].shape;
                if (self matches OpInstance::MulDivBack(i) && old(
                    g,
                ).nodes_v()[i.output_grad as int].shape != src) {
                    e matches ShapePropError::InputMismatch(s1, s2) && s1@ == src && s2@ == old(
                        g,
                    ).nodes_v()[self->MulDivBack_0.output_grad as int].shape
                } else {
                    e matches ShapePropError::Conflict(s1, s2) && s1@ == dst && s2@ == src
                }
            }),
    {
        proof {
            assert(self.input_ids()[0] < old(g).nodes_v().len());
            assert(self.output_ids()[0] < old(g).nodes_v().len());
            match self {
                OpInstance::Min(i) => {
                    assert(self.input_ids()[0] == i.input1);
                    assert(self.output_ids()[0] == i.output);
                },
                OpInstance::MinBack(i) => {
                    assert(self.input_ids()[0] == i.input1);
                    assert(self.output_ids()[0] == i.output);
                },
                OpInstance::MulDiv(i) => {
                    assert(self.input_ids()[0] == i.input);
                    assert(self.output_ids()[0] == i.output);
                },
                OpInstance::MulDivBack(i) => {
                    assert(self.input_ids()[0] == i.input);
                    assert(self.input_ids()[1] == i.output_grad);
                    assert(self.output_ids()[0] == i.input_grad);
                },
            }
        }
        let (src_id, dst_id): (NodeID, NodeID) = match self {
            OpInstance::Min(i) => (i.input1, i.output),
            OpInstance::MinBack(i) => (i.input1, i.output),
            OpInstance::MulDiv(i) => (i.input, i.output),
            OpInstance::MulDivBack(i) => {
                let same = {
                    let a = g.input_shape(i.input);
                    a.same_as(g.input_shape(i.output_grad))
                };
                if !same {
                    let s1 = g.input_shape(i.input).clone();
                    let s2 = g.input_shape(i.output_grad).clone();
                    proof {
                        lemma_tightened_reflexive(g.nodes_v());
                        assert(prop_step_v(*self, old(g).nodes_v()) is None);
                    }
                    return Err(ShapePropError::InputMismatch(s1, s2));
                }
                (i.input, i.input_grad)
            },
        };
        let proposed = g.input_shape(src_id).clone();
        let r = g.merge_output_shape(dst_id, &proposed);
        proof {
            match r {
                Ok(ch) => {
                    let dst = old(g).nodes_v()[dst_id as int].shape;
                    lemma_merge_tightens(dst, proposed@);
                    assert forall|j: int| 0 <= j < old(g).nodes_v().len() implies shape_refines(
                        (#[trigger] final(g).nodes_v()[j]).shape,
                        old(g).nodes_v()[j].shape,
                    ) by {
                        if j != dst_id as int {
                            lemma_refines_reflexive(old(g).nodes_v()[j].shape);
                        }
                    }
                    assert(prop_step_v(*self, old(g).nodes_v()) == Some(
                        (final(g).nodes_v(), ch),
                    ));
                },
                Err(_) => {
                    lemma_tightened_reflexive(g.nodes_v());
                    assert(prop_step_v(*self, old(g).nodes_v()) is None);
                },
            }
        }
        match r {
            Ok(ch) => Ok(ch),
            Err(e) => Err(e),
        }
    }

    /// The node whose shape this instance propagates from.
    pub open spec fn prop_src(self) -> NodeID {
        self.input_ids()[0]
    }

    /// The node whose shape this instance propagates into.
    pub open spec fn prop_dst(self) -> NodeID {
        self.output_ids()[0]
    }
}

/// Unchanged shapes trivially tighten themselves.
proof fn lemma_tightened_reflexive(nodes: Seq<NodeV>)
    ensures
        shapes_tightened(nodes, nodes),
{
    assert forall|j: int| 0 <= j < nodes.len() implies shape_refines(
        (#[trigger] nodes[j]).shape,
        nodes[j].shape,
    ) by {
        lemma_refines_reflexive(nodes[j].shape);
    }
}

/// One sweep of the pass: propagate every instance once, in registration
/// order. The outcome is exactly [`sweep_v`] over all instances: on
/// success the final shapes are the fold of the per-instance merges and
/// the report says whether anything tightened; the first irreconcilable
/// constraint aborts the sweep, which then fails as a whole.
pub fn propagate_shapes_pass(g: &mut Graph) -> (r: Result<bool, ShapePropError>)
    requires
        old(g).wf(),
    ensures
        final(g).wf(),
        final(g).ops@ == old(g).ops@,
        shapes_tightened(final(g).nodes_v(), old(g).nodes_v()),
        r matches Ok(ch) ==> sweep_v(old(g).ops@, old(g).nodes_v(), old(g).ops@.len() as int)
            == Some((final(g).nodes_v(), ch)),
        r is Err <==> sweep_v(old(g).ops@, old(g).nodes_v(), old(g).ops@.len() as int) is None,
        r matches Ok(false) ==> final(g).nodes_v() == old(g).nodes_v(),
{
    let mut changed = false;
    let mut k: usize = 0;
    let n = g.op_count();
    proof {
        lemma_tightened_reflexive(g.nodes_v());
    }
    while k < n
        invariant
            k <= n,
            n == g.ops@.len(),
            g.ops@ == old(g).ops@,
            g.wf(),
            shapes_tightened(g.nodes_v(), old(g).nodes_v()),
            sweep_v(old(g).ops@, old(g).nodes_v(), k as int) == Some((g.nodes_v(), changed)),
            !changed ==> g.nodes_v() == old(g).nodes_v(),
        decreases n - k,
    {
        let inst = g.ops[k];
        proof {
            assert(g.ops@[k as int].wf(g.nodes@.len() as int));
        }
        let ghost mid = g.nodes_v();
        let ch = match inst.propagate_shapes(g) {
            Ok(ch) => ch,
            Err(e) => {
                proof {
                    assert(sweep_v(old(g).ops@, old(g).nodes_v(), k + 1) is None);
                    lemma_sweep_none_sticks(old(g).ops@, old(g).nodes_v(), k + 1, n as int);
                }
                return Err(e);
            },
        };
        proof {
            lemma_tightened_transitive(g.nodes_v(), mid, old(g).nodes_v());
            assert(sweep_v(old(g).ops@, old(g).nodes_v(), k + 1) == Some(
                (g.nodes_v(), changed || ch),
            ));
        }
        if ch {
            changed = true;
        }
        k = k + 1;
    }
    Ok(changed)
}

/// Tightening composes.
proof fn lemma_tightened_transitive(a: Seq<NodeV>, b: Seq<NodeV>, c: Seq<NodeV>)
    requires
        shapes_tightened(a, b),
        shapes_tightened(b, c),
    ensures
        shapes_tightened(a, c),
{
    assert forall|j: int| 0 <= j < c.len() implies shape_refines(
        (#[trigger] a[j]).shape,
        c[j].shape,
    ) by {
        lemma_refines_transitive(a[j].shape, b[j].shape, c[j].shape);
    }
}

/// Run sweeps until none changes anything, within the given fuel.
/// `Ok(true)` says a fixed point was reached: one more whole sweep
/// succeeds and leaves every shape exactly as it stands. `Ok(false)` says
/// the fuel ran out first.
pub fn propagate_to_fixpoint(g: &mut Graph, fuel: usize) -> (r: Result<bool, ShapePropError>)
    requires
        old(g).wf(),
    ensures
        final(g).wf(),
        final(g).ops@ == old(g).ops@,
        shapes_tightened(final(g).nodes_v(), old(g).nodes_v()),
        r matches Ok(true) ==> sweep_v(
            final(g).ops@,
            final(g).nodes_v(),
            final(g).ops@.len() as int,
        ) == Some((final(g).nodes_v(), false)),
        r matches Ok(false) && fuel > 0 ==> exists|pre: Seq<NodeV>|
            shapes_tightened(final(g).nodes_v(), pre) && sweep_v(
                final(g).ops@,
                pre,
                final(g).ops@.len() as int,
            ) == Some((final(g).nodes_v(), true)),
{
    let mut rounds: usize = 0;
    let ghost mut last_pre = g.nodes_v();
    let ghost mut ran_changing = false;
    proof {
        lemma_tightened_reflexive(g.nodes_v());
    }
    while rounds < fuel
        invariant
            rounds <= fuel,
            g.wf(),
            g.ops@ == old(g).ops@,
            shapes_tightened(g.nodes_v(), old(g).nodes_v()),
            ran_changing == (rounds > 0),
            ran_changing ==> shapes_tightened(g.nodes_v(), last_pre) && sweep_v(
                g.ops@,
                last_pre,
                g.ops@.len() as int,
            ) == Some((g.nodes_v(), true)),
        decreases fuel - rounds,
    {
        let ghost mid = g.nodes_v();
        let ch = match propagate_shapes_pass(g) {
            Ok(ch) => ch,
            Err(e) => {
                return Err(e);
            },
        };
        proof {
            lemma_tightened_transitive(g.nodes_v(), mid, old(g).nodes_v());
        }
        if !ch {
            return Ok(true);
        }
        proof {
            last_pre = mid;
            ran_changing = true;
        }
        rounds = rounds + 1;
    }
    Ok(false)
}

} // verus!
