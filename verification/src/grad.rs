//! The gradient-graph builder: reverse-mode differentiation.
//!
//! Given a target node, the builder finds the instances that transitively
//! produce it, seeds the target's gradient accumulator with the identity
//! gradient, and walks the instances in reverse dependency order, asking
//! each to append the backward instances implementing its adjoint. A
//! gradient accumulator is a fresh node, shape-matched to its original,
//! created on first request; every backward instance accumulates with
//! `+=` into it, which is how multiple consumers of one node sum their
//! contributions. Operators without a defined second derivative answer
//! with an explicit `Unimplemented` failure.
use crate::errors::GradientError;
use crate::graph::{Graph, NodeID, NodeV};
use crate::ops::{MinBack, MinBackFunc, MinFunc, MulDivBack, OpInstance};
use crate::rational::Rat;
use vstd::prelude::*;

verus! {

/// The state the builder threads through one backward pass: the graph
/// being grown, and for each original node the identity of its gradient
/// accumulator, once requested.
pub struct GradientContext {
    pub graph: Graph,
    pub grad: Vec<Option<NodeID>>,
}

impl GradientContext {
    /// Well-formed over `n0` original nodes: every recorded accumulator
    /// exists and has its original's shape.
    pub open spec fn wf(self, n0: int) -> bool {
        &&& self.graph.wf()
        &&& self.grad@.len() == n0
        &&& n0 <= self.graph.nodes_v().len()
        &&& forall|j: int|
            0 <= j < n0 ==> ((#[trigger] self.grad@[j]) matches Some(a) ==> a
                < self.graph.nodes_v().len() && self.graph.nodes_v()[a as int].shape
                == self.graph.nodes_v()[j].shape)
    }

    /// The forward node behind an identity — identities are the currency
    /// here, so this is the identity itself.
    pub fn node(&self, id: NodeID) -> (r: NodeID)
        ensures
            r == id,
    {
        id
    }

    /// The gradient accumulator of a node: created on first request as a
    /// fresh, zero-filled node of the original's shape, then reused.
    pub fn grad_of(&mut self, id: NodeID, Ghost(n0): Ghost<int>) -> (r: NodeID)
        requires
            old(self).wf(n0),
            id < n0,
        ensures
            final(self).wf(n0),
            r < final(self).graph.nodes_v().len(),
            final(self).graph.nodes_v()[r as int].shape == final(self).graph.nodes_v()[id as int].shape,
            final(self).grad@ == old(self).grad@.update(id as int, Some(r)),
            final(self).graph.ops@ == old(self).graph.ops@,
            old(self).grad@[id as int] matches Some(a) ==> r == a && final(self).graph.nodes_v()
                == old(self).graph.nodes_v(),
            old(self).grad@[id as int] is None ==> r == old(self).graph.nodes_v().len() && final(self).graph.nodes_v() == old(self).graph.nodes_v().push(
                (NodeV {
                    name: Seq::empty(),
                    shape: old(self).graph.nodes_v()[id as int].shape,
                    fill: None,
                    value: None,
                }),
            ),
    {
        match self.grad[id] {
            Some(a) => {
                proof {
                    assert(self.grad@ =~= self.grad@.update(id as int, Some(a)));
                }
                a
            },
            None => {
                let shape = self.graph.node_shape(id).clone();
                let a = self.graph.new_node(shape);
                self.grad.set(id, Some(a));
                a
            },
        }
    }
}

impl MinFunc {
    /// Append the two backward instances of one minimum: each routes the
    /// output's gradient to the strictly smaller input's accumulator.
    pub fn grad(
        &self,
        ctx: &mut GradientContext,
        input1: NodeID,
        input2: NodeID,
        output: NodeID,
        Ghost(n0): Ghost<int>,
    ) -> (r: Result<(), GradientError>)
        requires
            old(ctx).wf(n0),
            input1 < n0,
            input2 < n0,
            output < n0,
        ensures
            final(ctx).wf(n0),
            r is Ok,
            old(ctx).graph.nodes_v().len() <= final(ctx).graph.nodes_v().len(),
            forall|j: int|
                0 <= j < old(ctx).graph.nodes_v().len() ==> final(ctx).graph.nodes_v()[j] == old(ctx).graph.nodes_v()[j],
            final(ctx).graph.ops@ == old(ctx).graph.ops@ + seq![
                (MinBack {
                    input1,
                    input2,
                    input3: final(ctx).grad@[output as int]->Some_0,
                    output: final(ctx).grad@[input1 as int]->Some_0,
                }).lower(),
                (MinBack {
                    input1: input2,
                    input2: input1,
                    input3: final(ctx).grad@[output as int]->Some_0,
                    output: final(ctx).grad@[input2 as int]->Some_0,
                }).lower(),
            ],
            final(ctx).grad@[output as int] is Some,
            final(ctx).grad@[input1 as int] is Some,
            final(ctx).grad@[input2 as int] is Some,
    {
        let go = ctx.grad_of(output, Ghost(n0));
        let gi1 = ctx.grad_of(input1, Ghost(n0));
        let b1 = MinBack::new_default(ctx.node(input1), ctx.node(input2), go, gi1);
        match b1.build(&mut ctx.graph) {
            Ok(_) => {},
            Err(e) => {
                proof {
                    assert(b1.lower().wf(ctx.graph.nodes_v().len() as int));
                    assert(false);
                }
                return Err(GradientError::Build(e));
            },
        }
        let gi2 = ctx.grad_of(input2, Ghost(n0));
        let b2 = MinBack::new_default(ctx.node(input2), ctx.node(input1), go, gi2);
        match b2.build(&mut ctx.graph) {
            Ok(_) => {},
            Err(e) => {
                proof {
                    assert(b2.lower().wf(ctx.graph.nodes_v().len() as int));
                    assert(false);
                }
                return Err(GradientError::Build(e));
            },
        }
        proof {
            assert(final(ctx).graph.ops@ =~= old(ctx).graph.ops@ + seq![
                b1.lower(),
                b2.lower(),
            ]);
        }
        Ok(())
    }
}

impl MinBackFunc {
    /// No adjoint of the backward minimum is defined: second-order
    /// differentiation is refused explicitly, never silently zeroed.
    pub fn grad(
        &self,
        _ctx: &mut GradientContext,
        _input1: NodeID,
        _input2: NodeID,
        _input3: NodeID,
        _output: NodeID,
    ) -> (r: Result<(), GradientError>)
        ensures
            r == Err::<(), GradientError>(GradientError::Unimplemented),
            *final(_ctx) == *old(_ctx),
    {
        Err(GradientError::Unimplemented)
    }
}

impl OpInstance {
    /// Ask the instance to append the backward instances implementing its
    /// adjoint, accumulating into the gradient nodes `ctx` hands out. The
    /// two backward operators refuse with `Unimplemented`, leaving the
    /// context untouched.
    pub fn gradient(&self, ctx: &mut GradientContext, Ghost(n0): Ghost<int>) -> (r: Result<
        (),
        GradientError,
    >)
        requires
            old(ctx).wf(n0),
            self.wf(n0),
        ensures
            final(ctx).wf(n0),
            old(ctx).graph.nodes_v().len() <= final(ctx).graph.nodes_v().len(),
            forall|j: int|
                0 <= j < old(ctx).graph.nodes_v().len() ==> final(ctx).graph.nodes_v()[j] == old(ctx).graph.nodes_v()[j],
            old(ctx).graph.ops@.len() <= final(ctx).graph.ops@.len(),
            forall|j: int|
                0 <= j < old(ctx).graph.ops@.len() ==> final(ctx).graph.ops@[j] == old(ctx).graph.ops@[j],
            self is Min || self is MulDiv ==> r is Ok,
            self matches OpInstance::Min(i) ==> final(ctx).graph.ops@ == old(ctx).graph.ops@
                + seq![
                (MinBack {
                    input1: i.input1,
                    input2: i.input2,
                    input3: final(ctx).grad@[i.output as int]->Some_0,
                    output: final(ctx).grad@[i.input1 as int]->Some_0,
                }).lower(),
                (MinBack {
                    input1: i.input2,
                    input2: i.input1,
                    input3: final(ctx).grad@[i.output as int]->Some_0,
                    output: final(ctx).grad@[i.input2 as int]->Some_0,
                }).lower(),
            ],
            self matches OpInstance::MulDiv(i) ==> final(ctx).graph.ops@ == old(ctx).graph.ops@
                + seq![
                (MulDivBack {
                    input: i.input,
                    input_grad: final(ctx).grad@[i.input as int]->Some_0,
                    output_grad: final(ctx).grad@[i.output as int]->Some_0,
                    epsilon: i.epsilon,
                }).lower(),
            ],
            self is MinBack || self is MulDivBack ==> r == Err::<(), GradientError>(
                GradientError::Unimplemented,
            ) && *final(ctx) == *old(ctx),
    {
        proof {
            match self {
                OpInstance::Min(i) => {
                    assert(self.input_ids()[0] == i.input1);
                    assert(self.input_ids()[1] == i.input2);
                    assert(self.output_ids()[0] == i.output);
                },
                OpInstance::MulDiv(i) => {
                    assert(self.input_ids()[0] == i.input);
                    assert(self.output_ids()[0] == i.output);
                },
                _ => {},
            }
        }
        match self {
            OpInstance::Min(i) => {
                let f = MinFunc {};
                f.grad(ctx, i.input1, i.input2, i.output, Ghost(n0))
            },
            OpInstance::MinBack(_) => Err(GradientError::Unimplemented),
            OpInstance::MulDiv(i) => {
                let go = ctx.grad_of(i.output, Ghost(n0));
                let gi = ctx.grad_of(i.input, Ghost(n0));
                let b = MulDivBack::new(i.input, gi, go).epsilon(i.epsilon);
                match b.build(&mut ctx.graph) {
                    Ok(_) => {
                        proof {
                            assert(final(ctx).graph.ops@ =~= old(ctx).graph.ops@ + seq![
                                b.lower(),
                            ]);
                        }
                        Ok(())
                    },
                    Err(e) => {
                        proof {
                            assert(b.lower().wf(ctx.graph.nodes_v().len() as int));
                            assert(false);
                        }
                        Err(GradientError::Build(e))
                    },
                }
            },
            OpInstance::MulDivBack(_) => Err(GradientError::Unimplemented),
        }
    }
}

/// Build the backward subgraph for one target: seed the target's gradient
/// accumulator with ones, visit every instance that transitively produces
/// the target in reverse dependency order, and hand back the accumulator
/// of each requested node (zero-filled where nothing flows). The original
/// nodes are untouched; the graph only grows.
pub fn build_grad(g: Graph, target: NodeID, wrt: &Vec<NodeID>) -> (r: Result<
    (Graph, Vec<NodeID>),
    GradientError,
>)
    requires
        g.wf(),
        forall|k: int| 0 <= k < wrt@.len() ==> (#[trigger] wrt@[k]) < g.nodes_v().len(),
    ensures
        r matches Ok(out) ==> {
            &&& out.0.wf()
            &&& g.nodes_v().len() <= out.0.nodes_v().len()
            &&& forall|j: int|
                0 <= j < g.nodes_v().len() ==> out.0.nodes_v()[j] == g.nodes_v()[j]
            &&& g.nodes_v().len() < out.0.nodes_v().len()
            &&& out.0.nodes_v()[g.nodes_v().len() as int] == (NodeV {
                name: Seq::empty(),
                shape: g.nodes_v()[target as int].shape,
                fill: Some(Rat { n: 1, d: 1 }),
                value: None,
            })
            &&& g.ops@.len() <= out.0.ops@.len()
            &&& forall|j: int| 0 <= j < g.ops@.len() ==> out.0.ops@[j] == g.ops@[j]
            &&& forall|j: int|
                g.ops@.len() <= j < out.0.ops@.len() ==> (#[trigger] out.0.ops@[j]) is MinBack
                    || out.0.ops@[j] is MulDivBack
            &&& out.1@.len() == wrt@.len()
            &&& forall|k: int|
                0 <= k < wrt@.len() ==> (#[trigger] out.1@[k]) < out.0.nodes_v().len()
                    && out.0.nodes_v()[out.1@[k] as int].shape
                    == out.0.nodes_v()[wrt@[k] as int].shape
        },
        r matches Err(e) ==> {
            &&& (e is NodeNotInGraph ==> e == GradientError::NodeNotInGraph(target) && target
                >= g.nodes_v().len())
            &&& (e is Cycle ==> !exists|ord: Seq<usize>| crate::engine::valid_order(g.ops@, ord))
            &&& (e is Unimplemented ==> exists|j: int|
                0 <= j < g.ops@.len() && ((#[trigger] g.ops@[j]) is MinBack || g.ops@[j]
                    is MulDivBack))
            &&& (e is NodeNotInGraph || e is Cycle || e is Unimplemented)
        },
        (target < g.nodes_v().len() && (exists|ord: Seq<usize>|
            crate::engine::valid_order(g.ops@, ord)) && (forall|j: int|
            0 <= j < g.ops@.len() ==> (#[trigger] g.ops@[j]) is Min || g.ops@[j] is MulDiv))
            ==> r is Ok,
{
    let ghost n0: int = g.nodes_v().len() as int;
    let n = g.node_count();
    if target >= n {
        return Err(GradientError::NodeNotInGraph(target));
    }
    let ord = match crate::engine::topo_order(&g.ops) {
        Ok(o) => o,
        Err(_) => {
            return Err(GradientError::Cycle);
        },
    };
    let m = g.op_count();
    let mut needed: Vec<bool> = Vec::new();
    let mut i: usize = 0;
    while i < n
        invariant
            i <= n,
            needed@.len() == i,
        decreases n - i,
    {
        needed.push(i == target);
        i = i + 1;
    }
    let mut included: Vec<bool> = Vec::new();
    let mut i2: usize = 0;
    while i2 < m
        invariant
            i2 <= m,
            included@.len() == i2,
        decreases m - i2,
    {
        included.push(false);
        i2 = i2 + 1;
    }
    let mut round: usize = 0;
    while round < m
        invariant
            g.wf(),
            n == g.nodes_v().len(),
            m == g.ops@.len(),
            needed@.len() == n,
            included@.len() == m,
        decreases m - round,
    {
        let mut k: usize = 0;
        while k < m
            invariant
                g.wf(),
                n == g.nodes_v().len(),
                m == g.ops@.len(),
                needed@.len() == n,
                included@.len() == m,
            decreases m - k,
        {
            let inst = g.ops[k];
            proof {
                assert(g.ops@[k as int].wf(g.nodes@.len() as int));
            }
            let outs = inst.outputs_vec();
            let mut any = false;
            let mut a: usize = 0;
            while a < outs.len()
                invariant
                    n == g.nodes_v().len(),
                    needed@.len() == n,
                    outs@ == inst.output_ids(),
                    inst.wf(n as int),
                decreases outs@.len() - a,
            {
                proof {
                    assert(inst.output_ids()[a as int] < n);
                }
                if needed[outs[a]] {
                    any = true;
                }
                a = a + 1;
            }
            if any {
                included.set(k, true);
                let ins = inst.inputs_vec();
                let mut b: usize = 0;
                while b < ins.len()
                    invariant
                        n == g.nodes_v().len(),
                        needed@.len() == n,
                        ins@ == inst.input_ids(),
                        inst.wf(n as int),
                    decreases ins@.len() - b,
                {
                    proof {
                        assert(inst.input_ids()[b as int] < n);
                    }
                    needed.set(ins[b], true);
                    b = b + 1;
                }
            }
            k = k + 1;
        }
        round = round + 1;
    }
    let mut grad: Vec<Option<NodeID>> = Vec::new();
    let mut i3: usize = 0;
    while i3 < n
        invariant
            i3 <= n,
            grad@.len() == i3,
            forall|j: int| 0 <= j < i3 ==> (#[trigger] grad@[j]) is None,
        decreases n - i3,
    {
        grad.push(None);
        i3 = i3 + 1;
    }
    let mut ctx = GradientContext { graph: g, grad };
    let tg = ctx.grad_of(target, Ghost(n0));
    ctx.graph.set_fill(tg, Rat::whole(1));
    proof {
        assert(ctx.wf(n0));
        assert(ctx.graph.nodes_v()[n0] == (NodeV {
            name: Seq::empty(),
            shape: g.nodes_v()[target as int].shape,
            fill: Some(Rat { n: 1, d: 1 }),
            value: None,
        }));
    }
    let ghost nodes0 = ctx.graph.nodes_v();
    proof {
        assert(forall|j: int| 0 <= j < n0 ==> nodes0[j] == g.nodes_v()[j]);
    }
    let mut k2: usize = ord.len();
    while k2 > 0
        invariant
            k2 <= ord@.len(),
            ord@.len() == m,
            m == g.ops@.len(),
            g.wf(),
            n0 == g.nodes_v().len(),
            ctx.wf(n0),
            included@.len() == m,
            m <= ctx.graph.ops@.len(),
            forall|j: int| 0 <= j < m ==> ctx.graph.ops@[j] == g.ops@[j],
            forall|j: int|
                m <= j < ctx.graph.ops@.len() ==> (#[trigger] ctx.graph.ops@[j]) is MinBack
                    || ctx.graph.ops@[j] is MulDivBack,
            forall|k: int| 0 <= k < ord@.len() ==> (#[trigger] ord@[k]) < m,
            nodes0.len() <= ctx.graph.nodes_v().len(),
            forall|j: int| 0 <= j < nodes0.len() ==> ctx.graph.nodes_v()[j] == nodes0[j],
        decreases k2,
    {
        k2 = k2 - 1;
        let idx = ord[k2];
        if included[idx] {
            let inst = ctx.graph.ops[idx];
            proof {
                assert(ctx.graph.ops@[idx as int] == g.ops@[idx as int]);
                assert(g.ops@[idx as int].wf(g.nodes@.len() as int));
            }
            match inst.gradient(&mut ctx, Ghost(n0)) {
                Ok(()) => {},
                Err(e) => {
                    proof {
                        assert(g.ops@[idx as int] is MinBack || g.ops@[idx as int]
                            is MulDivBack);
                    }
                    return Err(e);
                },
            }
        }
    }
    proof {
        assert forall|j: int| 0 <= j < n0 implies ctx.graph.nodes_v()[j] == g.nodes_v()[j] by {
            assert(ctx.graph.nodes_v()[j] == nodes0[j]);
        }
        assert(ctx.graph.nodes_v()[n0] == nodes0[n0]);
    }
    let mut grads: Vec<NodeID> = Vec::new();
    let mut w: usize = 0;
    while w < wrt.len()
        invariant
            w <= wrt@.len(),
            ctx.wf(n0),
            n0 == g.nodes_v().len(),
            m == g.ops@.len(),
            m <= ctx.graph.ops@.len(),
            forall|j: int| 0 <= j < m ==> ctx.graph.ops@[j] == g.ops@[j],
            forall|j: int|
                m <= j < ctx.graph.ops@.len() ==> (#[trigger] ctx.graph.ops@[j]) is MinBack
                    || ctx.graph.ops@[j] is MulDivBack,
            forall|j: int| 0 <= j < n0 ==> ctx.graph.nodes_v()[j] == g.nodes_v()[j],
            n0 < ctx.graph.nodes_v().len(),
            ctx.graph.nodes_v()[n0] == (NodeV {
                name: Seq::empty(),
                shape: g.nodes_v()[target as int].shape,
                fill: Some(Rat { n: 1, d: 1 }),
                value: None,
            }),
            forall|k: int| 0 <= k < wrt@.len() ==> (#[trigger] wrt@[k]) < n0,
            grads@.len() == w,
            forall|k: int|
                0 <= k < w ==> (#[trigger] grads@[k]) < ctx.graph.nodes_v().len()
                    && ctx.graph.nodes_v()[grads@[k] as int].shape
                    == ctx.graph.nodes_v()[wrt@[k] as int].shape,
        decreases wrt@.len() - w,
    {
        let gid = ctx.grad_of(wrt[w], Ghost(n0));
        grads.push(gid);
        w = w + 1;
    }
    Ok((ctx.graph, grads))
}

} // verus!
