//! The operator abstraction: the Specification/Instance split.
//!
//! A Specification (`Min`, `MinBack`, `MulDiv`, `MulDivBack`) is a mutable,
//! cloneable description of one operator. `build` validates it against the
//! owning graph and lowers it — copying node identities and scalar
//! configuration only — into an immutable Instance appended to the graph's
//! instance list; a failed build registers nothing. An Instance can
//! reconstruct an equivalent Specification for introspection.
use crate::errors::OpBuildError;
use crate::graph::{Graph, NodeID, NodeV};
use crate::outside::{
    append_str, id_map_get, id_map_v, id_set_insert, id_set_new, id_set_seq,
};
use crate::rational::{le_v, min_v, Rat};
use vstd::prelude::*;

verus! {

/// The elementwise minimum, lowered: `output[i] += min(input1[i], input2[i])`.
#[derive(Clone, Copy, Debug, PartialEq, Eq, Structural)]
pub struct MinInstance {
    pub input1: NodeID,
    pub input2: NodeID,
    pub output: NodeID,
}

/// The backward operator of the minimum, lowered. `input3` is the gradient
/// of the minimum's output; the operator accumulates into the gradient of
/// `input1`, routing zero wherever `input1` is not strictly the smaller.
#[derive(Clone, Copy, Debug, PartialEq, Eq, Structural)]
pub struct MinBackInstance {
    pub input1: NodeID,
    pub input2: NodeID,
    pub input3: NodeID,
    pub output: NodeID,
}

/// The complex multiply/divide activation, lowered.
#[derive(Clone, Copy, Debug, PartialEq, Eq, Structural)]
pub struct MulDivInstance {
    pub input: NodeID,
    pub output: NodeID,
    pub epsilon: Rat,
}

/// The backward operator of the complex multiply/divide activation,
/// lowered: the combined adjoint of both the multiplication and the
/// regularized division, accumulated into the input's gradient.
#[derive(Clone, Copy, Debug, PartialEq, Eq, Structural)]
pub struct MulDivBackInstance {
    pub input: NodeID,
    pub input_grad: NodeID,
    pub output_grad: NodeID,
    pub epsilon: Rat,
}

/// The closed set of executable, differentiable operator instances.
#[derive(Clone, Copy, Debug, PartialEq, Eq, Structural)]
pub enum OpInstance {
    Min(MinInstance),
    MinBack(MinBackInstance),
    MulDiv(MulDivInstance),
    MulDivBack(MulDivBackInstance),
}

impl OpInstance {
    /// The instance's declared inputs, in declaration order.
    pub open spec fn input_ids(self) -> Seq<NodeID> {
        match self {
            OpInstance::Min(i) => seq![i.input1, i.input2],
            OpInstance::MinBack(i) => seq![i.input1, i.input2, i.input3],
            OpInstance::MulDiv(i) => seq![i.input],
            OpInstance::MulDivBack(i) => seq![i.input, i.output_grad],
        }
    }

    /// The instance's declared outputs.
    pub open spec fn output_ids(self) -> Seq<NodeID> {
        match self {
            OpInstance::Min(i) => seq![i.output],
            OpInstance::MinBack(i) => seq![i.output],
            OpInstance::MulDiv(i) => seq![i.output],
            OpInstance::MulDivBack(i) => seq![i.input_grad],
        }
    }

    /// Every declared node identity lies under `n`, and the scalar
    /// configuration is well-formed.
    pub open spec fn wf(self, n: int) -> bool {
        &&& forall|k: int| 0 <= k < self.input_ids().len() ==> self.input_ids()[k] < n
        &&& forall|k: int| 0 <= k < self.output_ids().len() ==> self.output_ids()[k] < n
        &&& (self matches OpInstance::MulDiv(i) ==> i.epsilon.wf())
        &&& (self matches OpInstance::MulDivBack(i) ==> i.epsilon.wf())
    }

    /// The instance with every node identity grown by `off`.
    pub open spec fn shift_v(self, off: int) -> OpInstance {
        match self {
            OpInstance::Min(i) => OpInstance::Min(
                MinInstance {
                    input1: (i.input1 + off) as usize,
                    input2: (i.input2 + off) as usize,
                    output: (i.output + off) as usize,
                },
            ),
            OpInstance::MinBack(i) => OpInstance::MinBack(
                MinBackInstance {
                    input1: (i.input1 + off) as usize,
                    input2: (i.input2 + off) as usize,
                    input3: (i.input3 + off) as usize,
                    output: (i.output + off) as usize,
                },
            ),
            OpInstance::MulDiv(i) => OpInstance::MulDiv(
                MulDivInstance {
                    input: (i.input + off) as usize,
                    output: (i.output + off) as usize,
                    epsilon: i.epsilon,
                },
            ),
            OpInstance::MulDivBack(i) => OpInstance::MulDivBack(
                MulDivBackInstance {
                    input: (i.input + off) as usize,
                    input_grad: (i.input_grad + off) as usize,
                    output_grad: (i.output_grad + off) as usize,
                    epsilon: i.epsilon,
                },
            ),
        }
    }

    /// Renumber every node identity by a fixed offset (used by graph
    /// merging).
    pub fn shift(self, off: usize) -> (r: OpInstance)
        requires
            exists|n: int| self.wf(n) && n + off <= usize::MAX + 1,
        ensures
            r == self.shift_v(off as int),
    {
        proof {
            let n = choose|n: int| self.wf(n) && n + off <= usize::MAX + 1;
            assert(self.wf(n));
            match self {
                OpInstance::Min(i) => {
                    assert(self.input_ids()[0] == i.input1);
                    assert(self.input_ids()[1] == i.input2);
                    assert(self.output_ids()[0] == i.output);
                },
                OpInstance::MinBack(i) => {
                    assert(self.input_ids()[0] == i.input1);
                    assert(self.input_ids()[1] == i.input2);
                    assert(self.input_ids()[2] == i.input3);
                    assert(self.output_ids()[0] == i.output);
                },
                OpInstance::MulDiv(i) => {
                    assert(self.input_ids()[0] == i.input);
                    assert(self.output_ids()[0] == i.output);
                },
                OpInstance::MulDivBack(i) => {
                    assert(self.input_ids()[0] == i.input);
                    assert(self.input_ids()[1] == i.output_grad);
                    assert(self.output_ids()[0] == i.input_grad);
                },
            }
        }
        match self {
            OpInstance::Min(i) => OpInstance::Min(
                MinInstance {
                    input1: i.input1 + off,
                    input2: i.input2 + off,
                    output: i.output + off,
                },
            ),
            OpInstance::MinBack(i) => OpInstance::MinBack(
                MinBackInstance {
                    input1: i.input1 + off,
                    input2: i.input2 + off,
                    input3: i.input3 + off,
                    output: i.output + off,
                },
            ),
            OpInstance::MulDiv(i) => OpInstance::MulDiv(
                MulDivInstance { input: i.input + off, output: i.output + off, epsilon: i.epsilon },
            ),
            OpInstance::MulDivBack(i) => OpInstance::MulDivBack(
                MulDivBackInstance {
                    input: i.input + off,
                    input_grad: i.input_grad + off,
                    output_grad: i.output_grad + off,
                    epsilon: i.epsilon,
                },
            ),
        }
    }

    /// The declared inputs as a vector, in declaration order.
    pub fn inputs_vec(&self) -> (r: Vec<NodeID>)
        ensures
            r@ == self.input_ids(),
    {
        match self {
            OpInstance::Min(i) => {
                let v = vec![i.input1, i.input2];
                proof {
                    assert(v@ =~= self.input_ids());
                }
                v
            },
            OpInstance::MinBack(i) => {
                let v = vec![i.input1, i.input2, i.input3];
                proof {
                    assert(v@ =~= self.input_ids());
                }
                v
            },
            OpInstance::MulDiv(i) => {
                let v = vec![i.input];
                proof {
                    assert(v@ =~= self.input_ids());
                }
                v
            },
            OpInstance::MulDivBack(i) => {
                let v = vec![i.input, i.output_grad];
                proof {
                    assert(v@ =~= self.input_ids());
                }
                v
            },
        }
    }

    /// The declared outputs as a vector.
    pub fn outputs_vec(&self) -> (r: Vec<NodeID>)
        ensures
            r@ == self.output_ids(),
    {
        let v = match self {
            OpInstance::Min(i) => vec![i.output],
            OpInstance::MinBack(i) => vec![i.output],
            OpInstance::MulDiv(i) => vec![i.output],
            OpInstance::MulDivBack(i) => vec![i.input_grad],
        };
        proof {
            assert(v@ =~= self.output_ids());
        }
        v
    }

    /// The operator's name, for diagnostics.
    pub fn op_name(&self) -> (r: &'static str)
        ensures
            self is Min ==> r@ == "Min"@,
            self is MinBack ==> r@ == "MinBack"@,
            self is MulDiv ==> r@ == "MulDiv"@,
            self is MulDivBack ==> r@ == "MulDivBack"@,
    {
        match self {
            OpInstance::Min(_) => "Min",
            OpInstance::MinBack(_) => "MinBack",
            OpInstance::MulDiv(_) => "MulDiv",
            OpInstance::MulDivBack(_) => "MulDivBack",
        }
    }
}

/// A shifted instance is well-formed for the grown arena.
pub proof fn lemma_shift_wf(inst: OpInstance, off: int, n: int)
    requires
        inst.wf(n),
        0 <= off,
        n + off <= usize::MAX + 1,
    ensures
        inst.shift_v(off).wf(n + off),
{
    let r = inst.shift_v(off);
    match inst {
        OpInstance::Min(i) => {
            assert(inst.input_ids()[0] == i.input1);
            assert(inst.input_ids()[1] == i.input2);
            assert(inst.output_ids()[0] == i.output);
            assert forall|k: int| 0 <= k < r.input_ids().len() implies r.input_ids()[k] < n + off by {}
            assert forall|k: int| 0 <= k < r.output_ids().len() implies r.output_ids()[k] < n + off by {}
        },
        OpInstance::MinBack(i) => {
            assert(inst.input_ids()[0] == i.input1);
            assert(inst.input_ids()[1] == i.input2);
            assert(inst.input_ids()[2] == i.input3);
            assert(inst.output_ids()[0] == i.output);
            assert forall|k: int| 0 <= k < r.input_ids().len() implies r.input_ids()[k] < n + off by {}
            assert forall|k: int| 0 <= k < r.output_ids().len() implies r.output_ids()[k] < n + off by {}
        },
        OpInstance::MulDiv(i) => {
            assert(inst.input_ids()[0] == i.input);
            assert(inst.output_ids()[0] == i.output);
            assert forall|k: int| 0 <= k < r.input_ids().len() implies r.input_ids()[k] < n + off by {}
            assert forall|k: int| 0 <= k < r.output_ids().len() implies r.output_ids()[k] < n + off by {}
        },
        OpInstance::MulDivBack(i) => {
            assert(inst.input_ids()[0] == i.input);
            assert(inst.input_ids()[1] == i.output_grad);
            assert(inst.output_ids()[0] == i.input_grad);
            assert forall|k: int| 0 <= k < r.input_ids().len() implies r.input_ids()[k] < n + off by {}
            assert forall|k: int| 0 <= k < r.output_ids().len() implies r.output_ids()[k] < n + off by {}
        },
    }
}

/// A declared node set, as the `indexmap` set the interface hands out.
fn ids_to_set(ids: &Vec<NodeID>) -> (r: indexmap::IndexSet<NodeID>)
    ensures
        id_set_seq(r) == distinct_seq(ids@),
{
    let mut s = id_set_new();
    proof {
        assert(ids@.take(0) =~= Seq::<usize>::empty());
    }
    let mut i: usize = 0;
    while i < ids.len()
        invariant
            i <= ids@.len(),
            id_set_seq(s) == distinct_seq(ids@.take(i as int)),
        decreases ids@.len() - i,
    {
        proof {
            assert(ids@.take(i + 1).drop_last() =~= ids@.take(i as int));
            assert(ids@.take(i + 1).last() == ids@[i as int]);
        }
        id_set_insert(&mut s, ids[i]);
        i = i + 1;
    }
    proof {
        assert(ids@.take(ids@.len() as int) =~= ids@);
    }
    s
}

/// A sequence with later duplicates dropped: what insertion into an
/// insertion-ordered set leaves.
pub open spec fn distinct_seq(ids: Seq<NodeID>) -> Seq<NodeID>
    decreases ids.len(),
{
    if ids.len() == 0 {
        Seq::empty()
    } else {
        let init = distinct_seq(ids.drop_last());
        if init.contains(ids.last()) {
            init
        } else {
            init.push(ids.last())
        }
    }
}

/// The remapped identity: what a mapping sends `id` to, or `id` itself.
pub open spec fn remap_v(m: Map<usize, usize>, id: NodeID) -> NodeID {
    if m.contains_key(id) {
        m[id]
    } else {
        id
    }
}

/// Look an identity up in a node mapping, keeping it when absent.
fn remap(m: &indexmap::IndexMap<NodeID, NodeID>, id: NodeID) -> (r: NodeID)
    ensures
        r == remap_v(id_map_v(*m), id),
{
    match id_map_get(m, id) {
        Some(v) => v,
        None => id,
    }
}

/// Append a validated instance, or return exactly which identity is not
/// owned by the graph; on failure the graph is untouched.
fn register(g: &mut Graph, inst: OpInstance) -> (r: Result<usize, OpBuildError>)
    requires
        old(g).wf(),
        (inst matches OpInstance::MulDiv(i) ==> i.epsilon.wf()),
        (inst matches OpInstance::MulDivBack(i) ==> i.epsilon.wf()),
    ensures
        final(g).wf(),
        final(g).nodes_v() == old(g).nodes_v(),
        r matches Ok(k) ==> {
            &&& inst.wf(old(g).nodes_v().len() as int)
            &&& k == old(g).ops@.len()
            &&& final(g).ops@ == old(g).ops@.push(inst)
        },
        r matches Err(e) ==> {
            &&& final(g).ops@ == old(g).ops@
            &&& e matches OpBuildError::NodeNotInGraph(id) && id
                >= old(g).nodes_v().len() && (inst.input_ids().contains(id)
                || inst.output_ids().contains(id))
        },
        r is Ok <==> inst.wf(old(g).nodes_v().len() as int),
{
    let n = g.node_count();
    let ins = inst.inputs_vec();
    let mut i: usize = 0;
    while i < ins.len()
        invariant
            i <= ins@.len(),
            ins@ == inst.input_ids(),
            n == g.nodes_v().len(),
            *g == *old(g),
            old(g).wf(),
            forall|k: int| 0 <= k < i ==> ins@[k] < n,
        decreases ins@.len() - i,
    {
        if ins[i] >= n {
            proof {
                assert(inst.input_ids().contains(ins@[i as int]));
                assert(!inst.wf(n as int));
            }
            return Err(OpBuildError::NodeNotInGraph(ins[i]));
        }
        i = i + 1;
    }
    let outs = inst.outputs_vec();
    let mut j: usize = 0;
    while j < outs.len()
        invariant
            j <= outs@.len(),
            outs@ == inst.output_ids(),
            n == g.nodes_v().len(),
            *g == *old(g),
            old(g).wf(),
            forall|k: int| 0 <= k < j ==> outs@[k] < n,
        decreases outs@.len() - j,
    {
        if outs[j] >= n {
            proof {
                assert(inst.output_ids().contains(outs@[j as int]));
                assert(!inst.wf(n as int));
            }
            return Err(OpBuildError::NodeNotInGraph(outs[j]));
        }
        j = j + 1;
    }
    proof {
        assert(inst.wf(n as int));
    }
    let k = g.ops.len();
    g.ops.push(inst);
    Ok(k)
}

/// The user-facing description of one elementwise-minimum operator.
#[derive(Clone, Copy, Debug, PartialEq, Eq, Structural)]
pub struct Min {
    pub input1: NodeID,
    pub input2: NodeID,
    pub output: NodeID,
}

impl Min {
    /// The instance this specification lowers to.
    pub open spec fn lower(self) -> OpInstance {
        OpInstance::Min(
            MinInstance { input1: self.input1, input2: self.input2, output: self.output },
        )
    }

    /// A minimum of two nodes, written into a third.
    pub fn new_default(input1: NodeID, input2: NodeID, output: NodeID) -> (r: Min)
        ensures
            r == (Min { input1, input2, output }),
    {
        Min { input1, input2, output }
    }

    /// The operator's name, for diagnostics.
    pub fn op_name(&self) -> (r: &'static str)
        ensures
            r@ == "Min"@,
    {
        "Min"
    }

    /// The declared input nodes.
    pub fn inputs(&self) -> (r: indexmap::IndexSet<NodeID>)
        ensures
            id_set_seq(r) == distinct_seq(seq![self.input1, self.input2]),
    {
        let v = vec![self.input1, self.input2];
        proof {
            assert(v@ =~= seq![self.input1, self.input2]);
        }
        ids_to_set(&v)
    }

    /// The declared output nodes.
    pub fn outputs(&self) -> (r: indexmap::IndexSet<NodeID>)
        ensures
            id_set_seq(r) == distinct_seq(seq![self.output]),
    {
        let v = vec![self.output];
        proof {
            assert(v@ =~= seq![self.output]);
        }
        ids_to_set(&v)
    }

    /// The same specification over remapped nodes (for cloning a subgraph
    /// onto different nodes).
    pub fn clone_with_nodes_changed(&self, mapping: &indexmap::IndexMap<NodeID, NodeID>) -> (r:
        Min)
        ensures
            r == (Min {
                input1: remap_v(id_map_v(*mapping), self.input1),
                input2: remap_v(id_map_v(*mapping), self.input2),
                output: remap_v(id_map_v(*mapping), self.output),
            }),
    {
        Min {
            input1: remap(mapping, self.input1),
            input2: remap(mapping, self.input2),
            output: remap(mapping, self.output),
        }
    }

    /// Validate and lower into the graph: on success the instance is
    /// appended, on failure nothing is registered.
    pub fn build(self, g: &mut Graph) -> (r: Result<usize, OpBuildError>)
        requires
            old(g).wf(),
        ensures
            final(g).wf(),
            final(g).nodes_v() == old(g).nodes_v(),
            r is Ok <==> self.lower().wf(old(g).nodes_v().len() as int),
            r matches Ok(k) ==> k == old(g).ops@.len() && final(g).ops@ == old(g).ops@.push(
                self.lower(),
            ),
            r is Err ==> final(g).ops@ == old(g).ops@,
    {
        register(g, OpInstance::Min(MinInstance {
            input1: self.input1,
            input2: self.input2,
            output: self.output,
        }))
    }
}

/// The user-facing description of one minimum-backward operator.
/// `input1`, `input2` are the minimum's inputs, `input3` the gradient of
/// its output; the operator accumulates `input1`'s gradient.
#[derive(Clone, Copy, Debug, PartialEq, Eq, Structural)]
pub struct MinBack {
    pub input1: NodeID,
    pub input2: NodeID,
    pub input3: NodeID,
    pub output: NodeID,
}

impl MinBack {
    /// The instance this specification lowers to.
    pub open spec fn lower(self) -> OpInstance {
        OpInstance::MinBack(
            MinBackInstance {
                input1: self.input1,
                input2: self.input2,
                input3: self.input3,
                output: self.output,
            },
        )
    }

    /// A backward minimum over the given nodes.
    pub fn new_default(input1: NodeID, input2: NodeID, input3: NodeID, output: NodeID) -> (r:
        MinBack)
        ensures
            r == (MinBack { input1, input2, input3, output }),
    {
        MinBack { input1, input2, input3, output }
    }

    /// The operator's name, for diagnostics.
    pub fn op_name(&self) -> (r: &'static str)
        ensures
            r@ == "MinBack"@,
    {
        "MinBack"
    }

    /// The declared input nodes.
    pub fn inputs(&self) -> (r: indexmap::IndexSet<NodeID>)
        ensures
            id_set_seq(r) == distinct_seq(seq![self.input1, self.input2, self.input3]),
    {
        let v = vec![self.input1, self.input2, self.input3];
        proof {
            assert(v@ =~= seq![self.input1, self.input2, self.input3]);
        }
        ids_to_set(&v)
    }

    /// The declared output nodes.
    pub fn outputs(&self) -> (r: indexmap::IndexSet<NodeID>)
        ensures
            id_set_seq(r) == distinct_seq(seq![self.output]),
    {
        let v = vec![self.output];
        proof {
            assert(v@ =~= seq![self.output]);
        }
        ids_to_set(&v)
    }

    /// The same specification over remapped nodes.
    pub fn clone_with_nodes_changed(&self, mapping: &indexmap::IndexMap<NodeID, NodeID>) -> (r:
        MinBack)
        ensures
            r == (MinBack {
                input1: remap_v(id_map_v(*mapping), self.input1),
                input2: remap_v(id_map_v(*mapping), self.input2),
                input3: remap_v(id_map_v(*mapping), self.input3),
                output: remap_v(id_map_v(*mapping), self.output),
            }),
    {
        MinBack {
            input1: remap(mapping, self.input1),
            input2: remap(mapping, self.input2),
            input3: remap(mapping, self.input3),
            output: remap(mapping, self.output),
        }
    }

    /// Validate and lower into the graph.
    pub fn build(self, g: &mut Graph) -> (r: Result<usize, OpBuildError>)
        requires
            old(g).wf(),
        ensures
            final(g).wf(),
            final(g).nodes_v() == old(g).nodes_v(),
            r is Ok <==> self.lower().wf(old(g).nodes_v().len() as int),
            r matches Ok(k) ==> k == old(g).ops@.len() && final(g).ops@ == old(g).ops@.push(
                self.lower(),
            ),
            r is Err ==> final(g).ops@ == old(g).ops@,
    {
        register(g, OpInstance::MinBack(MinBackInstance {
            input1: self.input1,
            input2: self.input2,
            input3: self.input3,
            output: self.output,
        }))
    }
}

/// The scalar contract of the minimum: `calc(x1, x2) = min(x1, x2)`.
#[derive(Clone, Copy, Debug, Default, PartialEq, Eq, Structural)]
pub struct MinFunc {}

impl MinFunc {
    /// The elementwise forward computation.
    pub fn calc(&self, input1: Rat, input2: Rat) -> (r: Option<Rat>)
        requires
            input1.wf(),
            input2.wf(),
        ensures
            r == min_v(input1, input2),
            r matches Some(c) ==> c.wf(),
    {
        input1.min_with(input2)
    }

    /// The operator's name, for diagnostics.
    pub fn op_name(&self) -> (r: &'static str)
        ensures
            r@ == "Min"@,
    {
        "Min"
    }
}

/// The gradient the backward minimum routes to its first input's slot:
/// the output gradient where `x1` is strictly the smaller, else zero —
/// ties route zero to both sides.
pub open spec fn min_back_v(x1: Rat, x2: Rat, g: Rat) -> Option<Rat> {
    match le_v(x2, x1) {
        Some(t) => Some(
            if t {
                Rat::spec_zero()
            } else {
                g
            },
        ),
        None => None,
    }
}

/// The scalar contract of the backward minimum: the output gradient where
/// `input1 < input2` strictly, else zero.
#[derive(Clone, Copy, Debug, Default, PartialEq, Eq, Structural)]
pub struct MinBackFunc {}

impl MinBackFunc {
    /// The elementwise backward computation for `input1`'s slot.
    pub fn calc(&self, input1: Rat, input2: Rat, input3: Rat) -> (r: Option<Rat>)
        requires
            input1.wf(),
            input2.wf(),
            input3.wf(),
        ensures
            r == min_back_v(input1, input2, input3),
            r matches Some(c) ==> c.wf(),
    {
        match input2.le(input1) {
            Some(t) => if t {
                Some(Rat::zero())
            } else {
                Some(input3)
            },
            None => None,
        }
    }

    /// The operator's name, for diagnostics.
    pub fn op_name(&self) -> (r: &'static str)
        ensures
            r@ == "MinBack"@,
    {
        "MinBack"
    }
}

/// The gradient the backward minimum routes to an input that is at least
/// as large as the other is exactly zero: on a tie, both slots get zero.
pub proof fn lemma_min_back_larger_gets_zero(x1: Rat, x2: Rat, g: Rat)
    requires
        x1.wf(),
        x2.wf(),
        x2.spec_le(x1),
        min_back_v(x1, x2, g) is Some,
    ensures
        min_back_v(x1, x2, g) == Some(Rat::spec_zero()),
{
}

/// The user-facing description of one complex multiply/divide activation.
#[derive(Clone, Copy, Debug, PartialEq, Eq, Structural)]
pub struct MulDiv {
    pub input: NodeID,
    pub output: NodeID,
    pub epsilon: Rat,
}

/// The default division-stabilizing epsilon, one tenth.
pub open spec fn default_epsilon() -> Rat {
    Rat { n: 1, d: 10 }
}

impl MulDiv {
    /// The instance this specification lowers to.
    pub open spec fn lower(self) -> OpInstance {
        OpInstance::MulDiv(
            MulDivInstance { input: self.input, output: self.output, epsilon: self.epsilon },
        )
    }

    /// An activation from one node into another, with the default epsilon.
    pub fn new(input: NodeID, output: NodeID) -> (r: MulDiv)
        ensures
            r == (MulDiv { input, output, epsilon: default_epsilon() }),
            r.epsilon.wf(),
    {
        MulDiv { input, output, epsilon: Rat { n: 1, d: 10 } }
    }

    /// Replace the epsilon regularizing the divisor.
    pub fn epsilon(self, epsilon: Rat) -> (r: MulDiv)
        requires
            epsilon.wf(),
        ensures
            r == (MulDiv { epsilon, ..self }),
            r.epsilon.wf(),
    {
        MulDiv { epsilon, ..self }
    }

    /// The operator's name, for diagnostics.
    pub fn op_name(&self) -> (r: &'static str)
        ensures
            r@ == "MulDiv"@,
    {
        "MulDiv"
    }

    /// The declared input nodes.
    pub fn inputs(&self) -> (r: indexmap::IndexSet<NodeID>)
        ensures
            id_set_seq(r) == distinct_seq(seq![self.input]),
    {
        let v = vec![self.input];
        proof {
            assert(v@ =~= seq![self.input]);
        }
        ids_to_set(&v)
    }

    /// The declared output nodes.
    pub fn outputs(&self) -> (r: indexmap::IndexSet<NodeID>)
        ensures
            id_set_seq(r) == distinct_seq(seq![self.output]),
    {
        let v = vec![self.output];
        proof {
            assert(v@ =~= seq![self.output]);
        }
        ids_to_set(&v)
    }

    /// The same specification over remapped nodes.
    pub fn clone_with_nodes_changed(&self, mapping: &indexmap::IndexMap<NodeID, NodeID>) -> (r:
        MulDiv)
        ensures
            r == (MulDiv {
                input: remap_v(id_map_v(*mapping), self.input),
                output: remap_v(id_map_v(*mapping), self.output),
                epsilon: self.epsilon,
            }),
    {
        MulDiv {
            input: remap(mapping, self.input),
            output: remap(mapping, self.output),
            epsilon: self.epsilon,
        }
    }

    /// Lower into the instance form: node identities and scalar
    /// configuration are copied, nothing else.
    pub fn build_instance(self) -> (r: Result<MulDivInstance, OpBuildError>)
        ensures
            r == Ok::<MulDivInstance, OpBuildError>(
                (MulDivInstance { input: self.input, output: self.output, epsilon: self.epsilon }),
            ),
    {
        Ok(MulDivInstance { input: self.input, output: self.output, epsilon: self.epsilon })
    }

    /// Validate and lower into the graph.
    pub fn build(self, g: &mut Graph) -> (r: Result<usize, OpBuildError>)
        requires
            old(g).wf(),
            self.epsilon.wf(),
        ensures
            final(g).wf(),
            final(g).nodes_v() == old(g).nodes_v(),
            r is Ok <==> self.lower().wf(old(g).nodes_v().len() as int),
            r matches Ok(k) ==> k == old(g).ops@.len() && final(g).ops@ == old(g).ops@.push(
                self.lower(),
            ),
            r is Err ==> final(g).ops@ == old(g).ops@,
    {
        register(g, OpInstance::MulDiv(MulDivInstance {
            input: self.input,
            output: self.output,
            epsilon: self.epsilon,
        }))
    }
}

impl MulDivInstance {
    /// Reconstruct an equivalent specification for introspection or
    /// cloning.
    pub fn as_specification(&self) -> (r: MulDiv)
        ensures
            r == (MulDiv { input: self.input, output: self.output, epsilon: self.epsilon }),
    {
        MulDiv { input: self.input, output: self.output, epsilon: self.epsilon }
    }
}

/// The user-facing description of one backward complex multiply/divide
/// operator: reads the forward input and the output's gradient,
/// accumulates into the input's gradient.
#[derive(Clone, Copy, Debug, PartialEq, Eq, Structural)]
pub struct MulDivBack {
    pub input: NodeID,
    pub input_grad: NodeID,
    pub output_grad: NodeID,
    pub epsilon: Rat,
}

impl MulDivBack {
    /// The instance this specification lowers to.
    pub open spec fn lower(self) -> OpInstance {
        OpInstance::MulDivBack(
            MulDivBackInstance {
                input: self.input,
                input_grad: self.input_grad,
                output_grad: self.output_grad,
                epsilon: self.epsilon,
            },
        )
    }

    /// A backward activation over the given nodes, with the default
    /// epsilon.
    pub fn new(input: NodeID, input_grad: NodeID, output_grad: NodeID) -> (r: MulDivBack)
        ensures
            r == (MulDivBack { input, input_grad, output_grad, epsilon: default_epsilon() }),
            r.epsilon.wf(),
    {
        MulDivBack { input, input_grad, output_grad, epsilon: Rat { n: 1, d: 10 } }
    }

    /// Replace the epsilon regularizing the divisor.
    pub fn epsilon(self, epsilon: Rat) -> (r: MulDivBack)
        requires
            epsilon.wf(),
        ensures
            r == (MulDivBack { epsilon, ..self }),
            r.epsilon.wf(),
    {
        MulDivBack { epsilon, ..self }
    }

    /// The operator's name, for diagnostics.
    pub fn op_name(&self) -> (r: &'static str)
        ensures
            r@ == "MulDivBack"@,
    {
        "MulDivBack"
    }

    /// The declared input nodes: the forward input and the output's
    /// gradient.
    pub fn inputs(&self) -> (r: indexmap::IndexSet<NodeID>)
        ensures
            id_set_seq(r) == distinct_seq(seq![self.input, self.output_grad]),
    {
        let v = vec![self.input, self.output_grad];
        proof {
            assert(v@ =~= seq![self.input, self.output_grad]);
        }
        ids_to_set(&v)
    }

    /// The declared output nodes: the input's gradient accumulator.
    pub fn outputs(&self) -> (r: indexmap::IndexSet<NodeID>)
        ensures
            id_set_seq(r) == distinct_seq(seq![self.input_grad]),
    {
        let v = vec![self.input_grad];
        proof {
            assert(v@ =~= seq![self.input_grad]);
        }
        ids_to_set(&v)
    }

    /// The same specification over remapped nodes.
    pub fn clone_with_nodes_changed(&self, mapping: &indexmap::IndexMap<NodeID, NodeID>) -> (r:
        MulDivBack)
        ensures
            r == (MulDivBack {
                input: remap_v(id_map_v(*mapping), self.input),
                input_grad: remap_v(id_map_v(*mapping), self.input_grad),
                output_grad: remap_v(id_map_v(*mapping), self.output_grad),
                epsilon: self.epsilon,
            }),
    {
        MulDivBack {
            input: remap(mapping, self.input),
            input_grad: remap(mapping, self.input_grad),
            output_grad: remap(mapping, self.output_grad),
            epsilon: self.epsilon,
        }
    }

    /// Lower into the instance form.
    pub fn build_instance(self) -> (r: Result<MulDivBackInstance, OpBuildError>)
        ensures
            r == Ok::<MulDivBackInstance, OpBuildError>(
                (MulDivBackInstance {
                    input: self.input,
                    input_grad: self.input_grad,
                    output_grad: self.output_grad,
                    epsilon: self.epsilon,
                }),
            ),
    {
        Ok(MulDivBackInstance {
            input: self.input,
            input_grad: self.input_grad,
            output_grad: self.output_grad,
            epsilon: self.epsilon,
        })
    }

    /// Validate and lower into the graph.
    pub fn build(self, g: &mut Graph) -> (r: Result<usize, OpBuildError>)
        requires
            old(g).wf(),
            self.epsilon.wf(),
        ensures
            final(g).wf(),
            final(g).nodes_v() == old(g).nodes_v(),
            r is Ok <==> self.lower().wf(old(g).nodes_v().len() as int),
            r matches Ok(k) ==> k == old(g).ops@.len() && final(g).ops@ == old(g).ops@.push(
                self.lower(),
            ),
            r is Err ==> final(g).ops@ == old(g).ops@,
    {
        register(g, OpInstance::MulDivBack(MulDivBackInstance {
            input: self.input,
            input_grad: self.input_grad,
            output_grad: self.output_grad,
            epsilon: self.epsilon,
        }))
    }
}

impl MulDivBackInstance {
    /// Reconstruct an equivalent specification.
    pub fn as_specification(&self) -> (r: MulDivBack)
        ensures
            r == (MulDivBack {
                input: self.input,
                input_grad: self.input_grad,
                output_grad: self.output_grad,
                epsilon: self.epsilon,
            }),
    {
        MulDivBack {
            input: self.input,
            input_grad: self.input_grad,
            output_grad: self.output_grad,
            epsilon: self.epsilon,
        }
    }
}

/// Calculates the elementwise minimum of `input1` and `input2`.
///
/// A fresh output node of `input1`'s shape is appended and named after the
/// two inputs, and a minimum operator over the three is registered; the
/// output node's identity comes back. Fails exactly when an input does not
/// belong to the graph, and then changes nothing.
pub fn min(g: &mut Graph, input1: NodeID, input2: NodeID) -> (r: Result<NodeID, OpBuildError>)
    requires
        old(g).wf(),
    ensures
        final(g).wf(),
        r is Ok <==> (input1 < old(g).nodes_v().len() && input2 < old(g).nodes_v().len()),
        r matches Ok(out) ==> {
            &&& out == old(g).nodes_v().len()
            &&& final(g).nodes_v() == old(g).nodes_v().push(
                (NodeV {
                    name: "min("@ + old(g).nodes_v()[input1 as int].name + ","@ + old(
                        g,
                    ).nodes_v()[input2 as int].name + ")"@,
                    shape: old(g).nodes_v()[input1 as int].shape,
                    fill: None,
                    value: None,
                }),
            )
            &&& final(g).ops@ == old(g).ops@.push(
                (Min { input1, input2, output: out as usize }).lower(),
            )
        },
        r is Err ==> final(g).nodes_v() == old(g).nodes_v() && final(g).ops@ == old(g).ops@ && (r
            matches Err(e) && e is NodeNotInGraph),
{
    let n = g.node_count();
    if input1 >= n {
        return Err(OpBuildError::NodeNotInGraph(input1));
    }
    if input2 >= n {
        return Err(OpBuildError::NodeNotInGraph(input2));
    }
    let mut name = String::new();
    append_str(&mut name, "min(");
    let n1 = g.node_name(input1).as_str().to_owned();
    append_str(&mut name, n1.as_str());
    append_str(&mut name, ",");
    let n2 = g.node_name(input2).as_str().to_owned();
    append_str(&mut name, n2.as_str());
    append_str(&mut name, ")");
    let shape = g.node_shape(input1).clone();
    let output = g.new_node(shape);
    g.set_name(output, name);
    proof {
        assert(g.nodes_v() =~= old(g).nodes_v().push(
            NodeV {
                name: "min("@ + old(g).nodes_v()[input1 as int].name + ","@ + old(
                    g,
                ).nodes_v()[input2 as int].name + ")"@,
                shape: old(g).nodes_v()[input1 as int].shape,
                fill: None,
                value: None,
            },
        ));
    }
    match Min::new_default(input1, input2, output).build(g) {
        Ok(_) => Ok(output),
        Err(e) => Err(e),
    }
}

/// An activation based on complex multiplication and division.
///
/// Breaks the innermost axis up into groups of four scalars read as two
/// complex numbers `w = a + ib`, `x = c + id`, and accumulates
/// `(w*x).re, (w*x).im, (w/x).re, (w/x).im` into the output, the division
/// regularized by the default epsilon; any remainder after grouping by
/// four passes through unmodified. A fresh output node of the input's
/// shape is appended. Fails exactly when the input does not belong to the
/// graph, and then changes nothing.
pub fn muldiv(g: &mut Graph, input: NodeID) -> (r: Result<NodeID, OpBuildError>)
    requires
        old(g).wf(),
    ensures
        final(g).wf(),
        r is Ok <==> input < old(g).nodes_v().len(),
        r matches Ok(out) ==> {
            &&& out == old(g).nodes_v().len()
            &&& final(g).nodes_v() == old(g).nodes_v().push(
                (NodeV {
                    name: Seq::empty(),
                    shape: old(g).nodes_v()[input as int].shape,
                    fill: None,
                    value: None,
                }),
            )
            &&& final(g).ops@ == old(g).ops@.push(
                (MulDiv { input, output: out as usize, epsilon: default_epsilon() }).lower(),
            )
        },
        r is Err ==> final(g).nodes_v() == old(g).nodes_v() && final(g).ops@ == old(g).ops@ && (r
            matches Err(e) && e is NodeNotInGraph),
{
    let n = g.node_count();
    if input >= n {
        return Err(OpBuildError::NodeNotInGraph(input));
    }
    let shape = g.node_shape(input).clone();
    let output = g.new_node(shape);
    match MulDiv::new(input, output).build(g) {
        Ok(_) => Ok(output),
        Err(e) => Err(e),
    }
}

} // verus!
