//! The node/graph ownership layer.
//!
//! A graph is an arena: it is the sole owner of node metadata and tensor
//! storage, and every outside reference is a plain index (`NodeID`). Nodes
//! and operator instances are appended, never deleted. Combining nodes from
//! two separately built graphs goes through [`Graph::merge_from`], which
//! moves one arena onto the end of the other and renumbers the moved
//! identifiers by a fixed offset.
use crate::ops::OpInstance;
use crate::rational::Rat;
use crate::shape::{Dim, Shape};
use vstd::prelude::*;

verus! {

/// The identity of a node within its owning graph.
pub type NodeID = usize;

/// One tensor-valued vertex: metadata plus optional initial contents.
#[derive(Debug)]
pub struct NodeData {
    /// A human-readable name.
    pub name: String,
    /// The current shape constraint.
    pub shape: Shape,
    /// A broadcast initial scalar for every element, when set.
    pub fill: Option<Rat>,
    /// An explicit dense row-major value, when set; it wins over `fill`.
    pub value: Option<Vec<Rat>>,
}

/// The mathematical content of a node.
pub ghost struct NodeV {
    pub name: Seq<char>,
    pub shape: Seq<Dim>,
    pub fill: Option<Rat>,
    pub value: Option<Seq<Rat>>,
}

impl View for NodeData {
    type V = NodeV;

    open spec fn view(&self) -> NodeV {
        NodeV {
            name: self.name@,
            shape: self.shape@,
            fill: self.fill,
            value: match self.value {
                Some(v) => Some(v@),
                None => None,
            },
        }
    }
}

impl NodeV {
    /// Every scalar held by the node is well-formed.
    pub open spec fn wf(self) -> bool {
        &&& (self.fill matches Some(f) ==> f.wf())
        &&& (self.value matches Some(v) ==> forall|i: int|
            0 <= i < v.len() ==> (#[trigger] v[i]).wf())
    }
}

/// An exact copy of a string.
fn clone_string(s: &String) -> (r: String)
    ensures
        r@ == s@,
{
    s.as_str().to_owned()
}

impl Clone for Shape {
    /// An exact copy of a shape constraint.
    fn clone(&self) -> (r: Shape)
        ensures
            r@ == self@,
    {
        let mut dims: Vec<Dim> = Vec::new();
        let mut i: usize = 0;
        while i < self.dims.len()
            invariant
                i <= self.dims@.len(),
                dims@ == self.dims@.take(i as int),
            decreases self.dims@.len() - i,
        {
            dims.push(self.dims[i]);
            proof {
                assert(dims@ =~= self.dims@.take(i + 1));
            }
            i = i + 1;
        }
        proof {
            assert(self.dims@.take(self.dims@.len() as int) =~= self.dims@);
        }
        Shape { dims }
    }
}

/// An exact copy of a dense scalar vector.
pub(crate) fn clone_scalars(v: &Vec<Rat>) -> (r: Vec<Rat>)
    ensures
        r@ == v@,
{
    let mut out: Vec<Rat> = Vec::new();
    let mut i: usize = 0;
    while i < v.len()
        invariant
            i <= v@.len(),
            out@ == v@.take(i as int),
        decreases v@.len() - i,
    {
        out.push(v[i]);
        proof {
            assert(out@ =~= v@.take(i + 1));
        }
        i = i + 1;
    }
    proof {
        assert(v@.take(v@.len() as int) =~= v@);
    }
    out
}

/// An exact copy of a node's metadata and contents.
fn clone_node(nd: &NodeData) -> (r: NodeData)
    ensures
        r@ == nd@,
{
    NodeData {
        name: clone_string(&nd.name),
        shape: nd.shape.clone(),
        fill: nd.fill,
        value: match &nd.value {
            Some(v) => Some(clone_scalars(v)),
            None => None,
        },
    }
}

/// A shared, mutable container of nodes and operator instances.
pub struct Graph {
    /// Node storage; a `NodeID` is an index into it.
    pub nodes: Vec<NodeData>,
    /// Operator instances, in construction order.
    pub ops: Vec<OpInstance>,
}

impl Graph {
    /// The mathematical content of the node arena.
    pub open spec fn nodes_v(self) -> Seq<NodeV> {
        Seq::new(self.nodes@.len() as nat, |i: int| self.nodes@[i]@)
    }

    /// Well-formedness: every instance speaks only of nodes the graph owns
    /// and carries well-formed scalar configuration; every node's stored
    /// scalars are well-formed.
    pub open spec fn wf(self) -> bool {
        &&& forall|i: int| 0 <= i < self.ops@.len() ==> (#[trigger] self.ops@[i]).wf(
            self.nodes@.len() as int,
        )
        &&& forall|i: int| 0 <= i < self.nodes@.len() ==> (#[trigger] self.nodes@[i]@).wf()
    }

    /// An empty graph.
    pub fn new() -> (g: Graph)
        ensures
            g.nodes_v().len() == 0,
            g.ops@.len() == 0,
            g.wf(),
    {
        Graph { nodes: Vec::new(), ops: Vec::new() }
    }

    /// The number of nodes owned.
    pub fn node_count(&self) -> (r: usize)
        ensures
            r == self.nodes_v().len(),
    {
        self.nodes.len()
    }

    /// The number of operator instances registered.
    pub fn op_count(&self) -> (r: usize)
        ensures
            r == self.ops@.len(),
    {
        self.ops.len()
    }

    /// Append a fresh, unnamed, empty node under the given shape
    /// constraint and return its identity.
    pub fn new_node(&mut self, shape: Shape) -> (id: NodeID)
        requires
            old(self).wf(),
        ensures
            final(self).wf(),
            id == old(self).nodes_v().len(),
            final(self).ops@ == old(self).ops@,
            final(self).nodes_v() == old(self).nodes_v().push(
                (NodeV { name: Seq::empty(), shape: shape@, fill: None, value: None }),
            ),
    {
        let id = self.nodes.len();
        self.nodes.push(NodeData { name: String::new(), shape, fill: None, value: None });
        proof {
            assert(self.nodes_v() =~= old(self).nodes_v().push(self.nodes@[id as int]@));
        }
        id
    }

    /// Replace a node's name.
    pub fn set_name(&mut self, id: NodeID, name: String)
        requires
            old(self).wf(),
            id < old(self).nodes_v().len(),
        ensures
            final(self).wf(),
            final(self).ops@ == old(self).ops@,
            final(self).nodes_v() == old(self).nodes_v().update(
                id as int,
                (NodeV { name: name@, ..old(self).nodes_v()[id as int] }),
            ),
    {
        let mut nd = clone_node(&self.nodes[id]);
        nd.name = name;
        self.nodes.set(id, nd);
        proof {
            assert(self.nodes_v() =~= old(self).nodes_v().update(
                id as int,
                NodeV { name: name@, ..old(self).nodes_v()[id as int] },
            ));
        }
    }

    /// Give a node a broadcast initial scalar.
    pub fn set_fill(&mut self, id: NodeID, fill: Rat)
        requires
            old(self).wf(),
            id < old(self).nodes_v().len(),
            fill.wf(),
        ensures
            final(self).wf(),
            final(self).ops@ == old(self).ops@,
            final(self).nodes_v() == old(self).nodes_v().update(
                id as int,
                (NodeV { fill: Some(fill), ..old(self).nodes_v()[id as int] }),
            ),
    {
        let mut nd = clone_node(&self.nodes[id]);
        nd.fill = Some(fill);
        self.nodes.set(id, nd);
        proof {
            assert(self.nodes_v() =~= old(self).nodes_v().update(
                id as int,
                NodeV { fill: Some(fill), ..old(self).nodes_v()[id as int] },
            ));
        }
    }

    /// Give a node an explicit dense value.
    pub fn set_value(&mut self, id: NodeID, value: Vec<Rat>)
        requires
            old(self).wf(),
            id < old(self).nodes_v().len(),
            forall|i: int| 0 <= i < value@.len() ==> (#[trigger] value@[i]).wf(),
        ensures
            final(self).wf(),
            final(self).ops@ == old(self).ops@,
            final(self).nodes_v() == old(self).nodes_v().update(
                id as int,
                (NodeV { value: Some(value@), ..old(self).nodes_v()[id as int] }),
            ),
    {
        let mut nd = clone_node(&self.nodes[id]);
        nd.value = Some(value);
        self.nodes.set(id, nd);
        proof {
            assert(self.nodes_v() =~= old(self).nodes_v().update(
                id as int,
                NodeV { value: Some(value@), ..old(self).nodes_v()[id as int] },
            ));
        }
    }

    /// Replace a node's shape constraint.
    pub fn set_shape(&mut self, id: NodeID, shape: Shape)
        requires
            old(self).wf(),
            id < old(self).nodes_v().len(),
        ensures
            final(self).wf(),
            final(self).ops@ == old(self).ops@,
            final(self).nodes_v() == old(self).nodes_v().update(
                id as int,
                (NodeV { shape: shape@, ..old(self).nodes_v()[id as int] }),
            ),
    {
        let mut nd = clone_node(&self.nodes[id]);
        nd.shape = shape;
        self.nodes.set(id, nd);
        proof {
            assert(self.nodes_v() =~= old(self).nodes_v().update(
                id as int,
                NodeV { shape: shape@, ..old(self).nodes_v()[id as int] },
            ));
        }
    }

    /// Read a node's current shape constraint.
    pub fn node_shape(&self, id: NodeID) -> (r: &Shape)
        requires
            id < self.nodes_v().len(),
        ensures
            r@ == self.nodes_v()[id as int].shape,
    {
        &self.nodes[id].shape
    }

    /// Read a node's name.
    pub fn node_name(&self, id: NodeID) -> (r: &String)
        requires
            id < self.nodes_v().len(),
        ensures
            r@ == self.nodes_v()[id as int].name,
    {
        &self.nodes[id].name
    }

    /// Absorb another graph: its nodes and instances move onto the end of
    /// this arena, every moved identifier grows by the returned offset, and
    /// nothing already owned changes. Merging is idempotent in effect: an
    /// empty graph merges in as nothing at all.
    pub fn merge_from(&mut self, other: Graph) -> (off: usize)
        requires
            old(self).wf(),
            other.wf(),
        ensures
            final(self).wf(),
            off == old(self).nodes_v().len(),
            final(self).nodes_v() == old(self).nodes_v() + other.nodes_v(),
            final(self).ops@.len() == old(self).ops@.len() + other.ops@.len(),
            forall|i: int| 0 <= i < old(self).ops@.len() ==> final(self).ops@[i] == old(
                self,
            ).ops@[i],
            forall|i: int| 0 <= i < other.ops@.len() ==> final(self).ops@[old(self).ops@.len() + i]
                == (#[trigger] other.ops@[i]).shift_v(old(self).nodes_v().len() as int),
    {
        let off = self.nodes.len();
        let mut other_nodes = other.nodes;
        let other_ops = other.ops;
        self.nodes.append(&mut other_nodes);
        proof {
            assert(self.nodes_v() =~= old(self).nodes_v() + other.nodes_v());
        }
        let total = self.nodes.len();
        let mut i: usize = 0;
        while i < other_ops.len()
            invariant
                i <= other_ops@.len(),
                off == old(self).nodes_v().len(),
                total == self.nodes@.len(),
                total == off + other.nodes@.len(),
                other_ops@ == other.ops@,
                self.nodes@ == old(self).nodes@ + other.nodes@,
                self.nodes_v() == old(self).nodes_v() + other.nodes_v(),
                self.ops@.len() == old(self).ops@.len() + i,
                forall|j: int| 0 <= j < old(self).ops@.len() ==> self.ops@[j] == old(
                    self,
                ).ops@[j],
                forall|j: int| 0 <= j < i ==> self.ops@[old(self).ops@.len() + j]
                    == (#[trigger] other.ops@[j]).shift_v(off as int),
                self.wf(),
                other.wf(),
            decreases other_ops@.len() - i,
        {
            let inst = other_ops[i];
            proof {
                assert(other.ops@[i as int].wf(other.nodes@.len() as int));
                assert(inst.wf(other.nodes@.len() as int) && other.nodes@.len() + off
                    <= usize::MAX + 1);
            }
            let shifted = inst.shift(off);
            proof {
                crate::ops::lemma_shift_wf(inst, off as int, other.nodes@.len() as int);
                assert(shifted.wf(self.nodes@.len() as int));
            }
            self.ops.push(shifted);
            i = i + 1;
        }
        off
    }
}

} // verus!
