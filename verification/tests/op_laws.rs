use indexmap::{IndexMap, IndexSet};
use revgrad::{
    min, muldiv, propagate_shapes_pass, propagate_to_fixpoint, Dim, Graph, Min, MinBackFunc,
    MinFunc, MulDiv, MulDivBack, NodeID, OpBuildError, Rat, Shape, ShapePropError,
};

fn r(n: i128, d: i128) -> Rat {
    Rat::new(n, d)
}

#[test]
fn min_scalar_pairs() {
    let f = MinFunc {};
    assert_eq!(f.calc(r(5, 4), r(5, 4)).unwrap(), r(5, 4));
    assert_eq!(f.calc(r(5, 4), r(-4, 5)).unwrap(), r(-4, 5));
    assert_eq!(f.calc(r(-4, 5), r(5, 4)).unwrap(), r(-4, 5));
    assert_eq!(f.calc(r(-4, 5), r(-4, 5)).unwrap(), r(-4, 5));
}

#[test]
fn min_back_tie_routes_zero() {
    let f = MinBackFunc {};
    // A tie sends zero to both slots, not a split.
    assert_eq!(f.calc(r(1, 1), r(1, 1), r(7, 3)).unwrap(), Rat::zero());
    // The strictly larger input gets exactly zero.
    assert_eq!(f.calc(r(2, 1), r(1, 1), r(7, 3)).unwrap(), Rat::zero());
    // The strictly smaller input gets the output gradient through.
    assert_eq!(f.calc(r(1, 2), r(1, 1), r(7, 3)).unwrap(), r(7, 3));
}

#[test]
fn rational_arithmetic_exact() {
    assert_eq!(r(1, 5).add(r(3, 10)).unwrap(), r(1, 2));
    assert_eq!(r(1, 5).mul(r(3, 10)).unwrap(), r(3, 50));
    assert_eq!(r(11, 25).div(r(101, 100)).unwrap(), r(44, 101));
    assert_eq!(r(1, 5).sub(r(3, 10)).unwrap(), r(-1, 10));
    assert_eq!(r(-6, 8), Rat { n: -3, d: 4 });
}

#[test]
fn rational_overflow_is_reported() {
    let big = Rat { n: i128::MAX, d: 1 };
    assert!(big.mul(Rat { n: 2, d: 1 }).is_none());
    assert!(big.add(big).is_none());
    // Division by an exact zero is refused, never a blow-up.
    assert!(r(1, 2).div(Rat::zero()).is_none());
}

#[test]
fn muldiv_epsilon_default_and_setter() {
    let spec = MulDiv::new(0, 1);
    assert_eq!(spec.epsilon, Rat { n: 1, d: 10 });
    let spec = spec.epsilon(r(1, 1));
    assert_eq!(spec.epsilon, Rat { n: 1, d: 1 });
    assert_eq!(spec.op_name(), "MulDiv");
}

#[test]
fn declared_node_sets_keep_insertion_order() {
    let spec = MulDivBack {
        input: 3,
        input_grad: 5,
        output_grad: 4,
        epsilon: r(1, 10),
    };
    let ins: IndexSet<NodeID> = spec.inputs();
    assert_eq!(ins.len(), 2);
    assert_eq!(ins.get_index(0), Some(&3));
    assert_eq!(ins.get_index(1), Some(&4));
    let outs: IndexSet<NodeID> = spec.outputs();
    assert_eq!(outs.len(), 1);
    assert!(outs.contains(&5));
    // A repeated node is kept once.
    let m = Min {
        input1: 7,
        input2: 7,
        output: 8,
    };
    assert_eq!(m.inputs().len(), 1);
}

#[test]
fn clone_with_nodes_changed_remaps() {
    let spec = MulDiv {
        input: 0,
        output: 1,
        epsilon: r(1, 10),
    };
    let mut mapping: IndexMap<NodeID, NodeID> = IndexMap::new();
    mapping.insert(0, 10);
    let moved = spec.clone_with_nodes_changed(&mapping);
    assert_eq!(moved.input, 10);
    assert_eq!(moved.output, 1);
    let inst = moved.build_instance().unwrap();
    let back = inst.as_specification();
    assert_eq!(back.input, 10);
    assert_eq!(back.output, 1);
    assert_eq!(back.epsilon, r(1, 10));
}

#[test]
fn build_rejects_foreign_nodes() {
    let mut g = Graph::new();
    let a = g.new_node(Shape::known(&vec![2]));
    match min(&mut g, a, 5) {
        Err(OpBuildError::NodeNotInGraph(id)) => assert_eq!(id, 5),
        _ => panic!("expected a rejected build"),
    }
    assert_eq!(g.op_count(), 0);
    assert_eq!(g.node_count(), 1);
}

#[test]
fn min_names_its_output() {
    let mut g = Graph::new();
    let a = g.new_node(Shape::known(&vec![2]));
    let b = g.new_node(Shape::known(&vec![2]));
    g.set_name(a, String::from("input1"));
    g.set_name(b, String::from("input2"));
    let out = min(&mut g, a, b).unwrap();
    assert_eq!(g.node_name(out).as_str(), "min(input1,input2)");
    assert_eq!(g.op_count(), 1);
}

#[test]
fn shape_merge_unifies_and_rejects() {
    let known = Shape::known(&vec![13, 33]);
    let loose = Shape::unknown(2);
    let merged = loose.merge(&known).unwrap();
    assert!(merged.same_as(&known));
    // Identity both ways.
    let again = known.merge(&known).unwrap();
    assert!(again.same_as(&known));
    // Known-vs-known disagreement is fatal.
    assert!(known.merge(&Shape::known(&vec![13, 34])).is_none());
    // Rank disagreement is fatal.
    assert!(known.merge(&Shape::known(&vec![13])).is_none());
    assert_eq!(known.size(), Some(429));
    assert!(matches!(loose.dims[0], Dim::Unknown));
}

#[test]
fn muldiv_appends_output_node() {
    let mut g = Graph::new();
    let a = g.new_node(Shape::known(&vec![2, 9]));
    let out = muldiv(&mut g, a).unwrap();
    assert_eq!(out, 1);
    assert_eq!(g.op_count(), 1);
    assert!(g.node_shape(out).same_as(&Shape::known(&vec![2, 9])));
}

#[test]
fn shape_identity_propagates() {
    let mut g = Graph::new();
    let input = g.new_node(Shape::known(&vec![2, 9]));
    let output = g.new_node(Shape::unknown(2));
    MulDiv::new(input, output).build(&mut g).unwrap();
    let reached = propagate_to_fixpoint(&mut g, 4).unwrap();
    assert!(reached);
    assert!(g.node_shape(output).same_as(&Shape::known(&vec![2, 9])));
    // Re-running the pass is harmless and reports no change.
    assert_eq!(propagate_shapes_pass(&mut g).unwrap(), false);
}

#[test]
fn shape_mismatch_fails_propagation() {
    let mut g = Graph::new();
    let input = g.new_node(Shape::known(&vec![2, 9]));
    let output = g.new_node(Shape::known(&vec![2, 8]));
    MulDiv::new(input, output).build(&mut g).unwrap();
    match propagate_shapes_pass(&mut g) {
        Err(ShapePropError::Conflict(dst, src)) => {
            assert!(dst.same_as(&Shape::known(&vec![2, 8])));
            assert!(src.same_as(&Shape::known(&vec![2, 9])));
        },
        _ => panic!("expected a shape conflict"),
    }
    // The failed merge tightened nothing.
    assert!(g.node_shape(output).same_as(&Shape::known(&vec![2, 8])));
}
