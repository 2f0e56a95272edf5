use revgrad::{
    build_grad, calc_node, execute_graph, min, muldiv, ExecutionError, GradientError, Graph,
    MulDiv, MulDivBack, NodeID, Rat, Shape,
};

fn r(n: i128, d: i128) -> Rat {
    Rat::new(n, d)
}

fn to_f64(x: &Rat) -> f64 {
    x.n as f64 / x.d as f64
}

fn close(a: f64, b: f64, tol: f64) -> bool {
    (a - b).abs() <= tol
}

/// A small deterministic value stream for test tensors.
fn stream(seed: u64) -> impl FnMut() -> i128 {
    let mut state = seed;
    move || {
        state = state.wrapping_mul(6364136223846793005).wrapping_add(1442695040888963407);
        ((state >> 33) % 201) as i128 - 100
    }
}

fn muldiv_row() -> Vec<Rat> {
    vec![
        r(1, 5),
        r(2, 5),
        r(3, 5),
        r(4, 5),
        r(11, 5),
        r(12, 5),
        r(13, 5),
        r(14, 5),
        r(47, 10),
        r(6, 5),
        r(7, 5),
        r(8, 5),
        r(9, 5),
        r(16, 5),
        r(17, 5),
        r(18, 5),
        r(19, 5),
        r(16, 5),
    ]
}

#[test]
fn min_forward_test() {
    let mut g = Graph::new();
    let input1 = g.new_node(Shape::known(&vec![13, 33]));
    let input2 = g.new_node(Shape::known(&vec![13, 33]));
    g.set_name(input1, String::from("input1"));
    g.set_name(input2, String::from("input2"));
    let output = min(&mut g, input1, input2).unwrap();

    let cases = [
        (r(5, 4), r(5, 4), r(5, 4)),
        (r(5, 4), r(-4, 5), r(-4, 5)),
        (r(-4, 5), r(5, 4), r(-4, 5)),
        (r(-4, 5), r(-4, 5), r(-4, 5)),
    ];
    for (a, b, want) in cases {
        g.set_fill(input1, a);
        g.set_fill(input2, b);
        let out = calc_node(&g, output).unwrap();
        assert_eq!(out.len(), 13 * 33);
        for v in &out {
            assert_eq!(*v, want);
        }
    }
}

#[test]
fn muldiv_forward_test() {
    let mut g = Graph::new();
    let input = g.new_node(Shape::known(&vec![2, 9]));
    g.set_name(input, String::from("input"));
    g.set_value(input, muldiv_row());
    let output = g.new_node(Shape::known(&vec![2, 9]));
    g.set_name(output, String::from("output"));
    MulDiv::new(input, output).epsilon(r(1, 10)).build(&mut g).unwrap();

    let out = calc_node(&g, output).unwrap();
    let want = [
        -0.2, 0.4, 0.435_643_55, 0.079_207_92, -1.0, 12.4, 0.851_471_6, 0.005475702, 4.7, -0.6,
        4.4, 0.764_199_7, 0.013769363, -1.4, 24.4, 0.891_645_4, 0.002918643, 3.2,
    ];
    assert_eq!(out.len(), want.len());
    for (v, w) in out.iter().zip(want.iter()) {
        assert!(close(to_f64(v), *w, 1e-5), "{} vs {}", to_f64(v), w);
    }
}

#[test]
fn forward_epse_one_test() {
    let mut g = Graph::new();
    let input = g.new_node(Shape::known(&vec![2, 9]));
    g.set_name(input, String::from("input"));
    g.set_value(input, muldiv_row());
    let output = g.new_node(Shape::known(&vec![2, 9]));
    g.set_name(output, String::from("output"));
    MulDiv::new(input, output).epsilon(r(1, 1)).build(&mut g).unwrap();

    let out = calc_node(&g, output).unwrap();
    let want = [
        -0.2, 0.4, 0.22, 0.04, -1.0, 12.4, 0.797_435_9, 0.005_128_205, 4.7, -0.6, 4.4,
        0.652_941_17, 0.011_764_706, -1.4, 24.4, 0.860_563_4, 0.002_816_901, 3.2,
    ];
    assert_eq!(out.len(), want.len());
    for (v, w) in out.iter().zip(want.iter()) {
        assert!(close(to_f64(v), *w, 1e-5), "{} vs {}", to_f64(v), w);
    }
}

#[test]
fn accumulation_idempotence() {
    // Executing the same graph twice from the same explicit inputs leaves
    // exactly the same storage: no hidden state beyond the buffers.
    let mut g = Graph::new();
    let input = g.new_node(Shape::known(&vec![2, 9]));
    g.set_value(input, muldiv_row());
    let output = muldiv(&mut g, input).unwrap();
    let once = calc_node(&g, output).unwrap();
    let twice = calc_node(&g, output).unwrap();
    assert_eq!(once, twice);
}

#[test]
fn merge_round_trip() {
    let mut a = Graph::new();
    let n1 = a.new_node(Shape::known(&vec![3]));
    a.set_name(n1, String::from("n1"));
    let mut b = Graph::new();
    let n2 = b.new_node(Shape::known(&vec![3]));
    b.set_name(n2, String::from("n2"));
    let off = a.merge_from(b);
    let n2_in_a = n2 + off;
    // Both nodes now live in one owner and can feed one operator.
    let out = min(&mut a, n1, n2_in_a).unwrap();
    assert_eq!(a.node_name(n1).as_str(), "n1");
    assert_eq!(a.node_name(n2_in_a).as_str(), "n2");
    a.set_fill(n1, r(1, 2));
    a.set_fill(n2_in_a, r(1, 3));
    let v = calc_node(&a, out).unwrap();
    for x in &v {
        assert_eq!(*x, r(1, 3));
    }
}

#[test]
fn cycle_is_detected() {
    let mut g = Graph::new();
    let n = g.new_node(Shape::known(&vec![4]));
    // An instance whose output is its own input can never be scheduled.
    MulDiv::new(n, n).build(&mut g).unwrap();
    assert!(matches!(calc_node(&g, n), Err(ExecutionError::Cycle)));
}

#[test]
fn shape_conflict_fails_execution() {
    let mut g = Graph::new();
    let input = g.new_node(Shape::known(&vec![2, 9]));
    let output = g.new_node(Shape::known(&vec![2, 9]));
    MulDiv::new(input, output).build(&mut g).unwrap();
    // Declared sizes disagree with a stored value: an invariant violation.
    g.set_value(input, vec![r(1, 2); 3]);
    assert!(matches!(
        calc_node(&g, output),
        Err(ExecutionError::StorageSizeMismatch(_))
    ));
}

#[test]
fn second_order_gradient_is_unimplemented() {
    let mut g = Graph::new();
    let input = g.new_node(Shape::known(&vec![8]));
    let input_grad = g.new_node(Shape::known(&vec![8]));
    let output_grad = g.new_node(Shape::known(&vec![8]));
    MulDivBack::new(input, input_grad, output_grad).build(&mut g).unwrap();
    let wrt = vec![output_grad];
    match build_grad(g, input_grad, &wrt) {
        Err(GradientError::Unimplemented) => {},
        _ => panic!("expected the declared second-order limitation"),
    }
}

fn numeric_check(
    g: &mut Graph,
    input: NodeID,
    values: &Vec<Rat>,
    output: NodeID,
    analytic: &Vec<Rat>,
    step: i128,
    tol: f64,
) {
    // Central difference at every element, with the difference of the two
    // forward outputs taken exactly before any rounding.
    for idx in 0..values.len() {
        let mut plus = values.clone();
        plus[idx] = plus[idx].add(r(1, step)).unwrap();
        let mut minus = values.clone();
        minus[idx] = minus[idx].sub(r(1, step)).unwrap();
        g.set_value(input, plus);
        let op = calc_node(g, output).unwrap();
        g.set_value(input, minus);
        let om = calc_node(g, output).unwrap();
        let mut numeric: f64 = 0.0;
        for (a, b) in op.iter().zip(om.iter()) {
            numeric += to_f64(&a.sub(*b).unwrap());
        }
        numeric *= step as f64 / 2.0;
        assert!(
            close(numeric, to_f64(&analytic[idx]), tol),
            "at {}: numeric {} vs analytic {}",
            idx,
            numeric,
            to_f64(&analytic[idx])
        );
    }
    g.set_value(input, values.clone());
}

fn build_min_graph(v1: &Vec<Rat>, v2: &Vec<Rat>) -> (Graph, NodeID, NodeID, NodeID) {
    let mut g = Graph::new();
    let input1 = g.new_node(Shape::known(&vec![13, 33]));
    let input2 = g.new_node(Shape::known(&vec![13, 33]));
    g.set_name(input1, String::from("input1"));
    g.set_name(input2, String::from("input2"));
    g.set_value(input1, v1.clone());
    g.set_value(input2, v2.clone());
    let output = min(&mut g, input1, input2).unwrap();
    (g, input1, input2, output)
}

#[test]
fn min_grad_numeric_test() {
    let mut next = stream(7);
    let v1: Vec<Rat> = (0..13 * 33).map(|_| r(next(), 100)).collect();
    // Values on a staggered grid: never exactly tied with v1, and far
    // enough apart that the difference step cannot cross the kink.
    let v2: Vec<Rat> = (0..13 * 33).map(|_| r(2 * next() + 1, 200)).collect();

    let (g, input1, input2, output) = build_min_graph(&v1, &v2);
    let wrt = vec![input1, input2];
    let (gg, grads) = build_grad(g, output, &wrt).unwrap();
    let st = execute_graph(&gg).unwrap();
    let g1 = st[grads[0]].clone();
    let g2 = st[grads[1]].clone();

    // The numeric sweep runs on a forward-only copy of the graph.
    let (mut gf, f1, f2, fout) = build_min_graph(&v1, &v2);
    numeric_check(&mut gf, f1, &v1, fout, &g1, 1000, 4e-3);
    numeric_check(&mut gf, f2, &v2, fout, &g2, 1000, 4e-3);
}

#[test]
fn grad_numeric_low_tol_test() {
    // input1 strictly positive, input2 strictly negative: the gradient
    // flowing to input1 is exactly zero everywhere.
    let mut next = stream(11);
    let v1: Vec<Rat> = (0..13 * 33).map(|_| r(next().rem_euclid(90) + 10, 100)).collect();
    let v2: Vec<Rat> = (0..13 * 33).map(|_| r(-(next().rem_euclid(90) + 10), 100)).collect();
    let (g, input1, input2, output) = build_min_graph(&v1, &v2);

    let wrt = vec![input1, input2];
    let (gg, grads) = build_grad(g, output, &wrt).unwrap();
    let st = execute_graph(&gg).unwrap();
    for v in &st[grads[0]] {
        assert_eq!(*v, Rat::zero());
    }
    for v in &st[grads[1]] {
        assert_eq!(*v, r(1, 1));
    }
}

fn build_muldiv_graph(v: &Vec<Rat>, eps: Rat) -> (Graph, NodeID, NodeID) {
    let mut g = Graph::new();
    let input = g.new_node(Shape::known(&vec![13, 43]));
    g.set_name(input, String::from("input"));
    g.set_value(input, v.clone());
    let output = g.new_node(Shape::known(&vec![13, 43]));
    g.set_name(output, String::from("output"));
    MulDiv::new(input, output).epsilon(eps).build(&mut g).unwrap();
    (g, input, output)
}

#[test]
fn muldiv_grad_numeric_test() {
    let mut next = stream(23);
    let v: Vec<Rat> = (0..13 * 43).map(|_| r(next(), 100)).collect();
    let (g, input, output) = build_muldiv_graph(&v, r(1, 10));

    let wrt = vec![input];
    let (gg, grads) = build_grad(g, output, &wrt).unwrap();
    let st = execute_graph(&gg).unwrap();
    let analytic = st[grads[0]].clone();
    // The regularized divisor can shrink to eps^2 = 0.01, so a small step
    // keeps the central difference's truncation error well under tolerance.
    let (mut gf, fin, fout) = build_muldiv_graph(&v, r(1, 10));
    numeric_check(&mut gf, fin, &v, fout, &analytic, 100000, 2e-4);
}

#[test]
fn grad_numeric_eps_one_test() {
    let mut next = stream(31);
    let v: Vec<Rat> = (0..13 * 43).map(|_| r(next(), 100)).collect();
    let (g, input, output) = build_muldiv_graph(&v, r(1, 1));

    let wrt = vec![input];
    let (gg, grads) = build_grad(g, output, &wrt).unwrap();
    let st = execute_graph(&gg).unwrap();
    let analytic = st[grads[0]].clone();
    let (mut gf, fin, fout) = build_muldiv_graph(&v, r(1, 1));
    numeric_check(&mut gf, fin, &v, fout, &analytic, 10000, 2e-5);
}
