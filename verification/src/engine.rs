//! The execution engine's driver: dependency order, storage, and the
//! forward/backward pass.
//!
//! The engine never assumes that registration order is executable: it
//! recomputes a true dependency order over the instances from their
//! declared input/output node sets, materializes zero-initialized (or
//! filled) storage for every node exactly once, and then runs every
//! instance once in that order, each accumulating into its output's
//! storage.
use crate::errors::ExecutionError;
use crate::exec::{
    execute_min, execute_min_back, execute_muldiv, execute_muldiv_back, min_back_elem, min_elem,
    muldiv_back_contrib, muldiv_contrib,
};
use crate::graph::{Graph, NodeID, NodeV};
use crate::ops::OpInstance;
use crate::rational::{add_o, Rat};
use crate::shape::{all_known, size_of, Dim};
use vstd::arithmetic::div_mod::lemma_mod_multiples_basic;
use vstd::prelude::*;

verus! {

/// Instance `a` depends on instance `b`: some input of `a` is an output
/// of `b`.
#[verifier::opaque]
pub open spec fn depends(ops: Seq<OpInstance>, a: int, b: int) -> bool {
    exists|x: NodeID|
        #![trigger ops[a].input_ids().contains(x), ops[b].output_ids().contains(x)]
        ops[a].input_ids().contains(x) && ops[b].output_ids().contains(x)
}

/// A true dependency order: every instance exactly once, and every
/// producer of an instance's inputs comes earlier.
pub open spec fn valid_order(ops: Seq<OpInstance>, ord: Seq<usize>) -> bool {
    &&& ord.len() == ops.len()
    &&& forall|k: int| 0 <= k < ord.len() ==> (#[trigger] ord[k]) < ops.len()
    &&& forall|k1: int, k2: int| 0 <= k1 < k2 < ord.len() ==> ord[k1] != ord[k2]
    &&& forall|k: int, j: int|
        0 <= k < ord.len() && 0 <= j < ops.len() && depends(ops, ord[k] as int, j) ==> exists|m: int|
            0 <= m < k && ord[m] == j
}

/// Whether some input of `x` is an output of `y`.
fn depends_on(x: &OpInstance, y: &OpInstance) -> (r: bool)
    ensures
        r == exists|n: NodeID|
            #![trigger x.input_ids().contains(n), y.output_ids().contains(n)]
            x.input_ids().contains(n) && y.output_ids().contains(n),
{
    let ins = x.inputs_vec();
    let outs = y.outputs_vec();
    let mut i: usize = 0;
    while i < ins.len()
        invariant
            i <= ins@.len(),
            ins@ == x.input_ids(),
            outs@ == y.output_ids(),
            forall|a: int, b: int|
                0 <= a < i && 0 <= b < outs@.len() ==> ins@[a] != outs@[b],
        decreases ins@.len() - i,
    {
        let mut j: usize = 0;
        while j < outs.len()
            invariant
                i < ins@.len(),
                j <= outs@.len(),
                ins@ == x.input_ids(),
                outs@ == y.output_ids(),
                forall|b: int| 0 <= b < j ==> ins@[i as int] != outs@[b],
            decreases outs@.len() - j,
        {
            if ins[i] == outs[j] {
                proof {
                    assert(x.input_ids().contains(ins@[i as int]));
                    assert(y.output_ids().contains(ins@[i as int]));
                }
                return true;
            }
            j = j + 1;
        }
        i = i + 1;
    }
    proof {
        assert forall|n: NodeID|
            x.input_ids().contains(n) && y.output_ids().contains(n) implies false by {
            let a = choose|a: int| 0 <= a < ins@.len() && ins@[a] == n;
            let b = choose|b: int| 0 <= b < outs@.len() && outs@[b] == n;
            assert(ins@[a] != outs@[b]);
        }
    }
    false
}

/// How many entries of a boolean sequence are set.
pub open spec fn count_true(s: Seq<bool>) -> int
    decreases s.len(),
{
    if s.len() == 0 {
        0
    } else {
        count_true(s.drop_last()) + if s.last() {
            1int
        } else {
            0int
        }
    }
}

/// Setting one unset entry raises the count by one.
proof fn lemma_count_true_update(s: Seq<bool>, i: int)
    requires
        0 <= i < s.len(),
        !s[i],
    ensures
        count_true(s.update(i, true)) == count_true(s) + 1,
    decreases s.len(),
{
    if i == s.len() - 1 {
        assert(s.update(i, true).drop_last() =~= s.drop_last());
    } else {
        lemma_count_true_update(s.drop_last(), i);
        assert(s.update(i, true).drop_last() =~= s.drop_last().update(i, true));
        assert(s.update(i, true).last() == s.last());
    }
}

/// A sequence that is set everywhere has full count.
proof fn lemma_count_true_all(s: Seq<bool>)
    requires
        forall|i: int| 0 <= i < s.len() ==> s[i],
    ensures
        count_true(s) == s.len(),
    decreases s.len(),
{
    if s.len() > 0 {
        lemma_count_true_all(s.drop_last());
    }
}

/// A count of unset entries starts at zero set.
proof fn lemma_count_zero(s: Seq<bool>)
    requires
        forall|i: int| 0 <= i < s.len() ==> !(#[trigger] s[i]),
    ensures
        count_true(s) == 0,
    decreases s.len(),
{
    if s.len() > 0 {
        lemma_count_zero(s.drop_last());
    }
}

/// Every position of a valid order is already scheduled, when every
/// unscheduled instance waits on an unscheduled one: by induction, an
/// unscheduled instance at a position would need an unscheduled producer
/// earlier in the order.
proof fn lemma_order_scheduled(ops: Seq<OpInstance>, sch: Seq<bool>, vord: Seq<usize>, k: int)
    requires
        valid_order(ops, vord),
        sch.len() == ops.len(),
        forall|i: int|
            0 <= i < ops.len() && !sch[i] ==> exists|j: int|
                0 <= j < ops.len() && !(#[trigger] sch[j]) && depends(ops, i, j),
        0 <= k < vord.len(),
    ensures
        sch[vord[k] as int],
    decreases k,
{
    if !sch[vord[k] as int] {
        let i = vord[k] as int;
        let j = choose|j: int| 0 <= j < ops.len() && !(#[trigger] sch[j]) && depends(ops, i, j);
        assert(depends(ops, vord[k] as int, j));
        let m = choose|m: int| 0 <= m < k && vord[m] == j;
        lemma_order_scheduled(ops, sch, vord, m);
    }
}

/// When every instance left unscheduled waits on another unscheduled one
/// and some instance is left, no dependency order exists at all: no valid
/// order could place the waiting instances, and a valid order must place
/// every instance.
proof fn lemma_stuck_no_order(ops: Seq<OpInstance>, sch: Seq<bool>)
    requires
        sch.len() == ops.len(),
        count_true(sch) < ops.len(),
        forall|i: int|
            0 <= i < ops.len() && !sch[i] ==> exists|j: int|
                0 <= j < ops.len() && !(#[trigger] sch[j]) && depends(ops, i, j),
    ensures
        !exists|ord: Seq<usize>| valid_order(ops, ord),
{
    let n = ops.len() as int;
    if exists|ord: Seq<usize>| valid_order(ops, ord) {
        let vord = choose|ord: Seq<usize>| valid_order(ops, ord);
        if forall|a: int| 0 <= a < n ==> sch[a] {
            lemma_count_true_all(sch);
        } else {
            let i0 = choose|a: int| 0 <= a < n && !(#[trigger] sch[a]);
            assert forall|k: int| 0 <= k < vord.len() implies sch[vord[k] as int] by {
                lemma_order_scheduled(ops, sch, vord, k);
            }
            let vs = vord.map_values(|x: usize| x as int);
            assert(vs.no_duplicates()) by {
                assert forall|k1: int, k2: int|
                    0 <= k1 < vs.len() && 0 <= k2 < vs.len() && k1 != k2 implies vs[k1]
                    != vs[k2] by {
                    if k1 < k2 {
                        assert(vord[k1] != vord[k2]);
                    } else {
                        assert(vord[k2] != vord[k1]);
                    }
                }
            }
            vs.unique_seq_to_set();
            let universe = vstd::set_lib::set_int_range(0, n).remove(i0);
            vstd::set_lib::lemma_int_range(0, n);
            assert(universe.len() == n - 1);
            assert(vs.to_set().subset_of(universe)) by {
                assert forall|x: int| vs.to_set().contains(x) implies universe.contains(x) by {
                    let k = choose|k: int| 0 <= k < vs.len() && vs[k] == x;
                    assert(sch[vord[k] as int]);
                    assert(x != i0);
                }
            }
            vstd::set_lib::lemma_len_subset(vs.to_set(), universe);
        }
    }
}

/// Compute a true dependency order over the instances. Succeeds exactly
/// when one exists: a cycle leaves no instance schedulable and forbids
/// every order.
#[verifier::rlimit(100)]
pub fn topo_order(ops: &Vec<OpInstance>) -> (r: Result<Vec<usize>, ExecutionError>)
    ensures
        r matches Ok(ord) ==> valid_order(ops@, ord@),
        r is Err ==> !exists|ord2: Seq<usize>| valid_order(ops@, ord2),
        r matches Err(e) ==> e == ExecutionError::Cycle,
{
    let n = ops.len();
    let mut scheduled: Vec<bool> = Vec::new();
    let mut i0: usize = 0;
    while i0 < n
        invariant
            i0 <= n,
            scheduled@.len() == i0,
            forall|k: int| 0 <= k < i0 ==> !(#[trigger] scheduled@[k]),
        decreases n - i0,
    {
        scheduled.push(false);
        i0 = i0 + 1;
    }
    proof {
        lemma_count_zero(scheduled@);
    }
    let mut ord: Vec<usize> = Vec::new();
    let mut round: usize = 0;
    while round < n
        invariant
            round <= n,
            n == ops@.len(),
            scheduled@.len() == n,
            ord@.len() == round,
            count_true(scheduled@) == round,
            forall|k: int| 0 <= k < ord@.len() ==> (#[trigger] ord@[k]) < n,
            forall|k: int| 0 <= k < ord@.len() ==> scheduled@[ord@[k] as int],
            forall|i: int| 0 <= i < n && scheduled@[i] ==> ord@.contains(i as usize),
            forall|k1: int, k2: int| 0 <= k1 < k2 < ord@.len() ==> ord@[k1] != ord@[k2],
            forall|k: int, j: int|
                0 <= k < ord@.len() && 0 <= j < n && depends(ops@, ord@[k] as int, j)
                    ==> exists|m: int| 0 <= m < k && ord@[m] == j,
        decreases n - round,
    {
        let mut found: bool = false;
        let mut pick: usize = 0;
        let mut i: usize = 0;
        while i < n && !found
            invariant
                i <= n,
                n == ops@.len(),
                scheduled@.len() == n,
                !found ==> forall|a: int|
                    0 <= a < i && !scheduled@[a] ==> exists|j: int|
                        0 <= j < n && !(#[trigger] scheduled@[j]) && depends(ops@, a, j),
                found ==> pick < n && !scheduled@[pick as int] && forall|j: int|
                    0 <= j < n && depends(ops@, pick as int, j) ==> scheduled@[j],
            decreases n - i,
        {
            if !scheduled[i] {
                let mut ok = true;
                let mut j: usize = 0;
                while j < n
                    invariant
                        j <= n,
                        i < n,
                        n == ops@.len(),
                        scheduled@.len() == n,
                        ok ==> forall|b: int|
                            0 <= b < j && depends(ops@, i as int, b) ==> scheduled@[b],
                        !ok ==> exists|b: int|
                            0 <= b < n && !(#[trigger] scheduled@[b]) && depends(
                                ops@,
                                i as int,
                                b,
                            ),
                    decreases n - j,
                {
                    let dep = if !scheduled[j] {
                        depends_on(&ops[i], &ops[j])
                    } else {
                        false
                    };
                    proof {
                        reveal(depends);
                    }
                    if dep {
                        proof {
                            assert(!scheduled@[j as int] && depends(ops@, i as int, j as int));
                        }
                        ok = false;
                    }
                    j = j + 1;
                }
                if ok {
                    found = true;
                    pick = i;
                }
            }
            i = i + 1;
        }
        if !found {
            proof {
                lemma_stuck_no_order(ops@, scheduled@);
            }
            return Err(ExecutionError::Cycle);
        }
        let ghost ord0 = ord@;
        let ghost sch0 = scheduled@;
        proof {
            lemma_count_true_update(scheduled@, pick as int);
            assert forall|k: int, j: int|
                0 <= k < ord0.len() + 1 && 0 <= j < n && depends(
                    ops@,
                    ord0.push(pick)[k] as int,
                    j,
                ) implies exists|m: int| 0 <= m < k && ord0.push(pick)[m] == j by {
                if k < ord0.len() {
                    assert(depends(ops@, ord0[k] as int, j));
                    let m = choose|m: int| 0 <= m < k && ord0[m] == j;
                    assert(ord0.push(pick)[m] == j);
                } else {
                    assert(depends(ops@, pick as int, j));
                    assert(sch0[j]);
                    assert(ord0.contains(j as usize));
                    let m = choose|m: int| 0 <= m < ord0.len() && ord0[m] == j as usize;
                    assert(ord0.push(pick)[m] == j);
                }
            }
        }
        ord.push(pick);
        scheduled.set(pick, true);
        proof {
            assert forall|i2: int|
                0 <= i2 < n && scheduled@[i2] implies ord@.contains(i2 as usize) by {
                if i2 == pick as int {
                    assert(ord@[ord@.len() - 1] == pick);
                } else {
                    assert(sch0[i2]);
                    assert(ord0.contains(i2 as usize));
                    let m = choose|m: int| 0 <= m < ord0.len() && ord0[m] == i2 as usize;
                    assert(ord@[m] == i2 as usize);
                }
            }
        }
        round = round + 1;
    }
    Ok(ord)
}

/// The lane length execution partitions a tensor by: its innermost axis
/// size, or one for a scalar or an empty axis.
pub open spec fn lane_of(shape: Seq<Dim>) -> int {
    if shape.len() == 0 {
        1
    } else {
        match shape.last() {
            Dim::Known(n) => if n == 0 {
                1
            } else {
                n as int
            },
            Dim::Unknown => 1,
        }
    }
}

/// Storage fits the graph: one dense buffer per node, sized by its fully
/// resolved shape, holding well-formed scalars.
pub open spec fn storage_ok(g: Graph, st: Seq<Vec<Rat>>) -> bool {
    &&& st.len() == g.nodes_v().len()
    &&& forall|i: int| 0 <= i < st.len() ==> all_known((#[trigger] g.nodes_v()[i]).shape)
    &&& forall|i: int| 0 <= i < st.len() ==> (#[trigger] st[i])@.len() == size_of(
        g.nodes_v()[i].shape,
    )
    &&& forall|i: int, k: int|
        0 <= i < st.len() && 0 <= k < st[i]@.len() ==> (#[trigger] st[i]@[k]).wf()
}

/// What one instance's execution leaves behind: only its output buffer
/// changes, every element grown by exactly the operator's contribution.
pub open spec fn op_applied(g: Graph, inst: OpInstance, pre: Seq<Vec<Rat>>, post: Seq<
    Vec<Rat>,
>) -> bool {
    match inst {
        OpInstance::Min(i) => {
            &&& post == pre.update(i.output as int, post[i.output as int])
            &&& post[i.output as int]@.len() == pre[i.output as int]@.len()
            &&& forall|p: int|
                0 <= p < pre[i.output as int]@.len() ==> Some(
                    #[trigger] post[i.output as int]@[p],
                ) == min_elem(
                    pre[i.input1 as int]@[p],
                    pre[i.input2 as int]@[p],
                    pre[i.output as int]@[p],
                )
        },
        OpInstance::MinBack(i) => {
            &&& post == pre.update(i.output as int, post[i.output as int])
            &&& post[i.output as int]@.len() == pre[i.output as int]@.len()
            &&& forall|p: int|
                0 <= p < pre[i.output as int]@.len() ==> Some(
                    #[trigger] post[i.output as int]@[p],
                ) == min_back_elem(
                    pre[i.input1 as int]@[p],
                    pre[i.input2 as int]@[p],
                    pre[i.input3 as int]@[p],
                    pre[i.output as int]@[p],
                )
        },
        OpInstance::MulDiv(i) => {
            &&& post == pre.update(i.output as int, post[i.output as int])
            &&& post[i.output as int]@.len() == pre[i.output as int]@.len()
            &&& forall|p: int|
                0 <= p < pre[i.output as int]@.len() ==> Some(
                    #[trigger] post[i.output as int]@[p],
                ) == add_o(
                    Some(pre[i.output as int]@[p]),
                    muldiv_contrib(
                        pre[i.input as int]@,
                        lane_of(g.nodes_v()[i.input as int].shape),
                        i.epsilon,
                        p,
                    ),
                )
        },
        OpInstance::MulDivBack(i) => {
            &&& post == pre.update(i.input_grad as int, post[i.input_grad as int])
            &&& post[i.input_grad as int]@.len() == pre[i.input_grad as int]@.len()
            &&& forall|p: int|
                0 <= p < pre[i.input_grad as int]@.len() ==> Some(
                    #[trigger] post[i.input_grad as int]@[p],
                ) == add_o(
                    Some(pre[i.input_grad as int]@[p]),
                    muldiv_back_contrib(
                        pre[i.input as int]@,
                        pre[i.output_grad as int]@,
                        lane_of(g.nodes_v()[i.input as int].shape),
                        i.epsilon,
                        p,
                    ),
                )
        },
    }
}

/// A node can be materialized: its shape is fully resolved, every prefix
/// of its element-count product fits a `usize`, and any stored value holds
/// exactly one scalar per element.
pub open spec fn node_materializable(nv: NodeV) -> bool {
    &&& all_known(nv.shape)
    &&& forall|k: int| 0 <= k <= nv.shape.len() ==> size_of(#[trigger] nv.shape.take(k))
        <= usize::MAX
    &&& (nv.value matches Some(v) ==> v.len() == size_of(nv.shape))
}

/// Every node of the arena can be materialized.
pub open spec fn materializable(nodes: Seq<NodeV>) -> bool {
    forall|i: int| 0 <= i < nodes.len() ==> node_materializable(#[trigger] nodes[i])
}

/// What materialization yields: one buffer per node — its explicit value
/// when set, else every element its broadcast fill, else zeros.
pub open spec fn is_materialized(nodes: Seq<NodeV>, st: Seq<Vec<Rat>>) -> bool {
    &&& st.len() == nodes.len()
    &&& forall|i: int| 0 <= i < st.len() ==> (#[trigger] st[i])@.len() == size_of(
        nodes[i].shape,
    )
    &&& forall|i: int|
        0 <= i < st.len() ==> match nodes[i].value {
            Some(v) => (#[trigger] st[i])@ == v,
            None => forall|k: int|
                0 <= k < st[i]@.len() ==> (#[trigger] st[i]@[k]) == match nodes[i].fill {
                    Some(f) => f,
                    None => Rat::spec_zero(),
                },
        }
}

/// An instance can run against the storage: its declared buffers' lengths
/// agree, and every output element's scalar contribution stays
/// representable.
pub open spec fn op_runnable(g: Graph, inst: OpInstance, st: Seq<Vec<Rat>>) -> bool {
    match inst {
        OpInstance::Min(i) => {
            &&& st[i.input1 as int]@.len() == st[i.output as int]@.len()
            &&& st[i.input2 as int]@.len() == st[i.output as int]@.len()
            &&& forall|p: int|
                0 <= p < st[i.output as int]@.len() ==> (#[trigger] min_elem(
                    st[i.input1 as int]@[p],
                    st[i.input2 as int]@[p],
                    st[i.output as int]@[p],
                )) is Some
        },
        OpInstance::MinBack(i) => {
            &&& st[i.input1 as int]@.len() == st[i.output as int]@.len()
            &&& st[i.input2 as int]@.len() == st[i.output as int]@.len()
            &&& st[i.input3 as int]@.len() == st[i.output as int]@.len()
            &&& forall|p: int|
                0 <= p < st[i.output as int]@.len() ==> (#[trigger] min_back_elem(
                    st[i.input1 as int]@[p],
                    st[i.input2 as int]@[p],
                    st[i.input3 as int]@[p],
                    st[i.output as int]@[p],
                )) is Some
        },
        OpInstance::MulDiv(i) => {
            &&& st[i.input as int]@.len() == st[i.output as int]@.len()
            &&& forall|p: int|
                0 <= p < st[i.output as int]@.len() ==> (#[trigger] add_o(
                    Some(st[i.output as int]@[p]),
                    muldiv_contrib(
                        st[i.input as int]@,
                        lane_of(g.nodes_v()[i.input as int].shape),
                        i.epsilon,
                        p,
                    ),
                )) is Some
        },
        OpInstance::MulDivBack(i) => {
            &&& st[i.input as int]@.len() == st[i.input_grad as int]@.len()
            &&& st[i.output_grad as int]@.len() == st[i.input_grad as int]@.len()
            &&& forall|p: int|
                0 <= p < st[i.input_grad as int]@.len() ==> (#[trigger] add_o(
                    Some(st[i.input_grad as int]@[p]),
                    muldiv_back_contrib(
                        st[i.input as int]@,
                        st[i.output_grad as int]@,
                        lane_of(g.nodes_v()[i.input as int].shape),
                        i.epsilon,
                        p,
                    ),
                )) is Some
        },
    }
}

/// The storage `fin` is what executing the instances named by `ord`, in
/// that order, leaves of `init`.
pub open spec fn executes_to(g: Graph, ord: Seq<usize>, init: Seq<Vec<Rat>>, fin: Seq<
    Vec<Rat>,
>) -> bool
    decreases ord.len(),
{
    if ord.len() == 0 {
        fin == init
    } else {
        exists|mid: Seq<Vec<Rat>>|
            #[trigger] op_applied(g, g.ops@[ord[0] as int], init, mid) && executes_to(
                g,
                ord.drop_first(),
                mid,
                fin,
            )
    }
}

/// Appending one applied instance extends an execution.
proof fn lemma_executes_to_snoc(
    g: Graph,
    ord: Seq<usize>,
    init: Seq<Vec<Rat>>,
    mid: Seq<Vec<Rat>>,
    fin: Seq<Vec<Rat>>,
    idx: usize,
)
    requires
        executes_to(g, ord, init, mid),
        op_applied(g, g.ops@[idx as int], mid, fin),
    ensures
        executes_to(g, ord.push(idx), init, fin),
    decreases ord.len(),
{
    if ord.len() == 0 {
        assert(mid == init);
        assert(ord.push(idx)[0] == idx);
        assert(ord.push(idx).drop_first() =~= Seq::<usize>::empty());
        assert(executes_to(g, ord.push(idx).drop_first(), fin, fin));
    } else {
        let m0 = choose|m0: Seq<Vec<Rat>>|
            #[trigger] op_applied(g, g.ops@[ord[0] as int], init, m0) && executes_to(
                g,
                ord.drop_first(),
                m0,
                mid,
            );
        lemma_executes_to_snoc(g, ord.drop_first(), m0, mid, fin, idx);
        assert(ord.push(idx).drop_first() =~= ord.drop_first().push(idx));
        assert(ord.push(idx)[0] == ord[0]);
        assert(op_applied(g, g.ops@[ord.push(idx)[0] as int], init, m0));
    }
}

/// A vector of one repeated scalar.
fn fill_vec(n: usize, v: Rat) -> (r: Vec<Rat>)
    ensures
        r@.len() == n,
        forall|k: int| 0 <= k < n ==> r@[k] == v,
{
    let mut out: Vec<Rat> = Vec::new();
    let mut i: usize = 0;
    while i < n
        invariant
            i <= n,
            out@.len() == i,
            forall|k: int| 0 <= k < i ==> out@[k] == v,
        decreases n - i,
    {
        out.push(v);
        i = i + 1;
    }
    out
}

/// Materialize storage for every node exactly once: its explicit value
/// when set, else every element its broadcast fill, else zeros. Fails
/// when a shape is not fully resolved, its element count cannot be held,
/// or a stored value's length does not match it.
pub fn materialize(g: &Graph) -> (r: Result<Vec<Vec<Rat>>, ExecutionError>)
    requires
        g.wf(),
    ensures
        r matches Ok(st) ==> storage_ok(*g, st@) && is_materialized(g.nodes_v(), st@),
        r is Ok <==> materializable(g.nodes_v()),
        r matches Err(e) ==> e is ShapeNotResolved || e is StorageSizeMismatch,
{
    let n = g.node_count();
    let mut st: Vec<Vec<Rat>> = Vec::new();
    let mut i: usize = 0;
    while i < n
        invariant
            i <= n,
            n == g.nodes_v().len(),
            g.wf(),
            st@.len() == i,
            forall|j: int| 0 <= j < i ==> node_materializable(#[trigger] g.nodes_v()[j]),
            forall|j: int| 0 <= j < i ==> all_known((#[trigger] g.nodes_v()[j]).shape),
            forall|j: int| 0 <= j < i ==> (#[trigger] st@[j])@.len() == size_of(
                g.nodes_v()[j].shape,
            ),
            forall|j: int, k: int|
                0 <= j < i && 0 <= k < st@[j]@.len() ==> (#[trigger] st@[j]@[k]).wf(),
            forall|j: int|
                0 <= j < i ==> match g.nodes_v()[j].value {
                    Some(v) => (#[trigger] st@[j])@ == v,
                    None => forall|k: int|
                        0 <= k < st@[j]@.len() ==> (#[trigger] st@[j]@[k]) == match g.nodes_v()[j].fill {
                            Some(f) => f,
                            None => Rat::spec_zero(),
                        },
                },
        decreases n - i,
    {
        let shape = g.node_shape(i);
        if !shape.is_all_known() {
            proof {
                assert(!node_materializable(g.nodes_v()[i as int]));
                assert(!materializable(g.nodes_v()));
            }
            return Err(ExecutionError::ShapeNotResolved(i));
        }
        let size = match shape.size() {
            Some(s) => s,
            None => {
                proof {
                    let k = choose|k: int|
                        0 <= k <= g.nodes_v()[i as int].shape.len() && size_of(
                            #[trigger] g.nodes_v()[i as int].shape.take(k),
                        ) > usize::MAX;
                    assert(!node_materializable(g.nodes_v()[i as int]));
                    assert(!materializable(g.nodes_v()));
                }
                return Err(ExecutionError::StorageSizeMismatch(i));
            },
        };
        let buf: Vec<Rat> = match &g.nodes[i].value {
            Some(v) => {
                if v.len() != size {
                    proof {
                        assert(g.nodes_v()[i as int].value matches Some(w) && w.len() != size_of(
                            g.nodes_v()[i as int].shape,
                        ));
                        assert(!node_materializable(g.nodes_v()[i as int]));
                        assert(!materializable(g.nodes_v()));
                    }
                    return Err(ExecutionError::StorageSizeMismatch(i));
                }
                proof {
                    assert(g.nodes@[i as int]@.wf());
                }
                crate::graph::clone_scalars(v)
            },
            None => {
                let f = match &g.nodes[i].fill {
                    Some(f) => {
                        proof {
                            assert(g.nodes@[i as int]@.wf());
                        }
                        *f
                    },
                    None => Rat::zero(),
                };
                fill_vec(size, f)
            },
        };
        proof {
            assert(g.nodes_v()[i as int] == g.nodes@[i as int]@);
            assert(g.nodes@[i as int]@.wf());
            assert(node_materializable(g.nodes_v()[i as int])) by {
                assert(forall|k: int|
                    0 <= k <= g.nodes_v()[i as int].shape.len() ==> size_of(
                        #[trigger] g.nodes_v()[i as int].shape.take(k),
                    ) <= usize::MAX);
            }
            assert forall|k: int| 0 <= k < buf@.len() implies (#[trigger] buf@[k]).wf() by {
                match g.nodes_v()[i as int].value {
                    Some(v) => {
                        assert(buf@[k] == v[k]);
                    },
                    None => {},
                }
            }
        }
        st.push(buf);
        i = i + 1;
    }
    proof {
        assert(is_materialized(g.nodes_v(), st@));
        assert(materializable(g.nodes_v()));
    }
    Ok(st)
}

/// Execute one instance against the storage: read its declared inputs,
/// accumulate into its declared output. A size disagreement between
/// declared buffers is an invariant violation and changes nothing; on
/// success only the output buffer changes, exactly as the operator's
/// contract says.
pub fn execute_op(g: &Graph, st: &mut Vec<Vec<Rat>>, inst: OpInstance) -> (r: Result<
    (),
    ExecutionError,
>)
    requires
        g.wf(),
        inst.wf(old(st)@.len() as int),
        storage_ok(*g, old(st)@),
    ensures
        storage_ok(*g, final(st)@),
        r is Ok <==> op_runnable(*g, inst, old(st)@),
        r is Ok ==> op_applied(*g, inst, old(st)@, final(st)@),
        r is Err ==> final(st)@ == old(st)@,
        r matches Err(e) ==> e is Overflow || e is LaneMismatch,
{
    proof {
        match inst {
            OpInstance::Min(i) => {
                assert(inst.input_ids()[0] == i.input1);
                assert(inst.input_ids()[1] == i.input2);
                assert(inst.output_ids()[0] == i.output);
            },
            OpInstance::MinBack(i) => {
                assert(inst.input_ids()[0] == i.input1);
                assert(inst.input_ids()[1] == i.input2);
                assert(inst.input_ids()[2] == i.input3);
                assert(inst.output_ids()[0] == i.output);
            },
            OpInstance::MulDiv(i) => {
                assert(inst.input_ids()[0] == i.input);
                assert(inst.output_ids()[0] == i.output);
            },
            OpInstance::MulDivBack(i) => {
                assert(inst.input_ids()[0] == i.input);
                assert(inst.input_ids()[1] == i.output_grad);
                assert(inst.output_ids()[0] == i.input_grad);
            },
        }
    }
    match inst {
        OpInstance::Min(i) => {
            if st[i.input1].len() != st[i.output].len() || st[i.input2].len() != st[
                i.output
            ].len() {
                return Err(ExecutionError::LaneMismatch(i.output));
            }
            let in1 = crate::graph::clone_scalars(&st[i.input1]);
            let in2 = crate::graph::clone_scalars(&st[i.input2]);
            let post = match execute_min(&in1, &in2, &st[i.output]) {
                Ok(p) => p,
                Err(e) => {
                    proof {
                        assert(!op_runnable(*g, inst, old(st)@));
                    }
                    return Err(e);
                },
            };
            st.set(i.output, post);
            proof {
                assert(final(st)@ =~= old(st)@.update(
                    i.output as int,
                    final(st)@[i.output as int],
                ));
                assert(op_runnable(*g, inst, old(st)@));
            }
            Ok(())
        },
        OpInstance::MinBack(i) => {
            if st[i.input1].len() != st[i.output].len() || st[i.input2].len() != st[
                i.output
            ].len() || st[i.input3].len() != st[i.output].len() {
                return Err(ExecutionError::LaneMismatch(i.output));
            }
            let in1 = crate::graph::clone_scalars(&st[i.input1]);
            let in2 = crate::graph::clone_scalars(&st[i.input2]);
            let in3 = crate::graph::clone_scalars(&st[i.input3]);
            let post = match execute_min_back(&in1, &in2, &in3, &st[i.output]) {
                Ok(p) => p,
                Err(e) => {
                    proof {
                        assert(!op_runnable(*g, inst, old(st)@));
                    }
                    return Err(e);
                },
            };
            st.set(i.output, post);
            proof {
                assert(final(st)@ =~= old(st)@.update(
                    i.output as int,
                    final(st)@[i.output as int],
                ));
                assert(op_runnable(*g, inst, old(st)@));
            }
            Ok(())
        },
        OpInstance::MulDiv(i) => {
            if st[i.input].len() != st[i.output].len() {
                return Err(ExecutionError::LaneMismatch(i.output));
            }
            let lane = lane_len(g, i.input);
            proof {
                lemma_lane_divides(g.nodes_v()[i.input as int].shape);
            }
            let input = crate::graph::clone_scalars(&st[i.input]);
            let post = match execute_muldiv(&input, &st[i.output], i.epsilon, lane) {
                Ok(p) => p,
                Err(e) => {
                    proof {
                        assert(!op_runnable(*g, inst, old(st)@));
                    }
                    return Err(e);
                },
            };
            st.set(i.output, post);
            proof {
                assert(final(st)@ =~= old(st)@.update(
                    i.output as int,
                    final(st)@[i.output as int],
                ));
                assert(op_runnable(*g, inst, old(st)@));
            }
            Ok(())
        },
        OpInstance::MulDivBack(i) => {
            if st[i.input].len() != st[i.input_grad].len() || st[i.output_grad].len() != st[
                i.input_grad
            ].len() {
                return Err(ExecutionError::LaneMismatch(i.input_grad));
            }
            let lane = lane_len(g, i.input);
            proof {
                lemma_lane_divides(g.nodes_v()[i.input as int].shape);
            }
            let input = crate::graph::clone_scalars(&st[i.input]);
            let gout = crate::graph::clone_scalars(&st[i.output_grad]);
            let post = match execute_muldiv_back(&input, &gout, &st[i.input_grad], i.epsilon, lane)
                {
                Ok(p) => p,
                Err(e) => {
                    proof {
                        assert(!op_runnable(*g, inst, old(st)@));
                    }
                    return Err(e);
                },
            };
            st.set(i.input_grad, post);
            proof {
                assert(final(st)@ =~= old(st)@.update(
                    i.input_grad as int,
                    final(st)@[i.input_grad as int],
                ));
                assert(op_runnable(*g, inst, old(st)@));
            }
            Ok(())
        },
    }
}

/// The runtime lane length of a node's resolved shape.
fn lane_len(g: &Graph, id: NodeID) -> (r: usize)
    requires
        id < g.nodes_v().len(),
        all_known(g.nodes_v()[id as int].shape),
    ensures
        r == lane_of(g.nodes_v()[id as int].shape),
        r >= 1,
{
    let shape = g.node_shape(id);
    if shape.rank() == 0 {
        1
    } else {
        let inner = shape.inner_size();
        if inner == 0 {
            1
        } else {
            inner
        }
    }
}

/// A buffer sized by a fully known shape splits evenly into its lanes.
proof fn lemma_lane_divides(shape: Seq<Dim>)
    requires
        all_known(shape),
    ensures
        size_of(shape) % lane_of(shape) == 0,
        lane_of(shape) >= 1,
{
    if shape.len() == 0 {
        lemma_mod_multiples_basic(1, 1);
    } else {
        match shape.last() {
            Dim::Known(n) => {
                if n == 0 {
                    assert(size_of(shape) == size_of(shape.drop_last()) * 0);
                    lemma_mod_multiples_basic(0, 1);
                } else {
                    lemma_mod_multiples_basic(size_of(shape.drop_last()), n as int);
                }
            },
            Dim::Unknown => {
                assert(shape[shape.len() - 1] is Known);
            },
        }
    }
}

/// Execute the whole graph: compute a true dependency order, materialize
/// storage exactly once, then run every instance once in that order. On
/// success the returned storage is exactly what executing the instances
/// along some true dependency order leaves of the materialized storage;
/// each failure names what went wrong: no order exists, a node cannot be
/// materialized, or some instance of a started execution cannot run.
pub fn execute_graph(g: &Graph) -> (r: Result<Vec<Vec<Rat>>, ExecutionError>)
    requires
        g.wf(),
    ensures
        r matches Ok(st) ==> storage_ok(*g, st@) && exists|ord: Seq<usize>, init: Seq<Vec<Rat>>|
            valid_order(g.ops@, ord) && is_materialized(g.nodes_v(), init) && executes_to(
                *g,
                ord,
                init,
                st@,
            ),
        r matches Err(e) ==> {
            &&& (e is Cycle ==> !exists|ord: Seq<usize>| valid_order(g.ops@, ord))
            &&& (e is ShapeNotResolved || e is StorageSizeMismatch ==> !materializable(
                g.nodes_v(),
            ))
            &&& (e is Overflow || e is LaneMismatch ==> exists|
                ord: Seq<usize>,
                init: Seq<Vec<Rat>>,
                k: int,
                mid: Seq<Vec<Rat>>,
            |
                valid_order(g.ops@, ord) && is_materialized(g.nodes_v(), init) && 0 <= k
                    < ord.len() && executes_to(*g, ord.take(k), init, mid) && !op_runnable(
                    *g,
                    g.ops@[ord[k] as int],
                    mid,
                ))
            &&& (e is Cycle || e is ShapeNotResolved || e is StorageSizeMismatch || e is Overflow
                || e is LaneMismatch)
        },
{
    let ord = match topo_order(&g.ops) {
        Ok(o) => o,
        Err(e) => {
            return Err(e);
        },
    };
    let mut st = match materialize(g) {
        Ok(s) => s,
        Err(e) => {
            return Err(e);
        },
    };
    let ghost init0 = st@;
    proof {
        assert(ord@.take(0) =~= Seq::<usize>::empty());
    }
    let mut k: usize = 0;
    while k < ord.len()
        invariant
            k <= ord@.len(),
            g.wf(),
            valid_order(g.ops@, ord@),
            storage_ok(*g, st@),
            is_materialized(g.nodes_v(), init0),
            executes_to(*g, ord@.take(k as int), init0, st@),
        decreases ord@.len() - k,
    {
        let inst = g.ops[ord[k]];
        proof {
            assert(g.ops@[ord@[k as int] as int].wf(g.nodes@.len() as int));
        }
        let ghost mid = st@;
        match execute_op(g, &mut st, inst) {
            Ok(()) => {},
            Err(e) => {
                proof {
                    assert(!op_runnable(*g, g.ops@[ord@[k as int] as int], mid));
                }
                return Err(e);
            },
        }
        proof {
            lemma_executes_to_snoc(*g, ord@.take(k as int), init0, mid, st@, ord@[k as int]);
            assert(ord@.take(k + 1) =~= ord@.take(k as int).push(ord@[k as int]));
        }
        k = k + 1;
    }
    proof {
        assert(ord@.take(ord@.len() as int) =~= ord@);
        assert(valid_order(g.ops@, ord@) && is_materialized(g.nodes_v(), init0) && executes_to(
            *g,
            ord@,
            init0,
            st@,
        ));
    }
    Ok(st)
}

/// Execute the graph and hand back one node's computed storage: the
/// buffer the executed storage holds for that node.
pub fn calc_node(g: &Graph, id: NodeID) -> (r: Result<Vec<Rat>, ExecutionError>)
    requires
        g.wf(),
        id < g.nodes_v().len(),
    ensures
        r matches Ok(v) ==> exists|ord: Seq<usize>, init: Seq<Vec<Rat>>, st: Seq<Vec<Rat>>|
            valid_order(g.ops@, ord) && is_materialized(g.nodes_v(), init) && executes_to(
                *g,
                ord,
                init,
                st,
            ) && st.len() == g.nodes_v().len() && v@ == st[id as int]@,
        r matches Ok(v) ==> v@.len() == size_of(g.nodes_v()[id as int].shape),
        r matches Err(e) ==> {
            &&& (e is Cycle ==> !exists|ord: Seq<usize>| valid_order(g.ops@, ord))
            &&& (e is ShapeNotResolved || e is StorageSizeMismatch ==> !materializable(
                g.nodes_v(),
            ))
            &&& (e is Overflow || e is LaneMismatch ==> exists|
                ord: Seq<usize>,
                init: Seq<Vec<Rat>>,
                k: int,
                mid: Seq<Vec<Rat>>,
            |
                valid_order(g.ops@, ord) && is_materialized(g.nodes_v(), init) && 0 <= k
                    < ord.len() && executes_to(*g, ord.take(k), init, mid) && !op_runnable(
                    *g,
                    g.ops@[ord[k] as int],
                    mid,
                ))
        },
{
    let st = match execute_graph(g) {
        Ok(s) => s,
        Err(e) => {
            return Err(e);
        },
    };
    let out = crate::graph::clone_scalars(&st[id]);
    proof {
        let (ord, init) = choose|ord: Seq<usize>, init: Seq<Vec<Rat>>|
            valid_order(g.ops@, ord) && is_materialized(g.nodes_v(), init) && executes_to(
                *g,
                ord,
                init,
                st@,
            );
        assert(valid_order(g.ops@, ord) && is_materialized(g.nodes_v(), init) && executes_to(
            *g,
            ord,
            init,
            st@,
        ) && st@.len() == g.nodes_v().len() && out@ == st@[id as int]@);
    }
    Ok(out)
}

} // verus!
