//! The execution engine's kernels.
//!
//! Each operator reads dense, contiguous-per-lane storage and accumulates
//! into its output with `+=`; a kernel never mutates its inputs and builds
//! a fresh output vector, so a failed execution changes nothing. The
//! specification functions pin every output element down exactly, overflow
//! included: a kernel returns `Overflow` precisely when some element's
//! scalar computation leaves the representable range.
use crate::errors::ExecutionError;
use crate::ops::min_back_v;
use crate::rational::{add_o, div_o, min_v, mul_o, mul_v, neg_o, neg_v, sub_o, Rat};
use vstd::arithmetic::div_mod::{
    lemma_fundamental_div_mod, lemma_fundamental_div_mod_converse, lemma_mod_multiples_vanish,
    lemma_small_mod,
};
use vstd::prelude::*;

verus! {

/// What one element of the minimum's output becomes: the old value plus
/// the elementwise minimum.
pub open spec fn min_elem(a: Rat, b: Rat, pre: Rat) -> Option<Rat> {
    add_o(Some(pre), min_v(a, b))
}

/// What one element of the backward minimum's output becomes.
pub open spec fn min_back_elem(x1: Rat, x2: Rat, g: Rat, pre: Rat) -> Option<Rat> {
    add_o(Some(pre), min_back_v(x1, x2, g))
}

/// Unwrap a scalar result, or surface the overflow.
fn need(x: Option<Rat>) -> (r: Result<Rat, ExecutionError>)
    ensures
        r matches Ok(v) ==> x == Some(v),
        r matches Err(e) ==> x is None && e == ExecutionError::Overflow,
{
    match x {
        Some(v) => Ok(v),
        None => Err(ExecutionError::Overflow),
    }
}

/// Accumulate the elementwise minimum of two equal-length inputs into the
/// old output, yielding the new output.
pub fn execute_min(in1: &Vec<Rat>, in2: &Vec<Rat>, pre: &Vec<Rat>) -> (r: Result<
    Vec<Rat>,
    ExecutionError,
>)
    requires
        in1@.len() == pre@.len(),
        in2@.len() == pre@.len(),
        forall|i: int| 0 <= i < pre@.len() ==> (#[trigger] in1@[i]).wf(),
        forall|i: int| 0 <= i < pre@.len() ==> (#[trigger] in2@[i]).wf(),
        forall|i: int| 0 <= i < pre@.len() ==> (#[trigger] pre@[i]).wf(),
    ensures
        r matches Ok(post) ==> {
            &&& post@.len() == pre@.len()
            &&& forall|i: int| 0 <= i < pre@.len() ==> Some(#[trigger] post@[i]) == min_elem(
                in1@[i],
                in2@[i],
                pre@[i],
            )
            &&& forall|i: int| 0 <= i < pre@.len() ==> (#[trigger] post@[i]).wf()
        },
        r is Ok <==> forall|i: int|
            0 <= i < pre@.len() ==> (#[trigger] min_elem(in1@[i], in2@[i], pre@[i])) is Some,
        r matches Err(e) ==> e == ExecutionError::Overflow,
{
    let mut post: Vec<Rat> = Vec::new();
    let mut i: usize = 0;
    while i < pre.len()
        invariant
            i <= pre@.len(),
            in1@.len() == pre@.len(),
            in2@.len() == pre@.len(),
            post@.len() == i,
            forall|k: int| 0 <= k < pre@.len() ==> (#[trigger] in1@[k]).wf(),
            forall|k: int| 0 <= k < pre@.len() ==> (#[trigger] in2@[k]).wf(),
            forall|k: int| 0 <= k < pre@.len() ==> (#[trigger] pre@[k]).wf(),
            forall|k: int| 0 <= k < i ==> Some(#[trigger] post@[k]) == min_elem(
                in1@[k],
                in2@[k],
                pre@[k],
            ),
            forall|k: int| 0 <= k < i ==> (#[trigger] post@[k]).wf(),
        decreases pre@.len() - i,
    {
        let m = match in1[i].min_with(in2[i]) {
            Some(v) => v,
            None => {
                proof {
                    assert(min_elem(in1@[i as int], in2@[i as int], pre@[i as int]) is None);
                }
                return Err(ExecutionError::Overflow);
            },
        };
        let v = match pre[i].add(m) {
            Some(v) => v,
            None => {
                proof {
                    assert(min_elem(in1@[i as int], in2@[i as int], pre@[i as int]) is None);
                }
                return Err(ExecutionError::Overflow);
            },
        };
        post.push(v);
        i = i + 1;
    }
    proof {
        assert forall|k: int| 0 <= k < pre@.len() implies (#[trigger] min_elem(
            in1@[k],
            in2@[k],
            pre@[k],
        )) is Some by {
            assert(Some(post@[k]) == min_elem(in1@[k], in2@[k], pre@[k]));
        }
    }
    Ok(post)
}

/// Accumulate the backward minimum into the old output, yielding the new
/// output: the output gradient flows where `in1 < in2` strictly, zero
/// elsewhere.
pub fn execute_min_back(in1: &Vec<Rat>, in2: &Vec<Rat>, in3: &Vec<Rat>, pre: &Vec<Rat>) -> (r:
    Result<Vec<Rat>, ExecutionError>)
    requires
        in1@.len() == pre@.len(),
        in2@.len() == pre@.len(),
        in3@.len() == pre@.len(),
        forall|i: int| 0 <= i < pre@.len() ==> (#[trigger] in1@[i]).wf(),
        forall|i: int| 0 <= i < pre@.len() ==> (#[trigger] in2@[i]).wf(),
        forall|i: int| 0 <= i < pre@.len() ==> (#[trigger] in3@[i]).wf(),
        forall|i: int| 0 <= i < pre@.len() ==> (#[trigger] pre@[i]).wf(),
    ensures
        r matches Ok(post) ==> {
            &&& post@.len() == pre@.len()
            &&& forall|i: int| 0 <= i < pre@.len() ==> Some(#[trigger] post@[i]) == min_back_elem(
                in1@[i],
                in2@[i],
                in3@[i],
                pre@[i],
            )
            &&& forall|i: int| 0 <= i < pre@.len() ==> (#[trigger] post@[i]).wf()
        },
        r is Ok <==> forall|i: int|
            0 <= i < pre@.len() ==> (#[trigger] min_back_elem(
                in1@[i],
                in2@[i],
                in3@[i],
                pre@[i],
            )) is Some,
        r matches Err(e) ==> e == ExecutionError::Overflow,
{
    let mut post: Vec<Rat> = Vec::new();
    let mut i: usize = 0;
    while i < pre.len()
        invariant
            i <= pre@.len(),
            in1@.len() == pre@.len(),
            in2@.len() == pre@.len(),
            in3@.len() == pre@.len(),
            post@.len() == i,
            forall|k: int| 0 <= k < pre@.len() ==> (#[trigger] in1@[k]).wf(),
            forall|k: int| 0 <= k < pre@.len() ==> (#[trigger] in2@[k]).wf(),
            forall|k: int| 0 <= k < pre@.len() ==> (#[trigger] in3@[k]).wf(),
            forall|k: int| 0 <= k < pre@.len() ==> (#[trigger] pre@[k]).wf(),
            forall|k: int| 0 <= k < i ==> Some(#[trigger] post@[k]) == min_back_elem(
                in1@[k],
                in2@[k],
                in3@[k],
                pre@[k],
            ),
            forall|k: int| 0 <= k < i ==> (#[trigger] post@[k]).wf(),
        decreases pre@.len() - i,
    {
        let f = crate::ops::MinBackFunc {};
        let m = match f.calc(in1[i], in2[i], in3[i]) {
            Some(v) => v,
            None => {
                proof {
                    assert(min_back_elem(
                        in1@[i as int],
                        in2@[i as int],
                        in3@[i as int],
                        pre@[i as int],
                    ) is None);
                }
                return Err(ExecutionError::Overflow);
            },
        };
        let v = match pre[i].add(m) {
            Some(v) => v,
            None => {
                proof {
                    assert(min_back_elem(
                        in1@[i as int],
                        in2@[i as int],
                        in3@[i as int],
                        pre@[i as int],
                    ) is None);
                }
                return Err(ExecutionError::Overflow);
            },
        };
        post.push(v);
        i = i + 1;
    }
    proof {
        assert forall|k: int| 0 <= k < pre@.len() implies (#[trigger] min_back_elem(
            in1@[k],
            in2@[k],
            in3@[k],
            pre@[k],
        )) is Some by {
            assert(Some(post@[k]) == min_back_elem(in1@[k], in2@[k], in3@[k], pre@[k]));
        }
    }
    Ok(post)
}

/// The rational two.
pub open spec fn two() -> Rat {
    Rat { n: 2, d: 1 }
}

/// The regularized divisor of one complex group: `c*c + d*d + eps*eps`.
pub open spec fn md_denom(c: Rat, d: Rat, eps: Rat) -> Option<Rat> {
    add_o(add_o(mul_v(c, c), mul_v(d, d)), mul_v(eps, eps))
}

/// Its square.
pub open spec fn md_denom2(c: Rat, d: Rat, eps: Rat) -> Option<Rat> {
    mul_o(md_denom(c, d, eps), md_denom(c, d, eps))
}

/// `(w*x).re = a*c - b*d` for the group `w = a + ib`, `x = c + id`.
pub open spec fn md_c0(a: Rat, b: Rat, c: Rat, d: Rat) -> Option<Rat> {
    sub_o(mul_v(a, c), mul_v(b, d))
}

/// `(w*x).im = a*d + b*c`.
pub open spec fn md_c1(a: Rat, b: Rat, c: Rat, d: Rat) -> Option<Rat> {
    add_o(mul_v(a, d), mul_v(b, c))
}

/// `(w/x).re = (a*c + b*d) / (c*c + d*d + eps*eps)`.
pub open spec fn md_c2(a: Rat, b: Rat, c: Rat, d: Rat, eps: Rat) -> Option<Rat> {
    div_o(add_o(mul_v(a, c), mul_v(b, d)), md_denom(c, d, eps))
}

/// `(w/x).im = (b*c - a*d) / (c*c + d*d + eps*eps)`.
pub open spec fn md_c3(a: Rat, b: Rat, c: Rat, d: Rat, eps: Rat) -> Option<Rat> {
    div_o(sub_o(mul_v(b, c), mul_v(a, d)), md_denom(c, d, eps))
}

/// What the activation contributes at flat position `p` of storage whose
/// innermost lanes have length `L`: a complex multiply/divide component
/// for a position inside a full group of four, the input itself past the
/// last full group.
pub open spec fn muldiv_contrib(input: Seq<Rat>, L: int, eps: Rat, p: int) -> Option<Rat>
    recommends
        L >= 1,
        0 <= p < input.len(),
{
    let q = p % L;
    let g0 = p - q + (q / 4) * 4;
    if q < (L / 4) * 4 {
        let a = input[g0];
        let b = input[g0 + 1];
        let c = input[g0 + 2];
        let d = input[g0 + 3];
        if q % 4 == 0 {
            md_c0(a, b, c, d)
        } else if q % 4 == 1 {
            md_c1(a, b, c, d)
        } else if q % 4 == 2 {
            md_c2(a, b, c, d, eps)
        } else {
            md_c3(a, b, c, d, eps)
        }
    } else {
        Some(input[p])
    }
}

/// The combined adjoint routed to the `a` slot: from the multiplication
/// `wg*c + xg*d`, from the division `yg*(c/denom) + zg*(-(d/denom))`.
pub open spec fn mdb_c0(a: Rat, b: Rat, c: Rat, d: Rat, wg: Rat, xg: Rat, yg: Rat, zg: Rat, eps: Rat) -> Option<Rat> {
    add_o(
        add_o(
            add_o(mul_v(wg, c), mul_v(xg, d)),
            mul_o(Some(yg), div_o(Some(c), md_denom(c, d, eps))),
        ),
        mul_o(Some(zg), neg_o(div_o(Some(d), md_denom(c, d, eps)))),
    )
}

/// The combined adjoint routed to the `b` slot.
pub open spec fn mdb_c1(a: Rat, b: Rat, c: Rat, d: Rat, wg: Rat, xg: Rat, yg: Rat, zg: Rat, eps: Rat) -> Option<Rat> {
    add_o(
        add_o(
            add_o(mul_o(Some(wg), neg_v(d)), mul_v(xg, c)),
            mul_o(Some(yg), div_o(Some(d), md_denom(c, d, eps))),
        ),
        mul_o(Some(zg), div_o(Some(c), md_denom(c, d, eps))),
    )
}

/// The combined adjoint routed to the `c` slot, with the closed-form
/// partials of the regularized division.
pub open spec fn mdb_c2(a: Rat, b: Rat, c: Rat, d: Rat, wg: Rat, xg: Rat, yg: Rat, zg: Rat, eps: Rat) -> Option<Rat> {
    add_o(
        add_o(
            add_o(mul_v(wg, a), mul_v(xg, b)),
            mul_o(
                Some(yg),
                sub_o(
                    div_o(Some(a), md_denom(c, d, eps)),
                    mul_o(
                        add_o(mul_v(a, c), mul_v(b, d)),
                        div_o(mul_v(c, two()), md_denom2(c, d, eps)),
                    ),
                ),
            ),
        ),
        mul_o(
            Some(zg),
            sub_o(
                div_o(Some(b), md_denom(c, d, eps)),
                mul_o(
                    sub_o(mul_v(b, c), mul_v(a, d)),
                    div_o(mul_v(c, two()), md_denom2(c, d, eps)),
                ),
            ),
        ),
    )
}

/// The combined adjoint routed to the `d` slot.
pub open spec fn mdb_c3(a: Rat, b: Rat, c: Rat, d: Rat, wg: Rat, xg: Rat, yg: Rat, zg: Rat, eps: Rat) -> Option<Rat> {
    add_o(
        add_o(
            add_o(mul_o(Some(wg), neg_v(b)), mul_v(xg, a)),
            mul_o(
                Some(yg),
                sub_o(
                    div_o(Some(b), md_denom(c, d, eps)),
                    mul_o(
                        add_o(mul_v(a, c), mul_v(b, d)),
                        div_o(mul_v(d, two()), md_denom2(c, d, eps)),
                    ),
                ),
            ),
        ),
        mul_o(
            Some(zg),
            sub_o(
                neg_o(div_o(Some(a), md_denom(c, d, eps))),
                mul_o(
                    sub_o(mul_v(b, c), mul_v(a, d)),
                    div_o(mul_v(d, two()), md_denom2(c, d, eps)),
                ),
            ),
        ),
    )
}

/// What the backward activation contributes at flat position `p`: the
/// combined adjoint inside full groups, the output gradient itself past
/// the last full group.
pub open spec fn muldiv_back_contrib(
    input: Seq<Rat>,
    gout: Seq<Rat>,
    L: int,
    eps: Rat,
    p: int,
) -> Option<Rat>
    recommends
        L >= 1,
        0 <= p < input.len(),
        gout.len() == input.len(),
{
    let q = p % L;
    let g0 = p - q + (q / 4) * 4;
    if q < (L / 4) * 4 {
        let a = input[g0];
        let b = input[g0 + 1];
        let c = input[g0 + 2];
        let d = input[g0 + 3];
        let wg = gout[g0];
        let xg = gout[g0 + 1];
        let yg = gout[g0 + 2];
        let zg = gout[g0 + 3];
        if q % 4 == 0 {
            mdb_c0(a, b, c, d, wg, xg, yg, zg, eps)
        } else if q % 4 == 1 {
            mdb_c1(a, b, c, d, wg, xg, yg, zg, eps)
        } else if q % 4 == 2 {
            mdb_c2(a, b, c, d, wg, xg, yg, zg, eps)
        } else {
            mdb_c3(a, b, c, d, wg, xg, yg, zg, eps)
        }
    } else {
        Some(gout[p])
    }
}

/// One output scalar of the forward activation's multiplication real
/// part, accumulated onto `pre`.
fn mdf0(a: Rat, b: Rat, c: Rat, d: Rat, pre: Rat) -> (r: Result<Rat, ExecutionError>)
    requires
        a.wf(),
        b.wf(),
        c.wf(),
        d.wf(),
        pre.wf(),
    ensures
        r matches Ok(v) ==> Some(v) == add_o(Some(pre), md_c0(a, b, c, d)) && v.wf(),
        r is Err <==> add_o(Some(pre), md_c0(a, b, c, d)) is None,
        r matches Err(e) ==> e == ExecutionError::Overflow,
{
    let m1 = need(a.mul(c))?;
    let m2 = need(b.mul(d))?;
    let w = need(m1.sub(m2))?;
    need(pre.add(w))
}

/// One output scalar of the forward activation's multiplication imaginary
/// part, accumulated onto `pre`.
fn mdf1(a: Rat, b: Rat, c: Rat, d: Rat, pre: Rat) -> (r: Result<Rat, ExecutionError>)
    requires
        a.wf(),
        b.wf(),
        c.wf(),
        d.wf(),
        pre.wf(),
    ensures
        r matches Ok(v) ==> Some(v) == add_o(Some(pre), md_c1(a, b, c, d)) && v.wf(),
        r is Err <==> add_o(Some(pre), md_c1(a, b, c, d)) is None,
        r matches Err(e) ==> e == ExecutionError::Overflow,
{
    let m1 = need(a.mul(d))?;
    let m2 = need(b.mul(c))?;
    let w = need(m1.add(m2))?;
    need(pre.add(w))
}

/// The regularized divisor of one group, as a runtime value.
fn md_denom_exec(c: Rat, d: Rat, eps: Rat) -> (r: Result<Rat, ExecutionError>)
    requires
        c.wf(),
        d.wf(),
        eps.wf(),
    ensures
        r matches Ok(v) ==> Some(v) == md_denom(c, d, eps) && v.wf(),
        r is Err <==> md_denom(c, d, eps) is None,
        r matches Err(e) ==> e == ExecutionError::Overflow,
{
    let cc = need(c.mul(c))?;
    let dd = need(d.mul(d))?;
    let s = need(cc.add(dd))?;
    let ee = need(eps.mul(eps))?;
    need(s.add(ee))
}

/// One output scalar of the forward activation's division real part,
/// accumulated onto `pre`.
fn mdf2(a: Rat, b: Rat, c: Rat, d: Rat, eps: Rat, pre: Rat) -> (r: Result<Rat, ExecutionError>)
    requires
        a.wf(),
        b.wf(),
        c.wf(),
        d.wf(),
        eps.wf(),
        pre.wf(),
    ensures
        r matches Ok(v) ==> Some(v) == add_o(Some(pre), md_c2(a, b, c, d, eps)) && v.wf(),
        r is Err <==> add_o(Some(pre), md_c2(a, b, c, d, eps)) is None,
        r matches Err(e) ==> e == ExecutionError::Overflow,
{
    let m1 = need(a.mul(c))?;
    let m2 = need(b.mul(d))?;
    let num = need(m1.add(m2))?;
    let den = md_denom_exec(c, d, eps)?;
    let w = need(num.div(den))?;
    need(pre.add(w))
}

/// One output scalar of the forward activation's division imaginary part,
/// accumulated onto `pre`.
fn mdf3(a: Rat, b: Rat, c: Rat, d: Rat, eps: Rat, pre: Rat) -> (r: Result<Rat, ExecutionError>)
    requires
        a.wf(),
        b.wf(),
        c.wf(),
        d.wf(),
        eps.wf(),
        pre.wf(),
    ensures
        r matches Ok(v) ==> Some(v) == add_o(Some(pre), md_c3(a, b, c, d, eps)) && v.wf(),
        r is Err <==> add_o(Some(pre), md_c3(a, b, c, d, eps)) is None,
        r matches Err(e) ==> e == ExecutionError::Overflow,
{
    let m1 = need(b.mul(c))?;
    let m2 = need(a.mul(d))?;
    let num = need(m1.sub(m2))?;
    let den = md_denom_exec(c, d, eps)?;
    let w = need(num.div(den))?;
    need(pre.add(w))
}

/// The adjoint scalar for the `a` slot, accumulated onto `pre`.
fn mdb0(a: Rat, b: Rat, c: Rat, d: Rat, wg: Rat, xg: Rat, yg: Rat, zg: Rat, eps: Rat, pre: Rat) -> (r: Result<Rat, ExecutionError>)
    requires
        a.wf(),
        b.wf(),
        c.wf(),
        d.wf(),
        wg.wf(),
        xg.wf(),
        yg.wf(),
        zg.wf(),
        eps.wf(),
        pre.wf(),
    ensures
        r matches Ok(v) ==> Some(v) == add_o(Some(pre), mdb_c0(a, b, c, d, wg, xg, yg, zg, eps))
            && v.wf(),
        r is Err <==> add_o(Some(pre), mdb_c0(a, b, c, d, wg, xg, yg, zg, eps)) is None,
        r matches Err(e) ==> e == ExecutionError::Overflow,
{
    let t1 = need(wg.mul(c))?;
    let t2 = need(xg.mul(d))?;
    let s1 = need(t1.add(t2))?;
    let den = md_denom_exec(c, d, eps)?;
    let cd = need(c.div(den))?;
    let t3 = need(yg.mul(cd))?;
    let s2 = need(s1.add(t3))?;
    let dd = need(d.div(den))?;
    let nd = need(dd.neg())?;
    let t4 = need(zg.mul(nd))?;
    let s3 = need(s2.add(t4))?;
    need(pre.add(s3))
}

/// The adjoint scalar for the `b` slot, accumulated onto `pre`.
fn mdb1(a: Rat, b: Rat, c: Rat, d: Rat, wg: Rat, xg: Rat, yg: Rat, zg: Rat, eps: Rat, pre: Rat) -> (r: Result<Rat, ExecutionError>)
    requires
        a.wf(),
        b.wf(),
        c.wf(),
        d.wf(),
        wg.wf(),
        xg.wf(),
        yg.wf(),
        zg.wf(),
        eps.wf(),
        pre.wf(),
    ensures
        r matches Ok(v) ==> Some(v) == add_o(Some(pre), mdb_c1(a, b, c, d, wg, xg, yg, zg, eps))
            && v.wf(),
        r is Err <==> add_o(Some(pre), mdb_c1(a, b, c, d, wg, xg, yg, zg, eps)) is None,
        r matches Err(e) ==> e == ExecutionError::Overflow,
{
    let nd = need(d.neg())?;
    let t1 = need(wg.mul(nd))?;
    let t2 = need(xg.mul(c))?;
    let s1 = need(t1.add(t2))?;
    let den = md_denom_exec(c, d, eps)?;
    let dd = need(d.div(den))?;
    let t3 = need(yg.mul(dd))?;
    let s2 = need(s1.add(t3))?;
    let cd = need(c.div(den))?;
    let t4 = need(zg.mul(cd))?;
    let s3 = need(s2.add(t4))?;
    need(pre.add(s3))
}

/// The adjoint scalar for the `c` slot, accumulated onto `pre`.
fn mdb2(a: Rat, b: Rat, c: Rat, d: Rat, wg: Rat, xg: Rat, yg: Rat, zg: Rat, eps: Rat, pre: Rat) -> (r: Result<Rat, ExecutionError>)
    requires
        a.wf(),
        b.wf(),
        c.wf(),
        d.wf(),
        wg.wf(),
        xg.wf(),
        yg.wf(),
        zg.wf(),
        eps.wf(),
        pre.wf(),
    ensures
        r matches Ok(v) ==> Some(v) == add_o(Some(pre), mdb_c2(a, b, c, d, wg, xg, yg, zg, eps))
            && v.wf(),
        r is Err <==> add_o(Some(pre), mdb_c2(a, b, c, d, wg, xg, yg, zg, eps)) is None,
        r matches Err(e) ==> e == ExecutionError::Overflow,
{
    let t1 = need(wg.mul(a))?;
    let t2 = need(xg.mul(b))?;
    let s1 = need(t1.add(t2))?;
    let den = md_denom_exec(c, d, eps)?;
    let den2 = need(den.mul(den))?;
    let ad = need(a.div(den))?;
    let m1 = need(a.mul(c))?;
    let m2 = need(b.mul(d))?;
    let acbd = need(m1.add(m2))?;
    let c2 = need(c.mul(Rat { n: 2, d: 1 }))?;
    let c2q = need(c2.div(den2))?;
    let prod = need(acbd.mul(c2q))?;
    let ygt = need(ad.sub(prod))?;
    let t3 = need(yg.mul(ygt))?;
    let s2 = need(s1.add(t3))?;
    let bd = need(b.div(den))?;
    let m3 = need(b.mul(c))?;
    let m4 = need(a.mul(d))?;
    let bcad = need(m3.sub(m4))?;
    let prod2 = need(bcad.mul(c2q))?;
    let zgt = need(bd.sub(prod2))?;
    let t4 = need(zg.mul(zgt))?;
    let s3 = need(s2.add(t4))?;
    need(pre.add(s3))
}

/// The adjoint scalar for the `d` slot, accumulated onto `pre`.
fn mdb3(a: Rat, b: Rat, c: Rat, d: Rat, wg: Rat, xg: Rat, yg: Rat, zg: Rat, eps: Rat, pre: Rat) -> (r: Result<Rat, ExecutionError>)
    requires
        a.wf(),
        b.wf(),
        c.wf(),
        d.wf(),
        wg.wf(),
        xg.wf(),
        yg.wf(),
        zg.wf(),
        eps.wf(),
        pre.wf(),
    ensures
        r matches Ok(v) ==> Some(v) == add_o(Some(pre), mdb_c3(a, b, c, d, wg, xg, yg, zg, eps))
            && v.wf(),
        r is Err <==> add_o(Some(pre), mdb_c3(a, b, c, d, wg, xg, yg, zg, eps)) is None,
        r matches Err(e) ==> e == ExecutionError::Overflow,
{
    let nb = need(b.neg())?;
    let t1 = need(wg.mul(nb))?;
    let t2 = need(xg.mul(a))?;
    let s1 = need(t1.add(t2))?;
    let den = md_denom_exec(c, d, eps)?;
    let den2 = need(den.mul(den))?;
    let bd = need(b.div(den))?;
    let m1 = need(a.mul(c))?;
    let m2 = need(b.mul(d))?;
    let acbd = need(m1.add(m2))?;
    let d2 = need(d.mul(Rat { n: 2, d: 1 }))?;
    let d2q = need(d2.div(den2))?;
    let prod = need(acbd.mul(d2q))?;
    let ygt = need(bd.sub(prod))?;
    let t3 = need(yg.mul(ygt))?;
    let s2 = need(s1.add(t3))?;
    let ad = need(a.div(den))?;
    let nad = need(ad.neg())?;
    let m3 = need(b.mul(c))?;
    let m4 = need(a.mul(d))?;
    let bcad = need(m3.sub(m4))?;
    let prod2 = need(bcad.mul(d2q))?;
    let zgt = need(nad.sub(prod2))?;
    let t4 = need(zg.mul(zgt))?;
    let s3 = need(s2.add(t4))?;
    need(pre.add(s3))
}

/// Two multiples of a lane length that differ by less than a lane are a
/// full lane apart.
proof fn lemma_step_bound(a: int, b: int, l: int)
    requires
        l > 0,
        a % l == 0,
        b % l == 0,
        a < b,
    ensures
        a + l <= b,
{
    lemma_fundamental_div_mod(a, l);
    lemma_fundamental_div_mod(b, l);
    assert(a / l < b / l) by (nonlinear_arith)
        requires
            a == l * (a / l),
            b == l * (b / l),
            a < b,
            l > 0,
    ;
    assert(a + l <= b) by (nonlinear_arith)
        requires
            a == l * (a / l),
            b == l * (b / l),
            a / l < b / l,
            l > 0,
    ;
}

/// Where a full-group element sits: flat position `base + 4*g + off` has
/// lane position `4*g + off`, lies in the group region, and its group
/// starts at `base + 4*g`.
proof fn lemma_group_pos(base: int, g: int, off: int, l: int, len: int)
    requires
        l >= 1,
        base >= 0,
        base % l == 0,
        0 <= off < 4,
        0 <= g < l / 4,
        base + l <= len,
    ensures
        (base + 4 * g + off) % l == 4 * g + off,
        4 * g + off < (l / 4) * 4,
        (4 * g + off) % 4 == off,
        (4 * g + off) / 4 == g,
        base + 4 * g + 3 < len,
        base + 4 * g + off < len,
{
    lemma_fundamental_div_mod(l, 4);
    assert(4 * g + 3 < (l / 4) * 4 + 4) by (nonlinear_arith)
        requires
            g < l / 4,
    ;
    assert((l / 4) * 4 <= l);
    let q = 4 * g + off;
    assert(q < l);
    lemma_fundamental_div_mod(base, l);
    lemma_mod_multiples_vanish(base / l, q, l);
    lemma_small_mod(q as nat, l as nat);
    lemma_fundamental_div_mod_converse(q, 4, g, off);
    assert(4 * g + off < (l / 4) * 4) by (nonlinear_arith)
        requires
            g < l / 4,
            0 <= off < 4,
    ;
}

/// Where a remainder element sits: flat position `base + q` for a lane
/// position `q` past the last full group keeps its lane position.
proof fn lemma_rem_pos(base: int, q: int, l: int, len: int)
    requires
        l >= 1,
        base >= 0,
        base % l == 0,
        0 <= q < l,
        base + l <= len,
    ensures
        (base + q) % l == q,
        base + q < len,
{
    lemma_fundamental_div_mod(base, l);
    lemma_mod_multiples_vanish(base / l, q, l);
    lemma_small_mod(q as nat, l as nat);
}

/// Accumulate the complex multiply/divide activation of `input` into the
/// old output `pre`, lane by lane, yielding the new output.
pub fn execute_muldiv(input: &Vec<Rat>, pre: &Vec<Rat>, eps: Rat, lane: usize) -> (r: Result<
    Vec<Rat>,
    ExecutionError,
>)
    requires
        input@.len() == pre@.len(),
        lane >= 1,
        pre@.len() as int % lane as int == 0,
        eps.wf(),
        forall|i: int| 0 <= i < pre@.len() ==> (#[trigger] input@[i]).wf(),
        forall|i: int| 0 <= i < pre@.len() ==> (#[trigger] pre@[i]).wf(),
    ensures
        r matches Ok(post) ==> {
            &&& post@.len() == pre@.len()
            &&& forall|p: int| 0 <= p < pre@.len() ==> Some(#[trigger] post@[p]) == add_o(
                Some(pre@[p]),
                muldiv_contrib(input@, lane as int, eps, p),
            )
            &&& forall|p: int| 0 <= p < pre@.len() ==> (#[trigger] post@[p]).wf()
        },
        r is Ok <==> forall|p: int|
            0 <= p < pre@.len() ==> (#[trigger] add_o(
                Some(pre@[p]),
                muldiv_contrib(input@, lane as int, eps, p),
            )) is Some,
        r matches Err(e) ==> e == ExecutionError::Overflow,
{
    let len = pre.len();
    let groups = lane / 4;
    let rem_start = groups * 4;
    proof {
        lemma_fundamental_div_mod(lane as int, 4);
    }
    let mut post: Vec<Rat> = Vec::new();
    let mut base: usize = 0;
    while base < len
        invariant
            base <= len,
            len == pre@.len(),
            input@.len() == len,
            lane >= 1,
            groups == lane / 4,
            rem_start == groups * 4,
            rem_start <= lane,
            base as int % lane as int == 0,
            len as int % lane as int == 0,
            eps.wf(),
            post@.len() == base,
            forall|i: int| 0 <= i < len ==> (#[trigger] input@[i]).wf(),
            forall|i: int| 0 <= i < len ==> (#[trigger] pre@[i]).wf(),
            forall|p: int| 0 <= p < base ==> Some(#[trigger] post@[p]) == add_o(
                Some(pre@[p]),
                muldiv_contrib(input@, lane as int, eps, p),
            ),
            forall|p: int| 0 <= p < base ==> (#[trigger] post@[p]).wf(),
        decreases len - base,
    {
        proof {
            lemma_step_bound(base as int, len as int, lane as int);
        }
        let mut g: usize = 0;
        while g < groups
            invariant
                g <= groups,
                base + lane <= len,
                len == pre@.len(),
                input@.len() == len,
                lane >= 1,
                groups == lane / 4,
                rem_start == groups * 4,
                rem_start <= lane,
                base as int % lane as int == 0,
                eps.wf(),
                post@.len() == base + 4 * g,
                forall|i: int| 0 <= i < len ==> (#[trigger] input@[i]).wf(),
                forall|i: int| 0 <= i < len ==> (#[trigger] pre@[i]).wf(),
                forall|p: int| 0 <= p < base + 4 * g ==> Some(#[trigger] post@[p]) == add_o(
                    Some(pre@[p]),
                    muldiv_contrib(input@, lane as int, eps, p),
                ),
                forall|p: int| 0 <= p < base + 4 * g ==> (#[trigger] post@[p]).wf(),
            decreases groups - g,
        {
            proof {
                lemma_group_pos(base as int, g as int, 0, lane as int, len as int);
                lemma_group_pos(base as int, g as int, 1, lane as int, len as int);
                lemma_group_pos(base as int, g as int, 2, lane as int, len as int);
                lemma_group_pos(base as int, g as int, 3, lane as int, len as int);
            }
            let i0 = base + 4 * g;
            let a = input[i0];
            let b = input[i0 + 1];
            let c = input[i0 + 2];
            let d = input[i0 + 3];
            proof {
                assert(muldiv_contrib(input@, lane as int, eps, i0 as int) == md_c0(a, b, c, d));
                assert(muldiv_contrib(input@, lane as int, eps, i0 + 1) == md_c1(a, b, c, d));
                assert(muldiv_contrib(input@, lane as int, eps, i0 + 2) == md_c2(
                    a,
                    b,
                    c,
                    d,
                    eps,
                ));
                assert(muldiv_contrib(input@, lane as int, eps, i0 + 3) == md_c3(
                    a,
                    b,
                    c,
                    d,
                    eps,
                ));
            }
            let v0 = match mdf0(a, b, c, d, pre[i0]) {
                Ok(v) => v,
                Err(e) => {
                    return Err(e);
                },
            };
            let v1 = match mdf1(a, b, c, d, pre[i0 + 1]) {
                Ok(v) => v,
                Err(e) => {
                    return Err(e);
                },
            };
            let v2 = match mdf2(a, b, c, d, eps, pre[i0 + 2]) {
                Ok(v) => v,
                Err(e) => {
                    return Err(e);
                },
            };
            let v3 = match mdf3(a, b, c, d, eps, pre[i0 + 3]) {
                Ok(v) => v,
                Err(e) => {
                    return Err(e);
                },
            };
            post.push(v0);
            post.push(v1);
            post.push(v2);
            post.push(v3);
            proof {
                assert(post@[i0 as int] == v0);
                assert(post@[i0 + 1] == v1);
                assert(post@[i0 + 2] == v2);
                assert(post@[i0 + 3] == v3);
            }
            g = g + 1;
        }
        let mut q: usize = rem_start;
        while q < lane
            invariant
                rem_start <= q <= lane,
                base + lane <= len,
                len == pre@.len(),
                input@.len() == len,
                lane >= 1,
                groups == lane / 4,
                rem_start == groups * 4,
                base as int % lane as int == 0,
                eps.wf(),
                post@.len() == base + q,
                forall|i: int| 0 <= i < len ==> (#[trigger] input@[i]).wf(),
                forall|i: int| 0 <= i < len ==> (#[trigger] pre@[i]).wf(),
                forall|p: int| 0 <= p < base + q ==> Some(#[trigger] post@[p]) == add_o(
                    Some(pre@[p]),
                    muldiv_contrib(input@, lane as int, eps, p),
                ),
                forall|p: int| 0 <= p < base + q ==> (#[trigger] post@[p]).wf(),
            decreases lane - q,
        {
            proof {
                lemma_rem_pos(base as int, q as int, lane as int, len as int);
            }
            let p = base + q;
            let v = match pre[p].add(input[p]) {
                Some(v) => v,
                None => {
                    proof {
                        assert(add_o(
                            Some(pre@[p as int]),
                            muldiv_contrib(input@, lane as int, eps, p as int),
                        ) is None);
                    }
                    return Err(ExecutionError::Overflow);
                },
            };
            post.push(v);
            q = q + 1;
        }
        proof {
            lemma_mod_multiples_vanish(1, base as int, lane as int);
        }
        base = base + lane;
    }
    proof {
        assert forall|p: int| 0 <= p < pre@.len() implies (#[trigger] add_o(
            Some(pre@[p]),
            muldiv_contrib(input@, lane as int, eps, p),
        )) is Some by {
            assert(Some(post@[p]) == add_o(
                Some(pre@[p]),
                muldiv_contrib(input@, lane as int, eps, p),
            ));
        }
    }
    Ok(post)
}

/// Accumulate the combined adjoint of the activation into the old input
/// gradient `pre`, lane by lane, yielding the new input gradient. `input`
/// holds the forward input, `gout` the gradient of the forward output.
#[verifier::rlimit(100)]
pub fn execute_muldiv_back(
    input: &Vec<Rat>,
    gout: &Vec<Rat>,
    pre: &Vec<Rat>,
    eps: Rat,
    lane: usize,
) -> (r: Result<Vec<Rat>, ExecutionError>)
    requires
        input@.len() == pre@.len(),
        gout@.len() == pre@.len(),
        lane >= 1,
        pre@.len() as int % lane as int == 0,
        eps.wf(),
        forall|i: int| 0 <= i < pre@.len() ==> (#[trigger] input@[i]).wf(),
        forall|i: int| 0 <= i < pre@.len() ==> (#[trigger] gout@[i]).wf(),
        forall|i: int| 0 <= i < pre@.len() ==> (#[trigger] pre@[i]).wf(),
    ensures
        r matches Ok(post) ==> {
            &&& post@.len() == pre@.len()
            &&& forall|p: int| 0 <= p < pre@.len() ==> Some(#[trigger] post@[p]) == add_o(
                Some(pre@[p]),
                muldiv_back_contrib(input@, gout@, lane as int, eps, p),
            )
            &&& forall|p: int| 0 <= p < pre@.len() ==> (#[trigger] post@[p]).wf()
        },
        r is Ok <==> forall|p: int|
            0 <= p < pre@.len() ==> (#[trigger] add_o(
                Some(pre@[p]),
                muldiv_back_contrib(input@, gout@, lane as int, eps, p),
            )) is Some,
        r matches Err(e) ==> e == ExecutionError::Overflow,
{
    let len = pre.len();
    let groups = lane / 4;
    let rem_start = groups * 4;
    proof {
        lemma_fundamental_div_mod(lane as int, 4);
    }
    let mut post: Vec<Rat> = Vec::new();
    let mut base: usize = 0;
    while base < len
        invariant
            base <= len,
            len == pre@.len(),
            input@.len() == len,
            gout@.len() == len,
            lane >= 1,
            groups == lane / 4,
            rem_start == groups * 4,
            rem_start <= lane,
            base as int % lane as int == 0,
            len as int % lane as int == 0,
            eps.wf(),
            post@.len() == base,
            forall|i: int| 0 <= i < len ==> (#[trigger] input@[i]).wf(),
            forall|i: int| 0 <= i < len ==> (#[trigger] gout@[i]).wf(),
            forall|i: int| 0 <= i < len ==> (#[trigger] pre@[i]).wf(),
            forall|p: int| 0 <= p < base ==> Some(#[trigger] post@[p]) == add_o(
                Some(pre@[p]),
                muldiv_back_contrib(input@, gout@, lane as int, eps, p),
            ),
            forall|p: int| 0 <= p < base ==> (#[trigger] post@[p]).wf(),
        decreases len - base,
    {
        proof {
            lemma_step_bound(base as int, len as int, lane as int);
        }
        let mut g: usize = 0;
        while g < groups
            invariant
                g <= groups,
                base + lane <= len,
                len == pre@.len(),
                input@.len() == len,
                gout@.len() == len,
                lane >= 1,
                groups == lane / 4,
                rem_start == groups * 4,
                rem_start <= lane,
                base as int % lane as int == 0,
                eps.wf(),
                post@.len() == base + 4 * g,
                forall|i: int| 0 <= i < len ==> (#[trigger] input@[i]).wf(),
                forall|i: int| 0 <= i < len ==> (#[trigger] gout@[i]).wf(),
                forall|i: int| 0 <= i < len ==> (#[trigger] pre@[i]).wf(),
                forall|p: int| 0 <= p < base + 4 * g ==> Some(#[trigger] post@[p]) == add_o(
                    Some(pre@[p]),
                    muldiv_back_contrib(input@, gout@, lane as int, eps, p),
                ),
                forall|p: int| 0 <= p < base + 4 * g ==> (#[trigger] post@[p]).wf(),
            decreases groups - g,
        {
            proof {
                lemma_group_pos(base as int, g as int, 0, lane as int, len as int);
                lemma_group_pos(base as int, g as int, 1, lane as int, len as int);
                lemma_group_pos(base as int, g as int, 2, lane as int, len as int);
                lemma_group_pos(base as int, g as int, 3, lane as int, len as int);
            }
            let i0 = base + 4 * g;
            let a = input[i0];
            let b = input[i0 + 1];
            let c = input[i0 + 2];
            let d = input[i0 + 3];
            let wg = gout[i0];
            let xg = gout[i0 + 1];
            let yg = gout[i0 + 2];
            let zg = gout[i0 + 3];
            proof {
                assert(muldiv_back_contrib(input@, gout@, lane as int, eps, i0 as int) == mdb_c0(
                    a, b, c, d, wg, xg, yg, zg, eps,
                ));
                assert(muldiv_back_contrib(input@, gout@, lane as int, eps, i0 + 1) == mdb_c1(
                    a, b, c, d, wg, xg, yg, zg, eps,
                ));
                assert(muldiv_back_contrib(input@, gout@, lane as int, eps, i0 + 2) == mdb_c2(
                    a, b, c, d, wg, xg, yg, zg, eps,
                ));
                assert(muldiv_back_contrib(input@, gout@, lane as int, eps, i0 + 3) == mdb_c3(
                    a, b, c, d, wg, xg, yg, zg, eps,
                ));
            }
            let v0 = match mdb0(a, b, c, d, wg, xg, yg, zg, eps, pre[i0]) {
                Ok(v) => v,
                Err(e) => {
                    return Err(e);
                },
            };
            let v1 = match mdb1(a, b, c, d, wg, xg, yg, zg, eps, pre[i0 + 1]) {
                Ok(v) => v,
                Err(e) => {
                    return Err(e);
                },
            };
            let v2 = match mdb2(a, b, c, d, wg, xg, yg, zg, eps, pre[i0 + 2]) {
                Ok(v) => v,
                Err(e) => {
                    return Err(e);
                },
            };
            let v3 = match mdb3(a, b, c, d, wg, xg, yg, zg, eps, pre[i0 + 3]) {
                Ok(v) => v,
                Err(e) => {
                    return Err(e);
                },
            };
            post.push(v0);
            post.push(v1);
            post.push(v2);
            post.push(v3);
            proof {
                assert(post@[i0 as int] == v0);
                assert(post@[i0 + 1] == v1);
                assert(post@[i0 + 2] == v2);
                assert(post@[i0 + 3] == v3);
            }
            g = g + 1;
        }
        let mut q: usize = rem_start;
        while q < lane
            invariant
                rem_start <= q <= lane,
                base + lane <= len,
                len == pre@.len(),
                input@.len() == len,
                gout@.len() == len,
                lane >= 1,
                groups == lane / 4,
                rem_start == groups * 4,
                base as int % lane as int == 0,
                eps.wf(),
                post@.len() == base + q,
                forall|i: int| 0 <= i < len ==> (#[trigger] input@[i]).wf(),
                forall|i: int| 0 <= i < len ==> (#[trigger] gout@[i]).wf(),
                forall|i: int| 0 <= i < len ==> (#[trigger] pre@[i]).wf(),
                forall|p: int| 0 <= p < base + q ==> Some(#[trigger] post@[p]) == add_o(
                    Some(pre@[p]),
                    muldiv_back_contrib(input@, gout@, lane as int, eps, p),
                ),
                forall|p: int| 0 <= p < base + q ==> (#[trigger] post@[p]).wf(),
            decreases lane - q,
        {
            proof {
                lemma_rem_pos(base as int, q as int, lane as int, len as int);
            }
            let p = base + q;
            let v = match pre[p].add(gout[p]) {
                Some(v) => v,
                None => {
                    proof {
                        assert(add_o(
                            Some(pre@[p as int]),
                            muldiv_back_contrib(input@, gout@, lane as int, eps, p as int),
                        ) is None);
                    }
                    return Err(ExecutionError::Overflow);
                },
            };
            post.push(v);
            q = q + 1;
        }
        proof {
            lemma_mod_multiples_vanish(1, base as int, lane as int);
        }
        base = base + lane;
    }
    proof {
        assert forall|p: int| 0 <= p < pre@.len() implies (#[trigger] add_o(
            Some(pre@[p]),
            muldiv_back_contrib(input@, gout@, lane as int, eps, p),
        )) is Some by {
            assert(Some(post@[p]) == add_o(
                Some(pre@[p]),
                muldiv_back_contrib(input@, gout@, lane as int, eps, p),
            ));
        }
    }
    Ok(post)
}

/// Two equal elementwise accumulations from equal storage yield equal
/// storage: an operator's execution is a function of its explicit inputs
/// and old output alone, so running one instance twice from a freshly
/// zeroed buffer leaves exactly what running it once leaves.
pub proof fn lemma_execution_deterministic(a: Seq<Rat>, b: Seq<Rat>, f: spec_fn(int) -> Option<
    Rat,
>)
    requires
        a.len() == b.len(),
        forall|p: int| 0 <= p < a.len() ==> Some(#[trigger] a[p]) == f(p),
        forall|p: int| 0 <= p < b.len() ==> Some(#[trigger] b[p]) == f(p),
    ensures
        a == b,
{
    assert forall|p: int| 0 <= p < a.len() implies a[p] == b[p] by {
        assert(Some(a[p]) == f(p));
        assert(Some(b[p]) == f(p));
    }
    assert(a =~= b);
}

} // verus!
