//! Exact rational scalars.
//!
//! Tensor elements are rationals `n / d` held as a pair of machine integers
//! with a positive denominator. Every arithmetic operation reduces its result
//! by the greatest common divisor of numerator and denominator, and reports
//! `None` when an intermediate value cannot be held in an `i128`; the
//! specification functions (`add_v`, `mul_v`, ...) pin down both the value
//! produced and exactly when an operation overflows.
use vstd::arithmetic::div_mod::{
    lemma_fundamental_div_mod, lemma_mod_multiples_basic,
};
use vstd::prelude::*;

verus! {

/// Whether a mathematical integer can be held in an `i128`.
pub open spec fn fits(x: int) -> bool {
    i128::MIN <= x <= i128::MAX
}

/// Greatest common divisor of two non-negative integers, by Euclid's scheme.
pub open spec fn gcd_nat(a: int, b: int) -> int
    recommends
        a >= 0,
        b >= 0,
    decreases b when b >= 0
{
    if b <= 0 {
        a
    } else {
        gcd_nat(b, a % b)
    }
}

/// The gcd of two non-negative integers, not both zero, is positive and
/// divides both.
pub proof fn lemma_gcd_divides(a: int, b: int)
    requires
        a >= 0,
        b >= 0,
        a > 0 || b > 0,
    ensures
        gcd_nat(a, b) > 0,
        a % gcd_nat(a, b) == 0,
        b % gcd_nat(a, b) == 0,
    decreases b,
{
    if b == 0 {
        assert(a % a == 0) by {
            lemma_mod_multiples_basic(1, a);
        }
        assert(0int % a == 0) by {
            lemma_mod_multiples_basic(0, a);
        }
    } else {
        lemma_gcd_divides(b, a % b);
        let g = gcd_nat(b, a % b);
        lemma_fundamental_div_mod(a, b);
        lemma_fundamental_div_mod(b, g);
        lemma_fundamental_div_mod(a % b, g);
        let q = a / b;
        let bq = b / g;
        let rq = (a % b) / g;
        assert(a == (g * bq) * q + g * rq);
        assert(a == (bq * q + rq) * g) by (nonlinear_arith)
            requires
                a == (g * bq) * q + g * rq,
        ;
        assert(((bq * q + rq) * g) % g == 0) by {
            lemma_mod_multiples_basic(bq * q + rq, g);
        }
    }
}

/// A scalar: the exact rational number `n / d`.
#[derive(Clone, Copy, Debug, PartialEq, Eq, Structural)]
pub struct Rat {
    pub n: i128,
    pub d: i128,
}

impl Rat {
    /// Well-formed: the denominator is positive.
    pub open spec fn wf(self) -> bool {
        self.d > 0
    }

    /// Value equality by cross multiplication.
    pub open spec fn same(self, o: Rat) -> bool {
        self.n * o.d == o.n * self.d
    }

    /// Value ordering by cross multiplication (denominators positive).
    pub open spec fn spec_le(self, o: Rat) -> bool {
        self.n * o.d <= o.n * self.d
    }

    /// Strict value ordering by cross multiplication.
    pub open spec fn spec_lt(self, o: Rat) -> bool {
        self.n * o.d < o.n * self.d
    }

    /// The rational zero.
    pub open spec fn spec_zero() -> Rat {
        Rat { n: 0, d: 1 }
    }

    /// The rational zero, as a runtime value.
    pub fn zero() -> (r: Rat)
        ensures
            r == Rat::spec_zero(),
            r.wf(),
    {
        Rat { n: 0, d: 1 }
    }

    /// A whole number as a rational.
    pub fn whole(n: i128) -> (r: Rat)
        ensures
            r == (Rat { n, d: 1 }),
            r.wf(),
    {
        Rat { n, d: 1 }
    }

    /// A rational from numerator and positive denominator, fully reduced.
    pub fn new(n: i128, d: i128) -> (r: Rat)
        requires
            d > 0,
        ensures
            r == reduce_v(Rat { n, d }),
            r.wf(),
    {
        reduce(Rat { n, d })
    }

    /// Whether the value is zero.
    pub fn is_zero(&self) -> (r: bool)
        requires
            self.wf(),
        ensures
            r == (self.n == 0),
    {
        self.n == 0
    }
}

/// The reduced form of a well-formed rational: numerator and denominator
/// divided by their gcd, with the sign kept on the numerator. The one
/// numerator that has no positive negation is left as it stands.
pub open spec fn reduce_v(r: Rat) -> Rat
    recommends
        r.wf(),
{
    if r.n == i128::MIN {
        r
    } else {
        let m = if r.n < 0 {
            -r.n as int
        } else {
            r.n as int
        };
        let g = gcd_nat(m, r.d as int);
        let m2 = m / g;
        let d2 = r.d as int / g;
        Rat { n: if r.n < 0 { (-m2) as i128 } else { m2 as i128 }, d: d2 as i128 }
    }
}

/// Reducing preserves the denoted value and well-formedness.
pub proof fn lemma_reduce_same(r: Rat)
    requires
        r.wf(),
    ensures
        reduce_v(r).wf(),
        reduce_v(r).same(r),
        r.same(reduce_v(r)),
{
    if r.n == i128::MIN {
    } else {
        let m = if r.n < 0 {
            -r.n as int
        } else {
            r.n as int
        };
        let d = r.d as int;
        lemma_gcd_divides(m, d);
        let g = gcd_nat(m, d);
        lemma_fundamental_div_mod(m, g);
        lemma_fundamental_div_mod(d, g);
        let m2 = m / g;
        let d2 = d / g;
        assert(m == g * m2 && d == g * d2);
        assert(d2 > 0) by (nonlinear_arith)
            requires
                d == g * d2,
                d > 0,
                g > 0,
        ;
        assert(m2 >= 0) by (nonlinear_arith)
            requires
                m == g * m2,
                m >= 0,
                g > 0,
        ;
        assert(m2 * d == m * d2) by (nonlinear_arith)
            requires
                m == g * m2,
                d == g * d2,
        ;
        if r.n < 0 {
            assert((-m2) * r.d == r.n * d2) by (nonlinear_arith)
                requires
                    m2 * (r.d as int) == m * d2,
                    m == -r.n as int,
            ;
        }
    }
}

/// Reduce a rational by the gcd of numerator and denominator.
pub fn reduce(r: Rat) -> (s: Rat)
    requires
        r.wf(),
    ensures
        s == reduce_v(r),
        s.wf(),
{
    proof {
        lemma_reduce_same(r);
    }
    if r.n == i128::MIN {
        return r;
    }
    let m: i128 = if r.n < 0 {
        -r.n
    } else {
        r.n
    };
    proof {
        lemma_gcd_divides(m as int, r.d as int);
    }
    let g: i128 = gcd_i128(m, r.d);
    let m2: i128 = m / g;
    let d2: i128 = r.d / g;
    if r.n < 0 {
        Rat { n: -m2, d: d2 }
    } else {
        Rat { n: m2, d: d2 }
    }
}

/// Euclid's algorithm on non-negative machine integers.
pub fn gcd_i128(a: i128, b: i128) -> (g: i128)
    requires
        a >= 0,
        b >= 0,
    ensures
        g == gcd_nat(a as int, b as int),
{
    let mut x: i128 = a;
    let mut y: i128 = b;
    while y != 0
        invariant
            x >= 0,
            y >= 0,
            gcd_nat(x as int, y as int) == gcd_nat(a as int, b as int),
        decreases y,
    {
        let r: i128 = x % y;
        x = y;
        y = r;
    }
    x
}

/// Sum of two rationals: `None` exactly when an intermediate product or the
/// numerator sum cannot be held in an `i128`.
pub open spec fn add_v(a: Rat, b: Rat) -> Option<Rat> {
    let t1 = a.n * b.d;
    let t2 = b.n * a.d;
    let nn = t1 + t2;
    let dd = a.d * b.d;
    if fits(t1) && fits(t2) && fits(nn) && fits(dd) {
        Some(reduce_v(Rat { n: nn as i128, d: dd as i128 }))
    } else {
        None
    }
}

/// Negation: defined for every numerator that has a negation in `i128`.
pub open spec fn neg_v(a: Rat) -> Option<Rat> {
    if a.n == i128::MIN {
        None
    } else {
        Some(Rat { n: (-a.n as int) as i128, d: a.d })
    }
}

/// Difference of two rationals.
pub open spec fn sub_v(a: Rat, b: Rat) -> Option<Rat> {
    match neg_v(b) {
        Some(nb) => add_v(a, nb),
        None => None,
    }
}

/// Product of two rationals.
pub open spec fn mul_v(a: Rat, b: Rat) -> Option<Rat> {
    let nn = a.n * b.n;
    let dd = a.d * b.d;
    if fits(nn) && fits(dd) {
        Some(reduce_v(Rat { n: nn as i128, d: dd as i128 }))
    } else {
        None
    }
}

/// Quotient of two rationals: `None` when the divisor is zero or an
/// intermediate does not fit.
pub open spec fn div_v(a: Rat, b: Rat) -> Option<Rat> {
    if b.n == 0 {
        None
    } else {
        let nn0 = a.n * b.d;
        let dd0 = a.d * b.n;
        if fits(nn0) && fits(dd0) && fits(-nn0) && fits(-dd0) {
            let nn = if b.n < 0 {
                -nn0
            } else {
                nn0
            };
            let dd = if b.n < 0 {
                -dd0
            } else {
                dd0
            };
            Some(reduce_v(Rat { n: nn as i128, d: dd as i128 }))
        } else {
            None
        }
    }
}

/// Order test: `None` exactly when a cross product cannot be held.
pub open spec fn le_v(a: Rat, b: Rat) -> Option<bool> {
    if fits(a.n * b.d) && fits(b.n * a.d) {
        Some(a.n * b.d <= b.n * a.d)
    } else {
        None
    }
}

/// The smaller of two rationals; ties yield the first argument.
pub open spec fn min_v(a: Rat, b: Rat) -> Option<Rat> {
    match le_v(a, b) {
        Some(t) => Some(if t { a } else { b }),
        None => None,
    }
}

impl Rat {
    /// Sum, reduced; `None` on overflow.
    pub fn add(self, b: Rat) -> (r: Option<Rat>)
        requires
            self.wf(),
            b.wf(),
        ensures
            r == add_v(self, b),
            r matches Some(c) ==> c.wf(),
    {
        let t1: i128 = match self.n.checked_mul(b.d) {
            Some(v) => v,
            None => {
                return None;
            },
        };
        let t2: i128 = match b.n.checked_mul(self.d) {
            Some(v) => v,
            None => {
                return None;
            },
        };
        let nn: i128 = match t1.checked_add(t2) {
            Some(v) => v,
            None => {
                return None;
            },
        };
        let dd: i128 = match self.d.checked_mul(b.d) {
            Some(v) => v,
            None => {
                return None;
            },
        };
        proof {
            assert(self.d * b.d > 0) by (nonlinear_arith)
                requires
                    self.d > 0,
                    b.d > 0,
            ;
        }
        Some(reduce(Rat { n: nn, d: dd }))
    }

    /// Negation; `None` only for the one numerator without one.
    pub fn neg(self) -> (r: Option<Rat>)
        requires
            self.wf(),
        ensures
            r == neg_v(self),
            r matches Some(c) ==> c.wf(),
    {
        if self.n == i128::MIN {
            None
        } else {
            Some(Rat { n: -self.n, d: self.d })
        }
    }

    /// Difference, reduced; `None` on overflow.
    pub fn sub(self, b: Rat) -> (r: Option<Rat>)
        requires
            self.wf(),
            b.wf(),
        ensures
            r == sub_v(self, b),
            r matches Some(c) ==> c.wf(),
    {
        match b.neg() {
            Some(nb) => self.add(nb),
            None => None,
        }
    }

    /// Product, reduced; `None` on overflow.
    pub fn mul(self, b: Rat) -> (r: Option<Rat>)
        requires
            self.wf(),
            b.wf(),
        ensures
            r == mul_v(self, b),
            r matches Some(c) ==> c.wf(),
    {
        let nn: i128 = match self.n.checked_mul(b.n) {
            Some(v) => v,
            None => {
                return None;
            },
        };
        let dd: i128 = match self.d.checked_mul(b.d) {
            Some(v) => v,
            None => {
                return None;
            },
        };
        proof {
            assert(self.d * b.d > 0) by (nonlinear_arith)
                requires
                    self.d > 0,
                    b.d > 0,
            ;
        }
        Some(reduce(Rat { n: nn, d: dd }))
    }

    /// Quotient, reduced; `None` for a zero divisor or on overflow.
    pub fn div(self, b: Rat) -> (r: Option<Rat>)
        requires
            self.wf(),
            b.wf(),
        ensures
            r == div_v(self, b),
            r matches Some(c) ==> c.wf(),
    {
        if b.n == 0 {
            return None;
        }
        let nn0: i128 = match self.n.checked_mul(b.d) {
            Some(v) => v,
            None => {
                return None;
            },
        };
        let dd0: i128 = match self.d.checked_mul(b.n) {
            Some(v) => v,
            None => {
                return None;
            },
        };
        if nn0 == i128::MIN || dd0 == i128::MIN {
            return None;
        }
        let nn: i128 = if b.n < 0 {
            -nn0
        } else {
            nn0
        };
        let dd: i128 = if b.n < 0 {
            -dd0
        } else {
            dd0
        };
        proof {
            if b.n < 0 {
                assert(self.d * b.n < 0) by (nonlinear_arith)
                    requires
                        self.d > 0,
                        b.n < 0,
                ;
            } else {
                assert(self.d * b.n > 0) by (nonlinear_arith)
                    requires
                        self.d > 0,
                        b.n > 0,
                ;
            }
        }
        Some(reduce(Rat { n: nn, d: dd }))
    }

    /// Order test; `None` on overflow of a cross product.
    pub fn le(self, b: Rat) -> (r: Option<bool>)
        requires
            self.wf(),
            b.wf(),
        ensures
            r == le_v(self, b),
            r matches Some(t) ==> t == self.spec_le(b),
    {
        let t1: i128 = match self.n.checked_mul(b.d) {
            Some(v) => v,
            None => {
                return None;
            },
        };
        let t2: i128 = match b.n.checked_mul(self.d) {
            Some(v) => v,
            None => {
                return None;
            },
        };
        Some(t1 <= t2)
    }

    /// The smaller of the two values; ties yield `self`.
    pub fn min_with(self, b: Rat) -> (r: Option<Rat>)
        requires
            self.wf(),
            b.wf(),
        ensures
            r == min_v(self, b),
            r matches Some(c) ==> c.wf(),
    {
        match self.le(b) {
            Some(t) => Some(if t { self } else { b }),
            None => None,
        }
    }
}

/// Sum lifted over possibly-overflowed operands.
pub open spec fn add_o(a: Option<Rat>, b: Option<Rat>) -> Option<Rat> {
    if a is Some && b is Some {
        add_v(a->Some_0, b->Some_0)
    } else {
        None
    }
}

/// Difference lifted over possibly-overflowed operands.
pub open spec fn sub_o(a: Option<Rat>, b: Option<Rat>) -> Option<Rat> {
    if a is Some && b is Some {
        sub_v(a->Some_0, b->Some_0)
    } else {
        None
    }
}

/// Product lifted over possibly-overflowed operands.
pub open spec fn mul_o(a: Option<Rat>, b: Option<Rat>) -> Option<Rat> {
    if a is Some && b is Some {
        mul_v(a->Some_0, b->Some_0)
    } else {
        None
    }
}

/// Quotient lifted over possibly-overflowed operands.
pub open spec fn div_o(a: Option<Rat>, b: Option<Rat>) -> Option<Rat> {
    if a is Some && b is Some {
        div_v(a->Some_0, b->Some_0)
    } else {
        None
    }
}

/// Negation lifted over a possibly-overflowed operand.
pub open spec fn neg_o(a: Option<Rat>) -> Option<Rat> {
    if a is Some {
        neg_v(a->Some_0)
    } else {
        None
    }
}

/// The minimum of two rationals is one of them and is below both.
pub proof fn lemma_min_correct(a: Rat, b: Rat)
    requires
        a.wf(),
        b.wf(),
        min_v(a, b) is Some,
    ensures
        min_v(a, b) == Some(a) || min_v(a, b) == Some(b),
        min_v(a, b)->Some_0.spec_le(a),
        min_v(a, b)->Some_0.spec_le(b),
{
}

} // verus!
