//! Dynamic-rank shape descriptors with unification.
//!
//! A shape is an ordered sequence of per-axis constraints, each either a
//! concrete size or still unknown. Two shapes of one rank merge axis by
//! axis: an unknown unifies permissively with anything, two known sizes
//! must agree. Merging only ever tightens a constraint.
use vstd::prelude::*;

verus! {

/// One axis constraint: a concrete size, or not yet inferred.
#[derive(Clone, Copy, Debug, PartialEq, Eq, Structural)]
pub enum Dim {
    Known(usize),
    Unknown,
}

/// The merge of two axis constraints, if they unify.
pub open spec fn dim_merge(a: Dim, b: Dim) -> Option<Dim> {
    match (a, b) {
        (Dim::Unknown, x) => Some(x),
        (x, Dim::Unknown) => Some(x),
        (Dim::Known(n), Dim::Known(m)) => if n == m {
            Some(Dim::Known(n))
        } else {
            None
        },
    }
}

/// Whether two shapes unify: same rank, every axis pair unifies.
pub open spec fn shapes_compatible(a: Seq<Dim>, b: Seq<Dim>) -> bool {
    &&& a.len() == b.len()
    &&& forall|i: int| 0 <= i < a.len() ==> #[trigger] dim_merge(a[i], b[i]) is Some
}

/// The axis-wise merge of two compatible shapes.
pub open spec fn shape_merge_v(a: Seq<Dim>, b: Seq<Dim>) -> Seq<Dim>
    recommends
        shapes_compatible(a, b),
{
    Seq::new(a.len(), |i: int| dim_merge(a[i], b[i])->Some_0)
}

/// `a` is at least as tight as `b`: same rank, and every size `b` knows,
/// `a` knows identically.
pub open spec fn shape_refines(a: Seq<Dim>, b: Seq<Dim>) -> bool {
    &&& a.len() == b.len()
    &&& forall|i: int| 0 <= i < a.len() && b[i] is Known ==> a[i] == #[trigger] b[i]
}

/// Whether every axis size is concrete.
pub open spec fn all_known(s: Seq<Dim>) -> bool {
    forall|i: int| 0 <= i < s.len() ==> (#[trigger] s[i]) is Known
}

/// The element count of a fully known shape (an empty shape holds one
/// scalar).
pub open spec fn size_of(s: Seq<Dim>) -> int
    decreases s.len(),
{
    if s.len() == 0 {
        1
    } else {
        size_of(s.drop_last()) * (match s.last() {
            Dim::Known(n) => n as int,
            Dim::Unknown => 0,
        })
    }
}

/// A tensor shape: an ordered sequence of axis constraints.
#[derive(Debug)]
pub struct Shape {
    pub dims: Vec<Dim>,
}

impl View for Shape {
    type V = Seq<Dim>;

    open spec fn view(&self) -> Seq<Dim> {
        self.dims@
    }
}

impl Shape {
    /// A shape of concrete sizes.
    pub fn known(sizes: &Vec<usize>) -> (r: Shape)
        ensures
            r@.len() == sizes@.len(),
            forall|i: int| 0 <= i < sizes@.len() ==> r@[i] == Dim::Known(sizes@[i]),
            all_known(r@),
    {
        let mut dims: Vec<Dim> = Vec::new();
        let mut i: usize = 0;
        while i < sizes.len()
            invariant
                i <= sizes@.len(),
                dims@.len() == i,
                forall|j: int| 0 <= j < i ==> dims@[j] == Dim::Known(sizes@[j]),
            decreases sizes@.len() - i,
        {
            dims.push(Dim::Known(sizes[i]));
            i = i + 1;
        }
        Shape { dims }
    }

    /// A shape of the given rank with every axis unknown.
    pub fn unknown(rank: usize) -> (r: Shape)
        ensures
            r@.len() == rank,
            forall|i: int| 0 <= i < rank ==> r@[i] == Dim::Unknown,
    {
        let mut dims: Vec<Dim> = Vec::new();
        let mut i: usize = 0;
        while i < rank
            invariant
                i <= rank,
                dims@.len() == i,
                forall|j: int| 0 <= j < i ==> dims@[j] == Dim::Unknown,
            decreases rank - i,
        {
            dims.push(Dim::Unknown);
            i = i + 1;
        }
        Shape { dims }
    }

    /// The rank.
    pub fn rank(&self) -> (r: usize)
        ensures
            r == self@.len(),
    {
        self.dims.len()
    }

    /// Whether two shapes hold exactly the same constraints.
    pub fn same_as(&self, other: &Shape) -> (r: bool)
        ensures
            r == (self@ == other@),
    {
        if self.dims.len() != other.dims.len() {
            proof {
                assert(self@ != other@);
            }
            return false;
        }
        let mut i: usize = 0;
        while i < self.dims.len()
            invariant
                i <= self@.len(),
                self@.len() == other@.len(),
                forall|j: int| 0 <= j < i ==> self@[j] == other@[j],
            decreases self@.len() - i,
        {
            if self.dims[i] != other.dims[i] {
                return false;
            }
            i = i + 1;
        }
        proof {
            assert(self@ =~= other@);
        }
        true
    }

    /// Merge another shape into this one; `None` when ranks differ or two
    /// known sizes disagree.
    pub fn merge(&self, other: &Shape) -> (r: Option<Shape>)
        ensures
            shapes_compatible(self@, other@) ==> (r matches Some(m) && m@
                == shape_merge_v(self@, other@)),
            !shapes_compatible(self@, other@) ==> r is None,
    {
        if self.dims.len() != other.dims.len() {
            return None;
        }
        let mut dims: Vec<Dim> = Vec::new();
        let mut i: usize = 0;
        while i < self.dims.len()
            invariant
                i <= self@.len(),
                self@.len() == other@.len(),
                dims@.len() == i,
                forall|j: int| 0 <= j < i ==> #[trigger] dim_merge(self@[j], other@[j]) is Some,
                forall|j: int| 0 <= j < i ==> dims@[j] == dim_merge(self@[j], other@[j])->Some_0,
            decreases self@.len() - i,
        {
            let a = self.dims[i];
            let b = other.dims[i];
            let m: Dim = match (a, b) {
                (Dim::Unknown, x) => x,
                (x, Dim::Unknown) => x,
                (Dim::Known(n), Dim::Known(m2)) => {
                    if n == m2 {
                        Dim::Known(n)
                    } else {
                        proof {
                            assert(dim_merge(self@[i as int], other@[i as int]) is None);
                            assert(!shapes_compatible(self@, other@));
                        }
                        return None;
                    }
                },
            };
            dims.push(m);
            i = i + 1;
        }
        proof {
            assert(dims@ =~= shape_merge_v(self@, other@));
        }
        Some(Shape { dims })
    }

    /// Whether every axis size is concrete.
    pub fn is_all_known(&self) -> (r: bool)
        ensures
            r == all_known(self@),
    {
        let mut i: usize = 0;
        while i < self.dims.len()
            invariant
                i <= self@.len(),
                forall|j: int| 0 <= j < i ==> (#[trigger] self@[j]) is Known,
            decreases self@.len() - i,
        {
            match self.dims[i] {
                Dim::Known(_) => {},
                Dim::Unknown => {
                    return false;
                },
            }
            i = i + 1;
        }
        true
    }

    /// The element count of a fully known shape; `None` exactly when the
    /// running product of some axis prefix cannot be held in a `usize`.
    pub fn size(&self) -> (r: Option<usize>)
        requires
            all_known(self@),
        ensures
            r matches Some(n) ==> n == size_of(self@),
            r is None <==> exists|k: int|
                0 <= k <= self@.len() && size_of(#[trigger] self@.take(k)) > usize::MAX,
    {
        let mut acc: usize = 1;
        let mut i: usize = 0;
        while i < self.dims.len()
            invariant
                i <= self@.len(),
                all_known(self@),
                acc == size_of(self@.take(i as int)),
                forall|k: int| 0 <= k <= i ==> size_of(#[trigger] self@.take(k)) <= usize::MAX,
            decreases self@.len() - i,
        {
            let k: usize = match self.dims[i] {
                Dim::Known(n) => n,
                Dim::Unknown => {
                    proof {
                        assert(self@[i as int] is Known);
                    }
                    1
                },
            };
            proof {
                assert(self@.take(i + 1).drop_last() =~= self@.take(i as int));
                assert(self@.take(i + 1).last() == self@[i as int]);
            }
            acc = match acc.checked_mul(k) {
                Some(v) => v,
                None => {
                    proof {
                        assert(size_of(self@.take(i + 1)) > usize::MAX);
                    }
                    return None;
                },
            };
            i = i + 1;
        }
        proof {
            assert(self@.take(self@.len() as int) =~= self@);
        }
        Some(acc)
    }

    /// The innermost (last) axis size of a fully known, non-scalar shape.
    pub fn inner_size(&self) -> (r: usize)
        requires
            all_known(self@),
            self@.len() > 0,
        ensures
            self@.last() == Dim::Known(r),
    {
        match self.dims[self.dims.len() - 1] {
            Dim::Known(n) => n,
            Dim::Unknown => {
                proof {
                    assert(self@[self@.len() - 1] is Known);
                }
                0
            },
        }
    }
}

/// A shape-preserving operator's propagation is the identity where the
/// output is still unconstrained: merging a shape into an all-unknown
/// constraint of the same rank yields exactly that shape.
pub proof fn lemma_identity_propagation(dst: Seq<Dim>, src: Seq<Dim>)
    requires
        dst.len() == src.len(),
        forall|i: int| 0 <= i < dst.len() ==> (#[trigger] dst[i]) is Unknown,
    ensures
        shapes_compatible(dst, src),
        shape_merge_v(dst, src) == src,
{
    assert forall|i: int| 0 <= i < dst.len() implies #[trigger] dim_merge(dst[i], src[i])
        == Some(src[i]) by {
        assert(dst[i] is Unknown);
    }
    assert(shape_merge_v(dst, src) =~= src);
}

/// Refinement is reflexive.
pub proof fn lemma_refines_reflexive(a: Seq<Dim>)
    ensures
        shape_refines(a, a),
{
}

/// Refinement is transitive.
pub proof fn lemma_refines_transitive(a: Seq<Dim>, b: Seq<Dim>, c: Seq<Dim>)
    requires
        shape_refines(a, b),
        shape_refines(b, c),
    ensures
        shape_refines(a, c),
{
    assert forall|i: int| 0 <= i < a.len() && c[i] is Known implies a[i] == #[trigger] c[i] by {
        assert(b[i] == c[i]);
    }
}

/// Merging is commutative in the constraints it yields.
pub proof fn lemma_merge_commutes(a: Seq<Dim>, b: Seq<Dim>)
    requires
        shapes_compatible(a, b),
    ensures
        shapes_compatible(b, a),
        shape_merge_v(a, b) == shape_merge_v(b, a),
{
    assert forall|i: int| 0 <= i < b.len() implies #[trigger] dim_merge(b[i], a[i]) is Some by {
        assert(dim_merge(a[i], b[i]) is Some);
    }
    assert forall|i: int| 0 <= i < a.len() implies shape_merge_v(a, b)[i] == shape_merge_v(b, a)[i]
    by {
        assert(dim_merge(a[i], b[i]) is Some);
    }
    assert(shape_merge_v(a, b) =~= shape_merge_v(b, a));
}

/// Merging a shape with itself changes nothing.
pub proof fn lemma_merge_idempotent(a: Seq<Dim>)
    ensures
        shapes_compatible(a, a),
        shape_merge_v(a, a) == a,
{
    assert(shape_merge_v(a, a) =~= a);
}

/// The merge refines both of its arguments: it only ever tightens.
pub proof fn lemma_merge_tightens(a: Seq<Dim>, b: Seq<Dim>)
    requires
        shapes_compatible(a, b),
    ensures
        shape_refines(shape_merge_v(a, b), a),
        shape_refines(shape_merge_v(a, b), b),
{
    let m = shape_merge_v(a, b);
    assert forall|i: int| 0 <= i < m.len() && a[i] is Known implies m[i] == #[trigger] a[i] by {
        assert(dim_merge(a[i], b[i]) is Some);
    }
    assert forall|i: int| 0 <= i < m.len() && b[i] is Known implies m[i] == #[trigger] b[i] by {
        assert(dim_merge(a[i], b[i]) is Some);
    }
}

} // verus!
