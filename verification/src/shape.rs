//! Dimension descriptors.
//!
//! A shape is an ordered sequence of non-negative dimension sizes. Rank zero
//! is a scalar, and the element count is the product of all dimensions (the
//! empty product being one). Two shapes are elementwise compatible exactly
//! when they are structurally equal.

use vstd::prelude::*;

use crate::error::Error;

verus! {

/// The number of elements described by a sequence of dimensions: the
/// product of all sizes, with the empty product equal to one.
pub open spec fn count_of(dims: Seq<usize>) -> nat
    decreases dims.len(),
{
    if dims.len() == 0 {
        1
    } else {
        count_of(dims.drop_last()) * (dims.last() as nat)
    }
}

/// A shape containing a zero dimension describes zero elements.
pub proof fn lemma_count_zero_dim(dims: Seq<usize>, i: int)
    requires
        0 <= i < dims.len(),
        dims[i] == 0,
    ensures
        count_of(dims) == 0,
    decreases dims.len(),
{
    if i == dims.len() - 1 {
        assert(count_of(dims) == count_of(dims.drop_last()) * 0);
    } else {
        lemma_count_zero_dim(dims.drop_last(), i);
        assert(count_of(dims) == 0 * (dims.last() as nat));
    }
}

/// With every dimension positive, the element count of a prefix never
/// exceeds the element count of the whole shape.
pub proof fn lemma_count_prefix_le(dims: Seq<usize>, i: int)
    requires
        0 <= i <= dims.len(),
        forall|k: int| 0 <= k < dims.len() ==> #[trigger] dims[k] >= 1,
    ensures
        count_of(dims.take(i)) <= count_of(dims),
        count_of(dims) >= 1,
    decreases dims.len() - i,
{
    if i == dims.len() {
        assert(dims.take(i) =~= dims);
        lemma_count_all_positive(dims);
    } else {
        lemma_count_prefix_le(dims, i + 1);
        assert(dims.take(i + 1).drop_last() =~= dims.take(i));
        assert(count_of(dims.take(i + 1)) == count_of(dims.take(i)) * (dims[i] as nat));
        assert(count_of(dims.take(i)) <= count_of(dims.take(i)) * (dims[i] as nat))
            by (nonlinear_arith)
            requires
                dims[i] as nat >= 1,
        ;
    }
}

/// With every dimension positive, the element count is at least one.
pub proof fn lemma_count_all_positive(dims: Seq<usize>)
    requires
        forall|k: int| 0 <= k < dims.len() ==> #[trigger] dims[k] >= 1,
    ensures
        count_of(dims) >= 1,
    decreases dims.len(),
{
    if dims.len() > 0 {
        lemma_count_all_positive(dims.drop_last());
        assert(count_of(dims) == count_of(dims.drop_last()) * (dims.last() as nat));
        assert(count_of(dims.drop_last()) * (dims.last() as nat) >= 1) by (nonlinear_arith)
            requires
                count_of(dims.drop_last()) >= 1,
                dims.last() as nat >= 1,
        ;
    }
}

/// An ordered list of non-negative dimension sizes. Rank zero describes a
/// scalar.
#[derive(Debug)]
pub struct Shape {
    dims: Vec<usize>,
}

impl View for Shape {
    type V = Seq<usize>;

    closed spec fn view(&self) -> Seq<usize> {
        self.dims@
    }
}

impl Shape {
    /// A shape with the given dimension sizes.
    pub fn new(dims: Vec<usize>) -> (r: Shape)
        ensures
            r@ == dims@,
    {
        Shape { dims }
    }

    /// The scalar shape, of rank zero.
    pub fn scalar() -> (r: Shape)
        ensures
            r@ == Seq::<usize>::empty(),
    {
        Shape { dims: Vec::new() }
    }

    /// The number of dimensions.
    pub fn rank(&self) -> (r: usize)
        ensures
            r == self@.len(),
    {
        self.dims.len()
    }

    /// The size of one dimension.
    pub fn dimension(&self, i: usize) -> (r: usize)
        requires
            i < self@.len(),
        ensures
            r == self@[i as int],
    {
        self.dims[i]
    }

    /// The total number of elements, or `None` when the product of the
    /// dimensions does not fit in a machine word.
    pub fn num_elements(&self) -> (r: Option<usize>)
        ensures
            r matches Some(c) ==> c as nat == count_of(self@),
            r is Some <==> count_of(self@) <= usize::MAX,
    {
        let n: usize = self.dims.len();
        let mut i: usize = 0;
        while i < n
            invariant
                0 <= i <= n,
                n == self@.len(),
                forall|k: int| 0 <= k < i ==> #[trigger] self@[k] >= 1,
            decreases n - i,
        {
            if self.dims[i] == 0 {
                proof {
                    lemma_count_zero_dim(self@, i as int);
                }
                return Some(0);
            }
            i = i + 1;
        }
        let mut count: usize = 1;
        let mut j: usize = 0;
        proof {
            assert(self@.take(0) =~= Seq::<usize>::empty());
        }
        while j < n
            invariant
                0 <= j <= n,
                n == self@.len(),
                forall|k: int| 0 <= k < n ==> #[trigger] self@[k] >= 1,
                count as nat == count_of(self@.take(j as int)),
            decreases n - j,
        {
            proof {
                assert(self@.take(j + 1).drop_last() =~= self@.take(j as int));
                assert(count_of(self@.take(j + 1)) == count_of(self@.take(j as int)) * (
                self@[j as int] as nat));
            }
            match count.checked_mul(self.dims[j]) {
                Some(next) => {
                    count = next;
                },
                None => {
                    proof {
                        lemma_count_prefix_le(self@, j + 1);
                    }
                    return None;
                },
            }
            j = j + 1;
        }
        proof {
            assert(self@.take(n as int) =~= self@);
        }
        Some(count)
    }

    /// The common shape of two elementwise-compatible operands: the shapes
    /// must be structurally equal, and the result is that shape. Any other
    /// pairing is a `ShapeMismatch`.
    pub fn elementwise(&self, other: &Shape) -> (r: Result<Shape, Error>)
        ensures
            r matches Ok(s) ==> self@ == other@ && s@ == self@,
            r is Ok <==> self@ == other@,
            r is Err ==> r == Err::<Shape, Error>(Error::ShapeMismatch),
    {
        if self.equals(other) {
            Ok(self.clone())
        } else {
            Err(Error::ShapeMismatch)
        }
    }

    /// Whether two shapes are structurally equal.
    pub fn equals(&self, other: &Shape) -> (r: bool)
        ensures
            r == (self@ == other@),
    {
        let n: usize = self.dims.len();
        if n != other.dims.len() {
            proof {
                assert(self@.len() != other@.len());
            }
            return false;
        }
        let mut i: usize = 0;
        while i < n
            invariant
                0 <= i <= n,
                n == self@.len() == other@.len(),
                forall|k: int| 0 <= k < i ==> #[trigger] self@[k] == other@[k],
            decreases n - i,
        {
            if self.dims[i] != other.dims[i] {
                return false;
            }
            i = i + 1;
        }
        proof {
            assert(self@ =~= other@);
        }
        true
    }
}

impl Clone for Shape {
    /// An exact copy of the dimension list.
    fn clone(&self) -> (r: Shape)
        ensures
            r@ == self@,
    {
        let n: usize = self.dims.len();
        let mut dims: Vec<usize> = Vec::new();
        let mut i: usize = 0;
        while i < n
            invariant
                0 <= i <= n,
                n == self@.len(),
                dims@ == self@.take(i as int),
            decreases n - i,
        {
            dims.push(self.dims[i]);
            proof {
                assert(dims@ =~= self@.take(i + 1));
            }
            i = i + 1;
        }
        proof {
            assert(self@.take(n as int) =~= self@);
        }
        Shape { dims }
    }
}

impl PartialEq for Shape {
    /// Structural equality of the dimension lists.
    fn eq(&self, other: &Shape) -> (r: bool) {
        self.equals(other)
    }
}

impl Eq for Shape {

}

impl vstd::std_specs::cmp::PartialEqSpecImpl for Shape {
    open spec fn obeys_eq_spec() -> bool {
        true
    }

    open spec fn eq_spec(&self, other: &Shape) -> bool {
        self@ == other@
    }
}

} // verus!
