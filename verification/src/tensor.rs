//! The parameter tensor the optimizer core works on: a flat vector of
//! fixed-point values. Shape reduces to the element count; two tensors are
//! compatible exactly when their lengths agree. The external backend that
//! produces gradients converts to and from this representation at the edge.

use vstd::prelude::*;

verus! {

/// A named, mutable parameter value or gradient: a flat vector of
/// fixed-point elements (units of `1 / fixed::SCALE`).
pub struct Tensor {
    elems: Vec<i64>,
}

impl View for Tensor {
    type V = Seq<i64>;

    closed spec fn view(&self) -> Seq<i64> {
        self.elems@
    }
}

impl Tensor {
    /// Wrap raw fixed-point elements as a tensor.
    pub fn new(elems: Vec<i64>) -> (t: Tensor)
        ensures
            t@ == elems@,
    {
        Tensor { elems }
    }

    /// A tensor of `n` zero elements, the initial value of a moment buffer.
    pub fn zeros(n: usize) -> (t: Tensor)
        ensures
            t@.len() == n,
            forall|k: int| 0 <= k < n ==> t@[k] == 0i64,
    {
        let mut elems: Vec<i64> = Vec::new();
        let mut i: usize = 0;
        while i < n
            invariant
                i <= n,
                elems@.len() == i,
                forall|k: int| 0 <= k < i ==> elems@[k] == 0i64,
            decreases n - i,
        {
            elems.push(0);
            i = i + 1;
        }
        Tensor { elems }
    }

    /// Number of elements.
    pub fn len(&self) -> (n: usize)
        ensures
            n == self@.len(),
    {
        self.elems.len()
    }

    /// Read one element.
    pub fn get(&self, i: usize) -> (v: i64)
        requires
            i < self@.len(),
        ensures
            v == self@[i as int],
    {
        self.elems[i]
    }

    /// Overwrite this tensor in place with another of the same shape.
    pub fn set(&mut self, other: &Tensor)
        requires
            old(self)@.len() == other@.len(),
        ensures
            final(self)@ == other@,
    {
        let mut elems: Vec<i64> = Vec::new();
        let n = other.len();
        let mut i: usize = 0;
        while i < n
            invariant
                i <= n,
                n == other@.len(),
                elems@.len() == i,
                forall|k: int| 0 <= k < i ==> elems@[k] == other@[k],
            decreases n - i,
        {
            elems.push(other.get(i));
            i = i + 1;
        }
        proof {
            assert(elems@ =~= other@);
        }
        self.elems = elems;
    }
}

} // verus!
