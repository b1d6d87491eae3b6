//! Transpose views: a dense matrix read, or written, with rows and columns
//! exchanged, without copying its storage.
use vstd::prelude::*;
use crate::dense::{Dense, lemma_offset};
use crate::matrix::Matrix;

verus! {

/// The elements of the transpose of `d`, in its reading order.
pub open spec fn transposed<T>(d: Dense<T>) -> Seq<T> {
    Seq::new((d.m * d.n) as nat, |k: int| d.at(k % (d.m as int), k / (d.m as int)))
}

/// Reads a dense matrix with rows and columns exchanged.
pub struct MatrixT<'a, T> {
    /// The matrix read.
    pub source: &'a Dense<T>,
}

/// Writes through to a dense matrix with rows and columns exchanged.
pub struct MatrixTMut<'a, T> {
    /// The matrix written.
    pub source: &'a mut Dense<T>,
}

impl<T> Dense<T> {
    /// A view of the transpose: `n` rows and `m` columns, position `(i, j)`
    /// being `(j, i)` of `self`.
    pub fn t(&self) -> (r: MatrixT<'_, T>)
        requires
            self.wf(),
        ensures
            *r.source == *self,
            forall|i: int, j: int| 0 <= i < self.n && 0 <= j < self.m ==> #[trigger] r.at(i, j) == self.at(j, i),
    {
        MatrixT { source: self }
    }

    /// A view that writes position `(i, j)` of the transpose.
    pub fn t_mut(&mut self) -> (r: MatrixTMut<'_, T>)
        requires
            old(self).wf(),
        ensures
            *r.source == *old(self),
            *final(self) == *final(r.source),
    {
        MatrixTMut { source: self }
    }
}

impl<T: Copy> Dense<T> {
    /// The elements of the transpose in its row-major order: for each column
    /// of `self` in turn, the elements down that column.
    fn transposed_vec(&self) -> (r: Vec<T>)
        requires
            self.wf(),
        ensures
            r@ == transposed(*self),
    {
        let mut out: Vec<T> = Vec::new();
        let mut i: usize = 0;
        while i < self.n
            invariant
                self.wf(),
                i <= self.n,
                out@.len() == i * self.m,
                forall|k: int|
                    0 <= k < out@.len() ==> #[trigger] out@[k] == self.at(
                        k % (self.m as int),
                        k / (self.m as int),
                    ),
            decreases self.n - i,
        {
            let mut j: usize = 0;
            while j < self.m
                invariant
                    self.wf(),
                    i < self.n,
                    j <= self.m,
                    out@.len() == i * self.m + j,
                    forall|k: int|
                        0 <= k < out@.len() ==> #[trigger] out@[k] == self.at(
                            k % (self.m as int),
                            k / (self.m as int),
                        ),
                decreases self.m - j,
            {
                proof {
                    lemma_offset(i as int, j as int, self.n as int, self.m as int);
                }
                out.push(self.get(j, i));
                j += 1;
            }
            proof {
                assert((i + 1) * self.m == i * self.m + self.m) by (nonlinear_arith);
            }
            i += 1;
        }
        proof {
            vstd::arithmetic::mul::lemma_mul_is_commutative(self.m as int, self.n as int);
        }
        assert(out@ =~= transposed(*self));
        out
    }
}

impl<'a, T> MatrixT<'a, T> {
    /// The element at row `i`, column `j` of the transpose.
    pub open spec fn at(&self, i: int, j: int) -> T {
        self.source.at(j, i)
    }
}

impl<'a, T: Copy> MatrixT<'a, T> {
    /// The element at row `i`, column `j`: row `j`, column `i` of the source.
    pub fn get(&self, i: usize, j: usize) -> (r: T)
        requires
            self.source.wf(),
            i < self.source.n,
            j < self.source.m,
        ensures
            r == self.at(i as int, j as int),
    {
        self.source.get(j, i)
    }
}

impl<'a, T: Copy> MatrixTMut<'a, T> {
    /// The element at row `i`, column `j`: row `j`, column `i` of the source.
    pub fn get(&self, i: usize, j: usize) -> (r: T)
        requires
            self.source.wf(),
            i < self.source.n,
            j < self.source.m,
        ensures
            r == old(self.source).at(j as int, i as int),
    {
        self.source.get(j, i)
    }

    /// Writes `v` at row `i`, column `j` of the transpose: row `j`, column `i` of the source.
    pub fn set(&mut self, i: usize, j: usize, v: T)
        requires
            old(self).source.wf(),
            i < old(self).source.n,
            j < old(self).source.m,
        ensures
            *final(final(self).source) == *final(old(self).source),
            final(self).source.wf(),
            final(self).source.m == old(self).source.m,
            final(self).source.n == old(self).source.n,
            forall|p: int, q: int|
                0 <= p < old(self).source.m && 0 <= q < old(self).source.n
                    ==> #[trigger] final(self).source.at(p, q) == if p == j && q == i {
                    v
                } else {
                    old(self).source.at(p, q)
                },
    {
        self.source.set(j, i, v);
    }
}

impl<'a, T: Copy> Matrix for MatrixT<'a, T> {
    type Element = T;

    open spec fn rows(&self) -> nat {
        self.source.n as nat
    }

    open spec fn cols(&self) -> nat {
        self.source.m as nat
    }

    open spec fn well_formed(&self) -> bool {
        self.source.wf()
    }

    open spec fn elements(&self) -> Seq<T> {
        transposed(*self.source)
    }

    fn len(&self) -> (r: usize) {
        self.source.data.len()
    }

    fn size(&self) -> (r: [usize; 2]) {
        let r = [self.source.n, self.source.m];
        assert(r@ =~= seq![self.source.n, self.source.m]);
        r
    }

    fn is_empty(&self) -> (r: bool) {
        self.source.data.len() == 0
    }

    fn into_vec(self) -> (r: Vec<T>) {
        self.source.transposed_vec()
    }
}

impl<'a, T: Copy> Matrix for MatrixTMut<'a, T> {
    type Element = T;

    open spec fn rows(&self) -> nat {
        self.source.n as nat
    }

    open spec fn cols(&self) -> nat {
        self.source.m as nat
    }

    open spec fn well_formed(&self) -> bool {
        self.source.wf()
    }

    open spec fn elements(&self) -> Seq<T> {
        transposed(*self.source)
    }

    fn len(&self) -> (r: usize) {
        self.source.data.len()
    }

    fn size(&self) -> (r: [usize; 2]) {
        let r = [self.source.n, self.source.m];
        assert(r@ =~= seq![self.source.n, self.source.m]);
        r
    }

    fn is_empty(&self) -> (r: bool) {
        self.source.data.len() == 0
    }

    fn into_vec(self) -> (r: Vec<T>) {
        self.source.transposed_vec()
    }
}

} // verus!
