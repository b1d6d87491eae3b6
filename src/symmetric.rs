//! Symmetric matrices, stored as their lower triangle.
use vstd::prelude::*;
use crate::dense::{Dense, offset, lemma_offset};
use crate::matrix::{Matrix, MatrixError};
use crate::numerics::Numeric;
use crate::display::{decimal_cells, decimals, layout, laid_out, widest};

verus! {

/// Number of slots in the lower triangle, diagonal included, of an `n` x `n` matrix.
pub open spec fn triangle(n: int) -> int {
    n * (n + 1) / 2
}

/// The slot that holds positions `(i, j)` and `(j, i)`.
pub open spec fn slot(i: int, j: int) -> int {
    if i > j {
        triangle(i) + j
    } else {
        triangle(j) + i
    }
}

proof fn lemma_triangle_step(h: int)
    requires
        h >= 0,
    ensures
        triangle(h + 1) == triangle(h) + h + 1,
        triangle(h) >= 0,
{
    assert(h * (h + 1) % 2 == 0) by (nonlinear_arith)
        requires
            h >= 0,
    {
        vstd::arithmetic::div_mod::lemma_mul_mod_noop(h, h + 1, 2);
        if h % 2 == 0 {
            assert((h % 2) * ((h + 1) % 2) == 0);
        } else {
            assert((h + 1) % 2 == 0);
        }
    }
    assert((h + 1) * (h + 2) == h * (h + 1) + 2 * (h + 1)) by (nonlinear_arith);
    assert(h * (h + 1) >= 0) by (nonlinear_arith)
        requires
            h >= 0,
    ;
}

proof fn lemma_triangle_monotonic(a: int, b: int)
    requires
        0 <= a <= b,
    ensures
        triangle(a) <= triangle(b),
        a < b ==> triangle(a) + a < triangle(b),
    decreases b - a,
{
    if a < b {
        lemma_triangle_step(b - 1);
        lemma_triangle_monotonic(a, b - 1);
    }
}

/// Positions inside an `n` x `n` matrix have slots inside the storage; two
/// positions share a slot only when they mirror each other.
pub proof fn lemma_slot(i: int, j: int, p: int, q: int, n: int)
    requires
        0 <= i < n,
        0 <= j < n,
        0 <= p < n,
        0 <= q < n,
    ensures
        0 <= slot(i, j) < triangle(n),
        slot(i, j) == slot(p, q) <==> (i == p && j == q) || (i == q && j == p),
{
    let (h, l) = if i > j { (i, j) } else { (j, i) };
    let (g, k) = if p > q { (p, q) } else { (q, p) };
    lemma_triangle_monotonic(h + 1, n);
    lemma_triangle_step(h);
    lemma_triangle_step(g);
    if h < g {
        lemma_triangle_monotonic(h, g);
    } else if g < h {
        lemma_triangle_monotonic(g, h);
    }
}

/// A symmetric `n` x `n` matrix: positions `(i, j)` and `(j, i)` share one
/// stored element, the lower triangle being stored row by row.
#[derive(Debug, Clone, PartialEq)]
pub struct Symmetric<T> {
    /// The lower triangle, diagonal included, row after row.
    pub data: Vec<T>,
    /// Number of rows and of columns.
    pub n: usize,
}

/// The sum of the first `k` products of row `i` of `a` and column `j` of `b`.
pub open spec fn sym_dot<T: Numeric>(a: Symmetric<T>, b: Dense<T>, i: int, j: int, k: int) -> int
    decreases k,
{
    if k <= 0 {
        0
    } else {
        sym_dot(a, b, i, j, k - 1) + a.at(i, k - 1).val() * b.at(k - 1, j).val()
    }
}

/// Every product and every partial sum of the product `a * b` is representable.
pub open spec fn sym_product_fits<T: Numeric>(a: Symmetric<T>, b: Dense<T>) -> bool {
    forall|i: int, j: int, k: int|
        #![trigger a.at(i, k), b.at(k, j)]
        0 <= i < a.n && 0 <= j < b.n && 0 <= k < a.n ==> {
            &&& T::min_val() <= a.at(i, k).val() * b.at(k, j).val() <= T::max_val()
            &&& T::min_val() <= sym_dot(a, b, i, j, k + 1) <= T::max_val()
        }
}

impl<T> Symmetric<T> {
    /// The vector holds the `n * (n + 1) / 2` elements of the lower triangle.
    pub open spec fn wf(&self) -> bool {
        self.data@.len() == triangle(self.n as int)
    }

    /// The element at row `i`, column `j`.
    pub open spec fn at(&self, i: int, j: int) -> T {
        self.data@[slot(i, j)]
    }

    /// An `n` x `n` symmetric matrix over the lower triangle `data`; fails
    /// unless `data` holds exactly `n * (n + 1) / 2` elements.
    pub fn from_flat(n: usize, data: Vec<T>) -> (r: Result<Symmetric<T>, MatrixError>)
        ensures
            match r {
                Ok(s) => data@.len() == triangle(n as int) && s.wf() && s.n == n && s.data@ == data@,
                Err(e) => data@.len() != triangle(n as int) && e == MatrixError::Incompatibility,
            },
    {
        let len = data.len();
        let half = if n % 2 == 0 {
            n / 2
        } else {
            n
        };
        let other = if n % 2 == 0 {
            n.checked_add(1)
        } else {
            Some(n / 2 + 1)
        };
        let count = match other {
            Some(o) => half.checked_mul(o),
            None => None,
        };
        proof {
            if n % 2 == 0 {
                assert(half * (n + 1) == triangle(n as int)) by (nonlinear_arith)
                    requires
                        n % 2 == 0,
                        half == n / 2,
                ;
            } else {
                assert(n * (n / 2 + 1) == triangle(n as int)) by (nonlinear_arith)
                    requires
                        n % 2 == 1,
                ;
            }
        }
        match count {
            Some(c) => if c == len {
                Ok(Symmetric { data, n })
            } else {
                Err(MatrixError::Incompatibility)
            },
            None => {
                proof {
                    lemma_triangle_step(n as int);
                }
                Err(MatrixError::Incompatibility)
            },
        }
    }
}

/// A symmetric matrix reads the same at `(i, j)` and at `(j, i)`, whatever it holds.
pub proof fn lemma_symmetric<T>(s: Symmetric<T>, i: int, j: int)
    ensures
        s.at(i, j) == s.at(j, i),
{
}

proof fn lemma_triangle_exact(h: int)
    requires
        h >= 0,
    ensures
        h % 2 == 0 ==> (h / 2) * (h + 1) == triangle(h),
        h % 2 == 1 ==> h * ((h + 1) / 2) == triangle(h),
{
    if h % 2 == 0 {
        assert((h / 2) * (h + 1) == h * (h + 1) / 2) by (nonlinear_arith)
            requires
                h % 2 == 0,
        ;
    } else {
        assert(h * ((h + 1) / 2) == h * (h + 1) / 2) by (nonlinear_arith)
            requires
                h % 2 == 1,
        ;
    }
}

impl<T: Copy> Symmetric<T> {
    /// Index into the storage of position `(i, j)`.
    fn slot_of(&self, i: usize, j: usize) -> (r: usize)
        requires
            self.wf(),
            i < self.n,
            j < self.n,
        ensures
            r == slot(i as int, j as int),
            r < self.data@.len(),
    {
        // The length is a usize, so every offset below it fits in one.
        let _ = self.data.len();
        proof {
            lemma_slot(i as int, j as int, i as int, j as int, self.n as int);
        }
        let (hi, lo) = if i > j {
            (i, j)
        } else {
            (j, i)
        };
        proof {
            lemma_triangle_exact(hi as int);
            lemma_triangle_step(hi as int);
        }
        let t = if hi % 2 == 0 {
            (hi / 2) * (hi + 1)
        } else {
            hi * ((hi + 1) / 2)
        };
        t + lo
    }

    /// The element at row `i`, column `j`.
    pub fn get(&self, i: usize, j: usize) -> (r: T)
        requires
            self.wf(),
            i < self.n,
            j < self.n,
        ensures
            r == self.at(i as int, j as int),
    {
        let k = self.slot_of(i, j);
        self.data[k]
    }

    /// Writes `v` at `(i, j)`, and so at `(j, i)`.
    pub fn set(&mut self, i: usize, j: usize, v: T)
        requires
            old(self).wf(),
            i < old(self).n,
            j < old(self).n,
        ensures
            final(self).wf(),
            final(self).n == old(self).n,
            forall|p: int, q: int|
                0 <= p < old(self).n && 0 <= q < old(self).n ==> #[trigger] final(self).at(p, q)
                    == if (p == i && q == j) || (p == j && q == i) {
                    v
                } else {
                    old(self).at(p, q)
                },
    {
        let k = self.slot_of(i, j);
        self.data[k] = v;
        proof {
            assert forall|p: int, q: int| 0 <= p < self.n && 0 <= q < self.n implies #[trigger] self.at(p, q)
                == if (p == i && q == j) || (p == j && q == i) {
                v
            } else {
                old(self).at(p, q)
            } by {
                lemma_slot(p, q, i as int, j as int, self.n as int);
            }
        }
    }

    /// The same matrix with every element stored.
    pub fn to_dense(&self) -> (r: Dense<T>)
        requires
            self.wf(),
        ensures
            r.wf(),
            r.m == self.n,
            r.n == self.n,
            forall|i: int, j: int| 0 <= i < self.n && 0 <= j < self.n ==> #[trigger] r.at(i, j) == self.at(i, j),
    {
        let n = self.n;
        let mut data: Vec<T> = Vec::new();
        let mut i: usize = 0;
        while i < n
            invariant
                self.wf(),
                n == self.n,
                i <= n,
                data@.len() == i * n,
                forall|p: int, q: int|
                    0 <= p < i && 0 <= q < n ==> #[trigger] data@[offset(p, q, n as int)] == self.at(p, q),
            decreases n - i,
        {
            let mut j: usize = 0;
            while j < n
                invariant
                    self.wf(),
                    n == self.n,
                    i < n,
                    j <= n,
                    data@.len() == i * n + j,
                    forall|p: int, q: int|
                        0 <= p < i && 0 <= q < n ==> #[trigger] data@[offset(p, q, n as int)] == self.at(p, q),
                    forall|q: int| 0 <= q < j ==> #[trigger] data@[offset(i as int, q, n as int)] == self.at(i as int, q),
                decreases n - j,
            {
                let x = self.get(i, j);
                let ghost before = data@;
                proof {
                    lemma_offset(i as int, j as int, n as int, n as int);
                }
                data.push(x);
                proof {
                    assert forall|p: int, q: int| 0 <= p < i && 0 <= q < n implies #[trigger] data@[offset(p, q, n as int)] == before[offset(p, q, n as int)] by {
                        lemma_offset(p, q, i as int, n as int);
                    }
                }
                j += 1;
            }
            proof {
                assert((i + 1) * n == i * n + n) by (nonlinear_arith);
            }
            i += 1;
        }
        Dense { data, m: n, n }
    }
}

impl<T: Numeric> Symmetric<T> {
    /// Every element multiplied by `scalar`; scaling keeps the matrix symmetric.
    pub fn mul_scalar(self, scalar: T) -> (r: Symmetric<T>)
        requires
            forall|k: int|
                0 <= k < self.data@.len() ==> T::min_val() <= (#[trigger] self.data@[k]).val()
                    * scalar.val() <= T::max_val(),
        ensures
            r.n == self.n,
            r.data@.len() == self.data@.len(),
            forall|k: int|
                0 <= k < self.data@.len() ==> (#[trigger] r.data@[k]).val() == self.data@[k].val()
                    * scalar.val(),
    {
        let mut out = self;
        let len = out.data.len();
        let mut k: usize = 0;
        while k < len
            invariant
                len == self.data@.len(),
                out.data@.len() == len,
                out.n == self.n,
                k <= len,
                forall|p: int|
                    0 <= p < len ==> T::min_val() <= (#[trigger] self.data@[p]).val() * scalar.val()
                        <= T::max_val(),
                forall|p: int|
                    0 <= p < len ==> if p < k {
                        (#[trigger] out.data@[p]).val() == self.data@[p].val() * scalar.val()
                    } else {
                        out.data@[p] == self.data@[p]
                    },
            decreases len - k,
        {
            let x = out.data[k];
            out.data[k] = x.times(scalar);
            k += 1;
        }
        out
    }

    /// The dense product `self * rhs`: entry `(i, j)` is the sum over `k` of
    /// `self[i, k] * rhs[k, j]`.
    pub fn mul_dense(&self, rhs: &Dense<T>) -> (r: Result<Dense<T>, MatrixError>)
        requires
            self.wf(),
            rhs.wf(),
            self.n == rhs.m ==> self.n * rhs.n <= usize::MAX,
            self.n == rhs.m ==> sym_product_fits(*self, *rhs),
        ensures
            match r {
                Ok(c) => {
                    &&& self.n == rhs.m
                    &&& c.wf()
                    &&& c.m == self.n
                    &&& c.n == rhs.n
                    &&& forall|i: int, j: int|
                        0 <= i < c.m && 0 <= j < c.n ==> (#[trigger] c.at(i, j)).val() == sym_dot(
                            *self,
                            *rhs,
                            i,
                            j,
                            self.n as int,
                        )
                },
                Err(e) => self.n != rhs.m && e == MatrixError::Incompatibility,
            },
    {
        if self.n != rhs.m {
            return Err(MatrixError::Incompatibility);
        }
        let n = rhs.n;
        let mut data: Vec<T> = Vec::with_capacity(self.n * n);
        let mut i: usize = 0;
        while i < self.n
            invariant
                self.wf(),
                rhs.wf(),
                self.n == rhs.m,
                n == rhs.n,
                sym_product_fits(*self, *rhs),
                i <= self.n,
                data@.len() == i * n,
                forall|p: int, q: int|
                    0 <= p < i && 0 <= q < n ==> (#[trigger] data@[offset(p, q, n as int)]).val() == sym_dot(*self, *rhs, p, q, self.n as int),
            decreases self.n - i,
        {
            let mut j: usize = 0;
            while j < n
                invariant
                    self.wf(),
                    rhs.wf(),
                    self.n == rhs.m,
                    n == rhs.n,
                    sym_product_fits(*self, *rhs),
                    i < self.n,
                    j <= n,
                    data@.len() == i * n + j,
                    forall|p: int, q: int|
                        0 <= p < i && 0 <= q < n ==> (#[trigger] data@[offset(p, q, n as int)]).val() == sym_dot(*self, *rhs, p, q, self.n as int),
                    forall|q: int| 0 <= q < j ==> (#[trigger] data@[offset(i as int, q, n as int)]).val() == sym_dot(*self, *rhs, i as int, q, self.n as int),
                decreases n - j,
            {
                let mut acc = T::zero();
                let mut k: usize = 0;
                while k < self.n
                    invariant
                        self.wf(),
                        rhs.wf(),
                        self.n == rhs.m,
                        n == rhs.n,
                        sym_product_fits(*self, *rhs),
                        i < self.n,
                        j < n,
                        k <= self.n,
                        acc.val() == sym_dot(*self, *rhs, i as int, j as int, k as int),
                    decreases self.n - k,
                {
                    let x = self.get(i, k);
                    let y = rhs.get(k, j);
                    acc = acc.plus(x.times(y));
                    k += 1;
                }
                let ghost before = data@;
                proof {
                    lemma_offset(i as int, j as int, self.n as int, n as int);
                }
                data.push(acc);
                proof {
                    assert forall|p: int, q: int| 0 <= p < i && 0 <= q < n implies #[trigger] data@[offset(p, q, n as int)] == before[offset(p, q, n as int)] by {
                        lemma_offset(p, q, i as int, n as int);
                    }
                }
                j += 1;
            }
            proof {
                assert((i + 1) * n == i * n + n) by (nonlinear_arith);
            }
            i += 1;
        }
        Ok(Dense { data, m: self.n, n })
    }
}

impl<T: Numeric> Symmetric<T> {
    /// Every position of the full matrix, row by row.
    pub open spec fn full(&self) -> Seq<T> {
        Seq::new((self.n * self.n) as nat, |k: int| self.at(k / (self.n as int), k % (self.n as int)))
    }

    /// The matrix as text: `n` lines of `n` fields, field `j` of line `i`
    /// holding the element at `(i, j)`, each right-aligned in a field two
    /// characters wider than the longest element.
    pub fn render(&self) -> (r: String)
        requires
            self.wf(),
        ensures
            r@ == laid_out(decimals(self.full()), self.n as int, (widest(decimals(self.full())) + 2) as int),
    {
        let d = self.to_dense();
        proof {
            let n = self.n as int;
            assert forall|k: int| 0 <= k < n * n implies #[trigger] d.data@[k] == self.full()[k] by {
                assert(n > 0) by (nonlinear_arith)
                    requires
                        0 <= k < n * n,
                        n >= 0,
                ;
                let i = k / n;
                let j = k % n;
                assert(0 <= i < n) by (nonlinear_arith)
                    requires
                        0 <= k < n * n,
                        n > 0,
                        i == k / n,
                ;
                vstd::arithmetic::div_mod::lemma_fundamental_div_mod(k, n);
                assert(d.at(i, j) == self.at(i, j));
            }
            assert(d.data@ =~= self.full());
        }
        d.render()
    }
}

impl<T> Matrix for Symmetric<T> {
    type Element = T;

    open spec fn rows(&self) -> nat {
        self.n as nat
    }

    open spec fn cols(&self) -> nat {
        self.n as nat
    }

    open spec fn well_formed(&self) -> bool {
        self.wf()
    }

    open spec fn elements(&self) -> Seq<T> {
        self.data@
    }

    fn len(&self) -> (r: usize) {
        self.data.len()
    }

    fn size(&self) -> (r: [usize; 2]) {
        let r = [self.n, self.n];
        assert(r@ =~= seq![self.n, self.n]);
        r
    }

    fn is_empty(&self) -> (r: bool) {
        self.data.len() == 0
    }

    fn into_vec(self) -> (r: Vec<T>) {
        self.data
    }
}

} // verus!
