//! Dense matrices: every element stored, row by row.
use vstd::prelude::*;
use crate::matrix::{Matrix, MatrixError};
use crate::numerics::Numeric;
use crate::display::{decimal_cells, decimals, layout, laid_out, widest};

verus! {

/// Row-major offset of position `(i, j)` in a matrix with `n` columns.
pub open spec fn offset(i: int, j: int, n: int) -> int {
    j + i * n
}

/// Every in-bounds position has an in-bounds offset, and no two share one.
pub proof fn lemma_offset(i: int, j: int, m: int, n: int)
    requires
        0 <= i < m,
        0 <= j < n,
    ensures
        0 <= offset(i, j, n) < m * n,
        offset(i, j, n) / n == i,
        offset(i, j, n) % n == j,
{
    assert(0 <= j + i * n < m * n) by (nonlinear_arith)
        requires
            0 <= i < m,
            0 <= j < n,
    ;
    vstd::arithmetic::div_mod::lemma_fundamental_div_mod_converse(j + i * n, n, i, j);
}

/// A dense `m` x `n` matrix stored as a row-major vector.
#[derive(Debug, Clone, PartialEq)]
pub struct Dense<T> {
    /// The elements, row after row.
    pub data: Vec<T>,
    /// Number of rows.
    pub m: usize,
    /// Number of columns.
    pub n: usize,
}

impl<T> Dense<T> {
    /// The vector holds exactly `m * n` elements.
    pub open spec fn wf(&self) -> bool {
        self.data@.len() == self.m * self.n
    }

    /// The element at row `i`, column `j`.
    pub open spec fn at(&self, i: int, j: int) -> T {
        self.data@[offset(i, j, self.n as int)]
    }

    /// The same matrix with rows `a` and `b` exchanged.
    pub open spec fn is_row_swap_of(&self, before: Dense<T>, a: int, b: int) -> bool {
        &&& self.wf()
        &&& self.m == before.m
        &&& self.n == before.n
        &&& forall|i: int, j: int|
            0 <= i < self.m && 0 <= j < self.n ==> #[trigger] self.at(i, j) == before.at(
                if i == a {
                    b
                } else if i == b {
                    a
                } else {
                    i
                },
                j,
            )
    }

    /// An empty matrix: one row of no columns.
    pub fn new() -> (r: Self)
        ensures
            r.wf(),
            r.m == 1,
            r.n == 0,
    {
        Dense { data: Vec::new(), m: 1, n: 0 }
    }

    /// An empty matrix whose vector has room for `capacity` elements.
    pub fn with_capacity(capacity: usize) -> (r: Self)
        ensures
            r.wf(),
            r.m == 1,
            r.n == 0,
    {
        Dense { data: Vec::with_capacity(capacity), m: 1, n: 0 }
    }
}

/// The sum of the first `k` products of row `i` of `a` and column `j` of `b`.
pub open spec fn dot<T: Numeric>(a: Dense<T>, b: Dense<T>, i: int, j: int, k: int) -> int
    decreases k,
{
    if k <= 0 {
        0
    } else {
        dot(a, b, i, j, k - 1) + a.at(i, k - 1).val() * b.at(k - 1, j).val()
    }
}

/// Every product and every partial sum of the product `a * b` is representable.
pub open spec fn product_fits<T: Numeric>(a: Dense<T>, b: Dense<T>) -> bool {
    forall|i: int, j: int, k: int|
        #![trigger a.at(i, k), b.at(k, j)]
        0 <= i < a.m && 0 <= j < b.n && 0 <= k < a.n ==> {
            &&& T::min_val() <= a.at(i, k).val() * b.at(k, j).val() <= T::max_val()
            &&& T::min_val() <= dot(a, b, i, j, k + 1) <= T::max_val()
        }
}

proof fn lemma_dot_identity_prefix<T: Numeric>(a: Dense<T>, e: Dense<T>, i: int, j: int, k: int)
    requires
        0 <= k <= a.n,
        0 <= j < a.n,
        forall|p: int, q: int|
            0 <= p < a.n && 0 <= q < a.n ==> (#[trigger] e.at(p, q)).val() == if p == q {
                1int
            } else {
                0int
            },
    ensures
        dot(a, e, i, j, k) == if k > j {
            a.at(i, j).val()
        } else {
            0
        },
    decreases k,
{
    if k > 0 {
        lemma_dot_identity_prefix(a, e, i, j, k - 1);
        assert(e.at(k - 1, j).val() == if k - 1 == j { 1int } else { 0int });
    }
}

/// Multiplying by the identity on the right keeps every entry's value.
pub proof fn lemma_mul_identity<T: Numeric>(a: Dense<T>, e: Dense<T>, i: int, j: int)
    requires
        0 <= i < a.m,
        0 <= j < a.n,
        forall|p: int, q: int|
            0 <= p < a.n && 0 <= q < a.n ==> (#[trigger] e.at(p, q)).val() == if p == q {
                1int
            } else {
                0int
            },
    ensures
        dot(a, e, i, j, a.n as int) == a.at(i, j).val(),
{
    lemma_dot_identity_prefix(a, e, i, j, a.n as int);
}

impl<T: Copy> Dense<T> {
    /// The element at row `i`, column `j`.
    pub fn get(&self, i: usize, j: usize) -> (r: T)
        requires
            self.wf(),
            i < self.m,
            j < self.n,
        ensures
            r == self.at(i as int, j as int),
    {
        // The length is a usize, so every offset below it fits in one.
        let _ = self.data.len();
        proof {
            lemma_offset(i as int, j as int, self.m as int, self.n as int);
        }
        self.data[j + i * self.n]
    }

    /// Writes `v` at row `i`, column `j`.
    pub fn set(&mut self, i: usize, j: usize, v: T)
        requires
            old(self).wf(),
            i < old(self).m,
            j < old(self).n,
        ensures
            final(self).wf(),
            final(self).m == old(self).m,
            final(self).n == old(self).n,
            final(self).data@ == old(self).data@.update(offset(i as int, j as int, old(self).n as int), v),
            forall|p: int, q: int|
                0 <= p < old(self).m && 0 <= q < old(self).n ==> #[trigger] final(self).at(p, q) == if p
                    == i && q == j {
                    v
                } else {
                    old(self).at(p, q)
                },
    {
        // The length is a usize, so every offset below it fits in one.
        let _ = self.data.len();
        proof {
            lemma_offset(i as int, j as int, self.m as int, self.n as int);
        }
        let k = j + i * self.n;
        self.data[k] = v;
        proof {
            assert forall|p: int, q: int| 0 <= p < self.m && 0 <= q < self.n implies #[trigger] self.at(p, q) == if p == i && q == j {
                v
            } else {
                old(self).at(p, q)
            } by {
                lemma_offset(p, q, self.m as int, self.n as int);
            }
        }
    }

    /// Overwrites row `i` with `values`, one per column.
    pub fn set_row(&mut self, i: usize, values: &[T])
        requires
            old(self).wf(),
            i < old(self).m,
            values@.len() == old(self).n,
        ensures
            final(self).wf(),
            final(self).m == old(self).m,
            final(self).n == old(self).n,
            forall|p: int, q: int|
                0 <= p < old(self).m && 0 <= q < old(self).n ==> #[trigger] final(self).at(p, q)
                    == if p == i {
                    values@[q]
                } else {
                    old(self).at(p, q)
                },
    {
        let ghost start = *self;
        let mut j: usize = 0;
        while j < self.n
            invariant
                self.wf(),
                self.m == start.m,
                self.n == start.n,
                i < self.m,
                j <= self.n,
                values@.len() == self.n,
                forall|p: int, q: int|
                    0 <= p < self.m && 0 <= q < self.n ==> #[trigger] self.at(p, q) == if p == i && q < j {
                        values@[q]
                    } else {
                        start.at(p, q)
                    },
            decreases self.n - j,
        {
            self.set(i, j, values[j]);
            j += 1;
        }
    }

    /// Exchanges the elements at positions `a` and `b`, each given as `[row, column]`.
    pub fn swap(&mut self, a: [usize; 2], b: [usize; 2])
        requires
            old(self).wf(),
            a[0] < old(self).m,
            a[1] < old(self).n,
            b[0] < old(self).m,
            b[1] < old(self).n,
        ensures
            final(self).wf(),
            final(self).m == old(self).m,
            final(self).n == old(self).n,
            forall|p: int, q: int|
                0 <= p < old(self).m && 0 <= q < old(self).n ==> #[trigger] final(self).at(p, q)
                    == if p == a[0] && q == a[1] {
                    old(self).at(b[0] as int, b[1] as int)
                } else if p == b[0] && q == b[1] {
                    old(self).at(a[0] as int, a[1] as int)
                } else {
                    old(self).at(p, q)
                },
    {
        let x = self.get(a[0], a[1]);
        let y = self.get(b[0], b[1]);
        self.set(a[0], a[1], y);
        self.set(b[0], b[1], x);
    }

    /// Exchanges rows `a` and `b`, element by element.
    pub fn swap_rows(&mut self, a: usize, b: usize)
        requires
            old(self).wf(),
            a < old(self).m,
            b < old(self).m,
        ensures
            final(self).is_row_swap_of(*old(self), a as int, b as int),
    {
        let ghost start = *self;
        let mut j: usize = 0;
        while j < self.n
            invariant
                self.wf(),
                self.m == start.m,
                self.n == start.n,
                a < self.m,
                b < self.m,
                j <= self.n,
                forall|p: int, q: int|
                    0 <= p < self.m && 0 <= q < self.n ==> #[trigger] self.at(p, q) == if q < j {
                        start.at(
                            if p == a {
                                b as int
                            } else if p == b {
                                a as int
                            } else {
                                p
                            },
                            q,
                        )
                    } else {
                        start.at(p, q)
                    },
            decreases self.n - j,
        {
            self.swap([a, j], [b, j]);
            j += 1;
        }
    }
}

/// Exchanging the same two rows twice restores the matrix.
pub proof fn lemma_swap_rows_twice<T>(start: Dense<T>, once: Dense<T>, twice: Dense<T>, a: int, b: int)
    requires
        start.wf(),
        0 <= a < start.m,
        0 <= b < start.m,
        once.is_row_swap_of(start, a, b),
        twice.is_row_swap_of(once, a, b),
    ensures
        twice.m == start.m,
        twice.n == start.n,
        twice.data@ == start.data@,
{
    assert forall|i: int, j: int| 0 <= i < start.m && 0 <= j < start.n implies #[trigger] twice.at(i, j)
        == start.at(i, j) by {
        let s = if i == a {
            b
        } else if i == b {
            a
        } else {
            i
        };
        assert(twice.at(i, j) == once.at(s, j));
    }
    lemma_same_entries(twice, start);
}

/// Two well-formed matrices of one shape with the same entries hold the same vector.
pub proof fn lemma_same_entries<T>(x: Dense<T>, y: Dense<T>)
    requires
        x.wf(),
        y.wf(),
        x.m == y.m,
        x.n == y.n,
        forall|i: int, j: int| 0 <= i < x.m && 0 <= j < x.n ==> #[trigger] x.at(i, j) == y.at(i, j),
    ensures
        x.data@ == y.data@,
{
    assert forall|k: int| 0 <= k < x.data@.len() implies x.data@[k] == y.data@[k] by {
        let n = x.n as int;
        assert(n > 0) by (nonlinear_arith)
            requires
                0 <= k < x.m * n,
                n >= 0,
        ;
        let i = k / n;
        let j = k % n;
        assert(0 <= i < x.m) by (nonlinear_arith)
            requires
                0 <= k < x.m * n,
                n > 0,
                i == k / n,
        ;
        vstd::arithmetic::div_mod::lemma_fundamental_div_mod(k, n);
        assert(x.at(i, j) == y.at(i, j));
    }
    assert(x.data@ =~= y.data@);
}

impl<T: Numeric> Dense<T> {
    /// The `size` x `size` identity matrix.
    pub fn eye(size: usize) -> (r: Dense<T>)
        ensures
            r.wf(),
            r.m == size,
            r.n == size,
            forall|i: int, j: int|
                0 <= i < size && 0 <= j < size ==> (#[trigger] r.at(i, j)).val() == if i == j {
                    1int
                } else {
                    0int
                },
    {
        let mut data: Vec<T> = Vec::new();
        let mut i: usize = 0;
        while i < size
            invariant
                i <= size,
                data@.len() == i * size,
                forall|p: int, q: int|
                    0 <= p < i && 0 <= q < size ==> (#[trigger] data@[offset(p, q, size as int)]).val() == if p == q {
                        1int
                    } else {
                        0int
                    },
            decreases size - i,
        {
            let mut j: usize = 0;
            while j < size
                invariant
                    i < size,
                    j <= size,
                    data@.len() == i * size + j,
                    forall|p: int, q: int|
                        0 <= p < i && 0 <= q < size ==> (#[trigger] data@[offset(p, q, size as int)]).val() == if p == q {
                            1int
                        } else {
                            0int
                        },
                    forall|q: int| 0 <= q < j ==> (#[trigger] data@[offset(i as int, q, size as int)]).val() == if i == q {
                        1int
                    } else {
                        0int
                    },
                decreases size - j,
            {
                let x = if i == j {
                    T::one()
                } else {
                    T::zero()
                };
                let ghost before = data@;
                proof {
                    lemma_offset(i as int, j as int, size as int, size as int);
                }
                data.push(x);
                proof {
                    assert forall|p: int, q: int| 0 <= p < i && 0 <= q < size implies #[trigger] data@[offset(p, q, size as int)] == before[offset(p, q, size as int)] by {
                        lemma_offset(p, q, i as int, size as int);
                    }
                }
                j += 1;
            }
            proof {
                assert((i + 1) * size == i * size + size) by (nonlinear_arith);
            }
            i += 1;
        }
        Dense { data, m: size, n: size }
    }


}

impl<T: Copy> Dense<T> {
    /// Horizontal join: each row of `self` followed by the same row of `other`.
    pub fn concatenate(self, other: Dense<T>) -> (r: Result<Dense<T>, MatrixError>)
        requires
            self.wf(),
            other.wf(),
            self.m == other.m ==> self.n + other.n <= usize::MAX,
        ensures
            match r {
                Ok(c) => {
                    &&& self.m == other.m
                    &&& c.wf()
                    &&& c.m == self.m
                    &&& c.n == self.n + other.n
                    &&& forall|i: int, j: int|
                        0 <= i < c.m && 0 <= j < c.n ==> #[trigger] c.at(i, j) == if j < self.n {
                            self.at(i, j)
                        } else {
                            other.at(i, j - self.n)
                        }
                },
                Err(e) => self.m != other.m && e == MatrixError::Incompatibility,
            },
    {
        if self.m != other.m {
            return Err(MatrixError::Incompatibility);
        }
        let n = self.n + other.n;
        let mut data: Vec<T> = Vec::new();
        let mut i: usize = 0;
        while i < self.m
            invariant
                self.wf(),
                other.wf(),
                self.m == other.m,
                n == self.n + other.n,
                i <= self.m,
                data@.len() == i * n,
                forall|p: int, q: int|
                    0 <= p < i && 0 <= q < n ==> #[trigger] data@[offset(p, q, n as int)] == if q < self.n {
                        self.at(p, q)
                    } else {
                        other.at(p, q - self.n)
                    },
            decreases self.m - i,
        {
            let mut j: usize = 0;
            while j < self.n
                invariant
                    self.wf(),
                    other.wf(),
                    self.m == other.m,
                    n == self.n + other.n,
                    i < self.m,
                    j <= self.n,
                    data@.len() == i * n + j,
                    forall|p: int, q: int|
                        0 <= p < i && 0 <= q < n ==> #[trigger] data@[offset(p, q, n as int)] == if q < self.n {
                            self.at(p, q)
                        } else {
                            other.at(p, q - self.n)
                        },
                    forall|q: int| 0 <= q < j ==> #[trigger] data@[offset(i as int, q, n as int)] == self.at(i as int, q),
                decreases self.n - j,
            {
                let x = self.get(i, j);
                let ghost before = data@;
                proof {
                    lemma_offset(i as int, j as int, self.m as int, n as int);
                }
                data.push(x);
                proof {
                    assert forall|p: int, q: int| 0 <= p < i && 0 <= q < n implies #[trigger] data@[offset(p, q, n as int)] == before[offset(p, q, n as int)] by {
                        lemma_offset(p, q, i as int, n as int);
                    }
                }
                j += 1;
            }
            let mut j: usize = 0;
            while j < other.n
                invariant
                    self.wf(),
                    other.wf(),
                    self.m == other.m,
                    n == self.n + other.n,
                    i < self.m,
                    j <= other.n,
                    data@.len() == i * n + self.n + j,
                    forall|p: int, q: int|
                        0 <= p < i && 0 <= q < n ==> #[trigger] data@[offset(p, q, n as int)] == if q < self.n {
                            self.at(p, q)
                        } else {
                            other.at(p, q - self.n)
                        },
                    forall|q: int| 0 <= q < self.n ==> #[trigger] data@[offset(i as int, q, n as int)] == self.at(i as int, q),
                    forall|q: int| self.n <= q < self.n + j ==> #[trigger] data@[offset(i as int, q, n as int)] == other.at(i as int, q - self.n),
                decreases other.n - j,
            {
                let x = other.get(i, j);
                let ghost before = data@;
                proof {
                    lemma_offset(i as int, (self.n + j) as int, self.m as int, n as int);
                }
                data.push(x);
                proof {
                    assert forall|p: int, q: int| 0 <= p < i && 0 <= q < n implies #[trigger] data@[offset(p, q, n as int)] == before[offset(p, q, n as int)] by {
                        lemma_offset(p, q, i as int, n as int);
                    }
                }
                j += 1;
            }
            proof {
                assert((i + 1) * n == i * n + n) by (nonlinear_arith);
            }
            i += 1;
        }
        Ok(Dense { data, m: self.m, n })
    }
}

impl<T: Numeric> Dense<T> {
    /// Matrix product: entry `(i, j)` is the sum over `k` of `self[i, k] * other[k, j]`.
    pub fn mul_matrix(self, other: Dense<T>) -> (r: Result<Dense<T>, MatrixError>)
        requires
            self.wf(),
            other.wf(),
            self.n == other.m ==> self.m * other.n <= usize::MAX,
            self.n == other.m ==> product_fits(self, other),
        ensures
            match r {
                Ok(c) => {
                    &&& self.n == other.m
                    &&& c.wf()
                    &&& c.m == self.m
                    &&& c.n == other.n
                    &&& forall|i: int, j: int|
                        0 <= i < c.m && 0 <= j < c.n ==> (#[trigger] c.at(i, j)).val() == dot(
                            self,
                            other,
                            i,
                            j,
                            self.n as int,
                        )
                },
                Err(e) => self.n != other.m && e == MatrixError::Incompatibility,
            },
    {
        if self.n != other.m {
            return Err(MatrixError::Incompatibility);
        }
        let n = other.n;
        let mut data: Vec<T> = Vec::with_capacity(self.m * n);
        let mut i: usize = 0;
        while i < self.m
            invariant
                self.wf(),
                other.wf(),
                self.n == other.m,
                n == other.n,
                product_fits(self, other),
                i <= self.m,
                data@.len() == i * n,
                forall|p: int, q: int|
                    0 <= p < i && 0 <= q < n ==> (#[trigger] data@[offset(p, q, n as int)]).val() == dot(self, other, p, q, self.n as int),
            decreases self.m - i,
        {
            let mut j: usize = 0;
            while j < n
                invariant
                    self.wf(),
                    other.wf(),
                    self.n == other.m,
                    n == other.n,
                    product_fits(self, other),
                    i < self.m,
                    j <= n,
                    data@.len() == i * n + j,
                    forall|p: int, q: int|
                        0 <= p < i && 0 <= q < n ==> (#[trigger] data@[offset(p, q, n as int)]).val() == dot(self, other, p, q, self.n as int),
                    forall|q: int| 0 <= q < j ==> (#[trigger] data@[offset(i as int, q, n as int)]).val() == dot(self, other, i as int, q, self.n as int),
                decreases n - j,
            {
                let mut acc = T::zero();
                let mut k: usize = 0;
                while k < self.n
                    invariant
                        self.wf(),
                        other.wf(),
                        self.n == other.m,
                        n == other.n,
                        product_fits(self, other),
                        i < self.m,
                        j < n,
                        k <= self.n,
                        acc.val() == dot(self, other, i as int, j as int, k as int),
                    decreases self.n - k,
                {
                    let x = self.get(i, k);
                    let y = other.get(k, j);
                    acc = acc.plus(x.times(y));
                    k += 1;
                }
                let ghost before = data@;
                proof {
                    lemma_offset(i as int, j as int, self.m as int, n as int);
                }
                data.push(acc);
                proof {
                    assert forall|p: int, q: int| 0 <= p < i && 0 <= q < n implies #[trigger] data@[offset(p, q, n as int)] == before[offset(p, q, n as int)] by {
                        lemma_offset(p, q, i as int, n as int);
                    }
                }
                j += 1;
            }
            proof {
                assert((i + 1) * n == i * n + n) by (nonlinear_arith);
            }
            i += 1;
        }
        Ok(Dense { data, m: self.m, n })
    }
}

impl<T> Dense<T> {
    /// A matrix of `m` rows and `n` columns over the row-major vector `data`;
    /// fails when `data` does not hold exactly `m * n` elements.
    pub fn from_flat(m: usize, n: usize, data: Vec<T>) -> (r: Result<Dense<T>, MatrixError>)
        ensures
            match r {
                Ok(d) => data@.len() == m * n && d.wf() && d.m == m && d.n == n && d.data@ == data@,
                Err(e) => data@.len() != m * n && e == MatrixError::Incompatibility,
            },
    {
        let len = data.len();
        match m.checked_mul(n) {
            Some(p) => if p == len {
                Ok(Dense { data, m, n })
            } else {
                Err(MatrixError::Incompatibility)
            },
            None => Err(MatrixError::Incompatibility),
        }
    }

    /// The vector as a single row.
    pub fn from_row(data: Vec<T>) -> (r: Dense<T>)
        ensures
            r.wf(),
            r.m == 1,
            r.n == data@.len(),
            r.data@ == data@,
    {
        let n = data.len();
        Dense { data, m: 1, n }
    }

    /// The vector as a single column.
    pub fn from_column(data: Vec<T>) -> (r: Dense<T>)
        ensures
            r.wf(),
            r.m == data@.len(),
            r.n == 1,
            r.data@ == data@,
    {
        let m = data.len();
        Dense { data, m, n: 1 }
    }

    /// Reads the same storage under exchanged dimensions: turns a row into a
    /// column and back. For more than one row and column this is not a transpose.
    pub fn swap_mn(&mut self)
        ensures
            final(self).m == old(self).n,
            final(self).n == old(self).m,
            final(self).data@ == old(self).data@,
            old(self).wf() ==> final(self).wf(),
    {
        let m = self.m;
        self.m = self.n;
        self.n = m;
        proof {
            vstd::arithmetic::mul::lemma_mul_is_commutative(self.m as int, self.n as int);
        }
    }

    /// Row `i`, as a slice of the storage.
    pub fn row(&self, i: usize) -> (r: &[T])
        requires
            self.wf(),
            i < self.m,
        ensures
            r@ == self.data@.subrange(offset(i as int, 0, self.n as int), offset(i as int, self.n as int, self.n as int)),
    {
        let len = self.data.len();
        proof {
            assert(i * self.n + self.n <= self.m * self.n) by (nonlinear_arith)
                requires
                    i < self.m,
            ;
        }
        let start = i * self.n;
        vstd::slice::slice_subrange(self.data.as_slice(), start, start + self.n)
    }

    /// The rows in order, one slice each.
    pub fn iter(&self) -> (r: MatrixIterator<'_, T>)
        ensures
            r.matrix == self,
            r.i == 0,
    {
        MatrixIterator { matrix: self, i: 0 }
    }
}

impl<T: Copy> Dense<T> {
    /// A matrix of `m` rows and `n` columns with every element `v`.
    pub fn filled(v: T, m: usize, n: usize) -> (r: Dense<T>)
        ensures
            r.wf(),
            r.m == m,
            r.n == n,
            forall|k: int| 0 <= k < m * n ==> #[trigger] r.data@[k] == v,
    {
        let mut data: Vec<T> = Vec::new();
        let mut i: usize = 0;
        while i < m
            invariant
                i <= m,
                data@.len() == i * n,
                forall|k: int| 0 <= k < data@.len() ==> #[trigger] data@[k] == v,
            decreases m - i,
        {
            let mut j: usize = 0;
            while j < n
                invariant
                    i < m,
                    j <= n,
                    data@.len() == i * n + j,
                    forall|k: int| 0 <= k < data@.len() ==> #[trigger] data@[k] == v,
                decreases n - j,
            {
                data.push(v);
                j += 1;
            }
            proof {
                assert((i + 1) * n == i * n + n) by (nonlinear_arith);
            }
            i += 1;
        }
        Dense { data, m, n }
    }

    /// Appends `column` as a new last column; fails unless it has one element per row.
    pub fn concatenate_vec(self, column: &[T]) -> (r: Result<Dense<T>, MatrixError>)
        requires
            self.wf(),
            column@.len() == self.m ==> self.n < usize::MAX,
        ensures
            match r {
                Ok(c) => {
                    &&& column@.len() == self.m
                    &&& c.wf()
                    &&& c.m == self.m
                    &&& c.n == self.n + 1
                    &&& forall|i: int, j: int|
                        0 <= i < c.m && 0 <= j < c.n ==> #[trigger] c.at(i, j) == if j < self.n {
                            self.at(i, j)
                        } else {
                            column@[i]
                        }
                },
                Err(e) => column@.len() != self.m && e == MatrixError::Incompatibility,
            },
    {
        if column.len() != self.m {
            return Err(MatrixError::Incompatibility);
        }
        let other = Dense::from_column(vstd::slice::slice_to_vec(column));
        self.concatenate(other)
    }
}

/// Walks the rows of a dense matrix in order.
pub struct MatrixIterator<'a, T> {
    /// The matrix walked.
    pub matrix: &'a Dense<T>,
    /// The next row handed out.
    pub i: usize,
}

impl<'a, T> MatrixIterator<'a, T> {
    /// The next row, or `None` after the last.
    pub fn next(&mut self) -> (r: Option<&'a [T]>)
        requires
            old(self).matrix.wf(),
        ensures
            final(self).matrix == old(self).matrix,
            old(self).i < old(self).matrix.m ==> {
                &&& final(self).i == old(self).i + 1
                &&& r.is_some()
                &&& r.unwrap()@ == old(self).matrix.data@.subrange(
                    offset(old(self).i as int, 0, old(self).matrix.n as int),
                    offset(old(self).i as int, old(self).matrix.n as int, old(self).matrix.n as int),
                )
            },
            old(self).i >= old(self).matrix.m ==> final(self).i == old(self).i && r.is_none(),
    {
        if self.i < self.matrix.m {
            let out = self.matrix.row(self.i);
            self.i += 1;
            Some(out)
        } else {
            None
        }
    }
}

impl<T: Numeric> Dense<T> {
    /// Multiplies every element of row `i` by `scale`.
    pub fn scale_row(&mut self, i: usize, scale: T)
        requires
            old(self).wf(),
            i < old(self).m,
            forall|q: int|
                0 <= q < old(self).n ==> T::min_val() <= (#[trigger] old(self).at(i as int, q)).val()
                    * scale.val() <= T::max_val(),
        ensures
            final(self).wf(),
            final(self).m == old(self).m,
            final(self).n == old(self).n,
            forall|p: int, q: int|
                0 <= p < old(self).m && 0 <= q < old(self).n ==> if p == i {
                    (#[trigger] final(self).at(p, q)).val() == old(self).at(p, q).val() * scale.val()
                } else {
                    final(self).at(p, q) == old(self).at(p, q)
                },
    {
        let ghost start = *self;
        let mut j: usize = 0;
        while j < self.n
            invariant
                self.wf(),
                self.m == start.m,
                self.n == start.n,
                i < self.m,
                j <= self.n,
                forall|q: int|
                    0 <= q < start.n ==> T::min_val() <= (#[trigger] start.at(i as int, q)).val()
                        * scale.val() <= T::max_val(),
                forall|p: int, q: int|
                    0 <= p < self.m && 0 <= q < self.n ==> if p == i && q < j {
                        (#[trigger] self.at(p, q)).val() == start.at(p, q).val() * scale.val()
                    } else {
                        self.at(p, q) == start.at(p, q)
                    },
            decreases self.n - j,
        {
            let x = self.get(i, j);
            self.set(i, j, x.times(scale));
            j += 1;
        }
    }

    /// Adds `scale` times row `source` to row `base`. Each element of
    /// `source` is read before the element of `base` in its column is
    /// written, so `base == source` scales the row by `1 + scale`.
    pub fn add_rows(&mut self, base: usize, source: usize, scale: T)
        requires
            old(self).wf(),
            base < old(self).m,
            source < old(self).m,
            forall|q: int|
                0 <= q < old(self).n ==> {
                    &&& T::min_val() <= (#[trigger] old(self).at(source as int, q)).val() * scale.val()
                        <= T::max_val()
                    &&& T::min_val() <= old(self).at(base as int, q).val() + old(self).at(
                        source as int,
                        q,
                    ).val() * scale.val() <= T::max_val()
                },
        ensures
            final(self).wf(),
            final(self).m == old(self).m,
            final(self).n == old(self).n,
            forall|p: int, q: int|
                0 <= p < old(self).m && 0 <= q < old(self).n ==> if p == base {
                    (#[trigger] final(self).at(p, q)).val() == old(self).at(p, q).val() + old(
                        self,
                    ).at(source as int, q).val() * scale.val()
                } else {
                    final(self).at(p, q) == old(self).at(p, q)
                },
    {
        let ghost start = *self;
        let mut j: usize = 0;
        while j < self.n
            invariant
                self.wf(),
                self.m == start.m,
                self.n == start.n,
                base < self.m,
                source < self.m,
                j <= self.n,
                forall|q: int|
                    0 <= q < start.n ==> {
                        &&& T::min_val() <= (#[trigger] start.at(source as int, q)).val() * scale.val()
                            <= T::max_val()
                        &&& T::min_val() <= start.at(base as int, q).val() + start.at(
                            source as int,
                            q,
                        ).val() * scale.val() <= T::max_val()
                    },
                forall|p: int, q: int|
                    0 <= p < self.m && 0 <= q < self.n ==> if p == base && q < j {
                        (#[trigger] self.at(p, q)).val() == start.at(p, q).val() + start.at(
                            source as int,
                            q,
                        ).val() * scale.val()
                    } else {
                        self.at(p, q) == start.at(p, q)
                    },
            decreases self.n - j,
        {
            let x = self.get(source, j);
            let y = self.get(base, j);
            self.set(base, j, y.plus(x.times(scale)));
            j += 1;
        }
    }

    /// Every element multiplied by `scalar`.
    pub fn mul_scalar(self, scalar: T) -> (r: Dense<T>)
        requires
            forall|k: int|
                0 <= k < self.data@.len() ==> T::min_val() <= (#[trigger] self.data@[k]).val()
                    * scalar.val() <= T::max_val(),
        ensures
            r.m == self.m,
            r.n == self.n,
            r.data@.len() == self.data@.len(),
            forall|k: int|
                0 <= k < self.data@.len() ==> (#[trigger] r.data@[k]).val() == self.data@[k].val()
                    * scalar.val(),
    {
        let mut out = self;
        out.mul_assign_scalar(scalar);
        out
    }

    /// Multiplies every element by `scalar` in place.
    pub fn mul_assign_scalar(&mut self, scalar: T)
        requires
            forall|k: int|
                0 <= k < old(self).data@.len() ==> T::min_val() <= (#[trigger] old(self).data@[k]).val()
                    * scalar.val() <= T::max_val(),
        ensures
            final(self).m == old(self).m,
            final(self).n == old(self).n,
            final(self).data@.len() == old(self).data@.len(),
            forall|k: int|
                0 <= k < old(self).data@.len() ==> (#[trigger] final(self).data@[k]).val() == old(
                    self,
                ).data@[k].val() * scalar.val(),
    {
        let ghost start = self.data@;
        let len = self.data.len();
        let mut k: usize = 0;
        while k < len
            invariant
                len == start.len(),
                self.data@.len() == len,
                self.m == old(self).m,
                self.n == old(self).n,
                start == old(self).data@,
                k <= len,
                forall|p: int|
                    0 <= p < len ==> T::min_val() <= (#[trigger] start[p]).val() * scalar.val()
                        <= T::max_val(),
                forall|p: int|
                    0 <= p < len ==> if p < k {
                        (#[trigger] self.data@[p]).val() == start[p].val() * scalar.val()
                    } else {
                        self.data@[p] == start[p]
                    },
            decreases len - k,
        {
            let x = self.data[k];
            self.data[k] = x.times(scalar);
            k += 1;
        }
    }
}

impl<T: Numeric> Dense<T> {
    /// The matrix as text: one line per row, each element right-aligned in a
    /// field two characters wider than the longest element.
    pub fn render(&self) -> (r: String)
        requires
            self.wf(),
        ensures
            r@ == laid_out(decimals(self.data@), self.n as int, (widest(decimals(self.data@)) + 2) as int),
    {
        let cells = decimal_cells(self.data.as_slice());
        proof {
            if self.data@.len() > 0 {
                assert(self.n > 0) by (nonlinear_arith)
                    requires
                        self.m * self.n > 0,
                        self.n >= 0,
                ;
            }
        }
        layout(&cells, self.n)
    }
}

impl<T> Default for Dense<T> {
    fn default() -> (r: Self)
        ensures
            r.wf(),
            r.m == 1,
            r.n == 0,
    {
        Dense::new()
    }
}

impl<T> Matrix for Dense<T> {
    type Element = T;

    open spec fn rows(&self) -> nat {
        self.m as nat
    }

    open spec fn cols(&self) -> nat {
        self.n as nat
    }

    open spec fn well_formed(&self) -> bool {
        self.wf()
    }

    open spec fn elements(&self) -> Seq<T> {
        self.data@
    }

    fn len(&self) -> (r: usize) {
        self.data.len()
    }

    fn size(&self) -> (r: [usize; 2]) {
        let r = [self.m, self.n];
        assert(r@ =~= seq![self.m, self.n]);
        r
    }

    fn is_empty(&self) -> (r: bool) {
        self.data.len() == 0
    }

    fn into_vec(self) -> (r: Vec<T>) {
        self.data
    }
}

} // verus!
