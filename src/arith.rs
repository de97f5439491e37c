//! Element-wise arithmetic: addition with column broadcasting, multiplication,
//! and their scalar forms.

use std::ops::{Add, Mul};
use vstd::prelude::*;
use vstd::std_specs::ops::{AddSpec, MulSpec};
use crate::matrix::{Matrix, MatrixError};
use crate::model::{is_grid, n_rows, n_cols, dims, constant_grid};

verus! {

/// `a` and `b` have the same number of rows and of columns.
pub open spec fn same_shape<T>(a: Seq<Seq<T>>, b: Seq<Seq<T>>) -> bool {
    n_rows(a) == n_rows(b) && n_cols(a) == n_cols(b)
}

/// `b` can be added to `a`: the shapes are equal, or `b` is a single column
/// with as many rows as `a`.
pub open spec fn broadcastable<T>(a: Seq<Seq<T>>, b: Seq<Seq<T>>) -> bool {
    same_shape(a, b) || (n_cols(b) == 1 && n_rows(b) == n_rows(a))
}

/// The right operand as it is added to `a`: `b` itself when the shapes are
/// equal, else the single column of `b` repeated across the columns of `a`.
pub open spec fn spread<T>(a: Seq<Seq<T>>, b: Seq<Seq<T>>) -> Seq<Seq<T>> {
    if same_shape(a, b) {
        b
    } else {
        Seq::new(b.len(), |j: int| Seq::new(n_cols(a) as nat, |i: int| b[j][0]))
    }
}

/// The cell-by-cell sums `a[j][i] + b[j][i]` over the shape of `a`.
pub open spec fn sums<T: Add<Output = T>>(a: Seq<Seq<T>>, b: Seq<Seq<T>>) -> Seq<Seq<T>> {
    Seq::new(a.len(), |j: int| Seq::new(a[j].len(), |i: int| a[j][i].add_spec(b[j][i])))
}

/// No cell-by-cell addition of `a` and `b` is refused.
pub open spec fn sums_ok<T: Add<Output = T>>(a: Seq<Seq<T>>, b: Seq<Seq<T>>) -> bool {
    forall|j: int, i: int| 0 <= j < a.len() && 0 <= i < a[j].len() ==> #[trigger] a[j][i].add_req(b[j][i])
}

/// The cell-by-cell products `a[j][i] * b[j][i]` over the shape of `a`.
pub open spec fn products<T: Mul<Output = T>>(a: Seq<Seq<T>>, b: Seq<Seq<T>>) -> Seq<Seq<T>> {
    Seq::new(a.len(), |j: int| Seq::new(a[j].len(), |i: int| a[j][i].mul_spec(b[j][i])))
}

/// No cell-by-cell multiplication of `a` and `b` is refused.
pub open spec fn products_ok<T: Mul<Output = T>>(a: Seq<Seq<T>>, b: Seq<Seq<T>>) -> bool {
    forall|j: int, i: int| 0 <= j < a.len() && 0 <= i < a[j].len() ==> #[trigger] a[j][i].mul_req(b[j][i])
}

impl<T: Copy + Add<Output = T>> Matrix<T> {
    /// Element-wise sum. When the shapes differ and `rhs` is a single column
    /// with as many rows as `self`, that column is added to every column of
    /// `self`; any other difference of shape fails with both shapes. The
    /// storage of `self` is reused for the result.
    pub fn add(self, rhs: Matrix<T>) -> (r: Result<Matrix<T>, MatrixError>)
        requires
            self.wf(),
            rhs.wf(),
            broadcastable(self@, rhs@) ==> sums_ok(self@, spread(self@, rhs@)),
        ensures
            match r {
                Ok(m) => {
                    &&& broadcastable(self@, rhs@)
                    &&& m.wf()
                    &&& same_shape(m@, self@)
                    &&& T::obeys_add_spec() ==> m@ == sums(self@, spread(self@, rhs@))
                },
                Err(e) => !broadcastable(self@, rhs@) && e == MatrixError::DimMismatch(dims(self@), dims(rhs@)),
            },
    {
        let nr = self.n_rows();
        let nc = self.n_cols();
        let same = nr == rhs.n_rows() && nc == rhs.n_cols();
        if !same && !(rhs.n_cols() == 1 && rhs.n_rows() == nr) {
            return Err(MatrixError::DimMismatch(self.shape(), rhs.shape()));
        }
        let ghost a = self@;
        let ghost w = spread(self@, rhs@);
        let ghost s = sums(a, w);
        let mut m = self;
        let mut j: usize = 0;
        while j < nr
            invariant
                m.wf(),
                rhs.wf(),
                same == same_shape(a, rhs@),
                broadcastable(a, rhs@),
                w == spread(a, rhs@),
                s == sums(a, w),
                sums_ok(a, w),
                is_grid(a),
                nr == n_rows(a) == n_rows(m@) == n_rows(rhs@),
                nc == n_cols(a) == n_cols(m@),
                j <= nr,
                forall|r: int| j <= r < nr ==> #[trigger] m@[r] == a[r],
                T::obeys_add_spec() ==> forall|r: int| 0 <= r < j ==> #[trigger] m@[r] == s[r],
            decreases nr - j,
        {
            let mut i: usize = 0;
            while i < nc
                invariant
                    m.wf(),
                    rhs.wf(),
                    same == same_shape(a, rhs@),
                    broadcastable(a, rhs@),
                    w == spread(a, rhs@),
                    s == sums(a, w),
                    sums_ok(a, w),
                    is_grid(a),
                    nr == n_rows(a) == n_rows(m@) == n_rows(rhs@),
                    nc == n_cols(a) == n_cols(m@),
                    j < nr,
                    i <= nc,
                    forall|r: int| j < r < nr ==> #[trigger] m@[r] == a[r],
                    T::obeys_add_spec() ==> forall|r: int| 0 <= r < j ==> #[trigger] m@[r] == s[r],
                    forall|c: int| i <= c < nc ==> #[trigger] m@[j as int][c] == a[j as int][c],
                    T::obeys_add_spec() ==> forall|c: int| 0 <= c < i ==> #[trigger] m@[j as int][c] == s[j as int][c],
                decreases nc - i,
            {
                let x = *m.cell(j, i);
                let y = if same {
                    *rhs.cell(j, i)
                } else {
                    *rhs.cell(j, 0)
                };
                assert(w[j as int][i as int] == y);
                assert(a[j as int][i as int].add_req(w[j as int][i as int]));
                m.set_cell(j, i, x + y);
                i = i + 1;
            }
            proof {
                if T::obeys_add_spec() {
                    assert(m@[j as int] =~= s[j as int]);
                }
            }
            j = j + 1;
        }
        proof {
            if T::obeys_add_spec() {
                assert(m@ =~= s);
            }
        }
        Ok(m)
    }
}

impl<T: Copy + Mul<Output = T>> Matrix<T> {
    /// Element-wise product of two matrices of the same shape; other shapes
    /// fail with both shapes. The storage of `self` is reused for the result.
    pub fn multiply(self, rhs: Matrix<T>) -> (r: Result<Matrix<T>, MatrixError>)
        requires
            self.wf(),
            rhs.wf(),
            same_shape(self@, rhs@) ==> products_ok(self@, rhs@),
        ensures
            match r {
                Ok(m) => {
                    &&& same_shape(self@, rhs@)
                    &&& m.wf()
                    &&& same_shape(m@, self@)
                    &&& T::obeys_mul_spec() ==> m@ == products(self@, rhs@)
                },
                Err(e) => !same_shape(self@, rhs@) && e == MatrixError::DimMismatch(dims(self@), dims(rhs@)),
            },
    {
        let nr = self.n_rows();
        let nc = self.n_cols();
        if nr != rhs.n_rows() || nc != rhs.n_cols() {
            return Err(MatrixError::DimMismatch(self.shape(), rhs.shape()));
        }
        let ghost a = self@;
        let ghost b = rhs@;
        let ghost p = products(a, b);
        let mut m = self;
        let mut j: usize = 0;
        while j < nr
            invariant
                m.wf(),
                rhs.wf(),
                b == rhs@,
                is_grid(a),
                same_shape(a, b),
                p == products(a, b),
                products_ok(a, b),
                nr == n_rows(a) == n_rows(m@),
                nc == n_cols(a) == n_cols(m@),
                j <= nr,
                forall|r: int| j <= r < nr ==> #[trigger] m@[r] == a[r],
                T::obeys_mul_spec() ==> forall|r: int| 0 <= r < j ==> #[trigger] m@[r] == p[r],
            decreases nr - j,
        {
            let mut i: usize = 0;
            while i < nc
                invariant
                    m.wf(),
                    rhs.wf(),
                    b == rhs@,
                    is_grid(a),
                    same_shape(a, b),
                    p == products(a, b),
                    products_ok(a, b),
                    nr == n_rows(a) == n_rows(m@),
                    nc == n_cols(a) == n_cols(m@),
                    j < nr,
                    i <= nc,
                    forall|r: int| j < r < nr ==> #[trigger] m@[r] == a[r],
                    T::obeys_mul_spec() ==> forall|r: int| 0 <= r < j ==> #[trigger] m@[r] == p[r],
                    forall|c: int| i <= c < nc ==> #[trigger] m@[j as int][c] == a[j as int][c],
                    T::obeys_mul_spec() ==> forall|c: int| 0 <= c < i ==> #[trigger] m@[j as int][c] == p[j as int][c],
                decreases nc - i,
            {
                let x = *m.cell(j, i);
                let y = *rhs.cell(j, i);
                assert(a[j as int][i as int].mul_req(b[j as int][i as int]));
                m.set_cell(j, i, x * y);
                i = i + 1;
            }
            proof {
                if T::obeys_mul_spec() {
                    assert(m@[j as int] =~= p[j as int]);
                }
            }
            j = j + 1;
        }
        proof {
            if T::obeys_mul_spec() {
                assert(m@ =~= p);
            }
        }
        Ok(m)
    }

    /// Multiplies every cell by `x`, by multiplying element-wise with a
    /// matrix of the same shape filled with `x`.
    pub fn multiply_scalar(self, x: T) -> (r: Matrix<T>)
        requires
            self.wf(),
            products_ok(self@, constant_grid(n_rows(self@) as nat, n_cols(self@) as nat, x)),
        ensures
            r.wf(),
            same_shape(r@, self@),
            T::obeys_mul_spec() ==> r@ == products(self@, constant_grid(n_rows(self@) as nat, n_cols(self@) as nat, x)),
    {
        let f = Matrix::constant(self.n_rows(), self.n_cols(), x);
        self.multiply(f).unwrap()
    }
}

impl<T: Copy + Add<Output = T>> Matrix<T> {
    /// Adds `x` to every cell, by adding element-wise a matrix of the same
    /// shape filled with `x`.
    pub fn add_scalar(self, x: T) -> (r: Matrix<T>)
        requires
            self.wf(),
            sums_ok(self@, constant_grid(n_rows(self@) as nat, n_cols(self@) as nat, x)),
        ensures
            r.wf(),
            same_shape(r@, self@),
            T::obeys_add_spec() ==> r@ == sums(self@, constant_grid(n_rows(self@) as nat, n_cols(self@) as nat, x)),
    {
        let f = Matrix::constant(self.n_rows(), self.n_cols(), x);
        self.add(f).unwrap()
    }
}

} // verus!
