//! Matrix multiplication.

use std::ops::{Add, Mul};
use vstd::prelude::*;
use vstd::std_specs::ops::{AddSpec, MulSpec};
use crate::matrix::{Matrix, MatrixError, rows_of};
use crate::model::{is_grid, n_rows, n_cols, dims, column, add_total, mul_total};

verus! {

/// The dot product of the first `n` cells of `row` and `col`: the first product,
/// then each later product added to the running total in ascending order.
pub open spec fn dot<T: Add<Output = T> + Mul<Output = T>>(row: Seq<T>, col: Seq<T>, n: nat) -> T
    decreases n,
{
    if n <= 1 {
        row[0].mul_spec(col[0])
    } else {
        dot(row, col, (n - 1) as nat).add_spec(row[n - 1].mul_spec(col[n - 1]))
    }
}

/// No product or addition made while computing `dot(row, col, n)` is refused.
pub open spec fn dot_ok<T: Add<Output = T> + Mul<Output = T>>(row: Seq<T>, col: Seq<T>, n: nat) -> bool
    decreases n,
{
    if n <= 1 {
        row[0].mul_req(col[0])
    } else {
        &&& dot_ok(row, col, (n - 1) as nat)
        &&& row[n - 1].mul_req(col[n - 1])
        &&& dot(row, col, (n - 1) as nat).add_req(row[n - 1].mul_spec(col[n - 1]))
    }
}

/// The matrix product of `a` and `b`: cell `(j, i)` is the dot product of row
/// `j` of `a` and column `i` of `b`.
pub open spec fn product<T: Add<Output = T> + Mul<Output = T>>(a: Seq<Seq<T>>, b: Seq<Seq<T>>) -> Seq<Seq<T>> {
    Seq::new(
        a.len(),
        |j: int| Seq::new(n_cols(b) as nat, |i: int| dot(a[j], column(b, i), n_cols(a) as nat)),
    )
}

/// Every dot product of `product(a, b)` is computed without a refused operation.
pub open spec fn product_ok<T: Add<Output = T> + Mul<Output = T>>(a: Seq<Seq<T>>, b: Seq<Seq<T>>) -> bool {
    forall|j: int, i: int|
        0 <= j < a.len() && 0 <= i < n_cols(b) ==> #[trigger] dot_ok(a[j], column(b, i), n_cols(a) as nat)
}

/// The arithmetic that `a.matmul(b)` performs is allowed: either `T` follows its
/// operator specifications and no step of any dot product is refused, or `T`
/// accepts every addition and multiplication.
pub open spec fn matmul_ok<T: Add<Output = T> + Mul<Output = T>>(a: Seq<Seq<T>>, b: Seq<Seq<T>>) -> bool {
    ||| T::obeys_add_spec() && T::obeys_mul_spec() && product_ok(a, b)
    ||| add_total::<T>() && mul_total::<T>()
}

proof fn lemma_dot_ok_prefix<T: Add<Output = T> + Mul<Output = T>>(row: Seq<T>, col: Seq<T>, n: nat, k: nat)
    requires
        dot_ok(row, col, n),
        1 <= k <= n,
    ensures
        dot_ok(row, col, k),
    decreases n,
{
    if k < n {
        lemma_dot_ok_prefix(row, col, (n - 1) as nat, k);
    }
}

impl<T: Copy + Add<Output = T> + Mul<Output = T>> Matrix<T> {
    /// The dot product of row `j` of `self` and column `i` of `b`.
    fn dot_cell(&self, b: &Matrix<T>, j: usize, i: usize) -> (r: T)
        requires
            self.wf(),
            b.wf(),
            n_cols(self@) == n_rows(b@),
            j < n_rows(self@),
            i < n_cols(b@),
            matmul_ok(self@, b@),
        ensures
            T::obeys_add_spec() && T::obeys_mul_spec() ==> r == dot(self@[j as int], column(b@, i as int), n_cols(self@) as nat),
    {
        let ghost row = self@[j as int];
        let ghost col = column(b@, i as int);
        let ghost n = n_cols(self@) as nat;
        let ghost exact = T::obeys_add_spec() && T::obeys_mul_spec() && product_ok(self@, b@);
        proof {
            if exact {
                assert(dot_ok(row, col, n));
                lemma_dot_ok_prefix(row, col, n, 1);
            }
        }
        let ncols = self.n_cols();
        let mut acc = *self.cell(j, 0) * *b.cell(0, i);
        let mut k: usize = 1;
        while k < ncols
            invariant
                self.wf(),
                b.wf(),
                ncols == n,
                n == n_rows(b@),
                n == n_cols(self@),
                j < n_rows(self@),
                i < n_cols(b@),
                row == self@[j as int],
                col == column(b@, i as int),
                1 <= k <= ncols,
                matmul_ok(self@, b@),
                exact == (T::obeys_add_spec() && T::obeys_mul_spec() && product_ok(self@, b@)),
                exact ==> dot_ok(row, col, n),
                T::obeys_add_spec() && T::obeys_mul_spec() ==> acc == dot(row, col, k as nat),
            decreases ncols - k,
        {
            proof {
                if exact {
                    lemma_dot_ok_prefix(row, col, n, (k + 1) as nat);
                }
            }
            let p = *self.cell(j, k) * *b.cell(k, i);
            acc = acc + p;
            k = k + 1;
        }
        acc
    }

    /// The matrix product `self × b`: cell `(j, i)` is the sum over `k` of
    /// `self[j][k] * b[k][i]`, accumulated in ascending `k`. Fails with the two
    /// shapes when the column count of `self` differs from the row count of `b`.
    /// Cells are copied out of the operands, which are left as they are.
    pub fn matmul(&self, b: &Matrix<T>) -> (r: Result<Matrix<T>, MatrixError>)
        requires
            self.wf(),
            b.wf(),
            n_cols(self@) == n_rows(b@) ==> matmul_ok(self@, b@),
        ensures
            match r {
                Ok(m) => {
                    &&& n_cols(self@) == n_rows(b@)
                    &&& m.wf()
                    &&& dims(m@) == (dims(self@).0, dims(b@).1)
                    &&& T::obeys_add_spec() && T::obeys_mul_spec() ==> m@ == product(self@, b@)
                },
                Err(e) => n_cols(self@) != n_rows(b@) && e == MatrixError::DimMismatch(dims(self@), dims(b@)),
            },
    {
        if self.n_cols() != b.n_rows() {
            return Err(MatrixError::DimMismatch(self.shape(), b.shape()));
        }
        let nrows = self.n_rows();
        let ncols = b.n_cols();
        let mut res: Vec<Vec<T>> = Vec::new();
        let mut j: usize = 0;
        while j < nrows
            invariant
                self.wf(),
                b.wf(),
                n_cols(self@) == n_rows(b@),
                matmul_ok(self@, b@),
                nrows == n_rows(self@),
                ncols == n_cols(b@),
                j <= nrows,
                res@.len() == j,
                forall|r: int| 0 <= r < j ==> #[trigger] res@[r]@.len() == ncols,
                T::obeys_add_spec() && T::obeys_mul_spec() ==> forall|r: int| 0 <= r < j ==> #[trigger] res@[r]@ == product(self@, b@)[r],
            decreases nrows - j,
        {
            let mut row: Vec<T> = Vec::new();
            let mut i: usize = 0;
            while i < ncols
                invariant
                    self.wf(),
                    b.wf(),
                    n_cols(self@) == n_rows(b@),
                    matmul_ok(self@, b@),
                    nrows == n_rows(self@),
                    ncols == n_cols(b@),
                    j < nrows,
                    i <= ncols,
                    row@.len() == i,
                    T::obeys_add_spec() && T::obeys_mul_spec() ==> forall|c: int| 0 <= c < i ==> #[trigger] row@[c] == product(self@, b@)[j as int][c],
                decreases ncols - i,
            {
                let x = self.dot_cell(b, j, i);
                row.push(x);
                i = i + 1;
            }
            proof {
                if T::obeys_add_spec() && T::obeys_mul_spec() {
                    assert(row@ =~= product(self@, b@)[j as int]);
                }
            }
            res.push(row);
            j = j + 1;
        }
        proof {
            assert(is_grid(rows_of(res@)));
            if T::obeys_add_spec() && T::obeys_mul_spec() {
                assert(rows_of(res@) =~= product(self@, b@));
            }
        }
        Ok(Matrix::from_grid(res, nrows, ncols))
    }
}

} // verus!
