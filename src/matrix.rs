//! The matrix type: construction, shape, cell access and transposition.

use std::collections::VecDeque;
use vstd::prelude::*;
use vstd::arithmetic::div_mod::lemma_fundamental_div_mod;
use vstd::std_specs::iter::IteratorSpec;
use crate::model::{is_grid, n_rows, n_cols, dims, column, transposed, constant_grid};

verus! {

/// Why an operation on matrices was refused.
#[derive(Debug, PartialEq, Eq, Clone, Copy)]
pub enum MatrixError {
    /// The shapes `(rows, cols)` of the two operands do not fit the operation.
    DimMismatch((usize, usize), (usize, usize)),
    /// The input has no rows, or its first row has no cells.
    Empty,
    /// The row at this index is not as long as the first row.
    Ragged(usize),
}

/// The error that building a matrix from the rows `g` gives, if any: `Empty`
/// when there is no row or no column, else `Ragged` at the first row whose
/// length differs from the first row's.
pub open spec fn shape_error<T>(g: Seq<Seq<T>>, e: MatrixError) -> bool {
    match e {
        MatrixError::Empty => g.len() == 0 || g[0].len() == 0,
        MatrixError::Ragged(j) => {
            &&& g.len() >= 1
            &&& g[0].len() >= 1
            &&& 0 < j < g.len()
            &&& g[j as int].len() != g[0].len()
            &&& forall|k: int| 0 <= k < j ==> #[trigger] g[k].len() == g[0].len()
        },
        MatrixError::DimMismatch(_, _) => false,
    }
}

/// The cells of each row of `v`.
pub open spec fn rows_of<T>(v: Seq<Vec<T>>) -> Seq<Seq<T>> {
    v.map_values(|r: Vec<T>| r@)
}

/// The cells of each row of the queue `q`.
pub open spec fn queue_rows_of<T>(q: Seq<VecDeque<T>>) -> Seq<Seq<T>> {
    q.map_values(|r: VecDeque<T>| r@)
}

proof fn lemma_rows_of_update<T>(v: Seq<Vec<T>>, j: int, row: Vec<T>)
    requires
        0 <= j < v.len(),
    ensures
        rows_of(v.update(j, row)) == rows_of(v).update(j, row@),
{
    assert(rows_of(v.update(j, row)) =~= rows_of(v).update(j, row@));
}

/// The cells of `s` cut into consecutive rows of `c` cells.
pub open spec fn chunked<T>(s: Seq<T>, c: nat) -> Seq<Seq<T>> {
    Seq::new(s.len() / c, |j: int| s.subrange(j * c, j * c + c))
}

/// A dense matrix stored row by row. It always has at least one row and one
/// column, and all its rows have the same length.
#[derive(Debug, PartialEq, Clone)]
pub struct Matrix<T> {
    values: Vec<Vec<T>>,
    nrows: usize,
    ncols: usize,
}

impl<T> View for Matrix<T> {
    type V = Seq<Seq<T>>;

    /// The rows of the matrix, each as the sequence of its cells.
    closed spec fn view(&self) -> Seq<Seq<T>> {
        rows_of(self.values@)
    }
}

impl<T> Matrix<T> {
    /// The cached row and column counts agree with the stored rows.
    pub closed spec fn inv(&self) -> bool {
        &&& self.nrows == self.values@.len()
        &&& self.ncols == n_cols(self@)
    }

    /// Well-formedness: a non-empty rectangular grid with consistent counts.
    pub open spec fn wf(&self) -> bool {
        &&& self.inv()
        &&& is_grid(self@)
    }

    /// Builds a matrix from a double-ended queue of rows, rejecting an empty or
    /// ragged input.
    pub fn new(data: VecDeque<VecDeque<T>>) -> (r: Result<Matrix<T>, MatrixError>)
        ensures
            match r {
                Ok(m) => m.wf() && m@ == queue_rows_of(data@),
                Err(e) => shape_error(queue_rows_of(data@), e),
            },
    {
        let ghost g = queue_rows_of(data@);
        let mut data = data;
        let mut rows: Vec<Vec<T>> = Vec::new();
        while data.len() > 0
            invariant
                rows_of(rows@) + queue_rows_of(data@) == g,
            decreases data@.len(),
        {
            let ghost before = data@;
            let mut q = data.pop_front().unwrap();
            let ghost q0 = q;
            let ghost qv = q@;
            let mut row: Vec<T> = Vec::new();
            while q.len() > 0
                invariant
                    row@ + q@ == qv,
                decreases q@.len(),
            {
                let ghost qb = q@;
                let x = q.pop_front().unwrap();
                assert(qb == seq![x] + q@);
                row.push(x);
                assert(row@ + q@ =~= qv);
            }
            assert(row@ =~= qv);
            proof {
                assert(before =~= seq![q0] + data@);
                assert(queue_rows_of(before) =~= seq![qv] + queue_rows_of(data@));
                assert(rows_of(rows@.push(row)) =~= rows_of(rows@).push(qv));
            }
            rows.push(row);
            assert(rows_of(rows@) + queue_rows_of(data@) =~= g);
        }
        assert(rows_of(rows@) =~= g);
        Matrix::from_vecs(rows)
    }

    /// Builds a matrix from rows, rejecting an empty or ragged input.
    pub fn from_vecs(data: Vec<Vec<T>>) -> (r: Result<Matrix<T>, MatrixError>)
        ensures
            match r {
                Ok(m) => m.wf() && m@ == rows_of(data@),
                Err(e) => shape_error(rows_of(data@), e),
            },
    {
        let ghost g = rows_of(data@);
        let nrows = data.len();
        if nrows == 0 || data[0].len() == 0 {
            return Err(MatrixError::Empty);
        }
        let ncols = data[0].len();
        let mut j: usize = 1;
        while j < nrows
            invariant
                g == rows_of(data@),
                nrows == data@.len() == g.len(),
                g[0] == data@[0]@,
                ncols == data@[0]@.len() >= 1,
                1 <= j <= nrows,
                forall|k: int| 0 <= k < j ==> #[trigger] g[k].len() == ncols,
            decreases nrows - j,
        {
            if data[j].len() != ncols {
                assert(g[j as int] == data@[j as int]@);
                return Err(MatrixError::Ragged(j));
            }
            j = j + 1;
        }
        let m = Matrix { values: data, nrows, ncols };
        assert(m@ =~= g);
        Ok(m)
    }

    /// Wraps rows already known to form a non-empty rectangular grid.
    pub(crate) fn from_grid(values: Vec<Vec<T>>, nrows: usize, ncols: usize) -> (r: Matrix<T>)
        requires
            is_grid(rows_of(values@)),
            nrows == values@.len(),
            ncols == values@[0]@.len(),
        ensures
            r.wf(),
            r@ == rows_of(values@),
    {
        Matrix { values, nrows, ncols }
    }

    /// The cell at row `j`, column `i`, for indices known to be in range.
    pub(crate) fn cell(&self, j: usize, i: usize) -> (r: &T)
        requires
            self.wf(),
            j < n_rows(self@),
            i < n_cols(self@),
        ensures
            *r == self@[j as int][i as int],
    {
        assert(self@[j as int] == self.values@[j as int]@);
        &self.values[j][i]
    }

    /// Replaces the cell at row `j`, column `i`.
    pub(crate) fn set_cell(&mut self, j: usize, i: usize, x: T)
        requires
            old(self).wf(),
            j < n_rows(old(self)@),
            i < n_cols(old(self)@),
        ensures
            final(self).wf(),
            final(self)@ == old(self)@.update(j as int, old(self)@[j as int].update(i as int, x)),
    {
        let ghost before = self@;
        assert(before[j as int] == self.values@[j as int]@);
        self.values[j].set(i, x);
        proof {
            let after = rows_of(self.values@);
            assert(after =~= before.update(j as int, before[j as int].update(i as int, x)));
            assert(after[0].len() == before[0].len());
        }
    }

    /// The row count, for a well-formed matrix.
    pub(crate) fn n_rows(&self) -> (r: usize)
        requires
            self.wf(),
        ensures
            r == n_rows(self@),
    {
        self.nrows
    }

    /// The column count, for a well-formed matrix.
    pub(crate) fn n_cols(&self) -> (r: usize)
        requires
            self.wf(),
        ensures
            r == n_cols(self@),
    {
        self.ncols
    }

    /// A matrix of the given shape whose every cell is `x`.
    pub(crate) fn constant(nrows: usize, ncols: usize, x: T) -> (r: Matrix<T>)
        where
            T: Copy,
        requires
            nrows >= 1,
            ncols >= 1,
        ensures
            r.wf(),
            r@ == constant_grid(nrows as nat, ncols as nat, x),
    {
        let mut values: Vec<Vec<T>> = Vec::new();
        let mut j: usize = 0;
        while j < nrows
            invariant
                j <= nrows,
                values@.len() == j,
                forall|r: int| 0 <= r < j ==> #[trigger] values@[r]@ == Seq::new(ncols as nat, |i: int| x),
            decreases nrows - j,
        {
            let mut row: Vec<T> = Vec::new();
            let mut i: usize = 0;
            while i < ncols
                invariant
                    i <= ncols,
                    row@.len() == i,
                    forall|c: int| 0 <= c < i ==> #[trigger] row@[c] == x,
                decreases ncols - i,
            {
                row.push(x);
                i = i + 1;
            }
            assert(row@ =~= Seq::new(ncols as nat, |i: int| x));
            values.push(row);
            j = j + 1;
        }
        assert(rows_of(values@) =~= constant_grid(nrows as nat, ncols as nat, x));
        Matrix::from_grid(values, nrows, ncols)
    }

    /// Builds a matrix from its cells listed row by row, `ncols` to a row.
    /// Fails with `Empty` when there is no cell or `ncols` is zero, and with
    /// `Ragged` at the index of the short last row when the cell count is not
    /// a multiple of `ncols`.
    pub fn from_row_major(data: Vec<T>, ncols: usize) -> (r: Result<Matrix<T>, MatrixError>)
        where
            T: Copy,
        ensures
            match r {
                Ok(m) => {
                    &&& ncols >= 1 && data@.len() >= 1 && data@.len() % (ncols as nat) == 0
                    &&& m.wf()
                    &&& m@ == chunked(data@, ncols as nat)
                },
                Err(e) => {
                    ||| (ncols == 0 || data@.len() == 0) && e == MatrixError::Empty
                    ||| {
                        &&& ncols >= 1 && data@.len() >= 1 && data@.len() % (ncols as nat) != 0
                        &&& e == MatrixError::Ragged((data@.len() / (ncols as nat)) as usize)
                    }
                },
            },
    {
        let len = data.len();
        if ncols == 0 || len == 0 {
            return Err(MatrixError::Empty);
        }
        if len % ncols != 0 {
            return Err(MatrixError::Ragged(len / ncols));
        }
        let nr = len / ncols;
        proof {
            lemma_fundamental_div_mod(len as int, ncols as int);
            assert(nr >= 1) by (nonlinear_arith)
                requires
                    len == ncols * nr,
                    len >= 1,
                    ncols >= 1,
            ;
        }
        let ghost g = chunked(data@, ncols as nat);
        let mut values: Vec<Vec<T>> = Vec::new();
        let mut k: usize = 0;
        let mut j: usize = 0;
        while j < nr
            invariant
                len == data@.len() == ncols * nr,
                ncols >= 1,
                g == chunked(data@, ncols as nat),
                g.len() == nr,
                j <= nr,
                k == j * ncols,
                nr >= 1,
                values@.len() == j,
                forall|t: int| 0 <= t < j ==> #[trigger] values@[t]@ == g[t],
                forall|t: int| 0 <= t < j ==> #[trigger] values@[t]@.len() == ncols,
            decreases nr - j,
        {
            proof {
                assert((j + 1) * ncols <= nr * ncols) by (nonlinear_arith)
                    requires
                        j < nr,
                ;
                assert((j + 1) * ncols == j * ncols + ncols) by (nonlinear_arith);
            }
            let mut row: Vec<T> = Vec::new();
            let mut i: usize = 0;
            while i < ncols
                invariant
                    len == data@.len(),
                    k == j * ncols + i,
                    (j + 1) * ncols <= len,
                    (j + 1) * ncols == j * ncols + ncols,
                    i <= ncols,
                    row@ == data@.subrange(j * ncols, k as int),
                decreases ncols - i,
            {
                row.push(data[k]);
                k = k + 1;
                i = i + 1;
                assert(row@ =~= data@.subrange(j * ncols, k as int));
            }
            assert(row@ == g[j as int]);
            values.push(row);
            j = j + 1;
        }
        assert(rows_of(values@) =~= g);
        Ok(Matrix::from_grid(values, nr, ncols))
    }

    /// The transpose, built by moving the cells out of `self`: cell `(i, j)`
    /// of the result is cell `(j, i)` of `self`.
    pub fn transpose(self) -> (r: Matrix<T>)
        requires
            self.wf(),
        ensures
            r.wf(),
            r@ == transposed(self@),
    {
        let ghost a = self@;
        let nr = self.nrows;
        let nc = self.ncols;
        let mut rows = self.values;
        // Columns taken from the right: `taken[s]` is column `nc - 1 - s`.
        let mut taken: Vec<Vec<T>> = Vec::new();
        let mut s: usize = 0;
        while s < nc
            invariant
                is_grid(a),
                nr == n_rows(a),
                nc == n_cols(a),
                s <= nc,
                rows@.len() == nr,
                forall|j: int| 0 <= j < nr ==> #[trigger] rows@[j]@ == a[j].take(nc - s),
                taken@.len() == s,
                forall|t: int| 0 <= t < s ==> #[trigger] taken@[t]@ == column(a, nc - 1 - t),
            decreases nc - s,
        {
            let mut col: Vec<T> = Vec::new();
            let mut j: usize = 0;
            while j < nr
                invariant
                    is_grid(a),
                    nr == n_rows(a),
                    nc == n_cols(a),
                    s < nc,
                    j <= nr,
                    rows@.len() == nr,
                    forall|k: int| 0 <= k < j ==> #[trigger] rows@[k]@ == a[k].take(nc - s - 1),
                    forall|k: int| j <= k < nr ==> #[trigger] rows@[k]@ == a[k].take(nc - s),
                    col@ == column(a, nc - 1 - s).take(j as int),
                decreases nr - j,
            {
                assert(a[j as int].len() == nc);
                let x = rows[j].pop().unwrap();
                assert(x == a[j as int][nc - 1 - s]);
                assert(rows@[j as int]@ =~= a[j as int].take(nc - s - 1));
                col.push(x);
                assert(col@ =~= column(a, nc - 1 - s).take(j + 1));
                j = j + 1;
            }
            assert(col@ =~= column(a, nc - 1 - s));
            taken.push(col);
            s = s + 1;
        }
        let ghost all = taken@;
        let mut res: Vec<Vec<T>> = Vec::new();
        while taken.len() > 0
            invariant
                is_grid(a),
                nc == n_cols(a),
                all.len() == nc,
                forall|t: int| 0 <= t < nc ==> #[trigger] all[t]@ == column(a, nc - 1 - t),
                res@.len() + taken@.len() == nc,
                taken@ == all.take(taken@.len() as int),
                forall|i: int| 0 <= i < res@.len() ==> #[trigger] res@[i]@ == column(a, i),
            decreases taken@.len(),
        {
            let c = taken.pop().unwrap();
            assert(c@ == all[taken@.len() as int]@);
            res.push(c);
            assert(taken@ =~= all.take(taken@.len() as int));
        }
        assert(rows_of(res@) =~= transposed(a));
        Matrix::from_grid(res, nc, nr)
    }

    /// The cell at `(row, col)`, or `None` when either index is out of range.
    pub fn at(&self, idxs: (usize, usize)) -> (r: Option<&T>)
        requires
            self.wf(),
        ensures
            match r {
                Some(v) => idxs.0 < n_rows(self@) && idxs.1 < n_cols(self@) && *v == self@[idxs.0 as int][idxs.1 as int],
                None => !(idxs.0 < n_rows(self@) && idxs.1 < n_cols(self@)),
            },
    {
        if idxs.0 < self.nrows && idxs.1 < self.ncols {
            Some(self.cell(idxs.0, idxs.1))
        } else {
            None
        }
    }

    /// A mutable reference to the cell at `(row, col)`, or `None` when either
    /// index is out of range.
    pub fn at_mut(&mut self, idxs: (usize, usize)) -> (r: Option<&mut T>)
        requires
            old(self).wf(),
        ensures
            match r {
                Some(v) => {
                    &&& idxs.0 < n_rows(old(self)@) && idxs.1 < n_cols(old(self)@)
                    &&& *v == old(self)@[idxs.0 as int][idxs.1 as int]
                    &&& final(self).wf()
                    &&& final(self)@ == old(self)@.update(
                        idxs.0 as int,
                        old(self)@[idxs.0 as int].update(idxs.1 as int, *final(v)),
                    )
                },
                None => {
                    &&& !(idxs.0 < n_rows(old(self)@) && idxs.1 < n_cols(old(self)@))
                    &&& *final(self) == *old(self)
                },
            },
    {
        if idxs.0 < self.nrows && idxs.1 < self.ncols {
            let ghost before = self.values@;
            assert(self@[idxs.0 as int] == before[idxs.0 as int]@);
            let row = &mut self.values[idxs.0];
            proof {
                lemma_rows_of_update(before, idxs.0 as int, *final(row));
            }
            Some(&mut row[idxs.1])
        } else {
            None
        }
    }

    /// Drains the matrix into its cells in row-major order: left to right
    /// within a row, rows top to bottom. Each cell is handed out once.
    pub fn into_iter(self) -> (r: std::vec::IntoIter<T>)
        requires
            self.wf(),
        ensures
            r.remaining() == self@.flatten(),
    {
        let ghost a = self@;
        let nr = self.nrows;
        let mut rows = self.values;
        let mut out: Vec<T> = Vec::new();
        let mut j: usize = 0;
        while j < nr
            invariant
                nr == a.len(),
                j <= nr,
                rows@.len() == nr,
                forall|k: int| j <= k < nr ==> #[trigger] rows@[k]@ == a[k],
                out@ == a.take(j as int).flatten_alt(),
            decreases nr - j,
        {
            assert(a.take(j + 1).drop_last() =~= a.take(j as int));
            out.append(&mut rows[j]);
            j = j + 1;
        }
        proof {
            assert(a.take(nr as int) =~= a);
            a.lemma_flatten_and_flatten_alt_are_equivalent();
        }
        out.into_iter()
    }

    /// A matrix of the given shape, at least one row by one column, whose
    /// every cell is a clone of `element`.
    pub fn fill(shape: (usize, usize), element: T) -> (r: Matrix<T>)
        where
            T: Clone,
        requires
            shape.0 >= 1,
            shape.1 >= 1,
        ensures
            r.wf(),
            dims(r@) == shape,
            forall|j: int, i: int| 0 <= j < shape.0 && 0 <= i < shape.1 ==> cloned(element, #[trigger] r@[j][i]),
    {
        let mut values: Vec<Vec<T>> = Vec::new();
        let mut j: usize = 0;
        while j < shape.0
            invariant
                j <= shape.0,
                values@.len() == j,
                forall|k: int| 0 <= k < j ==> #[trigger] values@[k]@.len() == shape.1,
                forall|k: int, i: int| 0 <= k < j && 0 <= i < shape.1 ==> cloned(element, #[trigger] values@[k]@[i]),
            decreases shape.0 - j,
        {
            let mut row: Vec<T> = Vec::new();
            let mut i: usize = 0;
            while i < shape.1
                invariant
                    i <= shape.1,
                    row@.len() == i,
                    forall|c: int| 0 <= c < i ==> cloned(element, #[trigger] row@[c]),
                decreases shape.1 - i,
            {
                row.push(element.clone());
                i = i + 1;
            }
            values.push(row);
            j = j + 1;
        }
        assert(is_grid(rows_of(values@)));
        Matrix::from_grid(values, shape.0, shape.1)
    }

    /// The `(rows, cols)` shape.
    pub fn shape(&self) -> (r: (usize, usize))
        requires
            self.wf(),
        ensures
            r == dims(self@),
    {
        (self.nrows, self.ncols)
    }
}

} // verus!
