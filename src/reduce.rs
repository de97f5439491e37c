//! Reductions along an axis, element-wise transforms, and softmax.

use std::ops::{Add, Div};
use vstd::prelude::*;
use vstd::std_specs::ops::{AddSpec, DivSpec};
use crate::math_utils::{Exp, Pow};
use crate::matrix::{Matrix, rows_of};
use crate::model::{is_grid, n_rows, n_cols, column, add_total, div_total};
use crate::arith::same_shape;

verus! {

/// The running total of the first `n` cells of `s`: the first cell, then each
/// later cell added in ascending order.
pub open spec fn total<T: Add<Output = T>>(s: Seq<T>, n: nat) -> T
    decreases n,
{
    if n <= 1 {
        s[0]
    } else {
        total(s, (n - 1) as nat).add_spec(s[n - 1])
    }
}

/// No addition made while computing `total(s, n)` is refused.
pub open spec fn total_ok<T: Add<Output = T>>(s: Seq<T>, n: nat) -> bool
    decreases n,
{
    if n <= 1 {
        true
    } else {
        total_ok(s, (n - 1) as nat) && total(s, (n - 1) as nat).add_req(s[n - 1])
    }
}

/// The line that axis `dim` collapses through cell `(j, i)`: column `i` for
/// axis 0, row `j` for axis 1.
pub open spec fn line<T>(g: Seq<Seq<T>>, dim: int, j: int, i: int) -> Seq<T> {
    if dim == 0 {
        column(g, i)
    } else {
        g[j]
    }
}

/// The total of the line that axis `dim` collapses through cell `(j, i)`.
pub open spec fn line_total<T: Add<Output = T>>(g: Seq<Seq<T>>, dim: int, j: int, i: int) -> T {
    total(line(g, dim, j, i), line(g, dim, j, i).len())
}

/// Per-column totals as one row (axis 0), or per-row totals as one column (axis 1).
pub open spec fn dim_totals<T: Add<Output = T>>(g: Seq<Seq<T>>, dim: int) -> Seq<Seq<T>> {
    if dim == 0 {
        seq![Seq::new(n_cols(g) as nat, |i: int| total(column(g, i), n_rows(g) as nat))]
    } else {
        Seq::new(n_rows(g) as nat, |j: int| seq![total(g[j], n_cols(g) as nat)])
    }
}

/// The additions that reducing `g` along axis `dim` performs are allowed:
/// either `T` follows its addition specification and no step is refused, or
/// `T` accepts every addition.
pub open spec fn totals_ok<T: Add<Output = T>>(g: Seq<Seq<T>>, dim: int) -> bool {
    ||| T::obeys_add_spec() && (dim == 0 ==> forall|i: int| 0 <= i < n_cols(g) ==> #[trigger] total_ok(column(g, i), n_rows(g) as nat))
        && (dim == 1 ==> forall|j: int| 0 <= j < n_rows(g) ==> #[trigger] total_ok(g[j], n_cols(g) as nat))
    ||| add_total::<T>()
}

/// `e` holds, cell for cell, a result of `Exp::exp` on the cells of `g`.
pub open spec fn exp_image<T: Exp>(g: Seq<Seq<T>>, e: Seq<Seq<T>>) -> bool {
    &&& e.len() == g.len()
    &&& forall|j: int| 0 <= j < g.len() ==> #[trigger] e[j].len() == g[j].len()
    &&& forall|j: int, i: int|
        0 <= j < g.len() && 0 <= i < g[j].len() ==> call_ensures(T::exp, (g[j][i],), #[trigger] e[j][i])
}

/// `p` holds, cell for cell, a result of `Pow::pow` on the cells of `g` and `x`.
pub open spec fn pow_image<T: Pow>(g: Seq<Seq<T>>, x: T, p: Seq<Seq<T>>) -> bool {
    &&& p.len() == g.len()
    &&& forall|j: int| 0 <= j < g.len() ==> #[trigger] p[j].len() == g[j].len()
    &&& forall|j: int, i: int|
        0 <= j < g.len() && 0 <= i < g[j].len() ==> call_ensures(T::pow, (g[j][i], x), #[trigger] p[j][i])
}

/// Each cell divided by the total of its line along axis `dim`.
pub open spec fn normalized<T: Add<Output = T> + Div<Output = T>>(e: Seq<Seq<T>>, dim: int) -> Seq<Seq<T>> {
    Seq::new(e.len(), |j: int| Seq::new(e[j].len(), |i: int| e[j][i].div_spec(line_total(e, dim, j, i))))
}

/// The arithmetic of normalising `e` along axis `dim` is allowed.
pub open spec fn normalize_ok<T: Add<Output = T> + Div<Output = T>>(e: Seq<Seq<T>>, dim: int) -> bool {
    &&& totals_ok(e, dim)
    &&& {
        ||| T::obeys_add_spec() && forall|j: int, i: int|
            0 <= j < e.len() && 0 <= i < e[j].len() ==> #[trigger] e[j][i].div_req(line_total(e, dim, j, i))
        ||| div_total::<T>()
    }
}

proof fn lemma_total_ok_prefix<T: Add<Output = T>>(s: Seq<T>, n: nat, k: nat)
    requires
        total_ok(s, n),
        1 <= k <= n,
    ensures
        total_ok(s, k),
    decreases n,
{
    if k < n {
        lemma_total_ok_prefix(s, (n - 1) as nat, k);
    }
}

impl<T: Copy + Add<Output = T>> Matrix<T> {
    /// The total of the line that axis `dim` collapses through cell `(j, i)`.
    fn line_sum(&self, dim: usize, j: usize, i: usize) -> (r: T)
        requires
            self.wf(),
            dim < 2,
            j < n_rows(self@),
            i < n_cols(self@),
            totals_ok(self@, dim as int),
        ensures
            T::obeys_add_spec() ==> r == line_total(self@, dim as int, j as int, i as int),
    {
        let ghost s = line(self@, dim as int, j as int, i as int);
        let n: usize = if dim == 0 { self.n_rows() } else { self.n_cols() };
        let ghost exact = T::obeys_add_spec() && !add_total::<T>();
        proof {
            if exact {
                if dim == 0 {
                    assert(total_ok(column(self@, i as int), n_rows(self@) as nat));
                } else {
                    assert(total_ok(self@[j as int], n_cols(self@) as nat));
                }
            }
        }
        let mut acc = if dim == 0 { *self.cell(0, i) } else { *self.cell(j, 0) };
        let mut k: usize = 1;
        while k < n
            invariant
                self.wf(),
                dim < 2,
                j < n_rows(self@),
                i < n_cols(self@),
                s == line(self@, dim as int, j as int, i as int),
                n == s.len(),
                1 <= k <= n,
                totals_ok(self@, dim as int),
                exact == (T::obeys_add_spec() && !add_total::<T>()),
                exact ==> total_ok(s, n as nat),
                T::obeys_add_spec() ==> acc == total(s, k as nat),
            decreases n - k,
        {
            proof {
                if exact {
                    lemma_total_ok_prefix(s, n as nat, (k + 1) as nat);
                }
            }
            let x = if dim == 0 { *self.cell(k, i) } else { *self.cell(j, k) };
            acc = acc + x;
            k = k + 1;
        }
        acc
    }

    /// Sums along an axis: for axis 0, a single row of per-column totals; for
    /// axis 1, a single column of per-row totals.
    pub fn dim_sum(&self, dim: usize) -> (r: Matrix<T>)
        requires
            self.wf(),
            dim < 2,
            totals_ok(self@, dim as int),
        ensures
            r.wf(),
            dim == 0 ==> n_rows(r@) == 1 && n_cols(r@) == n_cols(self@),
            dim == 1 ==> n_rows(r@) == n_rows(self@) && n_cols(r@) == 1,
            T::obeys_add_spec() ==> r@ == dim_totals(self@, dim as int),
    {
        let nr = self.n_rows();
        let nc = self.n_cols();
        let mut values: Vec<Vec<T>> = Vec::new();
        if dim == 0 {
            let mut row: Vec<T> = Vec::new();
            let mut i: usize = 0;
            while i < nc
                invariant
                    self.wf(),
                    dim == 0,
                    totals_ok(self@, dim as int),
                    nr == n_rows(self@),
                    nc == n_cols(self@),
                    i <= nc,
                    row@.len() == i,
                    T::obeys_add_spec() ==> forall|c: int| 0 <= c < i ==> #[trigger] row@[c] == dim_totals(self@, 0)[0][c],
                decreases nc - i,
            {
                let x = self.line_sum(0, 0, i);
                row.push(x);
                i = i + 1;
            }
            values.push(row);
            proof {
                assert(is_grid(rows_of(values@)));
                if T::obeys_add_spec() {
                    assert(rows_of(values@)[0] =~= dim_totals(self@, 0)[0]);
                    assert(rows_of(values@) =~= dim_totals(self@, 0));
                }
            }
            Matrix::from_grid(values, 1, nc)
        } else {
            let mut j: usize = 0;
            while j < nr
                invariant
                    self.wf(),
                    dim == 1,
                    totals_ok(self@, dim as int),
                    nr == n_rows(self@),
                    nc == n_cols(self@),
                    j <= nr,
                    values@.len() == j,
                    forall|r: int| 0 <= r < j ==> #[trigger] values@[r]@.len() == 1,
                    T::obeys_add_spec() ==> forall|r: int| 0 <= r < j ==> #[trigger] values@[r]@ == dim_totals(self@, 1)[r],
                decreases nr - j,
            {
                let x = self.line_sum(1, j, 0);
                let mut row: Vec<T> = Vec::new();
                row.push(x);
                proof {
                    if T::obeys_add_spec() {
                        assert(row@ =~= dim_totals(self@, 1)[j as int]);
                    }
                }
                values.push(row);
                j = j + 1;
            }
            proof {
                assert(is_grid(rows_of(values@)));
                if T::obeys_add_spec() {
                    assert(rows_of(values@) =~= dim_totals(self@, 1));
                }
            }
            Matrix::from_grid(values, nr, 1)
        }
    }
}

impl<T: Copy> Matrix<T> {
    /// A copy of the matrix, cell for cell.
    fn copied(&self) -> (r: Matrix<T>)
        requires
            self.wf(),
        ensures
            r.wf(),
            r@ == self@,
    {
        let nr = self.n_rows();
        let nc = self.n_cols();
        let mut values: Vec<Vec<T>> = Vec::new();
        let mut j: usize = 0;
        while j < nr
            invariant
                self.wf(),
                nr == n_rows(self@),
                nc == n_cols(self@),
                j <= nr,
                values@.len() == j,
                forall|r: int| 0 <= r < j ==> #[trigger] values@[r]@ == self@[r],
            decreases nr - j,
        {
            let mut row: Vec<T> = Vec::new();
            let mut i: usize = 0;
            while i < nc
                invariant
                    self.wf(),
                    nr == n_rows(self@),
                    nc == n_cols(self@),
                    j < nr,
                    i <= nc,
                    row@.len() == i,
                    forall|c: int| 0 <= c < i ==> #[trigger] row@[c] == self@[j as int][c],
                decreases nc - i,
            {
                row.push(*self.cell(j, i));
                i = i + 1;
            }
            assert(row@ =~= self@[j as int]);
            values.push(row);
            j = j + 1;
        }
        assert(rows_of(values@) =~= self@);
        Matrix::from_grid(values, nr, nc)
    }
}

impl<T: Copy + Exp> Matrix<T> {
    /// Replaces every cell, in row-major order, by its exponential.
    pub fn exp(self) -> (r: Matrix<T>)
        requires
            self.wf(),
        ensures
            r.wf(),
            same_shape(r@, self@),
            exp_image(self@, r@),
    {
        let nr = self.n_rows();
        let nc = self.n_cols();
        let ghost a = self@;
        let mut m = self;
        let mut j: usize = 0;
        while j < nr
            invariant
                m.wf(),
                is_grid(a),
                nr == n_rows(a) == n_rows(m@),
                nc == n_cols(a) == n_cols(m@),
                j <= nr,
                forall|r: int| j <= r < nr ==> #[trigger] m@[r] == a[r],
                forall|r: int, c: int| 0 <= r < j && 0 <= c < nc ==> call_ensures(T::exp, (a[r][c],), #[trigger] m@[r][c]),
            decreases nr - j,
        {
            let mut i: usize = 0;
            while i < nc
                invariant
                    m.wf(),
                    is_grid(a),
                    nr == n_rows(a) == n_rows(m@),
                    nc == n_cols(a) == n_cols(m@),
                    j < nr,
                    i <= nc,
                    forall|r: int| j < r < nr ==> #[trigger] m@[r] == a[r],
                    forall|r: int, c: int| 0 <= r < j && 0 <= c < nc ==> call_ensures(T::exp, (a[r][c],), #[trigger] m@[r][c]),
                    forall|c: int| i <= c < nc ==> #[trigger] m@[j as int][c] == a[j as int][c],
                    forall|c: int| 0 <= c < i ==> call_ensures(T::exp, (a[j as int][c],), #[trigger] m@[j as int][c]),
                decreases nc - i,
            {
                let x = *m.cell(j, i);
                let y = x.exp();
                m.set_cell(j, i, y);
                i = i + 1;
            }
            j = j + 1;
        }
        m
    }
}

impl<T: Copy + Pow> Matrix<T> {
    /// Replaces every cell, in row-major order, by its power `x`.
    pub fn pow(self, x: T) -> (r: Matrix<T>)
        requires
            self.wf(),
        ensures
            r.wf(),
            same_shape(r@, self@),
            pow_image(self@, x, r@),
    {
        let nr = self.n_rows();
        let nc = self.n_cols();
        let ghost a = self@;
        let mut m = self;
        let mut j: usize = 0;
        while j < nr
            invariant
                m.wf(),
                is_grid(a),
                nr == n_rows(a) == n_rows(m@),
                nc == n_cols(a) == n_cols(m@),
                j <= nr,
                forall|r: int| j <= r < nr ==> #[trigger] m@[r] == a[r],
                forall|r: int, c: int| 0 <= r < j && 0 <= c < nc ==> call_ensures(T::pow, (a[r][c], x), #[trigger] m@[r][c]),
            decreases nr - j,
        {
            let mut i: usize = 0;
            while i < nc
                invariant
                    m.wf(),
                    is_grid(a),
                    nr == n_rows(a) == n_rows(m@),
                    nc == n_cols(a) == n_cols(m@),
                    j < nr,
                    i <= nc,
                    forall|r: int| j < r < nr ==> #[trigger] m@[r] == a[r],
                    forall|r: int, c: int| 0 <= r < j && 0 <= c < nc ==> call_ensures(T::pow, (a[r][c], x), #[trigger] m@[r][c]),
                    forall|c: int| i <= c < nc ==> #[trigger] m@[j as int][c] == a[j as int][c],
                    forall|c: int| 0 <= c < i ==> call_ensures(T::pow, (a[j as int][c], x), #[trigger] m@[j as int][c]),
                decreases nc - i,
            {
                let v = *m.cell(j, i);
                let y = v.pow(x);
                m.set_cell(j, i, y);
                i = i + 1;
            }
            j = j + 1;
        }
        m
    }
}

impl<T: Copy + Add<Output = T> + Div<Output = T>> Matrix<T> {
    /// Divides each cell of `self` by the total of its line along axis `dim`.
    fn divide_by_totals(self, dim: usize) -> (r: Matrix<T>)
        requires
            self.wf(),
            dim < 2,
            normalize_ok(self@, dim as int),
        ensures
            r.wf(),
            same_shape(r@, self@),
            T::obeys_add_spec() && T::obeys_div_spec() ==> r@ == normalized(self@, dim as int),
    {
        let sums = self.dim_sum(dim);
        let nr = self.n_rows();
        let nc = self.n_cols();
        let ghost a = self@;
        let ghost q = normalized(a, dim as int);
        let ghost exact = T::obeys_add_spec() && !div_total::<T>();
        let mut m = self;
        let mut j: usize = 0;
        while j < nr
            invariant
                m.wf(),
                sums.wf(),
                is_grid(a),
                dim < 2,
                normalize_ok(a, dim as int),
                exact == (T::obeys_add_spec() && !div_total::<T>()),
                T::obeys_add_spec() ==> sums@ == dim_totals(a, dim as int),
                dim == 0 ==> n_rows(sums@) == 1 && n_cols(sums@) == nc,
                dim == 1 ==> n_rows(sums@) == nr && n_cols(sums@) == 1,
                q == normalized(a, dim as int),
                nr == n_rows(a) == n_rows(m@),
                nc == n_cols(a) == n_cols(m@),
                j <= nr,
                forall|r: int| j <= r < nr ==> #[trigger] m@[r] == a[r],
                T::obeys_add_spec() && T::obeys_div_spec() ==> forall|r: int| 0 <= r < j ==> #[trigger] m@[r] == q[r],
            decreases nr - j,
        {
            let mut i: usize = 0;
            while i < nc
                invariant
                    m.wf(),
                    sums.wf(),
                    is_grid(a),
                    dim < 2,
                    normalize_ok(a, dim as int),
                    exact == (T::obeys_add_spec() && !div_total::<T>()),
                    T::obeys_add_spec() ==> sums@ == dim_totals(a, dim as int),
                    dim == 0 ==> n_rows(sums@) == 1 && n_cols(sums@) == nc,
                    dim == 1 ==> n_rows(sums@) == nr && n_cols(sums@) == 1,
                    q == normalized(a, dim as int),
                    nr == n_rows(a) == n_rows(m@),
                    nc == n_cols(a) == n_cols(m@),
                    j < nr,
                    i <= nc,
                    forall|r: int| j < r < nr ==> #[trigger] m@[r] == a[r],
                    T::obeys_add_spec() && T::obeys_div_spec() ==> forall|r: int| 0 <= r < j ==> #[trigger] m@[r] == q[r],
                    forall|c: int| i <= c < nc ==> #[trigger] m@[j as int][c] == a[j as int][c],
                    T::obeys_add_spec() && T::obeys_div_spec() ==> forall|c: int| 0 <= c < i ==> #[trigger] m@[j as int][c] == q[j as int][c],
                decreases nc - i,
            {
                let x = *m.cell(j, i);
                let d = if dim == 0 { *sums.cell(0, i) } else { *sums.cell(j, 0) };
                proof {
                    if T::obeys_add_spec() {
                        assert(d == line_total(a, dim as int, j as int, i as int));
                    }
                    if exact {
                        assert(a[j as int][i as int].div_req(line_total(a, dim as int, j as int, i as int)));
                    }
                }
                m.set_cell(j, i, x / d);
                i = i + 1;
            }
            proof {
                if T::obeys_add_spec() && T::obeys_div_spec() {
                    assert(m@[j as int] =~= q[j as int]);
                }
            }
            j = j + 1;
        }
        proof {
            if T::obeys_add_spec() && T::obeys_div_spec() {
                assert(m@ =~= q);
            }
        }
        m
    }
}

impl<T: Copy + Exp + Add<Output = T> + Div<Output = T>> Matrix<T> {
    /// Softmax along axis `dim`: the exponential of every cell, divided by the
    /// total of the exponentials on its column (axis 0) or its row (axis 1).
    /// No shift by the line's maximum is made before exponentiating.
    pub fn softmax(&self, dim: usize) -> (r: Matrix<T>)
        requires
            self.wf(),
            dim < 2,
            forall|e: Seq<Seq<T>>| #[trigger] exp_image(self@, e) ==> normalize_ok(e, dim as int),
        ensures
            r.wf(),
            same_shape(r@, self@),
            exists|e: Seq<Seq<T>>|
                #[trigger] exp_image(self@, e) && (T::obeys_add_spec() && T::obeys_div_spec() ==> r@ == normalized(e, dim as int)),
    {
        let e = self.copied().exp();
        let ghost eg = e@;
        assert(exp_image(self@, eg));
        let r = e.divide_by_totals(dim);
        assert(exp_image(self@, eg) && (T::obeys_add_spec() && T::obeys_div_spec() ==> r@ == normalized(eg, dim as int)));
        r
    }
}

} // verus!
