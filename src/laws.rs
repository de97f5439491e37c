//! Properties that relate the results of several operations.

use std::ops::Add;
use vstd::prelude::*;
use vstd::std_specs::ops::AddSpec;
use crate::arith::{same_shape, broadcastable, spread, sums};
use crate::matrix::Matrix;
use crate::model::{is_grid, n_rows, n_cols, dims, transposed};

verus! {

/// Transposing swaps the shape: the transpose of an `r × c` matrix is a
/// well-formed `c × r` grid.
pub proof fn transpose_swaps_shape<T>(m: Matrix<T>)
    requires
        m.wf(),
    ensures
        is_grid(transposed(m@)),
        dims(transposed(m@)) == (dims(m@).1, dims(m@).0),
{
    let g = m@;
    let t = transposed(g);
    assert(t[0].len() == g.len());
    assert forall|i: int| 0 <= i < t.len() implies #[trigger] t[i].len() == t[0].len() by {}
}

/// Transposing twice gives back the same matrix.
pub proof fn transpose_involutive<T>(m: Matrix<T>)
    requires
        m.wf(),
    ensures
        transposed(transposed(m@)) == m@,
{
    let g = m@;
    let tt = transposed(transposed(g));
    transpose_swaps_shape(m);
    assert(tt.len() == g.len());
    assert forall|j: int| 0 <= j < g.len() implies #[trigger] tt[j] =~= g[j] by {
        assert(g[j].len() == g[0].len());
    }
    assert(tt =~= g);
}

/// For operands of equal shape, cell `(j, i)` of the sum is `a[j][i] + b[j][i]`.
pub proof fn add_is_cellwise<T: Add<Output = T>>(a: Matrix<T>, b: Matrix<T>, j: int, i: int)
    requires
        a.wf(),
        b.wf(),
        same_shape(a@, b@),
        0 <= j < n_rows(a@),
        0 <= i < n_cols(a@),
    ensures
        broadcastable(a@, b@),
        sums(a@, spread(a@, b@))[j][i] == a@[j][i].add_spec(b@[j][i]),
{
    assert(a@[j].len() == n_cols(a@));
}

/// Adding a column vector with as many rows as `a` adds cell `j` of the vector
/// to every cell of row `j` of `a`; when the shapes differ in any other way,
/// the operands cannot be added.
pub proof fn add_broadcasts_column<T: Add<Output = T>>(a: Matrix<T>, b: Matrix<T>, j: int, i: int)
    requires
        a.wf(),
        b.wf(),
        !same_shape(a@, b@),
        0 <= j < n_rows(a@),
        0 <= i < n_cols(a@),
    ensures
        n_cols(b@) == 1 && n_rows(b@) == n_rows(a@) ==> {
            &&& broadcastable(a@, b@)
            &&& sums(a@, spread(a@, b@))[j][i] == a@[j][i].add_spec(b@[j][0])
        },
        !(n_cols(b@) == 1 && n_rows(b@) == n_rows(a@)) ==> !broadcastable(a@, b@),
{
    assert(a@[j].len() == n_cols(a@));
}

} // verus!
