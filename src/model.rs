//! The mathematical model of a matrix: a sequence of rows, each a sequence of cells.

use std::ops::{Add, Div, Mul};
use vstd::prelude::*;
use vstd::std_specs::ops::{AddSpec, DivSpec, MulSpec};

verus! {

/// `g` is a non-empty rectangular grid: at least one row, at least one column,
/// and every row as long as the first.
pub open spec fn is_grid<T>(g: Seq<Seq<T>>) -> bool {
    &&& g.len() >= 1
    &&& g[0].len() >= 1
    &&& forall|j: int| 0 <= j < g.len() ==> #[trigger] g[j].len() == g[0].len()
}

/// Number of rows of a grid.
pub open spec fn n_rows<T>(g: Seq<Seq<T>>) -> int {
    g.len() as int
}

/// Number of columns of a grid (the length of its first row).
pub open spec fn n_cols<T>(g: Seq<Seq<T>>) -> int {
    if g.len() == 0 {
        0
    } else {
        g[0].len() as int
    }
}

/// The `(rows, cols)` shape of a grid.
pub open spec fn dims<T>(g: Seq<Seq<T>>) -> (usize, usize) {
    (n_rows(g) as usize, n_cols(g) as usize)
}

/// Column `i` of a grid, top to bottom.
pub open spec fn column<T>(g: Seq<Seq<T>>, i: int) -> Seq<T> {
    Seq::new(g.len(), |j: int| g[j][i])
}

/// The transpose of a grid: row `i` of the result is column `i` of `g`.
pub open spec fn transposed<T>(g: Seq<Seq<T>>) -> Seq<Seq<T>> {
    Seq::new(n_cols(g) as nat, |i: int| column(g, i))
}

/// A grid of the given shape whose every cell is `x`.
pub open spec fn constant_grid<T>(r: nat, c: nat, x: T) -> Seq<Seq<T>> {
    Seq::new(r, |j: int| Seq::new(c, |i: int| x))
}

/// `x + y` is allowed on every pair of values of `T`.
pub open spec fn add_total<T: Add<Output = T>>() -> bool {
    forall|x: T, y: T| #[trigger] x.add_req(y)
}

/// `x * y` is allowed on every pair of values of `T`.
pub open spec fn mul_total<T: Mul<Output = T>>() -> bool {
    forall|x: T, y: T| #[trigger] x.mul_req(y)
}

/// `x / y` is allowed on every pair of values of `T`.
pub open spec fn div_total<T: Div<Output = T>>() -> bool {
    forall|x: T, y: T| #[trigger] x.div_req(y)
}

} // verus!
