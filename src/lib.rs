//! A dense, row-major 2-D matrix with verified construction, transposition,
//! element-wise and broadcasting arithmetic, matrix products, reductions and
//! softmax.

pub mod element;
pub mod math_utils;
pub mod model;
pub mod parse;
pub mod matrix;
pub mod product;
pub mod arith;
pub mod reduce;
pub mod text;
pub mod laws;

pub use element::Element;
pub use math_utils::{Exp, Pow};
pub use matrix::{Matrix, MatrixError};
pub use parse::parse_int;
