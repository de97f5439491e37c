use matrix_library::math_utils::{Exp, Pow};
use matrix_library::{Matrix, MatrixError};
use std::collections::VecDeque;
use std::ops::{Add, Div};

/// A real number as an element type: `f64` with the exponential and power.
#[derive(Clone, Copy, Debug, PartialEq)]
struct Real(f64);

impl Add for Real {
    type Output = Real;
    fn add(self, rhs: Real) -> Real {
        Real(self.0 + rhs.0)
    }
}

impl Div for Real {
    type Output = Real;
    fn div(self, rhs: Real) -> Real {
        Real(self.0 / rhs.0)
    }
}

impl Exp for Real {
    fn exp(self) -> Self {
        Real(self.0.exp())
    }
}

impl Pow for Real {
    fn pow(self, exp: Real) -> Self {
        Real(self.0.powf(exp.0))
    }
}

fn reals(rows: Vec<Vec<f64>>) -> Matrix<Real> {
    Matrix::from_vecs(rows.into_iter().map(|r| r.into_iter().map(Real).collect()).collect()).unwrap()
}

#[test]
fn shape() {
    let mat = Matrix::new(VecDeque::from([
        VecDeque::from([1, 2, 3]),
        VecDeque::from([4, 5, 6]),
    ]))
    .unwrap();
    assert_eq!(mat.shape(), (2, 3))
}

#[test]
fn transpose() {
    let mat = Matrix::new(VecDeque::from([
        VecDeque::from([1, 2, 3]),
        VecDeque::from([4, 5, 6]),
    ]))
    .unwrap();
    let mat_t = Matrix::new(VecDeque::from([
        VecDeque::from([1, 4]),
        VecDeque::from([2, 5]),
        VecDeque::from([3, 6]),
    ]))
    .unwrap();
    assert_eq!(mat.transpose(), mat_t)
}

#[test]
fn add_overflow() {
    let a = Matrix::new(VecDeque::from([
        VecDeque::from([1, 2, 3]),
        VecDeque::from([4, 5, 6]),
    ]))
    .unwrap();
    let b = Matrix::new(VecDeque::from([
        VecDeque::from([1, 2, 3]),
        VecDeque::from([4, 5, 6]),
    ]))
    .unwrap();
    let ans = Matrix::new(VecDeque::from([
        VecDeque::from([2, 4, 6]),
        VecDeque::from([8, 10, 12]),
    ]))
    .unwrap();
    assert_eq!(a.add(b), Ok(ans));
}

#[test]
fn add_broadcast() {
    let a = Matrix::new(VecDeque::from([
        VecDeque::from([1, 2, 3]),
        VecDeque::from([4, 5, 6]),
    ]))
    .unwrap();
    let b = Matrix::new(VecDeque::from([VecDeque::from([1]), VecDeque::from([4])])).unwrap();
    let ans = Matrix::new(VecDeque::from([
        VecDeque::from([2, 3, 4]),
        VecDeque::from([8, 9, 10]),
    ]))
    .unwrap();
    assert_eq!(a.add(b), Ok(ans));
}

#[test]
fn columnwise_sum() {
    let a = Matrix::new(VecDeque::from([
        VecDeque::from([1, 2, 3]),
        VecDeque::from([4, 5, 6]),
    ]))
    .unwrap();
    let ans = Matrix::new(VecDeque::from([VecDeque::from([5, 7, 9])])).unwrap();
    assert_eq!(a.dim_sum(0), ans);
}

#[test]
fn columnwise_softmax() {
    let a = reals(vec![vec![1.0, 5.0], vec![4.0, 5.0]]);
    let ans = reals(vec![vec![0.0474, 0.5], vec![0.9526, 0.5]]);
    let t1: f64 = a.softmax(0).at((0, 0)).unwrap().0;
    let a1: f64 = ans.at((0, 0)).unwrap().0;
    let t2: f64 = a.softmax(0).at((1, 0)).unwrap().0;
    let a2: f64 = ans.at((1, 0)).unwrap().0;
    let t3: f64 = a.softmax(0).at((0, 1)).unwrap().0;
    let a3: f64 = ans.at((0, 1)).unwrap().0;
    assert_eq!((t1 * 10000.0).round(), (a1 * 10000.0).round());
    assert_eq!((t2 * 10000.0).round(), (a2 * 10000.0).round());
    assert_eq!((t3 * 10000.0).round(), (a3 * 10000.0).round());
}

#[test]
fn rowwise_softmax() {
    let a = reals(vec![vec![5.0, 5.0], vec![4.0, 1.0]]);
    let ans = reals(vec![vec![0.5, 0.5], vec![0.9526, 0.0474]]);
    let sm = a.softmax(1);
    let t1: f64 = sm.at((0, 0)).unwrap().0;
    let a1: f64 = ans.at((0, 0)).unwrap().0;
    let t2: f64 = sm.at((1, 0)).unwrap().0;
    let a2: f64 = ans.at((1, 0)).unwrap().0;
    let t3: f64 = sm.at((0, 1)).unwrap().0;
    let a3: f64 = ans.at((0, 1)).unwrap().0;
    assert_eq!((t1 * 10000.0).round(), (a1 * 10000.0).round());
    assert_eq!((t2 * 10000.0).round(), (a2 * 10000.0).round());
    assert_eq!((t3 * 10000.0).round(), (a3 * 10000.0).round());
}

#[test]
fn mul_overflow() {
    let a = Matrix::new(VecDeque::from([
        VecDeque::from([1, 2, 3]),
        VecDeque::from([4, 5, 6]),
    ]))
    .unwrap();
    let b = Matrix::new(VecDeque::from([
        VecDeque::from([1, 2, 3]),
        VecDeque::from([4, 5, 6]),
    ]))
    .unwrap();
    let ans = Matrix::new(VecDeque::from([
        VecDeque::from([1, 4, 9]),
        VecDeque::from([16, 25, 36]),
    ]))
    .unwrap();
    assert_eq!(a.multiply(b), Ok(ans));
}

#[test]
fn elemwise_exp() {
    let a = reals(vec![vec![1.0, -2.0], vec![4.0, 5.0]]);
    let res = a.exp();
    assert_eq!(res.at((0, 0)).unwrap().0, 1.0_f64.exp());
    assert_eq!(res.at((0, 1)).unwrap().0, (-2.0_f64).exp());
    assert_eq!(res.at((1, 0)).unwrap().0, 4.0_f64.exp());
    assert_eq!(res.at((1, 1)).unwrap().0, 5.0_f64.exp());
}

#[test]
fn matmul() {
    let a = Matrix::new(VecDeque::from([
        VecDeque::from([1, 2, 3]),
        VecDeque::from([4, 5, 6]),
    ]))
    .unwrap();
    let b = Matrix::new(VecDeque::from([
        VecDeque::from([1, 2]),
        VecDeque::from([3, 4]),
        VecDeque::from([5, 6]),
    ]))
    .unwrap();
    let ans = a.clone().matmul(&b);
    assert_eq!(
        ans,
        Ok(Matrix::new(VecDeque::from([
            VecDeque::from([22, 28]),
            VecDeque::from([49, 64]),
        ]))
        .unwrap())
    );
    assert_eq!(
        a.clone().matmul(&a),
        Err(MatrixError::DimMismatch((2, 3), (2, 3)))
    );
}

#[test]
fn display() {
    let a = Matrix::new(VecDeque::from([
        VecDeque::from([1, 2, 3]),
        VecDeque::from([4, 5, 6]),
    ]))
    .unwrap();
    println!("{}", a.to_display_string());
    assert_eq!(a.to_display_string(), "[[1, 2, 3]\n [4, 5, 6]]");
}

#[test]
fn iterate() {
    let a = Matrix::new(VecDeque::from([
        VecDeque::from([1, 2]),
        VecDeque::from([4, 5]),
    ]))
    .unwrap();
    let mut a_itr = (a).into_iter();
    assert_eq!(a_itr.next().unwrap(), 1);
    assert_eq!(a_itr.next().unwrap(), 2);
    assert_eq!(a_itr.next().unwrap(), 4);
    assert_eq!(a_itr.next().unwrap(), 5);
    assert_eq!(a_itr.next(), None);
}

#[test]
fn pow_raises_every_cell() {
    let a = reals(vec![vec![1.0, 2.0], vec![3.0, 4.0]]);
    let p = a.pow(Real(2.0));
    assert_eq!(p, reals(vec![vec![1.0, 4.0], vec![9.0, 16.0]]));
}

#[test]
fn softmax_lines_sum_to_one() {
    let a = reals(vec![vec![0.5, -1.0, 2.0], vec![3.0, 0.25, -0.75]]);
    let cols = a.softmax(0);
    for i in 0..3 {
        let s = cols.at((0, i)).unwrap().0 + cols.at((1, i)).unwrap().0;
        assert!((s - 1.0).abs() < 1e-12);
    }
    let rows = a.softmax(1);
    for j in 0..2 {
        let s = rows.at((j, 0)).unwrap().0 + rows.at((j, 1)).unwrap().0 + rows.at((j, 2)).unwrap().0;
        assert!((s - 1.0).abs() < 1e-12);
    }
}
