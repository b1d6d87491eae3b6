use numb_rs::{Dense, Matrix, MatrixError};

fn mat(m: usize, n: usize, data: Vec<i32>) -> Dense<i32> {
    Dense::from_flat(m, n, data).unwrap()
}

#[test]
fn test_raw_matrix() {
    let a = Dense {
        data: vec![0, 1, 2, 3, 4, 5],
        n: 3,
        m: 2,
    };
    assert_eq!(a.get(0, 0), 0);
    assert_eq!(a.get(0, 1), 1);
    assert_eq!(a.get(0, 2), 2);
    assert_eq!(a.get(1, 0), 3);
    assert_eq!(a.get(1, 1), 4);
    assert_eq!(a.get(1, 2), 5);

    let i: Dense<u32> = Dense::eye(3);
    let eye3 = Dense::from_flat(3, 3, vec![1u32, 0, 0, 0, 1, 0, 0, 0, 1]).unwrap();

    assert_eq!(i, eye3);
}

#[test]
fn macro_tests() {
    let a: Dense<f64> = Dense::new();
    assert!(a.is_empty());

    let b: Dense<u8> = Dense::from_flat(5, 1, vec![0, 1, 2, 3, 4]).unwrap();
    assert!(!b.is_empty());
    assert_eq!(b.m, 5);
    assert_eq!(b.n, 1);

    let c = mat(1, 1, vec![1]);
    assert_eq!(c.len(), 1);

    let d = Dense::from_row(vec![0, 1, 2]);
    assert_eq!(d.len(), 3);

    let e = mat(2, 3, vec![0, 1, 2, 3, 4, 5]);

    assert_eq!(e.len(), 6);
    assert_eq!(e.get(0, 0), 0);
    assert_eq!(e.get(0, 1), 1);
    assert_eq!(e.get(0, 2), 2);
    assert_eq!(e.get(1, 0), 3);
    assert_eq!(e.get(1, 1), 4);
    assert_eq!(e.get(1, 2), 5);

    let f = Dense::filled(3, 2, 2);
    assert_eq!(f.get(0, 0), 3);
    assert_eq!(f.get(0, 1), 3);
    assert_eq!(f.get(1, 0), 3);
    assert_eq!(f.get(1, 1), 3);
}

#[test]
fn row_swap() {
    let mut a = mat(3, 4, vec![1, 2, 3, 4, 5, 6, 7, 8, 9, 10, 11, 12]);
    a.swap_rows(0, 2);
    let b = mat(3, 4, vec![9, 10, 11, 12, 5, 6, 7, 8, 1, 2, 3, 4]);
    assert_eq!(a, b)
}

#[test]
fn concatenate() {
    let a = mat(2, 2, vec![1, 2, 3, 4]);
    let b = mat(2, 1, vec![5, 6]);
    let ans = mat(2, 3, vec![1, 2, 5, 3, 4, 6]);

    assert_eq!(a.concatenate(b).unwrap(), ans);

    let a = mat(4, 2, vec![1, 5, 2, 6, 3, 7, 4, 8]);
    let b = mat(4, 2, vec![9, 13, 10, 14, 11, 15, 12, 16]);
    let ans = mat(4, 4, vec![1, 5, 9, 13, 2, 6, 10, 14, 3, 7, 11, 15, 4, 8, 12, 16]);

    assert_eq!(a.concatenate(b).unwrap(), ans);
}

#[test]
fn dense_scalar_mul() {
    let x = mat(2, 2, vec![1, 2, 3, 4]);
    assert_eq!(x.mul_scalar(2), mat(2, 2, vec![2, 4, 6, 8]));

    let mut x = mat(2, 2, vec![0, 4, 8, 10]);
    x.mul_assign_scalar(3);
    assert_eq!(x, mat(2, 2, vec![0, 12, 24, 30]));
}

#[test]
fn row_mul() {
    let mut x = mat(2, 2, vec![0, 4, 8, 10]);

    x.scale_row(1, 2);

    assert_eq!(mat(2, 2, vec![0, 4, 16, 20]), x)
}

#[test]
fn row_add() {
    let mut x = mat(2, 2, vec![1, 2, 8, 10]);

    x.add_rows(1, 0, 2);

    assert_eq!(mat(2, 2, vec![1, 2, 10, 14]), x)
}

#[test]
fn matrix_mul() {
    let a = mat(2, 3, vec![1, 3, 5, 7, 4, 6]);
    let b = mat(3, 2, vec![4, 5, 2, 8, 4, 1]);
    let c = a.mul_matrix(b);
    let ans = mat(2, 2, vec![30, 34, 60, 73]);
    assert!(c.is_ok());
    assert_eq!(c.unwrap(), ans);
}

#[test]
fn matrix_incompatibilities() {
    let a = Dense::from_row(vec![1, 2, 3]);
    let b = mat(2, 2, vec![2, 3, 4, 5]);
    let c = a.mul_matrix(b);
    assert!(c.is_err());
    assert_eq!(c.unwrap_err(), MatrixError::Incompatibility)
}

#[test]
fn matrix_print() {
    let i = mat(3, 3, vec![1, 2, 3, 4, 5, 6, 7, 8, 9]);

    assert_eq!(i.render(), "  1  2  3\n  4  5  6\n  7  8  9".to_string());

    let f = vec![0.1, 2.34, 3.14, 4.05, -5.2, -6.84, 7.999, 8.0023, 9.99];

    let cells: Vec<String> = f.iter().map(|x| format!("{:.3}", x)).collect();
    assert_eq!(
        numb_rs::layout(&cells, 3),
        "   0.100   2.340   3.140\n   4.050  -5.200  -6.840\n   7.999   8.002   9.990".to_string()
    );

    let cells: Vec<String> = f.iter().map(|x| format!("{:.2}", x)).collect();
    assert_eq!(
        numb_rs::layout(&cells, 3),
        "   0.10   2.34   3.14\n   4.05  -5.20  -6.84\n   8.00   8.00   9.99".to_string()
    );
}

#[test]
fn swap() {
    let mut a: Dense<u32> = Dense::from_flat(3, 3, vec![1, 2, 3, 4, 5, 6, 7, 8, 9]).unwrap();
    a.swap([0, 0], [2, 2]);
    a.swap([0, 1], [2, 0]);
    assert_eq!(a.data, vec![9, 7, 3, 4, 5, 6, 2, 8, 1]);
    assert_eq!(a, Dense::from_flat(3, 3, vec![9, 7, 3, 4, 5, 6, 2, 8, 1]).unwrap())
}
