use numb_rs::{gcd, lcm, Dense, Matrix, MatrixError, Numeric, Symmetric};

fn mat(m: usize, n: usize, data: Vec<i32>) -> Dense<i32> {
    Dense::from_flat(m, n, data).unwrap()
}

#[test]
fn set_then_get_returns_the_value() {
    let mut a = mat(2, 3, vec![0, 1, 2, 3, 4, 5]);
    a.set(1, 2, 42);
    assert_eq!(a.get(1, 2), 42);
    assert_eq!(a.data, vec![0, 1, 2, 3, 4, 42]);
    a.set(0, 1, -7);
    assert_eq!(a.get(0, 1), -7);
    assert_eq!(a.get(1, 2), 42);
}

#[test]
fn transpose_view_reads_mirrored_positions() {
    let a = mat(2, 3, vec![1, 2, 3, 4, 5, 6]);
    let t = a.t();
    assert_eq!(t.size(), [3, 2]);
    assert_eq!(t.len(), 6);
    for i in 0..3 {
        for j in 0..2 {
            assert_eq!(t.get(i, j), a.get(j, i));
        }
    }
    assert_eq!(t.into_vec(), vec![1, 4, 2, 5, 3, 6]);
}

#[test]
fn transpose_view_writes_through() {
    let mut a = mat(2, 3, vec![1, 2, 3, 4, 5, 6]);
    {
        let mut t = a.t_mut();
        t.set(2, 1, 60);
        t.set(0, 0, 10);
        assert_eq!(t.get(2, 1), 60);
    }
    assert_eq!(a.get(1, 2), 60);
    assert_eq!(a.get(0, 0), 10);
    assert_eq!(a.data, vec![10, 2, 3, 4, 5, 60]);
    let t = a.t_mut();
    assert_eq!(t.size(), [3, 2]);
    assert_eq!(t.into_vec(), vec![10, 4, 2, 5, 3, 60]);
}

#[test]
fn swap_rows_twice_restores() {
    let original = mat(3, 2, vec![1, 2, 3, 4, 5, 6]);
    let mut a = original.clone();
    a.swap_rows(0, 2);
    assert_eq!(a.data, vec![5, 6, 3, 4, 1, 2]);
    a.swap_rows(0, 2);
    assert_eq!(a, original);
    a.swap_rows(1, 1);
    assert_eq!(a, original);
}

#[test]
fn product_shape() {
    let a = mat(1, 3, vec![1, 2, 3]);
    let b = mat(3, 4, vec![1, 0, 0, 1, 0, 1, 0, 1, 0, 0, 1, 1]);
    let c = a.mul_matrix(b).unwrap();
    assert_eq!(c.size(), [1, 4]);
    assert_eq!(c.data, vec![1, 2, 3, 6]);

    let a = mat(2, 3, vec![1, 2, 3, 4, 5, 6]);
    let b = mat(2, 3, vec![1, 2, 3, 4, 5, 6]);
    assert_eq!(a.mul_matrix(b), Err(MatrixError::Incompatibility));
}

#[test]
fn empty_inner_dimension_gives_zeros() {
    let a: Dense<i32> = Dense::from_flat(2, 0, vec![]).unwrap();
    let b: Dense<i32> = Dense::from_flat(0, 3, vec![]).unwrap();
    let c = a.mul_matrix(b).unwrap();
    assert_eq!(c, mat(2, 3, vec![0, 0, 0, 0, 0, 0]));
}

#[test]
fn symmetric_reads_alike_both_ways() {
    let mut s = Symmetric::from_flat(3, vec![1, 2, 4, 3, 5, 6]).unwrap();
    for i in 0..3 {
        for j in 0..3 {
            assert_eq!(s.get(i, j), s.get(j, i));
        }
    }
    assert_eq!(s.get(2, 1), 5);
    assert_eq!(s.get(0, 2), 3);
    s.set(0, 2, 30);
    assert_eq!(s.get(2, 0), 30);
    assert_eq!(s.data, vec![1, 2, 4, 30, 5, 6]);
    assert_eq!(s.to_dense(), mat(3, 3, vec![1, 2, 30, 2, 4, 5, 30, 5, 6]));
    assert_eq!(s.size(), [3, 3]);
    assert_eq!(s.len(), 6);
    assert_eq!(s.into_vec(), vec![1, 2, 4, 30, 5, 6]);
}

#[test]
fn symmetric_shape_errors() {
    assert_eq!(
        Symmetric::from_flat(3, vec![1, 2, 3, 4, 5]),
        Err(MatrixError::Incompatibility)
    );
    let s = Symmetric::from_flat(2, vec![1, 2, 3]).unwrap();
    let d = mat(3, 1, vec![1, 2, 3]);
    assert_eq!(s.mul_dense(&d), Err(MatrixError::Incompatibility));
    let e: Symmetric<u8> = Symmetric::from_flat(0, vec![]).unwrap();
    assert!(e.is_empty());
}

#[test]
fn gcd_laws_on_values() {
    assert_eq!(gcd(12u64, 18u64), gcd(18u64, 12u64));
    assert_eq!(gcd(12u64, 18u64), 6);
    assert_eq!(gcd(35u8, 0u8), 35);
    assert_eq!(gcd(0u16, 35u16), 35);
    assert_eq!(gcd(0u32, 0u32), 0);
    assert_eq!(gcd(17usize, 17usize), 17);
    assert_eq!(gcd(u64::MAX, u64::MAX - 1), 1);
    assert_eq!(gcd(1u128 << 100, 1u128 << 60), 1u128 << 60);
    for (a, b) in [(4u32, 6u32), (21, 6), (9, 28), (0, 5), (12, 12)] {
        assert_eq!(lcm(a, b) * gcd(a, b), a * b);
    }
    assert_eq!(lcm(4u32, 6u32), 12);
    assert_eq!(lcm(21u32, 6u32), 42);
    assert_eq!(lcm(0u32, 5u32), 0);
}

#[test]
fn parity_follows_the_remainder() {
    assert!(4i32.is_even());
    assert!(!4i32.is_odd());
    assert!(7u8.is_odd());
    assert!((-4i64).is_even());
    assert!(!(-3i16).is_odd());
    assert!(!(-3i16).is_even());
    assert!(0usize.is_even());
}

#[test]
fn numeric_operations() {
    assert_eq!(i8::zero(), 0);
    assert_eq!(u16::one(), 1);
    assert_eq!(i64::two(), 2);
    assert_eq!(7i32.quot(-2), -3);
    assert_eq!((-7i32).rem(2), -1);
    assert_eq!(250u8.minus(5).plus(10), 255);
    assert_eq!((-3i32).times(4), -12);
    assert!((-3i8).less(2));
    assert!(5u32.same(5));
    assert_eq!((-128i16).to_decimal(), "-128");
    assert_eq!(i128::MIN.to_decimal(), i128::MIN.to_string());
    assert_eq!(u128::MAX.to_decimal(), u128::MAX.to_string());
    assert_eq!(0u8.to_decimal(), "0");
}

#[test]
fn identity_and_builders() {
    let i: Dense<i64> = Dense::eye(2);
    assert_eq!(i.data, vec![1, 0, 0, 1]);
    let z: Dense<i64> = Dense::eye(0);
    assert_eq!(z.size(), [0, 0]);
    assert!(z.is_empty());
    assert_eq!(Dense::from_flat(2, 2, vec![1, 2, 3]), Err(MatrixError::Incompatibility));
    assert_eq!(
        Dense::<u8>::from_flat(usize::MAX, 2, vec![]),
        Err(MatrixError::Incompatibility)
    );
    let c = Dense::from_column(vec![1, 2, 3]);
    assert_eq!(c.size(), [3, 1]);
    let r = Dense::from_row(vec![1, 2, 3]);
    assert_eq!(r.size(), [1, 3]);
    let mut v = c.clone();
    v.swap_mn();
    assert_eq!(v, r);
    let d: Dense<u8> = Dense::default();
    assert_eq!(d.size(), [1, 0]);
    assert_eq!(Dense::<u8>::with_capacity(10), Dense::<u8>::new());
    assert_eq!(Dense::filled(7u8, 1, 3).into_vec(), vec![7, 7, 7]);
}

#[test]
fn rows_in_order() {
    let a = mat(3, 2, vec![1, 2, 3, 4, 5, 6]);
    assert_eq!(a.row(1), &[3, 4]);
    let mut it = a.iter();
    assert_eq!(it.next(), Some(&[1, 2][..]));
    assert_eq!(it.next(), Some(&[3, 4][..]));
    assert_eq!(it.next(), Some(&[5, 6][..]));
    assert_eq!(it.next(), None);
    assert_eq!(it.next(), None);
}

#[test]
fn concatenation_errors_and_column() {
    let a = mat(2, 2, vec![1, 2, 3, 4]);
    assert_eq!(
        a.clone().concatenate(mat(3, 1, vec![1, 2, 3])),
        Err(MatrixError::Incompatibility)
    );
    assert_eq!(a.clone().concatenate_vec(&[5, 6]).unwrap(), mat(2, 3, vec![1, 2, 5, 3, 4, 6]));
    assert_eq!(a.concatenate_vec(&[5]), Err(MatrixError::Incompatibility));
}

#[test]
fn add_rows_onto_itself_uses_the_old_row() {
    let mut x = mat(2, 2, vec![1, 2, 8, 10]);
    x.add_rows(1, 1, 3);
    assert_eq!(x, mat(2, 2, vec![1, 2, 32, 40]));
    x.scale_row(0, -1);
    assert_eq!(x, mat(2, 2, vec![-1, -2, 32, 40]));
}

#[test]
fn render_layouts() {
    let a = mat(2, 2, vec![-10, 2, 300, 4]);
    assert_eq!(a.render(), "  -10    2\n  300    4");
    let e: Dense<i32> = Dense::new();
    assert_eq!(e.render(), "");
    let s = Symmetric::from_flat(2, vec![1u8, 22, 3]).unwrap();
    assert_eq!(s.render(), "   1  22\n  22   3");
    assert_eq!(s.mul_scalar(2).data, vec![2, 44, 6]);
}

#[test]
fn overwrite_a_row() {
    let mut a = mat(2, 3, vec![1, 2, 3, 4, 5, 6]);
    a.set_row(1, &[7, 8, 9]);
    assert_eq!(a.data, vec![1, 2, 3, 7, 8, 9]);
    assert_eq!(a.row(1), &[7, 8, 9]);
}

#[test]
fn product_with_identity_keeps_the_matrix() {
    let a = mat(2, 3, vec![1, -2, 3, 4, 5, -6]);
    let e: Dense<i32> = Dense::eye(3);
    assert_eq!(a.clone().mul_matrix(e).unwrap(), a);
}
