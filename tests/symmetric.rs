use numb_rs::{Dense, Symmetric};

fn mat(m: usize, n: usize, data: Vec<i32>) -> Dense<i32> {
    Dense::from_flat(m, n, data).unwrap()
}

fn symmat(n: usize, data: Vec<i32>) -> Symmetric<i32> {
    Symmetric::from_flat(n, data).unwrap()
}

#[test]
fn symmetric_scalar_mul() {
    let x = symmat(2, vec![1, 3, 4]);
    assert_eq!(x.mul_scalar(2).to_dense(), mat(2, 2, vec![2, 6, 6, 8]));
}

#[test]
fn dense_symm_mul() {
    let a = symmat(3, vec![1, 2, 4, 3, 5, 6]);
    let b = mat(3, 1, vec![6, 7, 8]);
    let ab = mat(3, 1, vec![44, 80, 101]);

    assert_eq!(a.mul_dense(&b).unwrap(), ab);

    let c = mat(3, 2, vec![6, 8, 12, 3, 4, 0]);
    let ac = mat(3, 2, vec![42, 14, 80, 28, 102, 39]);

    assert_eq!(a.mul_dense(&c).unwrap(), ac)
}

#[test]
fn symmetric_render_shows_the_full_matrix() {
    let x = symmat(2, vec![1, 3, 4]);
    assert_eq!(x.render(), "  1  3\n  3  4");
    let e: Symmetric<i32> = Symmetric::from_flat(0, vec![]).unwrap();
    assert_eq!(e.render(), "");
}

#[test]
fn concatenate_mismatch_with_wide_empty_matrix() {
    let a: Dense<i32> = Dense::from_flat(0, usize::MAX, vec![]).unwrap();
    let b = mat(1, 1, vec![1]);
    assert_eq!(a.concatenate(b), Err(numb_rs::MatrixError::Incompatibility));
}
