use nexsys::linalg::{mat_vec_mul, scale_vec, vec_vec_dot, NxN};
use nexsys::num::Num;
use nexsys::SolveError;

fn num(s: &str) -> Num {
    Num::new(s)
}

fn val(n: &Num) -> f64 {
    n.as_text().parse().unwrap()
}

fn nums(xs: &[f64]) -> Vec<Num> {
    xs.iter().map(|x| Num::new(&format!("{}", x))).collect()
}

fn cols(m: &[&[f64]]) -> Vec<Vec<Num>> {
    m.iter().map(|c| nums(c)).collect()
}

fn as_f64s(m: Vec<Vec<Num>>) -> Vec<Vec<f64>> {
    m.iter().map(|c| c.iter().map(val).collect()).collect()
}

fn invertible_matrix_2() -> NxN {
    NxN::from_cols(2, cols(&[&[-1.0, 1.0], &[1.5, -1.0]]), None)
}

fn invertible_matrix_3() -> NxN {
    NxN::from_cols(
        3,
        cols(&[&[1.0, 2.0, -1.0], &[2.0, 1.0, 2.0], &[-1.0, 2.0, 1.0]]),
        None,
    )
}

#[test]
fn test_mat_vec_mul() {
    let my_matrix = NxN::identity(3);
    let my_vec = vec![2.0, 2.0, 2.0];
    let res = mat_vec_mul(my_matrix, nums(&my_vec)).unwrap();
    let got: Vec<f64> = res.iter().map(val).collect();
    assert_eq!(got, my_vec);
}

#[test]
fn test_nxn_row_add() {
    let mut my_matrix = invertible_matrix_2();
    my_matrix.add_to_row(1, &nums(&[1.0, 2.0]));
    let check = vec![vec![-1.0, 2.0], vec![1.5, 1.0]];
    assert_eq!(as_f64s(my_matrix.to_vec()), check);

    let mut my_matrix = invertible_matrix_3();
    my_matrix.add_to_row(1, &nums(&[-2.0, -1.0, -2.0]));
    let check = vec![
        vec![1.0, 0.0, -1.0],
        vec![2.0, 0.0, 2.0],
        vec![-1.0, 0.0, 1.0],
    ];
    assert_eq!(as_f64s(my_matrix.to_vec()), check);
}

#[test]
fn test_nxn_row_scale() {
    let mut my_matrix = invertible_matrix_2();
    my_matrix.scale_row(1, &num("0.0"));
    let check = vec![vec![-1.0, 0.0], vec![1.5, 0.0]];
    assert_eq!(as_f64s(my_matrix.to_vec()), check);
}

#[test]
fn test_nxn_row_get() {
    let my_matrix = invertible_matrix_2();
    let r0: Vec<f64> = my_matrix.get_row(0).iter().map(val).collect();
    let r1: Vec<f64> = my_matrix.get_row(1).iter().map(val).collect();
    assert_eq!(r0, vec![-1.0, 1.5]);
    assert_eq!(r1, vec![1.0, -1.0]);
}

#[test]
fn test_nxn_invert() {
    let mut my_matrix = invertible_matrix_2();
    my_matrix.invert().unwrap();
    assert_eq!(
        as_f64s(my_matrix.to_vec()),
        vec![vec![2.0, 2.0], vec![3.0, 2.0]]
    );

    let mut my_matrix = invertible_matrix_3();
    my_matrix.invert().unwrap();
    let check = vec![
        vec![3.0 / 16.0, 0.25, -5.0 / 16.0],
        vec![0.25, 0.0, 0.25],
        vec![-5.0 / 16.0, 0.25, 3.0 / 16.0],
    ];
    assert_eq!(as_f64s(my_matrix.to_vec()), check);
}

#[test]
fn identity_inverts_to_itself() {
    for n in [1usize, 2, 3, 5] {
        let mut m = NxN::identity(n);
        m.invert().unwrap();
        let got = as_f64s(m.to_vec());
        for i in 0..n {
            for j in 0..n {
                let expect = if i == j { 1.0 } else { 0.0 };
                assert_eq!(got[i][j], expect);
            }
        }
    }
}

#[test]
fn double_inversion_returns_the_matrix() {
    let orig = vec![
        vec![1.0, 2.0, -1.0],
        vec![2.0, 1.0, 2.0],
        vec![-1.0, 2.0, 1.0],
    ];
    let mut m = invertible_matrix_3();
    m.invert().unwrap();
    m.invert().unwrap();
    let got = as_f64s(m.to_vec());
    for i in 0..3 {
        for j in 0..3 {
            assert!((got[i][j] - orig[i][j]).abs() < 1e-9);
        }
    }
}

#[test]
fn identity_times_vector_is_the_vector() {
    let v = vec![3.5, -2.25, 0.0, 7.125];
    let res = mat_vec_mul(NxN::identity(4), nums(&v)).unwrap();
    let got: Vec<f64> = res.iter().map(val).collect();
    assert_eq!(got, v);
}

#[test]
fn zero_pivot_is_singular() {
    let mut m = NxN::from_cols(2, cols(&[&[0.0, 1.0], &[1.0, 0.0]]), None);
    assert_eq!(m.invert().unwrap_err(), SolveError::SingularMatrix);
}

#[test]
fn mat_vec_mul_rejects_wrong_length() {
    let m = NxN::identity(2);
    let err = mat_vec_mul(m, nums(&[1.0, 2.0, 3.0])).unwrap_err();
    assert_eq!(err, SolveError::DimensionMismatch);
}

#[test]
fn dot_and_scale_vec() {
    let d = vec_vec_dot(&nums(&[1.0, 2.0, 3.0]), &nums(&[4.0, 5.0, 6.0]));
    assert_eq!(val(&d), 32.0);
    let s = scale_vec(nums(&[1.0, -2.0, 0.5]), num("4"));
    let got: Vec<f64> = s.iter().map(val).collect();
    assert_eq!(got, vec![4.0, -8.0, 2.0]);
}
