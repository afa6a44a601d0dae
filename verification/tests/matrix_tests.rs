use poseidon_parameters::error::PoseidonParameterError;
use poseidon_parameters::fq::Fq;
use poseidon_parameters::matrix::{Matrix, SquareMatrix};

fn fq(n: u64) -> Fq {
    Fq::from_u64(n)
}

fn fqs(ns: &[u64]) -> Vec<Fq> {
    ns.iter().map(|n| fq(*n)).collect()
}

fn matrix_2x3() -> Matrix<2, 3, 6> {
    Matrix::<2, 3, 6>::new(&fqs(&[1, 2, 3, 4, 5, 6]))
}

fn square_3x3() -> SquareMatrix<3, 3, 9> {
    SquareMatrix::<3, 3, 9>::new(&fqs(&[1, 2, 3, 4, 5, 6, 7, 8, 9]))
}

#[test]
fn new_keeps_elements_row_major() {
    let m = matrix_2x3();
    assert_eq!(m.elements(), &fqs(&[1, 2, 3, 4, 5, 6])[..]);
    assert_eq!(m.n_rows(), 2);
    assert_eq!(m.n_cols(), 3);
    assert_eq!(m.get_element(0, 0), fq(1));
    assert_eq!(m.get_element(0, 2), fq(3));
    assert_eq!(m.get_element(1, 0), fq(4));
    assert_eq!(m.get_element(1, 2), fq(6));
}

#[test]
fn set_then_get() {
    let mut m = matrix_2x3();
    m.set_element(1, 1, fq(50));
    assert_eq!(m.get_element(1, 1), fq(50));
    assert_eq!(m.elements(), &fqs(&[1, 2, 3, 4, 50, 6])[..]);
}

#[test]
fn transpose_lays_out_columns_in_the_same_shape() {
    let t = matrix_2x3().transpose();
    assert_eq!(t.elements(), &fqs(&[1, 4, 2, 5, 3, 6])[..]);
    assert_eq!(t.n_rows(), 2);
    assert_eq!(t.n_cols(), 3);
}

#[test]
fn transpose_of_square_matrix() {
    let t = square_3x3().transpose();
    assert_eq!(t.elements(), &fqs(&[1, 4, 7, 2, 5, 8, 3, 6, 9])[..]);
    for i in 0..3 {
        for j in 0..3 {
            assert_eq!(t.get_element(i, j), square_3x3().get_element(j, i));
        }
    }
}

#[test]
fn transpose_twice_is_identity_on_square_matrices() {
    let m = square_3x3();
    assert_eq!(m.transpose().transpose(), m);
    let plain = Matrix::<3, 3, 9>::new(&fqs(&[3, 1, 4, 1, 5, 9, 2, 6, 5]));
    assert_eq!(plain.transpose().transpose(), plain);
}

#[test]
fn transpose_twice_moves_entries_of_non_square_matrices() {
    // Matrix::transpose keeps the shape, so applying it twice to a 2x3
    // matrix is not the identity.
    let m = matrix_2x3();
    assert_eq!(m.transpose().transpose().elements(), &fqs(&[1, 5, 4, 3, 2, 6])[..]);
}

#[test]
fn hadamard_product_multiplies_entries() {
    let a = matrix_2x3();
    let b = Matrix::<2, 3, 6>::new(&fqs(&[10, 20, 30, 40, 50, 60]));
    let c = a.hadamard_product(&b).unwrap();
    assert_eq!(c.elements(), &fqs(&[10, 40, 90, 160, 250, 360])[..]);
    assert_eq!(b.hadamard_product(&a).unwrap(), c);
}

#[test]
fn hadamard_product_is_associative() {
    let a = matrix_2x3();
    let b = Matrix::<2, 3, 6>::new(&fqs(&[7, 0, 2, 9, 11, 1]));
    let c = Matrix::<2, 3, 6>::new(&fqs(&[3, 3, 5, 8, 2, 4]));
    let left = a.hadamard_product(&b).unwrap().hadamard_product(&c).unwrap();
    let right = a.hadamard_product(&b.hadamard_product(&c).unwrap()).unwrap();
    assert_eq!(left, right);
}

#[test]
fn hadamard_product_never_reports_dimensions() {
    let a = square_3x3();
    let r: Result<SquareMatrix<3, 3, 9>, PoseidonParameterError> = a.hadamard_product(&a);
    assert_eq!(r.unwrap().elements(), &fqs(&[1, 4, 9, 16, 25, 36, 49, 64, 81])[..]);
}

#[test]
fn scalar_multiplication() {
    let m = matrix_2x3() * fq(3);
    assert_eq!(m.elements(), &fqs(&[3, 6, 9, 12, 15, 18])[..]);
    let s = square_3x3() * fq(0);
    assert_eq!(s.elements(), &fqs(&[0; 9])[..]);
}

#[test]
fn scalar_multiplication_laws() {
    let m = matrix_2x3();
    assert_eq!(m.clone() * fq(2) * fq(5), m.clone() * fq(10));
    assert_eq!(m.clone() * Fq::one(), m);
    let b = Matrix::<2, 3, 6>::new(&fqs(&[7, 0, 2, 9, 11, 1]));
    assert_eq!(
        (m.clone() * fq(4)).hadamard_product(&b).unwrap(),
        m.hadamard_product(&b).unwrap() * fq(4)
    );
}

#[test]
fn transpose_commutes_with_products() {
    let a = matrix_2x3();
    let b = Matrix::<2, 3, 6>::new(&fqs(&[7, 0, 2, 9, 11, 1]));
    assert_eq!((a.clone() * fq(6)).transpose(), a.transpose() * fq(6));
    assert_eq!(
        a.hadamard_product(&b).unwrap().transpose(),
        a.transpose().hadamard_product(&b.transpose()).unwrap()
    );
}

#[test]
fn row_vector_of_a_single_row() {
    let m = Matrix::<1, 4, 4>::new(&fqs(&[9, 8, 7, 6]));
    let r: Matrix<1, 4, 4> = m.row_vector(0);
    assert_eq!(r.elements(), &fqs(&[9, 8, 7, 6])[..]);
    let s = SquareMatrix::<1, 1, 1>::new(&fqs(&[5]));
    assert_eq!(s.row_vector(0).elements(), &fqs(&[5])[..]);
}

#[test]
fn row_vector_of_a_multi_row_matrix() {
    let m = Matrix::<2, 2, 4>::new(&fqs(&[1, 2, 3, 4]));
    let r: Matrix<1, 2, 4> = m.row_vector(1);
    assert_eq!(r.elements(), &fqs(&[3, 4, 0, 0])[..]);
    assert_eq!(m.row_vector(0).elements(), &fqs(&[1, 2, 0, 0])[..]);
    let r = matrix_2x3().row_vector(1);
    assert_eq!(r.elements(), &fqs(&[4, 5, 6, 0, 0, 0])[..]);
    assert_eq!(r.n_rows(), 1);
    assert_eq!(r.n_cols(), 3);
    for j in 0..3 {
        assert_eq!(r.get_element(0, j), matrix_2x3().get_element(1, j));
    }
    let s = SquareMatrix::<2, 2, 4>::new_2x2(fq(1), fq(2), fq(3), fq(4));
    assert_eq!(s.row_vector(1).elements(), &fqs(&[3, 4, 0, 0])[..]);
    assert_eq!(square_3x3().row_vector(2).elements(), &fqs(&[7, 8, 9, 0, 0, 0, 0, 0, 0])[..]);
}

#[test]
fn new_2x2_fills_rows() {
    let m = SquareMatrix::<2, 2, 4>::new_2x2(fq(1), fq(2), fq(3), fq(4));
    assert_eq!(m.elements(), &fqs(&[1, 2, 3, 4])[..]);
    assert_eq!(m.get_element(0, 1), fq(2));
    assert_eq!(m.get_element(1, 0), fq(3));
    assert_eq!(m.n_rows(), 2);
    assert_eq!(m.n_cols(), 2);
}

#[test]
fn square_matrix_set_element() {
    let mut m = square_3x3();
    m.set_element(2, 0, fq(70));
    assert_eq!(m.get_element(2, 0), fq(70));
    assert_eq!(m.elements(), &fqs(&[1, 2, 3, 4, 5, 6, 70, 8, 9])[..]);
}
