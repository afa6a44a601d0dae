//! Matrices over `Fq` with their shape fixed by const generics, stored
//! row-major in a flat array.
use vstd::prelude::*;

use crate::error::PoseidonParameterError;
use crate::fq::{q, Fq};

verus! {

/// Position in the row-major array of the entry in row `i`, column `j`
/// of a matrix with `n_cols` columns.
pub open spec fn flat_index(i: int, j: int, n_cols: int) -> int {
    i * n_cols + j
}

/// The row-major values of the transpose of a `rows` x `cols` matrix whose
/// row-major values are `a`: the entry at row `j`, column `i` of the result is
/// the entry at row `i`, column `j` of `a`.
pub open spec fn transposed(a: Seq<nat>, rows: nat, cols: nat) -> Seq<nat> {
    Seq::new(a.len(), |k: int| a[flat_index(k % (rows as int), k / (rows as int), cols as int)])
}

/// Entry-wise products modulo `q()`.
pub open spec fn hadamard(a: Seq<nat>, b: Seq<nat>) -> Seq<nat> {
    Seq::new(a.len(), |k: int| (a[k] * b[k]) % q())
}

/// Every entry multiplied by `s`, modulo `q()`.
pub open spec fn scaled(a: Seq<nat>, s: nat) -> Seq<nat> {
    Seq::new(a.len(), |k: int| (a[k] * s) % q())
}

/// Entries in bounds have their flat position in bounds.
pub proof fn lemma_flat_index_bound(i: int, j: int, rows: int, cols: int)
    requires
        0 <= i < rows,
        0 <= j < cols,
    ensures
        0 <= flat_index(i, j, cols) < rows * cols,
{
    assert(0 <= i * cols + j < rows * cols) by (nonlinear_arith)
        requires
            0 <= i < rows,
            0 <= j < cols,
    ;
}

/// Flat positions follow the order of rows.
pub proof fn lemma_flat_index_order(i: int, j: int, i2: int, j2: int, cols: int)
    requires
        i < i2,
        0 <= j < cols,
        0 <= j2,
    ensures
        flat_index(i, j, cols) < flat_index(i2, j2, cols),
{
    assert(i * cols + j < i2 * cols + j2) by (nonlinear_arith)
        requires
            i < i2,
            0 <= j < cols,
            0 <= j2,
    ;
}

/// Every flat position below `rows * cols` is that of exactly one entry:
/// row `k / cols`, column `k % cols`.
pub proof fn lemma_flat_index_decompose(k: int, rows: int, cols: int)
    requires
        0 <= rows,
        0 <= k < rows * cols,
    ensures
        cols > 0,
        0 <= k / cols < rows,
        0 <= k % cols < cols,
        k == flat_index(k / cols, k % cols, cols),
{
    assert(cols > 0) by (nonlinear_arith)
        requires
            0 <= k < rows * cols,
            0 <= rows,
    ;
    vstd::arithmetic::div_mod::lemma_fundamental_div_mod(k, cols);
    vstd::arithmetic::div_mod::lemma_mod_bound(k, cols);
    vstd::arithmetic::mul::lemma_mul_is_commutative(cols, k / cols);
    assert(0 <= k / cols < rows) by (nonlinear_arith)
        requires
            0 <= k < rows * cols,
            cols > 0,
            k == cols * (k / cols) + k % cols,
            0 <= k % cols < cols,
    ;
}

/// A matrix over `Fq` with `N_ROWS` rows and `N_COLS` columns, stored
/// row-major in `N_ELEMENTS` entries. It can stand for a row or a column
/// vector too.
#[derive(Clone, Debug, PartialEq, Eq)]
pub struct Matrix<const N_ROWS: usize, const N_COLS: usize, const N_ELEMENTS: usize> {
    /// The entries, row by row.
    pub elements: [Fq; N_ELEMENTS],
}

impl<const N_ROWS: usize, const N_COLS: usize, const N_ELEMENTS: usize> View for Matrix<
    N_ROWS,
    N_COLS,
    N_ELEMENTS,
> {
    type V = Seq<nat>;

    /// The values of the entries, row by row.
    open spec fn view(&self) -> Seq<nat> {
        self.elements@.map_values(|x: Fq| x@)
    }
}

impl<const N_ROWS: usize, const N_COLS: usize, const N_ELEMENTS: usize> Matrix<
    N_ROWS,
    N_COLS,
    N_ELEMENTS,
> {
    /// The matrix whose entries, row by row, are `elements`.
    pub fn new(elements: &[Fq]) -> (r: Self)
        requires
            N_ELEMENTS == N_ROWS * N_COLS,
            elements@.len() == N_ELEMENTS,
        ensures
            r.elements@ == elements@,
    {
        let mut array = [Fq::default(); N_ELEMENTS];
        let mut k: usize = 0;
        while k < N_ELEMENTS
            invariant
                elements@.len() == N_ELEMENTS,
                k <= N_ELEMENTS,
                forall|m: int| 0 <= m < k ==> array@[m] == elements@[m],
            decreases N_ELEMENTS - k,
        {
            array[k] = elements[k];
            k = k + 1;
        }
        proof {
            assert(array@ =~= elements@);
        }
        Matrix { elements: array }
    }

    /// The entries, row by row.
    pub fn elements(&self) -> (r: &[Fq])
        ensures
            r@ == self.elements@,
    {
        self.elements.as_slice()
    }

    /// The entry at row `i`, column `j`.
    pub fn get_element(&self, i: usize, j: usize) -> (r: Fq)
        requires
            flat_index(i as int, j as int, N_COLS as int) < N_ELEMENTS,
        ensures
            r == self.elements@[flat_index(i as int, j as int, N_COLS as int)],
    {
        self.elements[i * N_COLS + j]
    }

    /// Sets the entry at row `i`, column `j` to `val`.
    pub fn set_element(&mut self, i: usize, j: usize, val: Fq)
        requires
            flat_index(i as int, j as int, N_COLS as int) < N_ELEMENTS,
        ensures
            final(self).elements@ == old(self).elements@.update(
                flat_index(i as int, j as int, N_COLS as int),
                val,
            ),
    {
        self.elements[i * N_COLS + j] = val;
    }

    /// The number of rows.
    pub fn n_rows(&self) -> (r: usize)
        ensures
            r == N_ROWS,
    {
        N_ROWS
    }

    /// The number of columns.
    pub fn n_cols(&self) -> (r: usize)
        ensures
            r == N_COLS,
    {
        N_COLS
    }

    /// The entries of the transpose, column by column of `self`: the entry at
    /// row `i`, column `j` of `self` goes to position `j * N_ROWS + i`. The
    /// result keeps the type, and so the shape, of `self`.
    pub fn transpose(&self) -> (r: Self)
        requires
            N_ELEMENTS == N_ROWS * N_COLS,
        ensures
            forall|i: int, j: int|
                0 <= i < N_ROWS && 0 <= j < N_COLS ==> #[trigger] r.elements@[flat_index(
                    j,
                    i,
                    N_ROWS as int,
                )] == self.elements@[flat_index(i, j, N_COLS as int)],
            r@ == transposed(self@, N_ROWS as nat, N_COLS as nat),
    {
        let mut transposed_elements = [Fq::default(); N_ELEMENTS];
        let mut index: usize = 0;
        let mut j: usize = 0;
        while j < self.n_cols()
            invariant
                N_ELEMENTS == N_ROWS * N_COLS,
                j <= N_COLS,
                index == flat_index(j as int, 0, N_ROWS as int),
                forall|i2: int, j2: int|
                    0 <= i2 < N_ROWS && 0 <= j2 < j ==> #[trigger] transposed_elements@[flat_index(
                        j2,
                        i2,
                        N_ROWS as int,
                    )] == self.elements@[flat_index(i2, j2, N_COLS as int)],
            decreases N_COLS - j,
        {
            let mut i: usize = 0;
            while i < self.n_rows()
                invariant
                    N_ELEMENTS == N_ROWS * N_COLS,
                    j < N_COLS,
                    i <= N_ROWS,
                    index == flat_index(j as int, i as int, N_ROWS as int),
                    forall|i2: int, j2: int|
                        0 <= i2 < N_ROWS && 0 <= j2 < j
                            ==> #[trigger] transposed_elements@[flat_index(j2, i2, N_ROWS as int)]
                            == self.elements@[flat_index(i2, j2, N_COLS as int)],
                    forall|i2: int|
                        0 <= i2 < i ==> #[trigger] transposed_elements@[flat_index(
                            j as int,
                            i2,
                            N_ROWS as int,
                        )] == self.elements@[flat_index(i2, j as int, N_COLS as int)],
                decreases N_ROWS - i,
            {
                proof {
                    lemma_flat_index_bound(j as int, i as int, N_COLS as int, N_ROWS as int);
                    lemma_flat_index_bound(i as int, j as int, N_ROWS as int, N_COLS as int);
                    assert(N_COLS * N_ROWS == N_ROWS * N_COLS) by (nonlinear_arith);
                }
                let ghost before = transposed_elements@;
                transposed_elements[index] = self.get_element(i, j);
                proof {
                    assert forall|i2: int, j2: int|
                        0 <= i2 < N_ROWS && 0 <= j2 < j implies #[trigger] transposed_elements@[flat_index(
                            j2,
                            i2,
                            N_ROWS as int,
                        )] == self.elements@[flat_index(i2, j2, N_COLS as int)] by {
                        lemma_flat_index_order(j2, i2, j as int, i as int, N_ROWS as int);
                        assert(before[flat_index(j2, i2, N_ROWS as int)] == self.elements@[flat_index(i2, j2, N_COLS as int)]);
                    }
                    assert forall|i2: int|
                        0 <= i2 < i + 1 implies #[trigger] transposed_elements@[flat_index(
                            j as int,
                            i2,
                            N_ROWS as int,
                        )] == self.elements@[flat_index(i2, j as int, N_COLS as int)] by {
                        if i2 < i {
                            assert(before[flat_index(j as int, i2, N_ROWS as int)] == self.elements@[flat_index(i2, j as int, N_COLS as int)]);
                        }
                    }
                }
                index = index + 1;
                i = i + 1;
            }
            proof {
                assert(index == flat_index(j as int + 1, 0, N_ROWS as int)) by (nonlinear_arith)
                    requires
                        index == j * N_ROWS + N_ROWS,
                ;
                assert forall|i2: int, j2: int|
                    0 <= i2 < N_ROWS && 0 <= j2 < j + 1 implies #[trigger] transposed_elements@[flat_index(
                        j2,
                        i2,
                        N_ROWS as int,
                    )] == self.elements@[flat_index(i2, j2, N_COLS as int)] by {
                    if j2 == j {
                        assert(transposed_elements@[flat_index(j as int, i2, N_ROWS as int)] == self.elements@[flat_index(i2, j as int, N_COLS as int)]);
                    }
                }
            }
            j = j + 1;
        }
        let r = Self::new(&transposed_elements);
        proof {
            let t = transposed(self@, N_ROWS as nat, N_COLS as nat);
            assert forall|k: int| 0 <= k < N_ELEMENTS implies #[trigger] r@[k] == t[k] by {
                assert(N_COLS * N_ROWS == N_ROWS * N_COLS) by (nonlinear_arith);
                lemma_flat_index_decompose(k, N_COLS as int, N_ROWS as int);
                let i2 = k % (N_ROWS as int);
                let j2 = k / (N_ROWS as int);
                lemma_flat_index_bound(i2, j2, N_ROWS as int, N_COLS as int);
                assert(r.elements@[flat_index(j2, i2, N_ROWS as int)] == self.elements@[flat_index(i2, j2, N_COLS as int)]);
                assert(k == flat_index(j2, i2, N_ROWS as int));
                assert(r@[k] == r.elements@[k]@);
                assert(t[k] == self@[flat_index(i2, j2, N_COLS as int)]);
                assert(self@[flat_index(i2, j2, N_COLS as int)] == self.elements@[flat_index(i2, j2, N_COLS as int)]@);
            }
            assert(r@ =~= t);
        }
        r
    }

    /// The entry-wise (Hadamard) product of `self` and `rhs`. Both operands
    /// have the same type, so their shapes always agree and the result is `Ok`.
    pub fn hadamard_product(&self, rhs: &Self) -> (r: Result<Self, PoseidonParameterError>)
        requires
            N_ELEMENTS == N_ROWS * N_COLS,
        ensures
            r is Ok,
            r matches Ok(m) ==> m@ == hadamard(self@, rhs@),
    {
        if self.n_rows() != rhs.n_rows() || self.n_cols() != rhs.n_cols() {
            return Err(PoseidonParameterError::InvalidMatrixDimensions);
        }
        let mut new_elements = [Fq::default(); N_ELEMENTS];
        let mut index: usize = 0;
        let mut i: usize = 0;
        while i < self.n_rows()
            invariant
                N_ELEMENTS == N_ROWS * N_COLS,
                i <= N_ROWS,
                index == flat_index(i as int, 0, N_COLS as int),
                forall|k: int|
                    0 <= k < index ==> (#[trigger] new_elements@[k])@ == (self@[k] * rhs@[k]) % q(),
            decreases N_ROWS - i,
        {
            let mut j: usize = 0;
            while j < self.n_cols()
                invariant
                    N_ELEMENTS == N_ROWS * N_COLS,
                    i < N_ROWS,
                    j <= N_COLS,
                    index == flat_index(i as int, j as int, N_COLS as int),
                    forall|k: int|
                        0 <= k < index ==> (#[trigger] new_elements@[k])@ == (self@[k] * rhs@[k])
                            % q(),
                decreases N_COLS - j,
            {
                proof {
                    lemma_flat_index_bound(i as int, j as int, N_ROWS as int, N_COLS as int);
                }
                let product = self.get_element(i, j) * rhs.get_element(i, j);
                new_elements[index] = product;
                index = index + 1;
                j = j + 1;
            }
            proof {
                assert(index == flat_index(i as int + 1, 0, N_COLS as int)) by (nonlinear_arith)
                    requires
                        index == i * N_COLS + N_COLS,
                ;
            }
            i = i + 1;
        }
        let r = Self::new(&new_elements);
        proof {
            assert(index == N_ELEMENTS);
            assert(r@ =~= hadamard(self@, rhs@));
        }
        Ok(r)
    }

    /// Matrices with the same values are the same matrix.
    pub proof fn lemma_view_injective(a: Self, b: Self)
        requires
            a@ == b@,
        ensures
            a == b,
    {
        assert forall|k: int| 0 <= k < N_ELEMENTS implies #[trigger] a.elements@[k]
            == b.elements@[k] by {
            assert(a.elements@.len() == N_ELEMENTS && b.elements@.len() == N_ELEMENTS);
            assert(a@[k] == a.elements@[k]@);
            assert(b@[k] == b.elements@[k]@);
            assert(a@[k] == b@[k]);
            Fq::lemma_view_injective(a.elements@[k], b.elements@[k]);
        }
        assert(a.elements =~= b.elements);
    }

    /// The row vector holding row `i`: its first `N_COLS` entries are the
    /// entries of row `i`. The result keeps `N_ELEMENTS` entries, and those
    /// past the row are zero.
    pub fn row_vector(&self, i: usize) -> (r: Matrix<1, N_COLS, N_ELEMENTS>)
        requires
            N_ELEMENTS == N_ROWS * N_COLS,
            i < N_ROWS,
        ensures
            r.elements@.subrange(0, N_COLS as int) == self.elements@.subrange(
                flat_index(i as int, 0, N_COLS as int),
                flat_index(i as int + 1, 0, N_COLS as int),
            ),
            forall|k: int| N_COLS <= k < N_ELEMENTS ==> (#[trigger] r.elements@[k])@ == 0,
    {
        proof {
            assert(flat_index(i as int + 1, 0, N_COLS as int) <= N_ELEMENTS && N_COLS
                <= N_ELEMENTS && flat_index(i as int + 1, 0, N_COLS as int) == flat_index(
                i as int,
                0,
                N_COLS as int,
            ) + N_COLS) by (nonlinear_arith)
                requires
                    i < N_ROWS,
                    N_ELEMENTS == N_ROWS * N_COLS,
            ;
        }
        let mut row_elements = [Fq::default(); N_ELEMENTS];
        let mut j: usize = 0;
        while j < N_COLS
            invariant
                N_ELEMENTS == N_ROWS * N_COLS,
                flat_index(i as int + 1, 0, N_COLS as int) <= N_ELEMENTS,
                N_COLS <= N_ELEMENTS,
                flat_index(i as int + 1, 0, N_COLS as int) == flat_index(i as int, 0, N_COLS as int)
                    + N_COLS,
                j <= N_COLS,
                forall|k: int|
                    0 <= k < j ==> #[trigger] row_elements@[k] == self.elements@[flat_index(
                        i as int,
                        k,
                        N_COLS as int,
                    )],
                forall|k: int| j <= k < N_ELEMENTS ==> (#[trigger] row_elements@[k])@ == 0,
            decreases N_COLS - j,
        {
            proof {
                assert(flat_index(i as int, j as int, N_COLS as int) == flat_index(
                    i as int,
                    0,
                    N_COLS as int,
                ) + j);
            }
            row_elements[j] = self.get_element(i, j);
            j = j + 1;
        }
        let r = Matrix::<1, N_COLS, N_ELEMENTS> { elements: row_elements };
        proof {
            assert(r.elements@.subrange(0, N_COLS as int) =~= self.elements@.subrange(
                flat_index(i as int, 0, N_COLS as int),
                flat_index(i as int + 1, 0, N_COLS as int),
            ));
        }
        r
    }
}

/// Multiplies every entry of a matrix by a scalar.
impl<const N_ROWS: usize, const N_COLS: usize, const N_ELEMENTS: usize> std::ops::Mul<Fq> for Matrix<N_ROWS, N_COLS, N_ELEMENTS> {
    type Output = Matrix<N_ROWS, N_COLS, N_ELEMENTS>;

    /// Every entry multiplied by the scalar `rhs`.
    fn mul(self, rhs: Fq) -> (r: Matrix<N_ROWS, N_COLS, N_ELEMENTS>)
        ensures
            r@ == scaled(self@, rhs@),
    {
        let elements = self.elements();
        let mut new_elements = [Fq::default(); N_ELEMENTS];
        let mut i: usize = 0;
        while i < elements.len()
            invariant
                elements@ == self.elements@,
                elements@.len() == N_ELEMENTS,
                i <= N_ELEMENTS,
                forall|k: int|
                    0 <= k < i ==> (#[trigger] new_elements@[k])@ == (self@[k] * rhs@) % q(),
            decreases N_ELEMENTS - i,
        {
            new_elements[i] = elements[i] * rhs;
            i = i + 1;
        }
        let r = Self::new(&new_elements);
        proof {
            assert(r@ =~= scaled(self@, rhs@));
            let m = choose|m: Self| m@ == scaled(self@, rhs@);
            Self::lemma_view_injective(r, m);
        }
        r
    }

}

impl<const N_ROWS: usize, const N_COLS: usize, const N_ELEMENTS: usize> vstd::std_specs::ops::MulSpecImpl<Fq> for Matrix<N_ROWS, N_COLS, N_ELEMENTS> {
    open spec fn obeys_mul_spec() -> bool {
        true
    }

    /// The entries are stored in a flat array of `N_ROWS * N_COLS` entries.
    open spec fn mul_req(self, rhs: Fq) -> bool {
        N_ELEMENTS == N_ROWS * N_COLS
    }

    /// The matrix whose values are those of `self`, each multiplied by `rhs`.
    open spec fn mul_spec(self, rhs: Fq) -> Matrix<N_ROWS, N_COLS, N_ELEMENTS> {
        choose|m: Matrix<N_ROWS, N_COLS, N_ELEMENTS>| m@ == scaled(self@, rhs@)
    }
}

/// A square matrix over `Fq`: a `Matrix` with the same operations.
#[derive(Clone, Debug, PartialEq, Eq)]
pub struct SquareMatrix<const N_ROWS: usize, const N_COLS: usize, const N_ELEMENTS: usize>(
    pub Matrix<N_ROWS, N_COLS, N_ELEMENTS>,
);

impl<const N_ROWS: usize, const N_COLS: usize, const N_ELEMENTS: usize> View for SquareMatrix<
    N_ROWS,
    N_COLS,
    N_ELEMENTS,
> {
    type V = Seq<nat>;

    /// The values of the entries, row by row.
    open spec fn view(&self) -> Seq<nat> {
        self.0@
    }
}

impl<const N_ROWS: usize, const N_COLS: usize, const N_ELEMENTS: usize> SquareMatrix<
    N_ROWS,
    N_COLS,
    N_ELEMENTS,
> {
    /// The square matrix whose entries, row by row, are `elements`.
    pub fn new(elements: &[Fq]) -> (r: Self)
        requires
            N_ELEMENTS == N_ROWS * N_COLS,
            elements@.len() == N_ELEMENTS,
        ensures
            r.0.elements@ == elements@,
    {
        SquareMatrix(Matrix::new(elements))
    }

    /// The entries, row by row.
    pub fn elements(&self) -> (r: &[Fq])
        ensures
            r@ == self.0.elements@,
    {
        self.0.elements()
    }

    /// The entry at row `i`, column `j`.
    pub fn get_element(&self, i: usize, j: usize) -> (r: Fq)
        requires
            flat_index(i as int, j as int, N_COLS as int) < N_ELEMENTS,
        ensures
            r == self.0.elements@[flat_index(i as int, j as int, N_COLS as int)],
    {
        self.0.get_element(i, j)
    }

    /// Sets the entry at row `i`, column `j` to `val`.
    pub fn set_element(&mut self, i: usize, j: usize, val: Fq)
        requires
            flat_index(i as int, j as int, N_COLS as int) < N_ELEMENTS,
        ensures
            final(self).0.elements@ == old(self).0.elements@.update(
                flat_index(i as int, j as int, N_COLS as int),
                val,
            ),
    {
        self.0.set_element(i, j, val)
    }

    /// The number of rows.
    pub fn n_rows(&self) -> (r: usize)
        ensures
            r == N_ROWS,
    {
        N_ROWS
    }

    /// The number of columns.
    pub fn n_cols(&self) -> (r: usize)
        ensures
            r == N_COLS,
    {
        N_COLS
    }

    /// The transpose, laid out as `Matrix::transpose` lays it out.
    pub fn transpose(&self) -> (r: Self)
        requires
            N_ELEMENTS == N_ROWS * N_COLS,
        ensures
            forall|i: int, j: int|
                0 <= i < N_ROWS && 0 <= j < N_COLS ==> #[trigger] r.0.elements@[flat_index(
                    j,
                    i,
                    N_ROWS as int,
                )] == self.0.elements@[flat_index(i, j, N_COLS as int)],
            r@ == transposed(self@, N_ROWS as nat, N_COLS as nat),
    {
        SquareMatrix(self.0.transpose())
    }

    /// The entry-wise (Hadamard) product of `self` and `rhs`; always `Ok`.
    pub fn hadamard_product(&self, rhs: &Self) -> (r: Result<Self, PoseidonParameterError>)
        requires
            N_ELEMENTS == N_ROWS * N_COLS,
        ensures
            r is Ok,
            r matches Ok(m) ==> m@ == hadamard(self@, rhs@),
    {
        match self.0.hadamard_product(&rhs.0) {
            Ok(m) => Ok(SquareMatrix(m)),
            Err(e) => Err(e),
        }
    }

    /// The row vector holding row `i`, as `Matrix::row_vector` builds it.
    pub fn row_vector(&self, i: usize) -> (r: Matrix<1, N_COLS, N_ELEMENTS>)
        requires
            N_ELEMENTS == N_ROWS * N_COLS,
            i < N_ROWS,
        ensures
            r.elements@.subrange(0, N_COLS as int) == self.0.elements@.subrange(
                flat_index(i as int, 0, N_COLS as int),
                flat_index(i as int + 1, 0, N_COLS as int),
            ),
            forall|k: int| N_COLS <= k < N_ELEMENTS ==> (#[trigger] r.elements@[k])@ == 0,
    {
        self.0.row_vector(i)
    }

    /// Square matrices with the same values are the same square matrix.
    pub proof fn lemma_view_injective(a: Self, b: Self)
        requires
            a@ == b@,
        ensures
            a == b,
    {
        Matrix::lemma_view_injective(a.0, b.0);
    }

    /// The 2x2 square matrix with rows `[a, b]` and `[c, d]`.
    pub fn new_2x2(a: Fq, b: Fq, c: Fq, d: Fq) -> (r: SquareMatrix<2, 2, 4>)
        ensures
            r.0.elements@ == seq![a, b, c, d],
    {
        let elements = [a, b, c, d];
        let r = SquareMatrix::<2, 2, 4>::new(&elements);
        proof {
            assert(elements@ =~= seq![a, b, c, d]);
        }
        r
    }
}

/// Multiplies every entry of a square matrix by a scalar.
impl<const N_ROWS: usize, const N_COLS: usize, const N_ELEMENTS: usize> std::ops::Mul<Fq> for SquareMatrix<N_ROWS, N_COLS, N_ELEMENTS> {
    type Output = SquareMatrix<N_ROWS, N_COLS, N_ELEMENTS>;

    /// Every entry multiplied by the scalar `rhs`.
    fn mul(self, rhs: Fq) -> (r: SquareMatrix<N_ROWS, N_COLS, N_ELEMENTS>)
        ensures
            r@ == scaled(self@, rhs@),
    {
        let r = SquareMatrix(self.0 * rhs);
        proof {
            let m = choose|m: Self| m@ == scaled(self@, rhs@);
            Self::lemma_view_injective(r, m);
        }
        r
    }
}

impl<const N_ROWS: usize, const N_COLS: usize, const N_ELEMENTS: usize> vstd::std_specs::ops::MulSpecImpl<Fq> for SquareMatrix<N_ROWS, N_COLS, N_ELEMENTS> {
    open spec fn obeys_mul_spec() -> bool {
        true
    }

    /// The entries are stored in a flat array of `N_ROWS * N_COLS` entries.
    open spec fn mul_req(self, rhs: Fq) -> bool {
        N_ELEMENTS == N_ROWS * N_COLS
    }

    /// The square matrix whose values are those of `self`, each multiplied by `rhs`.
    open spec fn mul_spec(self, rhs: Fq) -> SquareMatrix<N_ROWS, N_COLS, N_ELEMENTS> {
        choose|m: SquareMatrix<N_ROWS, N_COLS, N_ELEMENTS>| m@ == scaled(self@, rhs@)
    }
}

} // verus!
