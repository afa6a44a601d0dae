//! Laws that relate the matrix operations to each other, stated over the
//! values that the operations' contracts speak of.
use vstd::arithmetic::div_mod::{
    lemma_fundamental_div_mod_converse, lemma_mul_mod_noop_left, lemma_mul_mod_noop_right,
    lemma_small_mod,
};
use vstd::arithmetic::mul::lemma_mul_is_associative;
use vstd::prelude::*;

use crate::fq::q;
use crate::matrix::{flat_index, hadamard, lemma_flat_index_bound, scaled, transposed};

verus! {

/// `(x * y % q) * z % q == x * (y * z % q) % q`: the field product is associative.
proof fn lemma_mul_mod_associative(x: nat, y: nat, z: nat)
    ensures
        ((x * y) % q()) * z % q() == x * ((y * z) % q()) % q(),
{
    lemma_mul_mod_noop_left((x * y) as int, z as int, q() as int);
    lemma_mul_mod_noop_right(x as int, (y * z) as int, q() as int);
    lemma_mul_is_associative(x as int, y as int, z as int);
}

/// Transposing a square matrix twice gives the matrix back.
pub proof fn lemma_transpose_involutive(m: Seq<nat>, n: nat)
    requires
        m.len() == n * n,
    ensures
        transposed(transposed(m, n, n), n, n) == m,
{
    let t = transposed(m, n, n);
    let u = transposed(t, n, n);
    assert forall|k: int| 0 <= k < m.len() implies #[trigger] u[k] == m[k] by {
        let n_ = n as int;
        crate::matrix::lemma_flat_index_decompose(k, n_, n_);
        let i = k / n_;
        let j = k % n_;
        let k2 = flat_index(j, i, n_);
        lemma_flat_index_bound(j, i, n_, n_);
        lemma_fundamental_div_mod_converse(k2, n_, j, i);
        assert(u[k] == t[k2]);
        assert(t[k2] == m[flat_index(i, j, n_)]);
    }
    assert(u =~= m);
}

/// The entry-wise product is commutative.
pub proof fn lemma_hadamard_commutative(a: Seq<nat>, b: Seq<nat>)
    requires
        a.len() == b.len(),
    ensures
        hadamard(a, b) == hadamard(b, a),
{
    assert forall|k: int| 0 <= k < a.len() implies #[trigger] hadamard(a, b)[k] == hadamard(b, a)[k] by {
        vstd::arithmetic::mul::lemma_mul_is_commutative(a[k] as int, b[k] as int);
    }
    assert(hadamard(a, b) =~= hadamard(b, a));
}

/// The entry-wise product is associative.
pub proof fn lemma_hadamard_associative(a: Seq<nat>, b: Seq<nat>, c: Seq<nat>)
    requires
        a.len() == b.len(),
        b.len() == c.len(),
    ensures
        hadamard(hadamard(a, b), c) == hadamard(a, hadamard(b, c)),
{
    assert forall|k: int| 0 <= k < a.len() implies #[trigger] hadamard(hadamard(a, b), c)[k]
        == hadamard(a, hadamard(b, c))[k] by {
        lemma_mul_mod_associative(a[k], b[k], c[k]);
    }
    assert(hadamard(hadamard(a, b), c) =~= hadamard(a, hadamard(b, c)));
}

/// Scaling by `s` and then by `t` is scaling by the field product `s * t`.
pub proof fn lemma_scaled_twice(a: Seq<nat>, s: nat, t: nat)
    ensures
        scaled(scaled(a, s), t) == scaled(a, (s * t) % q()),
{
    assert forall|k: int| 0 <= k < a.len() implies #[trigger] scaled(scaled(a, s), t)[k] == scaled(
        a,
        (s * t) % q(),
    )[k] by {
        lemma_mul_mod_associative(a[k], s, t);
    }
    assert(scaled(scaled(a, s), t) =~= scaled(a, (s * t) % q()));
}

/// Scaling by one leaves a matrix of field elements (entries below `q()`) unchanged.
pub proof fn lemma_scaled_one(a: Seq<nat>)
    requires
        forall|k: int| 0 <= k < a.len() ==> #[trigger] a[k] < q(),
    ensures
        scaled(a, 1) == a,
{
    assert forall|k: int| 0 <= k < a.len() implies #[trigger] scaled(a, 1)[k] == a[k] by {
        lemma_small_mod(a[k], q());
    }
    assert(scaled(a, 1) =~= a);
}

/// Scaling commutes with the entry-wise product.
pub proof fn lemma_hadamard_scaled(a: Seq<nat>, b: Seq<nat>, s: nat)
    requires
        a.len() == b.len(),
    ensures
        hadamard(scaled(a, s), b) == scaled(hadamard(a, b), s),
{
    assert forall|k: int| 0 <= k < a.len() implies #[trigger] hadamard(scaled(a, s), b)[k]
        == scaled(hadamard(a, b), s)[k] by {
        lemma_mul_mod_associative(a[k], s, b[k]);
        lemma_mul_mod_associative(a[k], b[k], s);
        vstd::arithmetic::mul::lemma_mul_is_commutative(s as int, b[k] as int);
    }
    assert(hadamard(scaled(a, s), b) =~= scaled(hadamard(a, b), s));
}

/// Transposing commutes with scaling.
pub proof fn lemma_transpose_scaled(a: Seq<nat>, rows: nat, cols: nat, s: nat)
    requires
        a.len() == rows * cols,
    ensures
        transposed(scaled(a, s), rows, cols) == scaled(transposed(a, rows, cols), s),
{
    assert forall|k: int| 0 <= k < a.len() implies #[trigger] transposed(scaled(a, s), rows, cols)[k]
        == scaled(transposed(a, rows, cols), s)[k] by {
        assert(cols * rows == rows * cols) by (nonlinear_arith);
        crate::matrix::lemma_flat_index_decompose(k, cols as int, rows as int);
        let i = k % (rows as int);
        let j = k / (rows as int);
        lemma_flat_index_bound(i, j, rows as int, cols as int);
    }
    assert(transposed(scaled(a, s), rows, cols) =~= scaled(transposed(a, rows, cols), s));
}

/// Transposing commutes with the entry-wise product.
pub proof fn lemma_transpose_hadamard(a: Seq<nat>, b: Seq<nat>, rows: nat, cols: nat)
    requires
        a.len() == rows * cols,
        b.len() == rows * cols,
    ensures
        transposed(hadamard(a, b), rows, cols) == hadamard(
            transposed(a, rows, cols),
            transposed(b, rows, cols),
        ),
{
    assert forall|k: int| 0 <= k < a.len() implies #[trigger] transposed(hadamard(a, b), rows, cols)[k]
        == hadamard(transposed(a, rows, cols), transposed(b, rows, cols))[k] by {
        assert(cols * rows == rows * cols) by (nonlinear_arith);
        crate::matrix::lemma_flat_index_decompose(k, cols as int, rows as int);
        let i = k % (rows as int);
        let j = k / (rows as int);
        lemma_flat_index_bound(i, j, rows as int, cols as int);
    }
    assert(transposed(hadamard(a, b), rows, cols) =~= hadamard(
        transposed(a, rows, cols),
        transposed(b, rows, cols),
    ));
}

/// Reading an entry after setting one: the entry that was set reads back the
/// value written, and every other entry of the matrix is unchanged.
pub proof fn lemma_get_after_set<T>(
    elements: Seq<T>,
    n_cols: int,
    i: int,
    j: int,
    i2: int,
    j2: int,
    val: T,
)
    requires
        0 <= i,
        0 <= j < n_cols,
        0 <= i2,
        0 <= j2 < n_cols,
        flat_index(i, j, n_cols) < elements.len(),
        flat_index(i2, j2, n_cols) < elements.len(),
    ensures
        elements.update(flat_index(i, j, n_cols), val)[flat_index(i2, j2, n_cols)] == if i == i2
            && j == j2 {
            val
        } else {
            elements[flat_index(i2, j2, n_cols)]
        },
{
    if i < i2 {
        crate::matrix::lemma_flat_index_order(i, j, i2, j2, n_cols);
    } else if i2 < i {
        crate::matrix::lemma_flat_index_order(i2, j2, i, j, n_cols);
    }
}

} // verus!
