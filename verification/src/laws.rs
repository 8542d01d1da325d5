//! What the three products have in common.
//!
//! The first group holds for every scalar: a transposed product is the plain
//! product of an explicitly transposed copy.  The second group needs exact
//! arithmetic: a product adds to its output the same matrix whatever the
//! output held, so two calls on one buffer leave the sum of both products,
//! and the blocked product leaves what the plain product leaves.
use vstd::prelude::*;
use vstd::arithmetic::div_mod::{lemma_fundamental_div_mod, lemma_mod_bound};
use crate::blocked::{fused_dot, gemm_blocked_spec};
use crate::gemm::{
    col_of, dot_from, gemm_at_spec, gemm_bt_spec, gemm_spec, lemma_flat_index, row_of,
};
use crate::scalar::{zeros, ExactScalar, Scalar};

verus! {

/// The transpose of a matrix stored as `(rows, cols)`, stored as `(cols, rows)`.
pub open spec fn transpose<T>(a: Seq<T>, rows: int, cols: int) -> Seq<T> {
    Seq::new(a.len(), |idx: int| a[(idx % rows) * cols + idx / rows])
}

/// The element-wise sum of two buffers of one length.
pub open spec fn add_seqs<T: Scalar>(x: Seq<T>, y: Seq<T>) -> Seq<T> {
    Seq::new(x.len(), |idx: int| x[idx].add_spec(y[idx]))
}

/// A buffer index of a matrix with `n` rows and `m` columns splits into a row
/// and a column.
pub proof fn lemma_unflatten(idx: int, n: int, m: int)
    requires
        0 <= idx < n * m,
        0 <= n,
        0 <= m,
    ensures
        0 < m,
        0 <= idx / m < n,
        0 <= idx % m < m,
        idx == (idx / m) * m + idx % m,
{
    assert(m != 0) by (nonlinear_arith)
        requires
            0 <= idx < n * m,
    ;
    lemma_fundamental_div_mod(idx, m);
    lemma_mod_bound(idx, m);
    let q = idx / m;
    assert(m * q == q * m) by (nonlinear_arith);
    assert(0 <= q < n) by (nonlinear_arith)
        requires
            0 <= idx < n * m,
            0 < m,
            idx == q * m + idx % m,
            0 <= idx % m < m,
    ;
}

/// `dot_from` looks at its two operands only below `count`.
pub proof fn lemma_dot_from_agrees<T: Scalar>(
    init: T,
    x1: spec_fn(int) -> T,
    y1: spec_fn(int) -> T,
    x2: spec_fn(int) -> T,
    y2: spec_fn(int) -> T,
    count: int,
)
    requires
        forall|p: int| #![trigger x1(p)] 0 <= p < count ==> x1(p) == x2(p),
        forall|p: int| #![trigger y1(p)] 0 <= p < count ==> y1(p) == y2(p),
    ensures
        dot_from(init, x1, y1, count) == dot_from(init, x2, y2, count),
    decreases count,
{
    if count > 0 {
        lemma_dot_from_agrees(init, x1, y1, x2, y2, count - 1);
    }
}

/// With exact arithmetic, starting from `init` is adding to `init` what
/// starting from zero gives.
pub proof fn lemma_dot_from_init<T: ExactScalar>(
    init: T,
    x: spec_fn(int) -> T,
    y: spec_fn(int) -> T,
    count: int,
)
    ensures
        dot_from(init, x, y, count) == init.add_spec(dot_from(T::zero_spec(), x, y, count)),
    decreases count,
{
    if count <= 0 {
        T::lemma_add_zero(init);
    } else {
        lemma_dot_from_init(init, x, y, count - 1);
        T::lemma_add_assoc(
            init,
            dot_from(T::zero_spec(), x, y, count - 1),
            x(count - 1).mul_spec(y(count - 1)),
        );
    }
}

/// The left-transposed product of `a`, stored as `(k, n)`, is the plain
/// product of the transposed copy of `a`.
pub proof fn lemma_gemm_at_is_gemm_of_transpose<T: Scalar>(
    a: Seq<T>,
    b: Seq<T>,
    c: Seq<T>,
    n: int,
    k: int,
    m: int,
)
    requires
        0 <= n,
        0 <= k,
        0 <= m,
        a.len() == n * k,
        b.len() == k * m,
        c.len() == n * m,
    ensures
        gemm_at_spec(a, b, c, n, k, m) == gemm_spec(transpose(a, k, n), b, c, k, m),
{
    let t = transpose(a, k, n);
    assert forall|idx: int| 0 <= idx < c.len() implies dot_from(
        c[idx],
        col_of(a, n, idx / m),
        col_of(b, m, idx % m),
        k,
    ) == dot_from(c[idx], row_of(t, k, idx / m), col_of(b, m, idx % m), k) by {
        lemma_unflatten(idx, n, m);
        let i = idx / m;
        assert forall|p: int| 0 <= p < k implies #[trigger] (col_of(a, n, i)(p)) == row_of(t, k, i)(p) by {
            lemma_flat_index(i, n, p, k);
            lemma_flat_index(p, k, i, n);
            assert(k * n == n * k) by (nonlinear_arith);
        }
        lemma_dot_from_agrees(
            c[idx],
            col_of(a, n, i),
            col_of(b, m, idx % m),
            row_of(t, k, i),
            col_of(b, m, idx % m),
            k,
        );
    }
    assert(gemm_at_spec(a, b, c, n, k, m) =~= gemm_spec(t, b, c, k, m));
}

/// The right-transposed product of `b`, stored as `(m, k)`, is the plain
/// product of the transposed copy of `b`.
pub proof fn lemma_gemm_bt_is_gemm_of_transpose<T: Scalar>(
    a: Seq<T>,
    b: Seq<T>,
    c: Seq<T>,
    n: int,
    k: int,
    m: int,
)
    requires
        0 <= n,
        0 <= k,
        0 <= m,
        a.len() == n * k,
        b.len() == k * m,
        c.len() == n * m,
    ensures
        gemm_bt_spec(a, b, c, k, m) == gemm_spec(a, transpose(b, m, k), c, k, m),
{
    let t = transpose(b, m, k);
    assert forall|idx: int| 0 <= idx < c.len() implies dot_from(
        c[idx],
        row_of(a, k, idx / m),
        row_of(b, k, idx % m),
        k,
    ) == dot_from(c[idx], row_of(a, k, idx / m), col_of(t, m, idx % m), k) by {
        lemma_unflatten(idx, n, m);
        let j = idx % m;
        assert forall|p: int| 0 <= p < k implies #[trigger] (row_of(b, k, j)(p)) == col_of(t, m, j)(p) by {
            lemma_flat_index(p, k, j, m);
            lemma_flat_index(j, m, p, k);
            assert(k * m == m * k) by (nonlinear_arith);
        }
        lemma_dot_from_agrees(
            c[idx],
            row_of(a, k, idx / m),
            row_of(b, k, j),
            row_of(a, k, idx / m),
            col_of(t, m, j),
            k,
        );
    }
    assert(gemm_bt_spec(a, b, c, k, m) =~= gemm_spec(a, t, c, k, m));
}

/// With exact arithmetic, the plain product adds to `c` what it adds to zeros.
pub proof fn lemma_gemm_accumulates<T: ExactScalar>(a: Seq<T>, b: Seq<T>, c: Seq<T>, k: int, m: int)
    ensures
        gemm_spec(a, b, c, k, m) == add_seqs(c, gemm_spec(a, b, zeros::<T>(c.len()), k, m)),
{
    assert forall|idx: int| 0 <= idx < c.len() implies #[trigger] gemm_spec(a, b, c, k, m)[idx]
        == c[idx].add_spec(gemm_spec(a, b, zeros::<T>(c.len()), k, m)[idx]) by {
        lemma_dot_from_init(c[idx], row_of(a, k, idx / m), col_of(b, m, idx % m), k);
    }
    assert(gemm_spec(a, b, c, k, m) =~= add_seqs(
        c,
        gemm_spec(a, b, zeros::<T>(c.len()), k, m),
    ));
}

/// With exact arithmetic, the left-transposed product adds to `c` what it adds
/// to zeros.
pub proof fn lemma_gemm_at_accumulates<T: ExactScalar>(
    a: Seq<T>,
    b: Seq<T>,
    c: Seq<T>,
    n: int,
    k: int,
    m: int,
)
    ensures
        gemm_at_spec(a, b, c, n, k, m) == add_seqs(
            c,
            gemm_at_spec(a, b, zeros::<T>(c.len()), n, k, m),
        ),
{
    assert forall|idx: int| 0 <= idx < c.len() implies #[trigger] gemm_at_spec(a, b, c, n, k, m)[idx]
        == c[idx].add_spec(gemm_at_spec(a, b, zeros::<T>(c.len()), n, k, m)[idx]) by {
        lemma_dot_from_init(c[idx], col_of(a, n, idx / m), col_of(b, m, idx % m), k);
    }
    assert(gemm_at_spec(a, b, c, n, k, m) =~= add_seqs(
        c,
        gemm_at_spec(a, b, zeros::<T>(c.len()), n, k, m),
    ));
}

/// With exact arithmetic, the right-transposed product adds to `c` what it
/// adds to zeros.
pub proof fn lemma_gemm_bt_accumulates<T: ExactScalar>(
    a: Seq<T>,
    b: Seq<T>,
    c: Seq<T>,
    k: int,
    m: int,
)
    ensures
        gemm_bt_spec(a, b, c, k, m) == add_seqs(c, gemm_bt_spec(a, b, zeros::<T>(c.len()), k, m)),
{
    assert forall|idx: int| 0 <= idx < c.len() implies #[trigger] gemm_bt_spec(a, b, c, k, m)[idx]
        == c[idx].add_spec(gemm_bt_spec(a, b, zeros::<T>(c.len()), k, m)[idx]) by {
        lemma_dot_from_init(c[idx], row_of(a, k, idx / m), row_of(b, k, idx % m), k);
    }
    assert(gemm_bt_spec(a, b, c, k, m) =~= add_seqs(
        c,
        gemm_bt_spec(a, b, zeros::<T>(c.len()), k, m),
    ));
}

/// With exact arithmetic, two plain products into one buffer leave what the
/// buffer held plus the first product plus the second.
pub proof fn lemma_gemm_twice<T: ExactScalar>(
    a1: Seq<T>,
    b1: Seq<T>,
    a2: Seq<T>,
    b2: Seq<T>,
    c: Seq<T>,
    k: int,
    m: int,
)
    ensures
        gemm_spec(a2, b2, gemm_spec(a1, b1, c, k, m), k, m) == add_seqs(
            add_seqs(c, gemm_spec(a1, b1, zeros::<T>(c.len()), k, m)),
            gemm_spec(a2, b2, zeros::<T>(c.len()), k, m),
        ),
{
    lemma_gemm_accumulates(a1, b1, c, k, m);
    lemma_gemm_accumulates(a2, b2, gemm_spec(a1, b1, c, k, m), k, m);
}

/// With exact arithmetic, two left-transposed products into one buffer leave
/// what the buffer held plus the first product plus the second.
pub proof fn lemma_gemm_at_twice<T: ExactScalar>(
    a1: Seq<T>,
    b1: Seq<T>,
    a2: Seq<T>,
    b2: Seq<T>,
    c: Seq<T>,
    n: int,
    k: int,
    m: int,
)
    ensures
        gemm_at_spec(a2, b2, gemm_at_spec(a1, b1, c, n, k, m), n, k, m) == add_seqs(
            add_seqs(c, gemm_at_spec(a1, b1, zeros::<T>(c.len()), n, k, m)),
            gemm_at_spec(a2, b2, zeros::<T>(c.len()), n, k, m),
        ),
{
    lemma_gemm_at_accumulates(a1, b1, c, n, k, m);
    lemma_gemm_at_accumulates(a2, b2, gemm_at_spec(a1, b1, c, n, k, m), n, k, m);
}

/// With exact arithmetic, two right-transposed products into one buffer leave
/// what the buffer held plus the first product plus the second.
pub proof fn lemma_gemm_bt_twice<T: ExactScalar>(
    a1: Seq<T>,
    b1: Seq<T>,
    a2: Seq<T>,
    b2: Seq<T>,
    c: Seq<T>,
    k: int,
    m: int,
)
    ensures
        gemm_bt_spec(a2, b2, gemm_bt_spec(a1, b1, c, k, m), k, m) == add_seqs(
            add_seqs(c, gemm_bt_spec(a1, b1, zeros::<T>(c.len()), k, m)),
            gemm_bt_spec(a2, b2, zeros::<T>(c.len()), k, m),
        ),
{
    lemma_gemm_bt_accumulates(a1, b1, c, k, m);
    lemma_gemm_bt_accumulates(a2, b2, gemm_bt_spec(a1, b1, c, k, m), k, m);
}

/// Whatever the arithmetic, the second of two plain products into one buffer
/// starts from what the first one left: no element is reset in between.
pub proof fn lemma_gemm_twice_continues<T: Scalar>(
    a1: Seq<T>,
    b1: Seq<T>,
    a2: Seq<T>,
    b2: Seq<T>,
    c: Seq<T>,
    k: int,
    m: int,
    idx: int,
)
    requires
        0 <= idx < c.len(),
    ensures
        gemm_spec(a2, b2, gemm_spec(a1, b1, c, k, m), k, m)[idx] == dot_from(
            dot_from(c[idx], row_of(a1, k, idx / m), col_of(b1, m, idx % m), k),
            row_of(a2, k, idx / m),
            col_of(b2, m, idx % m),
            k,
        ),
{
}

/// With exact arithmetic, fusing each product into the sum gives the sum of
/// the products.
pub proof fn lemma_fused_dot_is_dot<T: ExactScalar>(
    x: spec_fn(int) -> T,
    y: spec_fn(int) -> T,
    count: int,
)
    ensures
        fused_dot(T::zero_spec(), x, y, count) == dot_from(T::zero_spec(), x, y, count),
    decreases count,
{
    if count > 0 {
        lemma_fused_dot_is_dot(x, y, count - 1);
        T::lemma_mul_add(x(count - 1), y(count - 1), fused_dot(T::zero_spec(), x, y, count - 1));
    }
}

/// With exact arithmetic, the blocked product and the plain product leave the
/// same output.
pub proof fn lemma_blocked_is_plain<T: ExactScalar>(a: Seq<T>, b: Seq<T>, c: Seq<T>, k: int, m: int)
    ensures
        gemm_blocked_spec(a, b, c, k, m) == gemm_spec(a, b, c, k, m),
{
    assert forall|idx: int| 0 <= idx < c.len() implies #[trigger] gemm_blocked_spec(
        a,
        b,
        c,
        k,
        m,
    )[idx] == gemm_spec(a, b, c, k, m)[idx] by {
        lemma_fused_dot_is_dot(row_of(a, k, idx / m), col_of(b, m, idx % m), k);
        lemma_dot_from_init(c[idx], row_of(a, k, idx / m), col_of(b, m, idx % m), k);
    }
    assert(gemm_blocked_spec(a, b, c, k, m) =~= gemm_spec(a, b, c, k, m));
}

} // verus!
