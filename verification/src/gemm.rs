//! Accumulating matrix products over row-major buffers.
//!
//! All three products add to what the output already holds.  Each output
//! element receives its `k` terms in the order of the reduction index, so the
//! three agree element by element with `dot_from`, whatever the scalar type.
use vstd::prelude::*;
use vstd::arithmetic::div_mod::lemma_fundamental_div_mod_converse;
use crate::scalar::Scalar;

verus! {

/// Row `r` of a row-major matrix with `cols` columns, as a function of the column.
pub open spec fn row_of<T>(a: Seq<T>, cols: int, r: int) -> spec_fn(int) -> T {
    |p: int| a[r * cols + p]
}

/// Column `c` of a row-major matrix with `cols` columns, as a function of the row.
pub open spec fn col_of<T>(a: Seq<T>, cols: int, c: int) -> spec_fn(int) -> T {
    |p: int| a[p * cols + c]
}

/// `init + x(0)*y(0) + ... + x(count-1)*y(count-1)`, each product added to the
/// sum of those before it.
pub open spec fn dot_from<T: Scalar>(
    init: T,
    x: spec_fn(int) -> T,
    y: spec_fn(int) -> T,
    count: int,
) -> T
    decreases count,
{
    if count <= 0 {
        init
    } else {
        dot_from(init, x, y, count - 1).add_spec(x(count - 1).mul_spec(y(count - 1)))
    }
}

/// Element `idx` of `c + a * b` after the first `upto` terms, for `a` stored
/// as `(n, k)` and `b` as `(k, m)`.
pub open spec fn gemm_elem<T: Scalar>(
    a: Seq<T>,
    b: Seq<T>,
    c: Seq<T>,
    k: int,
    m: int,
    idx: int,
    upto: int,
) -> T {
    dot_from(c[idx], row_of(a, k, idx / m), col_of(b, m, idx % m), upto)
}

/// Element `idx` of `c + transpose(a) * b` after the first `upto` terms, for `a` stored
/// as `(k, n)` and `b` as `(k, m)`.
pub open spec fn gemm_at_elem<T: Scalar>(
    a: Seq<T>,
    b: Seq<T>,
    c: Seq<T>,
    n: int,
    m: int,
    idx: int,
    upto: int,
) -> T {
    dot_from(c[idx], col_of(a, n, idx / m), col_of(b, m, idx % m), upto)
}

/// Element `idx` of `c + a * transpose(b)` after the first `upto` terms, for `a` stored
/// as `(n, k)` and `b` as `(m, k)`.
pub open spec fn gemm_bt_elem<T: Scalar>(
    a: Seq<T>,
    b: Seq<T>,
    c: Seq<T>,
    k: int,
    m: int,
    idx: int,
    upto: int,
) -> T {
    dot_from(c[idx], row_of(a, k, idx / m), row_of(b, k, idx % m), upto)
}

/// `c + a * b` for `a` stored as `(n, k)`, `b` as `(k, m)` and `c` as `(n, m)`.
pub open spec fn gemm_spec<T: Scalar>(a: Seq<T>, b: Seq<T>, c: Seq<T>, k: int, m: int) -> Seq<T> {
    Seq::new(c.len(), |idx: int| gemm_elem(a, b, c, k, m, idx, k))
}

/// `c + transpose(a) * b` for `a` stored as `(k, n)`, `b` as `(k, m)` and `c` as `(n, m)`.
pub open spec fn gemm_at_spec<T: Scalar>(
    a: Seq<T>,
    b: Seq<T>,
    c: Seq<T>,
    n: int,
    k: int,
    m: int,
) -> Seq<T> {
    Seq::new(c.len(), |idx: int| gemm_at_elem(a, b, c, n, m, idx, k))
}

/// `c + a * transpose(b)` for `a` stored as `(n, k)`, `b` as `(m, k)` and `c` as `(n, m)`.
pub open spec fn gemm_bt_spec<T: Scalar>(a: Seq<T>, b: Seq<T>, c: Seq<T>, k: int, m: int) -> Seq<
    T,
> {
    Seq::new(c.len(), |idx: int| gemm_bt_elem(a, b, c, k, m, idx, k))
}

/// Position `(i, j)` of a matrix with `n` rows and `m` columns lies inside its
/// buffer, and the buffer index gives `i` and `j` back.
pub proof fn lemma_flat_index(i: int, n: int, j: int, m: int)
    requires
        0 <= i < n,
        0 <= j < m,
    ensures
        0 <= i * m,
        i * m + m <= n * m,
        (i * m + j) / m == i,
        (i * m + j) % m == j,
{
    assert(0 <= i * m && i * m + m <= n * m) by (nonlinear_arith)
        requires
            0 <= i < n,
            0 < m,
    ;
    lemma_fundamental_div_mod_converse(i * m + j, m, i, j);
}

/// Adds the product of `a`, stored as `(n, k)`, and `b`, stored as `(k, m)`,
/// to `c`, stored as `(n, m)`.
pub fn gemm<T: Scalar>(a: &[T], b: &[T], c: &mut [T], n: usize, k: usize, m: usize)
    requires
        a@.len() == n * k,
        b@.len() == k * m,
        old(c)@.len() == n * m,
    ensures
        final(c)@ == gemm_spec(a@, b@, old(c)@, k as int, m as int),
{
    let size: usize = c.len();
    let a_size: usize = a.len();
    let b_size: usize = b.len();
    let mut i: usize = 0;
    assert(0 * m == 0);
    while i < n
        invariant
            i <= n,
            a@.len() == a_size == n * k,
            b@.len() == b_size == k * m,
            c@.len() == size == n * m,
            old(c)@.len() == size,
            forall|idx: int|
                0 <= idx < i * m ==> c@[idx] == gemm_elem(
                    a@,
                    b@,
                    old(c)@,
                    k as int,
                    m as int,
                    idx,
                    k as int,
                ),
            forall|idx: int| i * m <= idx < size ==> c@[idx] == old(c)@[idx],
        decreases n - i,
    {
        proof {
            if m > 0 {
                lemma_flat_index(i as int, n as int, 0, m as int);
            }
        }
        let mut p: usize = 0;
        while p < k
            invariant
                i < n,
                p <= k,
                0 <= i * m,
                i * m + m <= size,
                a@.len() == a_size == n * k,
                b@.len() == b_size == k * m,
                c@.len() == size == n * m,
                old(c)@.len() == size,
                forall|idx: int|
                    0 <= idx < i * m ==> c@[idx] == gemm_elem(
                        a@,
                        b@,
                        old(c)@,
                        k as int,
                        m as int,
                        idx,
                        k as int,
                    ),
                forall|idx: int|
                    i * m <= idx < i * m + m ==> c@[idx] == dot_from(
                        old(c)@[idx],
                        row_of(a@, k as int, i as int),
                        col_of(b@, m as int, idx - i * m),
                        p as int,
                    ),
                forall|idx: int| i * m + m <= idx < size ==> c@[idx] == old(c)@[idx],
            decreases k - p,
        {
            proof {
                lemma_flat_index(i as int, n as int, p as int, k as int);
            }
            let mut j: usize = 0;
            while j < m
                invariant
                    i < n,
                    p < k,
                    j <= m,
                    0 <= i * m,
                    i * m + m <= size,
                    0 <= i * k,
                    i * k + k <= n * k,
                    a@.len() == a_size == n * k,
                    b@.len() == b_size == k * m,
                    c@.len() == size == n * m,
                    old(c)@.len() == size,
                    forall|idx: int|
                        0 <= idx < i * m ==> c@[idx] == gemm_elem(
                            a@,
                            b@,
                            old(c)@,
                            k as int,
                            m as int,
                            idx,
                            k as int,
                        ),
                    forall|idx: int|
                        i * m <= idx < i * m + j ==> c@[idx] == dot_from(
                            old(c)@[idx],
                            row_of(a@, k as int, i as int),
                            col_of(b@, m as int, idx - i * m),
                            p + 1,
                        ),
                    forall|idx: int|
                        i * m + j <= idx < i * m + m ==> c@[idx] == dot_from(
                            old(c)@[idx],
                            row_of(a@, k as int, i as int),
                            col_of(b@, m as int, idx - i * m),
                            p as int,
                        ),
                    forall|idx: int| i * m + m <= idx < size ==> c@[idx] == old(c)@[idx],
                decreases m - j,
            {
                proof {
                    lemma_flat_index(p as int, k as int, j as int, m as int);
                }
                c[i * m + j] = c[i * m + j].add(a[i * k + p].mul(b[p * m + j]));
                j += 1;
            }
            p += 1;
        }
        proof {
            assert forall|idx: int| i * m <= idx < i * m + m implies c@[idx] == gemm_elem(
                a@,
                b@,
                old(c)@,
                k as int,
                m as int,
                idx,
                k as int,
            ) by {
                lemma_flat_index(i as int, n as int, idx - i * m, m as int);
            }
            assert((i + 1) * m == i * m + m) by (nonlinear_arith);
        }
        i += 1;
    }
    proof {
        assert(c@ =~= gemm_spec(a@, b@, old(c)@, k as int, m as int));
    }
}

/// Adds the product of the transpose of `a`, stored as `(k, n)`, and `b`,
/// stored as `(k, m)`, to `c`, stored as `(n, m)`.
pub fn gemm_at<T: Scalar>(a: &[T], b: &[T], c: &mut [T], n: usize, k: usize, m: usize)
    requires
        a@.len() == n * k,
        b@.len() == k * m,
        old(c)@.len() == n * m,
    ensures
        final(c)@ == gemm_at_spec(a@, b@, old(c)@, n as int, k as int, m as int),
{
    let size: usize = c.len();
    let a_size: usize = a.len();
    let b_size: usize = b.len();
    assert(k * n == n * k) by (nonlinear_arith);
    let mut p: usize = 0;
    while p < k
        invariant
            p <= k,
            a@.len() == a_size == k * n,
            b@.len() == b_size == k * m,
            c@.len() == size == n * m,
            old(c)@.len() == size,
            forall|idx: int|
                0 <= idx < size ==> c@[idx] == gemm_at_elem(
                    a@,
                    b@,
                    old(c)@,
                    n as int,
                    m as int,
                    idx,
                    p as int,
                ),
        decreases k - p,
    {
        let mut i: usize = 0;
        assert(0 * m == 0);
        while i < n
            invariant
                p < k,
                i <= n,
                0 <= i * m <= size,
                a@.len() == a_size == k * n,
                b@.len() == b_size == k * m,
                c@.len() == size == n * m,
                old(c)@.len() == size,
                forall|idx: int|
                    0 <= idx < i * m ==> c@[idx] == gemm_at_elem(
                        a@,
                        b@,
                        old(c)@,
                        n as int,
                        m as int,
                        idx,
                        p + 1,
                    ),
                forall|idx: int|
                    i * m <= idx < size ==> c@[idx] == gemm_at_elem(
                        a@,
                        b@,
                        old(c)@,
                        n as int,
                        m as int,
                        idx,
                        p as int,
                    ),
            decreases n - i,
        {
            proof {
                lemma_flat_index(p as int, k as int, i as int, n as int);
                if m > 0 {
                    lemma_flat_index(i as int, n as int, 0, m as int);
                }
            }
            let mut j: usize = 0;
            while j < m
                invariant
                    p < k,
                    i < n,
                    j <= m,
                    0 <= i * m,
                    i * m + m <= size,
                    0 <= p * n,
                    p * n + n <= k * n,
                    a@.len() == a_size == k * n,
                    b@.len() == b_size == k * m,
                    c@.len() == size == n * m,
                    old(c)@.len() == size,
                    forall|idx: int|
                        0 <= idx < i * m + j ==> c@[idx] == gemm_at_elem(
                            a@,
                            b@,
                            old(c)@,
                            n as int,
                            m as int,
                            idx,
                            p + 1,
                        ),
                    forall|idx: int|
                        i * m + j <= idx < size ==> c@[idx] == gemm_at_elem(
                            a@,
                            b@,
                            old(c)@,
                            n as int,
                            m as int,
                            idx,
                            p as int,
                        ),
                decreases m - j,
            {
                proof {
                    lemma_flat_index(i as int, n as int, j as int, m as int);
                    lemma_flat_index(p as int, k as int, j as int, m as int);
                }
                c[i * m + j] = c[i * m + j].add(a[p * n + i].mul(b[p * m + j]));
                j += 1;
            }
            assert((i + 1) * m == i * m + m) by (nonlinear_arith);
            i += 1;
        }
        p += 1;
    }
    proof {
        assert(c@ =~= gemm_at_spec(a@, b@, old(c)@, n as int, k as int, m as int));
    }
}

/// Adds the product of `a`, stored as `(n, k)`, and the transpose of `b`,
/// stored as `(m, k)`, to `c`, stored as `(n, m)`.
pub fn gemm_bt<T: Scalar>(a: &[T], b: &[T], c: &mut [T], n: usize, k: usize, m: usize)
    requires
        a@.len() == n * k,
        b@.len() == k * m,
        old(c)@.len() == n * m,
    ensures
        final(c)@ == gemm_bt_spec(a@, b@, old(c)@, k as int, m as int),
{
    let size: usize = c.len();
    let a_size: usize = a.len();
    let b_size: usize = b.len();
    assert(k * m == m * k) by (nonlinear_arith);
    let mut i: usize = 0;
    assert(0 * m == 0);
    while i < n
        invariant
            i <= n,
            0 <= i * m <= size,
            a@.len() == a_size == n * k,
            b@.len() == b_size == m * k,
            c@.len() == size == n * m,
            old(c)@.len() == size,
            forall|idx: int|
                0 <= idx < i * m ==> c@[idx] == gemm_bt_elem(
                    a@,
                    b@,
                    old(c)@,
                    k as int,
                    m as int,
                    idx,
                    k as int,
                ),
            forall|idx: int| i * m <= idx < size ==> c@[idx] == old(c)@[idx],
        decreases n - i,
    {
        proof {
            if m > 0 {
                lemma_flat_index(i as int, n as int, 0, m as int);
            }
        }
        let mut j: usize = 0;
        while j < m
            invariant
                i < n,
                j <= m,
                0 <= i * m,
                i * m + m <= size,
                a@.len() == a_size == n * k,
                b@.len() == b_size == m * k,
                c@.len() == size == n * m,
                old(c)@.len() == size,
                forall|idx: int|
                    0 <= idx < i * m + j ==> c@[idx] == gemm_bt_elem(
                        a@,
                        b@,
                        old(c)@,
                        k as int,
                        m as int,
                        idx,
                        k as int,
                    ),
                forall|idx: int| i * m + j <= idx < size ==> c@[idx] == old(c)@[idx],
            decreases m - j,
        {
            proof {
                lemma_flat_index(i as int, n as int, j as int, m as int);
            }
            let mut p: usize = 0;
            while p < k
                invariant
                    i < n,
                    j < m,
                    p <= k,
                    0 <= i * m,
                    i * m + m <= size,
                    (i * m + j) / (m as int) == i,
                    (i * m + j) % (m as int) == j,
                    a@.len() == a_size == n * k,
                    b@.len() == b_size == m * k,
                    c@.len() == size == n * m,
                    old(c)@.len() == size,
                    forall|idx: int|
                        0 <= idx < i * m + j ==> c@[idx] == gemm_bt_elem(
                            a@,
                            b@,
                            old(c)@,
                            k as int,
                            m as int,
                            idx,
                            k as int,
                        ),
                    c@[i * m + j] == gemm_bt_elem(
                        a@,
                        b@,
                        old(c)@,
                        k as int,
                        m as int,
                        i * m + j,
                        p as int,
                    ),
                    forall|idx: int| i * m + j < idx < size ==> c@[idx] == old(c)@[idx],
                decreases k - p,
            {
                proof {
                    lemma_flat_index(i as int, n as int, p as int, k as int);
                    lemma_flat_index(j as int, m as int, p as int, k as int);
                }
                c[i * m + j] = c[i * m + j].add(a[i * k + p].mul(b[j * k + p]));
                p += 1;
            }
            j += 1;
        }
        assert((i + 1) * m == i * m + m) by (nonlinear_arith);
        i += 1;
    }
    proof {
        assert(c@ =~= gemm_bt_spec(a@, b@, old(c)@, k as int, m as int));
    }
}

} // verus!
