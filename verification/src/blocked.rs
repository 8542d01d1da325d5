//! The blocked matrix product: operands repacked into panels, the output
//! computed tile by tile.
//!
//! A tile has `RA` rows and `CW` columns.  Its accumulators are grouped in
//! vectors of `LANES` elements; each vector is updated by one fused
//! multiply-add per step of the reduction, and the finished tile is added to
//! the output.  Every output element therefore receives its products in the
//! order of the reduction index, but summed apart from what the output held:
//! see `gemm_blocked_spec`.
use vstd::prelude::*;
use vstd::arithmetic::div_mod::{lemma_fundamental_div_mod, lemma_fundamental_div_mod_converse};
use crate::gemm::{col_of, lemma_flat_index, row_of};
use crate::scalar::Scalar;

verus! {

/// Rows of a tile.
pub const RA: usize = 3;

/// Vectors in one row of a tile.
pub const RB: usize = 4;

/// Elements of a vector.
pub const LANES: usize = 8;

/// Columns of a tile.
pub const CW: usize = 32;

/// Accumulators of a tile.
pub const TILE: usize = 96;

/// Operand `a`, stored as `(n, k)`, repacked: panel after panel of `RA` rows,
/// within a panel one reduction index after the other, within a reduction
/// index the `RA` rows.
pub open spec fn pack_a<T>(a: Seq<T>, k: int) -> Seq<T> {
    Seq::new(
        a.len(),
        |idx: int|
            a[((idx / (RA * k)) * RA + (idx % (RA * k)) % (RA as int)) * k + (idx % (RA * k)) / (
            RA as int)],
    )
}

/// Operand `b`, stored as `(k, m)`, repacked: panel after panel of `CW`
/// columns, within a panel one reduction index after the other, within a
/// reduction index the `CW` columns.
pub open spec fn pack_b<T>(b: Seq<T>, k: int, m: int) -> Seq<T> {
    Seq::new(
        b.len(),
        |idx: int|
            b[((idx % (CW * k)) / (CW as int)) * m + (idx / (CW * k)) * CW + (idx % (CW * k)) % (
            CW as int)],
    )
}

/// Where the element for reduction index `p` and position `r` of panel
/// `panel` stands in a buffer packed in panels of width `w`.
pub open spec fn packed_index(panel: int, p: int, r: int, w: int, k: int) -> int {
    panel * (w * k) + p * w + r
}

/// A packed index gives its panel, reduction index and position back.
pub proof fn lemma_packed_index(panel: int, panels: int, p: int, r: int, w: int, k: int)
    requires
        0 <= panel < panels,
        0 <= p < k,
        0 <= r < w,
    ensures
        0 <= packed_index(panel, p, r, w, k) < panels * (w * k),
        packed_index(panel, p, r, w, k) / (w * k) == panel,
        (packed_index(panel, p, r, w, k) % (w * k)) / w == p,
        (packed_index(panel, p, r, w, k) % (w * k)) % w == r,
{
    let idx = packed_index(panel, p, r, w, k);
    lemma_flat_index(p, k, r, w);
    assert(k * w == w * k) by (nonlinear_arith);
    lemma_flat_index(panel, panels, p * w + r, w * k);
}

/// Read at a packed index, `pack_a` holds row `panel * RA + r` of `a` at
/// column `p`.
pub proof fn lemma_pack_a_at<T>(a: Seq<T>, n: int, k: int, panel: int, p: int, r: int)
    requires
        a.len() == n * k,
        n % (RA as int) == 0,
        0 <= panel < n / (RA as int),
        0 <= p < k,
        0 <= r < RA,
    ensures
        0 <= packed_index(panel, p, r, RA as int, k) < a.len(),
        pack_a(a, k)[packed_index(panel, p, r, RA as int, k)] == row_of(a, k, panel * RA + r)(p),
{
    lemma_packed_index(panel, n / (RA as int), p, r, RA as int, k);
    assert((n / (RA as int)) * (RA * k) == n * k) by (nonlinear_arith)
        requires
            n % (RA as int) == 0,
    ;
}

/// Read at a packed index, `pack_b` holds column `panel * CW + col` of `b` at
/// row `p`.
pub proof fn lemma_pack_b_at<T>(b: Seq<T>, k: int, m: int, panel: int, p: int, col: int)
    requires
        b.len() == k * m,
        m % (CW as int) == 0,
        0 <= panel < m / (CW as int),
        0 <= p < k,
        0 <= col < CW,
    ensures
        0 <= packed_index(panel, p, col, CW as int, k) < b.len(),
        pack_b(b, k, m)[packed_index(panel, p, col, CW as int, k)] == col_of(
            b,
            m,
            panel * CW + col,
        )(p),
{
    lemma_packed_index(panel, m / (CW as int), p, col, CW as int, k);
    assert((m / (CW as int)) * (CW * k) == k * m) by (nonlinear_arith)
        requires
            m % (CW as int) == 0,
    ;
}

/// Repacks `a`, stored as `(n, k)`, into `a_` and `b`, stored as `(k, m)`,
/// into `b_`, for a row count that is a multiple of `RA` and a column count
/// that is a multiple of `CW`.
pub fn permute<T: Copy>(
    a: &[T],
    b: &[T],
    a_: &mut [T],
    b_: &mut [T],
    n: usize,
    k: usize,
    m: usize,
)
    requires
        n % RA == 0,
        m % CW == 0,
        a@.len() == n * k,
        b@.len() == k * m,
        old(a_)@.len() == n * k,
        old(b_)@.len() == k * m,
    ensures
        final(a_)@ == pack_a(a@, k as int),
        final(b_)@ == pack_b(b@, k as int, m as int),
{
    let a_size: usize = a.len();
    let b_size: usize = b.len();
    let mut idx: usize = 0;
    let mut i0: usize = 0;
    assert(0 * (RA * k) == 0);
    while i0 < n
        invariant
            i0 <= n,
            n % RA == 0,
            i0 % RA == 0,
            a@.len() == a_size == n * k,
            a_@.len() == a_size,
            idx == (i0 / RA) * (RA * k),
            forall|q: int| 0 <= q < idx ==> a_@[q] == pack_a(a@, k as int)[q],
        decreases n - i0,
    {
        let mut p: usize = 0;
        while p < k
            invariant
                i0 < n,
                n % RA == 0,
                i0 % RA == 0,
                p <= k,
                a@.len() == a_size == n * k,
                a_@.len() == a_size,
                idx == packed_index((i0 / RA) as int, p as int, 0, RA as int, k as int),
                forall|q: int| 0 <= q < idx ==> a_@[q] == pack_a(a@, k as int)[q],
            decreases k - p,
        {
            let mut i: usize = i0;
            while i < i0 + RA
                invariant
                    i0 < n,
                    n % RA == 0,
                    i0 % RA == 0,
                    p < k,
                    i0 <= i <= i0 + RA,
                    a@.len() == a_size == n * k,
                    a_@.len() == a_size,
                    idx == packed_index((i0 / RA) as int, p as int, i - i0, RA as int, k as int),
                    forall|q: int| 0 <= q < idx ==> a_@[q] == pack_a(a@, k as int)[q],
                decreases i0 + RA - i,
            {
                proof {
                    lemma_pack_a_at(a@, n as int, k as int, (i0 / RA) as int, p as int, i - i0);
                    lemma_flat_index(i as int, n as int, p as int, k as int);
                }
                a_[idx] = a[i * k + p];
                idx += 1;
                i += 1;
            }
            p += 1;
        }
        assert(((i0 + RA) / (RA as int)) * (RA * k) == (i0 / RA) * (RA * k) + k * RA)
            by (nonlinear_arith)
            requires
                (i0 + RA) / (RA as int) == i0 / RA + 1,
        ;
        i0 += RA;
    }
    proof {
        assert(idx == a_size) by (nonlinear_arith)
            requires
                idx == (n / RA) * (RA * k),
                n % RA == 0,
                a_size == n * k,
        ;
        assert(a_@ =~= pack_a(a@, k as int));
    }
    idx = 0;
    let mut j0: usize = 0;
    assert(0 * (CW * k) == 0);
    while j0 < m
        invariant
            j0 <= m,
            m % CW == 0,
            j0 % CW == 0,
            b@.len() == b_size == k * m,
            b_@.len() == b_size,
            a_@ == pack_a(a@, k as int),
            idx == (j0 / CW) * (CW * k),
            forall|q: int| 0 <= q < idx ==> b_@[q] == pack_b(b@, k as int, m as int)[q],
        decreases m - j0,
    {
        let mut p: usize = 0;
        while p < k
            invariant
                j0 < m,
                m % CW == 0,
                j0 % CW == 0,
                p <= k,
                b@.len() == b_size == k * m,
                b_@.len() == b_size,
                a_@ == pack_a(a@, k as int),
                idx == packed_index((j0 / CW) as int, p as int, 0, CW as int, k as int),
                forall|q: int| 0 <= q < idx ==> b_@[q] == pack_b(b@, k as int, m as int)[q],
            decreases k - p,
        {
            let mut j: usize = j0;
            while j < j0 + CW
                invariant
                    j0 < m,
                    m % CW == 0,
                    j0 % CW == 0,
                    p < k,
                    j0 <= j <= j0 + CW,
                    b@.len() == b_size == k * m,
                    b_@.len() == b_size,
                    a_@ == pack_a(a@, k as int),
                    idx == packed_index((j0 / CW) as int, p as int, j - j0, CW as int, k as int),
                    forall|q: int| 0 <= q < idx ==> b_@[q] == pack_b(b@, k as int, m as int)[q],
                decreases j0 + CW - j,
            {
                proof {
                    lemma_pack_b_at(b@, k as int, m as int, (j0 / CW) as int, p as int, j - j0);
                    lemma_flat_index(p as int, k as int, j as int, m as int);
                }
                b_[idx] = b[p * m + j];
                idx += 1;
                j += 1;
            }
            p += 1;
        }
        assert(((j0 + CW) / (CW as int)) * (CW * k) == (j0 / CW) * (CW * k) + k * CW)
            by (nonlinear_arith)
            requires
                (j0 + CW) / (CW as int) == j0 / CW + 1,
        ;
        j0 += CW;
    }
    proof {
        assert(idx == b_size) by (nonlinear_arith)
            requires
                idx == (m / CW) * (CW * k),
                m % CW == 0,
                b_size == k * m,
        ;
        assert(b_@ =~= pack_b(b@, k as int, m as int));
    }
}

/// `x(count-1) * y(count-1) + (... + (x(0) * y(0) + init))`, each step one
/// fused multiply-add.
pub open spec fn fused_dot<T: Scalar>(
    init: T,
    x: spec_fn(int) -> T,
    y: spec_fn(int) -> T,
    count: int,
) -> T
    decreases count,
{
    if count <= 0 {
        init
    } else {
        x(count - 1).mul_add_spec(y(count - 1), fused_dot(init, x, y, count - 1))
    }
}

/// The elements at position `r` of a panel of width `w` that starts at `off`,
/// as a function of the reduction index.
pub open spec fn panel_lane<T>(buf: Seq<T>, off: int, w: int, r: int) -> spec_fn(int) -> T {
    |p: int| buf[off + p * w + r]
}

/// Accumulator `t` of a tile, for row `t / CW` and column `t % CW`, after
/// `upto` steps of the reduction.
pub open spec fn tile_acc<T: Scalar>(
    a_: Seq<T>,
    a_off: int,
    b_: Seq<T>,
    b_off: int,
    t: int,
    upto: int,
) -> T {
    fused_dot(
        T::zero_spec(),
        panel_lane(a_, a_off, RA as int, t / (CW as int)),
        panel_lane(b_, b_off, CW as int, t % (CW as int)),
        upto,
    )
}

/// Element `idx` of a matrix with `m` columns lies in the tile whose first
/// row is `i0` and whose first column is `j0`.
pub open spec fn in_tile(idx: int, m: int, i0: int, j0: int) -> bool {
    i0 <= idx / m < i0 + RA && j0 <= idx % m < j0 + CW
}

/// The accumulator that belongs to element `idx` of the output.
pub open spec fn acc_index(idx: int, m: int, i0: int, j0: int) -> int {
    (idx / m - i0) * CW + (idx % m - j0)
}

/// `c` after the tile at `(i0, j0)` was computed from two packed panels and
/// added to it.
pub open spec fn gemm_inner_spec<T: Scalar>(
    a_: Seq<T>,
    a_off: int,
    b_: Seq<T>,
    b_off: int,
    c: Seq<T>,
    k: int,
    m: int,
    i0: int,
    j0: int,
) -> Seq<T> {
    Seq::new(
        c.len(),
        |idx: int|
            if in_tile(idx, m, i0, j0) {
                c[idx].add_spec(tile_acc(a_, a_off, b_, b_off, acc_index(idx, m, i0, j0), k))
            } else {
                c[idx]
            },
    )
}

/// Element `idx` of the blocked product: the products of row `idx / m` of `a`
/// and column `idx % m` of `b` are fused into a sum that starts at zero, and
/// that sum is added to what `c` held.
pub open spec fn gemm_blocked_elem<T: Scalar>(
    a: Seq<T>,
    b: Seq<T>,
    c: Seq<T>,
    k: int,
    m: int,
    idx: int,
) -> T {
    c[idx].add_spec(fused_dot(T::zero_spec(), row_of(a, k, idx / m), col_of(b, m, idx % m), k))
}

/// `c` after the blocked product of `a`, stored as `(n, k)`, and `b`, stored
/// as `(k, m)`, was added to it.
pub open spec fn gemm_blocked_spec<T: Scalar>(
    a: Seq<T>,
    b: Seq<T>,
    c: Seq<T>,
    k: int,
    m: int,
) -> Seq<T> {
    Seq::new(c.len(), |idx: int| gemm_blocked_elem(a, b, c, k, m, idx))
}

/// `fused_dot` looks at its two operands only below `count`.
pub proof fn lemma_fused_dot_agrees<T: Scalar>(
    init: T,
    x1: spec_fn(int) -> T,
    y1: spec_fn(int) -> T,
    x2: spec_fn(int) -> T,
    y2: spec_fn(int) -> T,
    count: int,
)
    requires
        forall|p: int| #![trigger x1(p)] 0 <= p < count ==> x1(p) == x2(p),
        forall|p: int| #![trigger y1(p)] 0 <= p < count ==> y1(p) == y2(p),
    ensures
        fused_dot(init, x1, y1, count) == fused_dot(init, x2, y2, count),
    decreases count,
{
    if count > 0 {
        lemma_fused_dot_agrees(init, x1, y1, x2, y2, count - 1);
    }
}

/// A scratch buffer of `len` zeros.
fn zeroed<T: Scalar>(len: usize) -> (buf: Vec<T>)
    ensures
        buf@.len() == len,
        forall|q: int| 0 <= q < len ==> buf@[q] == T::zero_spec(),
{
    let zero: T = T::zero();
    let mut buf: Vec<T> = Vec::with_capacity(len);
    let mut i: usize = 0;
    while i < len
        invariant
            i <= len,
            zero == T::zero_spec(),
            buf@.len() == i,
            forall|q: int| 0 <= q < i ==> buf@[q] == T::zero_spec(),
        decreases len - i,
    {
        buf.push(zero);
        i += 1;
    }
    buf
}

/// A scratch buffer of `len` zeros for vector loads and stores: `len` is a
/// whole number of vectors.
pub fn alloc_aligned<T: Scalar>(len: usize) -> (buf: Vec<T>)
    requires
        len % LANES == 0,
    ensures
        buf@.len() == len,
        forall|q: int| 0 <= q < len ==> buf@[q] == T::zero_spec(),
{
    zeroed(len)
}

/// One broadcast fused multiply-add: the vector of `acc` at `at` becomes
/// `a_val` times the vector of `b` at `b_at`, plus itself.
fn fma_lanes<T: Scalar>(acc: &mut [T; TILE], at: usize, a_val: T, b: &[T], b_at: usize)
    requires
        at + LANES <= TILE,
        b_at + LANES <= b@.len(),
    ensures
        forall|q: int|
            0 <= q < TILE ==> final(acc)@[q] == if at <= q < at + LANES {
                a_val.mul_add_spec(b@[b_at + q - at], old(acc)@[q])
            } else {
                old(acc)@[q]
            },
{
    let b_size: usize = b.len();
    let mut lane: usize = 0;
    while lane < LANES
        invariant
            lane <= LANES,
            at + LANES <= TILE,
            b@.len() == b_size,
            b_at + LANES <= b_size,
            forall|q: int|
                0 <= q < TILE ==> acc@[q] == if at <= q < at + lane {
                    a_val.mul_add_spec(b@[b_at + q - at], old(acc)@[q])
                } else {
                    old(acc)@[q]
                },
        decreases LANES - lane,
    {
        acc[at + lane] = a_val.mul_add(b[b_at + lane], acc[at + lane]);
        lane += 1;
    }
}

/// One vector load, add and store: the vector of `c` at `c_at` becomes itself
/// plus the vector of `acc` at `at`.
fn add_lanes<T: Scalar>(c: &mut [T], c_at: usize, acc: &[T; TILE], at: usize)
    requires
        at + LANES <= TILE,
        c_at + LANES <= old(c)@.len(),
    ensures
        final(c)@.len() == old(c)@.len(),
        forall|q: int|
            0 <= q < old(c)@.len() ==> final(c)@[q] == if c_at <= q < c_at + LANES {
                old(c)@[q].add_spec(acc@[at + q - c_at])
            } else {
                old(c)@[q]
            },
{
    let size: usize = c.len();
    let mut lane: usize = 0;
    while lane < LANES
        invariant
            lane <= LANES,
            at + LANES <= TILE,
            c_at + LANES <= size,
            c@.len() == size == old(c)@.len(),
            forall|q: int|
                0 <= q < c@.len() ==> c@[q] == if c_at <= q < c_at + lane {
                    old(c)@[q].add_spec(acc@[at + q - c_at])
                } else {
                    old(c)@[q]
                },
        decreases LANES - lane,
    {
        c[c_at + lane] = c[c_at + lane].add(acc[at + lane]);
        lane += 1;
    }
}

/// Computes the tile of `RA` rows from `i0` and `CW` columns from `j0` out of
/// the packed panels at `a_off` in `a_` and at `b_off` in `b_`, and adds it to
/// `c`, a matrix with `m` columns.
pub fn gemm_inner<T: Scalar>(
    a_: &[T],
    a_off: usize,
    b_: &[T],
    b_off: usize,
    c: &mut [T],
    k: usize,
    m: usize,
    i0: usize,
    j0: usize,
)
    requires
        a_off + RA * k <= a_@.len(),
        b_off + CW * k <= b_@.len(),
        j0 + CW <= m,
        (i0 + RA) * m <= old(c)@.len(),
    ensures
        final(c)@ == gemm_inner_spec(
            a_@,
            a_off as int,
            b_@,
            b_off as int,
            old(c)@,
            k as int,
            m as int,
            i0 as int,
            j0 as int,
        ),
{
    let a_size: usize = a_.len();
    let b_size: usize = b_.len();
    let size: usize = c.len();
    let zero: T = T::zero();
    let mut acc: [T; TILE] = [zero; TILE];
    let mut p: usize = 0;
    while p < k
        invariant
            p <= k,
            a_@.len() == a_size,
            b_@.len() == b_size,
            a_off + RA * k <= a_size,
            b_off + CW * k <= b_size,
            forall|t: int|
                0 <= t < TILE ==> acc@[t] == tile_acc(
                    a_@,
                    a_off as int,
                    b_@,
                    b_off as int,
                    t,
                    p as int,
                ),
        decreases k - p,
    {
        let mut j: usize = 0;
        while j < RB
            invariant
                p < k,
                j <= RB,
                a_@.len() == a_size,
                b_@.len() == b_size,
                a_off + RA * k <= a_size,
                b_off + CW * k <= b_size,
                forall|t: int|
                    0 <= t < TILE ==> acc@[t] == tile_acc(
                        a_@,
                        a_off as int,
                        b_@,
                        b_off as int,
                        t,
                        if t % (CW as int) < j * LANES {
                            p + 1
                        } else {
                            p as int
                        },
                    ),
            decreases RB - j,
        {
            let mut i: usize = 0;
            while i < RA
                invariant
                    p < k,
                    j < RB,
                    i <= RA,
                    a_@.len() == a_size,
                    b_@.len() == b_size,
                    a_off + RA * k <= a_size,
                    b_off + CW * k <= b_size,
                    forall|t: int|
                        0 <= t < TILE ==> acc@[t] == tile_acc(
                            a_@,
                            a_off as int,
                            b_@,
                            b_off as int,
                            t,
                            if t % (CW as int) < j * LANES || (t % (CW as int) < j * LANES + LANES
                                && t / (CW as int) < i) {
                                p + 1
                            } else {
                                p as int
                            },
                        ),
                decreases RA - i,
            {
                let a_val: T = a_[a_off + p * RA + i];
                fma_lanes(&mut acc, i * CW + j * LANES, a_val, b_, b_off + p * CW + j * LANES);
                i += 1;
            }
            j += 1;
        }
        p += 1;
    }
    let mut i: usize = 0;
    while i < RA
        invariant
            i <= RA,
            j0 + CW <= m,
            (i0 + RA) * m <= size,
            c@.len() == size == old(c)@.len(),
            forall|idx: int|
                #![trigger c@[idx]]
                0 <= idx < size ==> c@[idx] == if in_tile(idx, m as int, i0 as int, j0 as int)
                    && idx / (m as int) - i0 < i {
                    old(c)@[idx].add_spec(acc@[acc_index(idx, m as int, i0 as int, j0 as int)])
                } else {
                    old(c)@[idx]
                },
        decreases RA - i,
    {
        let mut j: usize = 0;
        while j < RB
            invariant
                i < RA,
                j <= RB,
                j0 + CW <= m,
                (i0 + RA) * m <= size,
                c@.len() == size == old(c)@.len(),
                forall|idx: int|
                    #![trigger c@[idx]]
                    0 <= idx < size ==> c@[idx] == if in_tile(idx, m as int, i0 as int, j0 as int)
                        && (idx / (m as int) - i0 < i || (idx / (m as int) - i0 == i && idx % (
                    m as int) - j0 < j * LANES)) {
                        old(c)@[idx].add_spec(acc@[acc_index(idx, m as int, i0 as int, j0 as int)])
                    } else {
                        old(c)@[idx]
                    },
            decreases RB - j,
        {
            let ghost before = c@;
            proof {
                lemma_flat_index(i0 + i, i0 + RA, j0 + j * LANES, m as int);
            }
            let c_at: usize = (i0 + i) * m + j0 + j * LANES;
            add_lanes(c, c_at, &acc, i * CW + j * LANES);
            proof {
                assert forall|idx: int| 0 <= idx < size implies #[trigger] c@[idx] == if in_tile(
                    idx,
                    m as int,
                    i0 as int,
                    j0 as int,
                ) && (idx / (m as int) - i0 < i || (idx / (m as int) - i0 == i && idx % (m as int)
                    - j0 < (j + 1) * LANES)) {
                    old(c)@[idx].add_spec(acc@[acc_index(idx, m as int, i0 as int, j0 as int)])
                } else {
                    old(c)@[idx]
                } by {
                    let row = idx / (m as int);
                    let col = idx % (m as int);
                    lemma_fundamental_div_mod(idx, m as int);
                    assert(m * row == row * m) by (nonlinear_arith);
                    if c_at <= idx < c_at + LANES {
                        lemma_flat_index(i0 + i, i0 + RA, idx - (i0 + i) * m, m as int);
                    }
                    assert(c@[idx] == before[idx] || c_at <= idx < c_at + LANES);
                }
            }
            j += 1;
        }
        assert(RB * LANES == CW);
        i += 1;
    }
    proof {
        assert(c@ =~= gemm_inner_spec(
            a_@,
            a_off as int,
            b_@,
            b_off as int,
            old(c)@,
            k as int,
            m as int,
            i0 as int,
            j0 as int,
        ));
    }
}

/// Adds the product of `a`, stored as `(n, k)`, and `b`, stored as `(k, m)`,
/// to `c`, stored as `(n, m)`, tile by tile, for a row count that is a
/// multiple of `RA` and a column count that is a multiple of `CW`.
pub fn gemm_blocked<T: Scalar>(a: &[T], b: &[T], c: &mut [T], n: usize, k: usize, m: usize)
    requires
        n % RA == 0,
        m % CW == 0,
        a@.len() == n * k,
        b@.len() == k * m,
        old(c)@.len() == n * m,
    ensures
        final(c)@ == gemm_blocked_spec(a@, b@, old(c)@, k as int, m as int),
{
    let size: usize = c.len();
    let a_size: usize = a.len();
    let b_size: usize = b.len();
    proof {
        let q = (m / CW) as int;
        assert(k * m == (k * q * RB) * LANES) by (nonlinear_arith)
            requires
                m == CW * q,
                CW == RB * LANES,
        ;
        lemma_fundamental_div_mod_converse(b_size as int, LANES as int, k * q * RB, 0);
    }
    let mut a_: Vec<T> = zeroed(a_size);
    let mut b_: Vec<T> = alloc_aligned(b_size);
    permute(a, b, a_.as_mut_slice(), b_.as_mut_slice(), n, k, m);
    let n_blocks: usize = n / RA;
    let m_blocks: usize = m / CW;
    let mut a_off: usize = 0;
    let mut i_block: usize = 0;
    assert(0 * (RA * k) == 0);
    while i_block < n_blocks
        invariant
            i_block <= n_blocks,
            n_blocks == n / RA,
            m_blocks == m / CW,
            n % RA == 0,
            m % CW == 0,
            a@.len() == a_size == n * k,
            b@.len() == b_size == k * m,
            c@.len() == size == n * m,
            old(c)@.len() == size,
            a_@ == pack_a(a@, k as int),
            b_@ == pack_b(b@, k as int, m as int),
            a_off == i_block * (RA * k),
            forall|idx: int|
                #![trigger c@[idx]]
                0 <= idx < size ==> c@[idx] == if idx / (m as int) < i_block * RA {
                    gemm_blocked_elem(a@, b@, old(c)@, k as int, m as int, idx)
                } else {
                    old(c)@[idx]
                },
        decreases n_blocks - i_block,
    {
        proof {
            assert(i_block * (RA * k) + RA * k <= n * k) by (nonlinear_arith)
                requires
                    i_block < n_blocks,
                    n == n_blocks * RA,
                    0 <= k,
            ;
            assert forall|idx: int| 0 <= idx < size implies 0 <= idx % (m as int) < m && #[trigger] c@[idx] == c@[idx] by {
                assert(m > 0) by (nonlinear_arith)
                    requires
                        0 <= idx < n * m,
                ;
                vstd::arithmetic::div_mod::lemma_mod_bound(idx, m as int);
            }
            assert((i_block * RA + RA) * m <= n * m) by (nonlinear_arith)
                requires
                    i_block * RA + RA <= n,
            ;
        }
        let mut b_off: usize = 0;
        let mut j_block: usize = 0;
        assert(0 * (CW * k) == 0);
        while j_block < m_blocks
            invariant
                i_block < n_blocks,
                j_block <= m_blocks,
                n_blocks == n / RA,
                m_blocks == m / CW,
                n % RA == 0,
                m % CW == 0,
                a@.len() == a_size == n * k,
                b@.len() == b_size == k * m,
                c@.len() == size == n * m,
                old(c)@.len() == size,
                a_@ == pack_a(a@, k as int),
                b_@ == pack_b(b@, k as int, m as int),
                a_off == i_block * (RA * k),
                a_off + RA * k <= a_size,
                (i_block * RA + RA) * m <= size,
                b_off == j_block * (CW * k),
                forall|idx: int|
                    #![trigger c@[idx]]
                    0 <= idx < size ==> c@[idx] == if idx / (m as int) < i_block * RA || (idx / (
                    m as int) < i_block * RA + RA && idx % (m as int) < j_block * CW) {
                        gemm_blocked_elem(a@, b@, old(c)@, k as int, m as int, idx)
                    } else {
                        old(c)@[idx]
                    },
            decreases m_blocks - j_block,
        {
            let ghost before = c@;
            proof {
                assert(j_block * (CW * k) + CW * k <= k * m) by (nonlinear_arith)
                    requires
                        j_block < m_blocks,
                        m == m_blocks * CW,
                        0 <= k,
                ;
            }
            gemm_inner(
                a_.as_slice(),
                a_off,
                b_.as_slice(),
                b_off,
                c,
                k,
                m,
                i_block * RA,
                j_block * CW,
            );
            proof {
                let i0 = i_block * RA;
                let j0 = j_block * CW;
                assert forall|idx: int| 0 <= idx < size implies #[trigger] c@[idx] == if idx / (
                m as int) < i0 || (idx / (m as int) < i0 + RA && idx % (m as int) < j0 + CW) {
                    gemm_blocked_elem(a@, b@, old(c)@, k as int, m as int, idx)
                } else {
                    old(c)@[idx]
                } by {
                    if in_tile(idx, m as int, i0 as int, j0 as int) {
                        let row = idx / (m as int);
                        let col = idx % (m as int);
                        let t = acc_index(idx, m as int, i0 as int, j0 as int);
                        assert(t / (CW as int) == row - i0 && t % (CW as int) == col - j0);
                        assert(before[idx] == old(c)@[idx]);
                        assert forall|p: int| 0 <= p < k implies #[trigger] (panel_lane(
                            a_@,
                            a_off as int,
                            RA as int,
                            row - i0,
                        )(p)) == row_of(a@, k as int, row)(p) by {
                            lemma_pack_a_at(
                                a@,
                                n as int,
                                k as int,
                                i_block as int,
                                p,
                                row - i0,
                            );
                        }
                        assert forall|p: int| 0 <= p < k implies #[trigger] (panel_lane(
                            b_@,
                            b_off as int,
                            CW as int,
                            col - j0,
                        )(p)) == col_of(b@, m as int, col)(p) by {
                            lemma_pack_b_at(
                                b@,
                                k as int,
                                m as int,
                                j_block as int,
                                p,
                                col - j0,
                            );
                        }
                        lemma_fused_dot_agrees(
                            T::zero_spec(),
                            panel_lane(a_@, a_off as int, RA as int, row - i0),
                            panel_lane(b_@, b_off as int, CW as int, col - j0),
                            row_of(a@, k as int, row),
                            col_of(b@, m as int, col),
                            k as int,
                        );
                    } else {
                        assert(c@[idx] == before[idx]);
                    }
                }
                assert((j_block + 1) * (CW * k) == j_block * (CW * k) + CW * k)
                    by (nonlinear_arith);
            }
            b_off += CW * k;
            j_block += 1;
        }
        proof {
            assert forall|idx: int| 0 <= idx < size implies #[trigger] c@[idx] == if idx / (
            m as int) < i_block * RA + RA {
                gemm_blocked_elem(a@, b@, old(c)@, k as int, m as int, idx)
            } else {
                old(c)@[idx]
            } by {
                assert(m > 0) by (nonlinear_arith)
                    requires
                        0 <= idx < n * m,
                ;
                vstd::arithmetic::div_mod::lemma_mod_bound(idx, m as int);
            }
            assert((i_block + 1) * (RA * k) == i_block * (RA * k) + RA * k) by (nonlinear_arith);
        }
        a_off += RA * k;
        i_block += 1;
    }
    proof {
        assert forall|idx: int| 0 <= idx < size implies #[trigger] c@[idx] == gemm_blocked_elem(
            a@,
            b@,
            old(c)@,
            k as int,
            m as int,
            idx,
        ) by {
            lemma_fundamental_div_mod(idx, m as int);
            vstd::arithmetic::div_mod::lemma_mod_bound(idx, m as int);
            let row = idx / (m as int);
            assert(row < n) by (nonlinear_arith)
                requires
                    idx == m * row + idx % (m as int),
                    0 <= idx % (m as int),
                    idx < n * m,
                    m > 0,
            ;
        }
        assert(c@ =~= gemm_blocked_spec(a@, b@, old(c)@, k as int, m as int));
    }
}

} // verus!
