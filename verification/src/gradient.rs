//! The gradients of the backward passes are slopes.
//!
//! Weigh every output of the affine layer by the matching element of an
//! upstream gradient and add the products up.  With the arithmetic of a
//! commutative ring, moving one weight or one bias by `t` moves that sum by
//! `t` times the gradient that the backward pass adds for it.  In the same
//! way the sum of the squared errors moves with one prediction by the factor
//! that the backward pass of the mean squared error divides by the count.
use vstd::prelude::*;
use crate::gemm::{col_of, dot_from, gemm_at_spec, lemma_flat_index, row_of};
use crate::laws::{lemma_dot_from_agrees, lemma_unflatten};
use crate::ops::{
    bias_grad_spec, broadcast_rows, linear_forward_spec, squared_error_sum, sum_from, two_spec,
};
use crate::scalar::{zeros, RingScalar, Scalar};

verus! {

/// The elements of a buffer as a function of the index.
pub open spec fn elems<T>(s: Seq<T>) -> spec_fn(int) -> T {
    |i: int| s[i]
}

/// Every value of `x` times `t`.
pub open spec fn scaled<T: Scalar>(x: spec_fn(int) -> T, t: T) -> spec_fn(int) -> T {
    |i: int| x(i).mul_spec(t)
}

/// `t` at every index.
pub open spec fn constant<T>(t: T) -> spec_fn(int) -> T {
    |i: int| t
}

/// The outputs of the affine layer for the input `x`, each multiplied by the
/// matching element of `g`, added up from the first to the last.
pub open spec fn weighted_output<T: Scalar>(
    x: Seq<T>,
    w: Seq<T>,
    b: Seq<T>,
    g: Seq<T>,
    bs: int,
    n_in: int,
) -> T {
    dot_from(
        T::zero_spec(),
        elems(g),
        elems(linear_forward_spec(x, w, b, bs, n_in)),
        g.len() as int,
    )
}

/// `(a + b) + c == (a + c) + b`.
pub proof fn lemma_add_swap<T: RingScalar>(a: T, b: T, c: T)
    ensures
        a.add_spec(b).add_spec(c) == a.add_spec(c).add_spec(b),
{
    T::lemma_add_assoc(a, b, c);
    T::lemma_add_comm(b, c);
    T::lemma_add_assoc(a, c, b);
}

/// `(a + b) + (c + d) == (a + c) + (b + d)`.
pub proof fn lemma_add_interchange<T: RingScalar>(a: T, b: T, c: T, d: T)
    ensures
        a.add_spec(b).add_spec(c.add_spec(d)) == a.add_spec(c).add_spec(b.add_spec(d)),
{
    T::lemma_add_assoc(a.add_spec(b), c, d);
    lemma_add_swap(a, b, c);
    T::lemma_add_assoc(a.add_spec(c), b, d);
}

/// Starting `t` higher ends `t` higher.
pub proof fn lemma_dot_from_nudged_start<T: RingScalar>(
    init: T,
    t: T,
    x: spec_fn(int) -> T,
    y: spec_fn(int) -> T,
    count: int,
)
    ensures
        dot_from(init.add_spec(t), x, y, count) == dot_from(init, x, y, count).add_spec(t),
    decreases count,
{
    if count > 0 {
        lemma_dot_from_nudged_start(init, t, x, y, count - 1);
        lemma_add_swap(
            dot_from(init, x, y, count - 1),
            t,
            x(count - 1).mul_spec(y(count - 1)),
        );
    }
}

/// Raising the right operand by `t` at `k0` raises the sum by `x(k0) * t`.
pub proof fn lemma_dot_from_nudged_term<T: RingScalar>(
    init: T,
    x: spec_fn(int) -> T,
    y1: spec_fn(int) -> T,
    y2: spec_fn(int) -> T,
    k0: int,
    t: T,
    count: int,
)
    requires
        0 <= k0 < count,
        forall|p: int| #![trigger y2(p)] 0 <= p < count && p != k0 ==> y2(p) == y1(p),
        y2(k0) == y1(k0).add_spec(t),
    ensures
        dot_from(init, x, y2, count) == dot_from(init, x, y1, count).add_spec(x(k0).mul_spec(t)),
    decreases count,
{
    let before = dot_from(init, x, y1, count - 1);
    if count - 1 == k0 {
        lemma_dot_from_agrees(init, x, y2, x, y1, count - 1);
        T::lemma_mul_distributes(x(k0), y1(k0), t);
        T::lemma_add_assoc(before, x(k0).mul_spec(y1(k0)), x(k0).mul_spec(t));
    } else {
        lemma_dot_from_nudged_term(init, x, y1, y2, k0, t, count - 1);
        lemma_add_swap(before, x(k0).mul_spec(t), x(count - 1).mul_spec(y1(count - 1)));
    }
}

/// Where the right operand, read as a matrix with `n_out` columns, is raised
/// in column `j0` by `d(row)` and nowhere else, the sum over its first `r`
/// rows and `c` elements more rises by the products of `d` and column `j0`
/// of the left operand.
pub proof fn lemma_dot_from_nudged_column<T: RingScalar>(
    g: spec_fn(int) -> T,
    y1: spec_fn(int) -> T,
    y2: spec_fn(int) -> T,
    g_col: spec_fn(int) -> T,
    d: spec_fn(int) -> T,
    n_out: int,
    j0: int,
    r: int,
    c: int,
)
    requires
        0 <= j0 < n_out,
        0 <= r,
        0 <= c <= n_out,
        forall|idx: int|
            #![trigger y2(idx)]
            0 <= idx < r * n_out + c ==> y2(idx) == if idx % n_out == j0 {
                y1(idx).add_spec(d(idx / n_out))
            } else {
                y1(idx)
            },
        forall|q: int| #![trigger g_col(q)] 0 <= q <= r ==> g_col(q) == g(q * n_out + j0),
    ensures
        dot_from(T::zero_spec(), g, y2, r * n_out + c) == dot_from(
            T::zero_spec(),
            g,
            y1,
            r * n_out + c,
        ).add_spec(
            dot_from(
                T::zero_spec(),
                g_col,
                d,
                if c > j0 {
                    r + 1
                } else {
                    r
                },
            ),
        ),
    decreases r, c,
{
    if c == 0 {
        if r == 0 {
            assert(0 * n_out == 0);
            T::lemma_add_zero(T::zero_spec());
        } else {
            assert((r - 1) * n_out + n_out == r * n_out + 0) by (nonlinear_arith);
            lemma_dot_from_nudged_column(g, y1, y2, g_col, d, n_out, j0, r - 1, n_out);
        }
    } else {
        let idx = r * n_out + c - 1;
        lemma_flat_index(r, r + 1, c - 1, n_out);
        lemma_dot_from_nudged_column(g, y1, y2, g_col, d, n_out, j0, r, c - 1);
        let sum1 = dot_from(T::zero_spec(), g, y1, idx);
        let rise = dot_from(
            T::zero_spec(),
            g_col,
            d,
            if c - 1 > j0 {
                r + 1
            } else {
                r
            },
        );
        assert(dot_from(T::zero_spec(), g, y2, idx + 1) == dot_from(
            T::zero_spec(),
            g,
            y2,
            idx,
        ).add_spec(g(idx).mul_spec(y2(idx))));
        assert(dot_from(T::zero_spec(), g, y1, idx + 1) == sum1.add_spec(
            g(idx).mul_spec(y1(idx)),
        ));
        if c - 1 == j0 {
            assert(g_col(r) == g(idx));
            T::lemma_mul_distributes(g(idx), y1(idx), d(r));
            lemma_add_interchange(
                sum1,
                rise,
                g(idx).mul_spec(y1(idx)),
                g(idx).mul_spec(d(r)),
            );
        } else {
            lemma_add_swap(sum1, rise, g(idx).mul_spec(y1(idx)));
        }
    }
}

/// A sum of products with a right operand scaled by `t` is `t` times the sum
/// of the products.
pub proof fn lemma_dot_from_scaled<T: RingScalar>(
    u: spec_fn(int) -> T,
    v: spec_fn(int) -> T,
    t: T,
    count: int,
)
    ensures
        dot_from(T::zero_spec(), u, scaled(v, t), count) == t.mul_spec(
            dot_from(T::zero_spec(), v, u, count),
        ),
    decreases count,
{
    if count <= 0 {
        T::lemma_mul_zero(t);
    } else {
        lemma_dot_from_scaled(u, v, t, count - 1);
        let a = u(count - 1);
        let b = v(count - 1);
        T::lemma_mul_distributes(t, dot_from(T::zero_spec(), v, u, count - 1), b.mul_spec(a));
        T::lemma_mul_comm(a, b.mul_spec(t));
        T::lemma_mul_assoc(b, t, a);
        T::lemma_mul_comm(t, a);
        T::lemma_mul_assoc(b, a, t);
        T::lemma_mul_comm(b.mul_spec(a), t);
    }
}

/// A sum of products with the constant `t` is `t` times the sum of the other
/// operand.
pub proof fn lemma_dot_from_constant<T: RingScalar>(u: spec_fn(int) -> T, t: T, count: int)
    ensures
        dot_from(T::zero_spec(), u, constant(t), count) == t.mul_spec(
            sum_from(T::zero_spec(), u, count),
        ),
    decreases count,
{
    if count <= 0 {
        T::lemma_mul_zero(t);
    } else {
        lemma_dot_from_constant(u, t, count - 1);
        T::lemma_mul_distributes(t, sum_from(T::zero_spec(), u, count - 1), u(count - 1));
        T::lemma_mul_comm(u(count - 1), t);
    }
}

/// With the arithmetic of a commutative ring, raising the weight at `q` by
/// `t` raises the weighted output by `t` times the element at `q` of the
/// weight gradient that the backward pass adds to zeros.
pub proof fn lemma_weight_gradient_is_slope<T: RingScalar>(
    x: Seq<T>,
    w: Seq<T>,
    b: Seq<T>,
    g: Seq<T>,
    bs: int,
    n_in: int,
    q: int,
    t: T,
)
    requires
        0 <= bs,
        0 <= n_in,
        x.len() == bs * n_in,
        w.len() == n_in * b.len(),
        g.len() == bs * b.len(),
        0 <= q < w.len(),
    ensures
        weighted_output(x, w.update(q, w[q].add_spec(t)), b, g, bs, n_in) == weighted_output(
            x,
            w,
            b,
            g,
            bs,
            n_in,
        ).add_spec(
            t.mul_spec(gemm_at_spec(x, g, zeros::<T>(w.len()), n_in, bs, b.len() as int)[q]),
        ),
{
    let n_out = b.len() as int;
    lemma_unflatten(q, n_in, n_out);
    let k0 = q / n_out;
    let j0 = q % n_out;
    let w2 = w.update(q, w[q].add_spec(t));
    let out1 = linear_forward_spec(x, w, b, bs, n_in);
    let out2 = linear_forward_spec(x, w2, b, bs, n_in);
    let d = scaled(col_of(x, n_in, k0), t);
    let g_col = col_of(g, n_out, j0);
    assert forall|idx: int| 0 <= idx < bs * n_out + 0 implies #[trigger] elems(out2)(idx) == if idx
        % n_out == j0 {
        elems(out1)(idx).add_spec(d(idx / n_out))
    } else {
        elems(out1)(idx)
    } by {
        lemma_unflatten(idx, bs, n_out);
        let r = idx / n_out;
        let j = idx % n_out;
        let init = broadcast_rows(b, bs)[idx];
        if j == j0 {
            assert forall|p: int| 0 <= p < n_in && p != k0 implies #[trigger] (col_of(
                w2,
                n_out,
                j0,
            )(p)) == col_of(w, n_out, j0)(p) by {
                lemma_flat_index(p, n_in, j0, n_out);
            }
            lemma_dot_from_nudged_term(
                init,
                row_of(x, n_in, r),
                col_of(w, n_out, j0),
                col_of(w2, n_out, j0),
                k0,
                t,
                n_in,
            );
        } else {
            assert forall|p: int| 0 <= p < n_in implies #[trigger] (col_of(w2, n_out, j)(p))
                == col_of(w, n_out, j)(p) by {
                lemma_flat_index(p, n_in, j, n_out);
            }
            lemma_dot_from_agrees(
                init,
                row_of(x, n_in, r),
                col_of(w2, n_out, j),
                row_of(x, n_in, r),
                col_of(w, n_out, j),
                n_in,
            );
        }
    }
    lemma_dot_from_nudged_column(
        elems(g),
        elems(out1),
        elems(out2),
        g_col,
        d,
        n_out,
        j0,
        bs,
        0,
    );
    lemma_dot_from_scaled(g_col, col_of(x, n_in, k0), t, bs);
}

/// With the arithmetic of a commutative ring, raising the bias at `j` by `t`
/// raises the weighted output by `t` times the element at `j` of the bias
/// gradient that the backward pass adds to zeros.
pub proof fn lemma_bias_gradient_is_slope<T: RingScalar>(
    x: Seq<T>,
    w: Seq<T>,
    b: Seq<T>,
    g: Seq<T>,
    bs: int,
    n_in: int,
    j: int,
    t: T,
)
    requires
        0 <= bs,
        0 <= n_in,
        x.len() == bs * n_in,
        w.len() == n_in * b.len(),
        g.len() == bs * b.len(),
        0 <= j < b.len(),
    ensures
        weighted_output(x, w, b.update(j, b[j].add_spec(t)), g, bs, n_in) == weighted_output(
            x,
            w,
            b,
            g,
            bs,
            n_in,
        ).add_spec(t.mul_spec(bias_grad_spec(g, zeros::<T>(b.len()), bs)[j])),
{
    let n_out = b.len() as int;
    let b2 = b.update(j, b[j].add_spec(t));
    let out1 = linear_forward_spec(x, w, b, bs, n_in);
    let out2 = linear_forward_spec(x, w, b2, bs, n_in);
    let d = constant(t);
    let g_col = col_of(g, n_out, j);
    assert forall|idx: int| 0 <= idx < bs * n_out + 0 implies #[trigger] elems(out2)(idx) == if idx
        % n_out == j {
        elems(out1)(idx).add_spec(d(idx / n_out))
    } else {
        elems(out1)(idx)
    } by {
        lemma_unflatten(idx, bs, n_out);
        if idx % n_out == j {
            lemma_dot_from_nudged_start(
                b[j],
                t,
                row_of(x, n_in, idx / n_out),
                col_of(w, n_out, j),
                n_in,
            );
        }
    }
    lemma_dot_from_nudged_column(
        elems(g),
        elems(out1),
        elems(out2),
        g_col,
        d,
        n_out,
        j,
        bs,
        0,
    );
    lemma_dot_from_constant(g_col, t, bs);
}

/// `(a + u) + u` less `a` is `(h + h) * s`, where `u` is `h * s`.
proof fn lemma_two_steps<T: RingScalar>(a: T, h: T, s: T)
    ensures
        a.add_spec(h.mul_spec(s)).add_spec(h.mul_spec(s)).sub_spec(a) == h.add_spec(h).mul_spec(s),
{
    let u = h.mul_spec(s);
    T::lemma_add_assoc(a, u, u);
    T::lemma_sub_inverts_add(a, u.add_spec(u));
    T::lemma_mul_comm(h.add_spec(h), s);
    T::lemma_mul_distributes(s, h, h);
    T::lemma_mul_comm(s, h);
}

/// With the arithmetic of a commutative ring, the weighted output with the
/// weight at `q` raised by `h`, less the weighted output with that weight
/// lowered by `h`, is `h + h` times the element at `q` of the weight gradient
/// that the backward pass adds to zeros: the central difference is exact.
pub proof fn lemma_weight_gradient_is_central_difference<T: RingScalar>(
    x: Seq<T>,
    w: Seq<T>,
    b: Seq<T>,
    g: Seq<T>,
    bs: int,
    n_in: int,
    q: int,
    h: T,
)
    requires
        0 <= bs,
        0 <= n_in,
        x.len() == bs * n_in,
        w.len() == n_in * b.len(),
        g.len() == bs * b.len(),
        0 <= q < w.len(),
    ensures
        weighted_output(x, w.update(q, w[q].add_spec(h)), b, g, bs, n_in).sub_spec(
            weighted_output(x, w.update(q, w[q].sub_spec(h)), b, g, bs, n_in),
        ) == h.add_spec(h).mul_spec(
            gemm_at_spec(x, g, zeros::<T>(w.len()), n_in, bs, b.len() as int)[q],
        ),
{
    let low = w.update(q, w[q].sub_spec(h));
    let slope = gemm_at_spec(x, g, zeros::<T>(w.len()), n_in, bs, b.len() as int)[q];
    T::lemma_sub_inverts_add(w[q], h);
    assert(low.update(q, low[q].add_spec(h)) =~= w);
    lemma_weight_gradient_is_slope(x, low, b, g, bs, n_in, q, h);
    lemma_weight_gradient_is_slope(x, w, b, g, bs, n_in, q, h);
    lemma_two_steps(weighted_output(x, low, b, g, bs, n_in), h, slope);
}

/// With the arithmetic of a commutative ring, the weighted output with the
/// bias at `j` raised by `h`, less the weighted output with that bias lowered
/// by `h`, is `h + h` times the element at `j` of the bias gradient that the
/// backward pass adds to zeros: the central difference is exact.
pub proof fn lemma_bias_gradient_is_central_difference<T: RingScalar>(
    x: Seq<T>,
    w: Seq<T>,
    b: Seq<T>,
    g: Seq<T>,
    bs: int,
    n_in: int,
    j: int,
    h: T,
)
    requires
        0 <= bs,
        0 <= n_in,
        x.len() == bs * n_in,
        w.len() == n_in * b.len(),
        g.len() == bs * b.len(),
        0 <= j < b.len(),
    ensures
        weighted_output(x, w, b.update(j, b[j].add_spec(h)), g, bs, n_in).sub_spec(
            weighted_output(x, w, b.update(j, b[j].sub_spec(h)), g, bs, n_in),
        ) == h.add_spec(h).mul_spec(bias_grad_spec(g, zeros::<T>(b.len()), bs)[j]),
{
    let low = b.update(j, b[j].sub_spec(h));
    let slope = bias_grad_spec(g, zeros::<T>(b.len()), bs)[j];
    T::lemma_sub_inverts_add(b[j], h);
    assert(low.update(j, low[j].add_spec(h)) =~= b);
    lemma_bias_gradient_is_slope(x, w, low, g, bs, n_in, j, h);
    lemma_bias_gradient_is_slope(x, w, b, g, bs, n_in, j, h);
    lemma_two_steps(weighted_output(x, w, low, g, bs, n_in), h, slope);
}

/// The square of the difference of `p` and `t`.
pub open spec fn squared_error<T: Scalar>(p: T, t: T) -> T {
    p.sub_spec(t).mul_spec(p.sub_spec(t))
}

/// What is equal after the same addition was equal before it.
proof fn lemma_add_cancels<T: RingScalar>(a: T, b: T, c: T)
    requires
        a.add_spec(c) == b.add_spec(c),
    ensures
        a == b,
{
    T::lemma_add_comm(a, c);
    T::lemma_add_comm(b, c);
    T::lemma_sub_inverts_add(c, a);
    T::lemma_sub_inverts_add(c, b);
}

/// `(p + h) - t == (p - t) + h`.
proof fn lemma_sub_of_raised<T: RingScalar>(p: T, t: T, h: T)
    ensures
        p.add_spec(h).sub_spec(t) == p.sub_spec(t).add_spec(h),
{
    let d = p.sub_spec(t);
    T::lemma_sub_inverts_add(p, t);
    lemma_add_swap(d, t, h);
    T::lemma_add_comm(d.add_spec(h), t);
    T::lemma_sub_inverts_add(t, d.add_spec(h));
}

/// `((p - h) - t) + h == p - t`.
proof fn lemma_sub_of_lowered<T: RingScalar>(p: T, t: T, h: T)
    ensures
        p.sub_spec(h).sub_spec(t).add_spec(h) == p.sub_spec(t),
{
    let z = p.sub_spec(h).sub_spec(t);
    let d = p.sub_spec(t);
    T::lemma_sub_inverts_add(p.sub_spec(h), t);
    T::lemma_sub_inverts_add(p, h);
    T::lemma_sub_inverts_add(p, t);
    lemma_add_swap(z, t, h);
    lemma_add_cancels(z.add_spec(h), d, t);
}

/// `(e + h) * (e + h) == e * e + h * (e + (e + h))`.
proof fn lemma_square_of_raised<T: RingScalar>(e: T, h: T)
    ensures
        e.add_spec(h).mul_spec(e.add_spec(h)) == e.mul_spec(e).add_spec(
            h.mul_spec(e.add_spec(e.add_spec(h))),
        ),
{
    let s = e.add_spec(h);
    T::lemma_mul_distributes(s, e, h);
    T::lemma_mul_comm(s, e);
    T::lemma_mul_comm(s, h);
    T::lemma_mul_distributes(e, e, h);
    T::lemma_add_assoc(e.mul_spec(e), e.mul_spec(h), h.mul_spec(s));
    T::lemma_mul_comm(e, h);
    T::lemma_mul_distributes(h, e, s);
}

/// The sum of the squared errors looks at the predictions only below `count`.
proof fn lemma_squared_error_sum_agrees<T: Scalar>(
    pred1: Seq<T>,
    pred2: Seq<T>,
    target: Seq<T>,
    count: int,
)
    requires
        forall|k: int| 0 <= k < count ==> pred2[k] == pred1[k],
    ensures
        squared_error_sum(pred2, target, count) == squared_error_sum(pred1, target, count),
    decreases count,
{
    if count > 0 {
        lemma_squared_error_sum_agrees(pred1, pred2, target, count - 1);
    }
}

/// Where one prediction changes so that its squared error rises by `rise`,
/// the sum of the squared errors rises by `rise`.
proof fn lemma_squared_error_sum_nudged<T: RingScalar>(
    pred1: Seq<T>,
    pred2: Seq<T>,
    target: Seq<T>,
    i: int,
    rise: T,
    count: int,
)
    requires
        0 <= i < count,
        forall|k: int| 0 <= k < count && k != i ==> pred2[k] == pred1[k],
        squared_error(pred2[i], target[i]) == squared_error(pred1[i], target[i]).add_spec(rise),
    ensures
        squared_error_sum(pred2, target, count) == squared_error_sum(
            pred1,
            target,
            count,
        ).add_spec(rise),
    decreases count,
{
    let before = squared_error_sum(pred1, target, count - 1);
    if count - 1 == i {
        lemma_squared_error_sum_agrees(pred1, pred2, target, count - 1);
        T::lemma_add_assoc(before, squared_error(pred1[i], target[i]), rise);
    } else {
        lemma_squared_error_sum_nudged(pred1, pred2, target, i, rise, count - 1);
        lemma_add_swap(before, rise, squared_error(pred1[count - 1], target[count - 1]));
    }
}

/// With the arithmetic of a commutative ring, the sum of the squared errors
/// with the prediction at `i` raised by `h`, less that sum with the
/// prediction lowered by `h`, is `h + h` times `(pred - target) * 2` at `i`:
/// the factor that the backward pass of the mean squared error divides by the
/// count, as the loss is the sum divided by the count.
pub proof fn lemma_squared_error_central_difference<T: RingScalar>(
    pred: Seq<T>,
    target: Seq<T>,
    i: int,
    h: T,
)
    requires
        pred.len() == target.len(),
        0 <= i < pred.len(),
    ensures
        squared_error_sum(pred.update(i, pred[i].add_spec(h)), target, pred.len() as int).sub_spec(
            squared_error_sum(pred.update(i, pred[i].sub_spec(h)), target, pred.len() as int),
        ) == h.add_spec(h).mul_spec(pred[i].sub_spec(target[i]).mul_spec(two_spec::<T>())),
{
    let n = pred.len() as int;
    let high = pred.update(i, pred[i].add_spec(h));
    let low = pred.update(i, pred[i].sub_spec(h));
    let d = pred[i].sub_spec(target[i]);
    let z = pred[i].sub_spec(h).sub_spec(target[i]);
    let dd = d.add_spec(d);
    let rise_low = h.mul_spec(z.add_spec(d));
    let rise_high = h.mul_spec(d.add_spec(d.add_spec(h)));
    lemma_sub_of_raised(pred[i], target[i], h);
    lemma_sub_of_lowered(pred[i], target[i], h);
    lemma_square_of_raised(z, h);
    lemma_square_of_raised(d, h);
    lemma_squared_error_sum_nudged(low, pred, target, i, rise_low, n);
    lemma_squared_error_sum_nudged(pred, high, target, i, rise_high, n);
    let sum_low = squared_error_sum(low, target, n);
    T::lemma_add_assoc(sum_low, rise_low, rise_high);
    T::lemma_sub_inverts_add(sum_low, rise_low.add_spec(rise_high));
    // rise_low + rise_high == h * ((z + d) + (d + (d + h))) == h * (dd + dd)
    T::lemma_mul_distributes(h, z.add_spec(d), d.add_spec(d.add_spec(h)));
    T::lemma_add_assoc(d, d, h);
    T::lemma_add_comm(dd, h);
    lemma_add_interchange(z, d, h, dd);
    T::lemma_add_assoc(d, d, dd);
    // (h + h) * (d * 2) == h * (dd + dd)
    T::lemma_mul_distributes(d, T::one_spec(), T::one_spec());
    T::lemma_mul_one(d);
    T::lemma_mul_comm(h.add_spec(h), dd);
    T::lemma_mul_distributes(dd, h, h);
    T::lemma_mul_comm(dd, h);
    T::lemma_mul_distributes(h, dd, dd);
}

} // verus!
