//! Forward and backward passes of the layer operators.
//!
//! The affine forward pass overwrites its output: every row starts from the
//! bias.  Every backward pass adds to the gradient storage it is given and
//! never clears it.
use vstd::prelude::*;
use crate::gemm::{
    col_of, gemm, gemm_at, gemm_at_spec, gemm_bt, gemm_bt_spec, gemm_spec, lemma_flat_index,
};
use crate::scalar::{Activation, Scalar};

verus! {

/// `init + x(0) + ... + x(count-1)`, each term added to the sum of those before it.
pub open spec fn sum_from<T: Scalar>(init: T, x: spec_fn(int) -> T, count: int) -> T
    decreases count,
{
    if count <= 0 {
        init
    } else {
        sum_from(init, x, count - 1).add_spec(x(count - 1))
    }
}

/// A matrix of `bs` rows, each of them `bias`.
pub open spec fn broadcast_rows<T>(bias: Seq<T>, bs: int) -> Seq<T> {
    Seq::new((bs * bias.len()) as nat, |idx: int| bias[idx % (bias.len() as int)])
}

/// The affine transform of `x_in`, stored as `(bs, n_in)`, by `weight`, stored
/// as `(n_in, n_out)`, and `bias`.
pub open spec fn linear_forward_spec<T: Scalar>(
    x_in: Seq<T>,
    weight: Seq<T>,
    bias: Seq<T>,
    bs: int,
    n_in: int,
) -> Seq<T> {
    gemm_spec(x_in, weight, broadcast_rows(bias, bs), n_in, bias.len() as int)
}

/// `bias_grad` after the rows of `grad`, stored as `(bs, bias_grad.len())`,
/// were added to it from the first to the last.
pub open spec fn bias_grad_spec<T: Scalar>(grad: Seq<T>, bias_grad: Seq<T>, bs: int) -> Seq<T> {
    Seq::new(
        bias_grad.len(),
        |j: int| sum_from(bias_grad[j], col_of(grad, bias_grad.len() as int, j), bs),
    )
}

/// `grad` scaled element by element by the derivative of the logistic
/// function, written in terms of the function's value `y`: `y * (1 - y)`.
pub open spec fn sigmoid_backward_spec<T: Scalar>(x_out: Seq<T>, grad: Seq<T>) -> Seq<T> {
    Seq::new(
        grad.len(),
        |i: int| grad[i].mul_spec(x_out[i].mul_spec(T::one_spec().sub_spec(x_out[i]))),
    )
}

/// The sum of the first `count` squared differences, added from left to right to zero.
pub open spec fn squared_error_sum<T: Scalar>(pred: Seq<T>, target: Seq<T>, count: int) -> T
    decreases count,
{
    if count <= 0 {
        T::zero_spec()
    } else {
        squared_error_sum(pred, target, count - 1).add_spec(
            pred[count - 1].sub_spec(target[count - 1]).mul_spec(
                pred[count - 1].sub_spec(target[count - 1]),
            ),
        )
    }
}

/// The mean of the squared differences of `pred` and `target`.  Of no
/// elements it is what the scalar type gives for zero divided by a zero count.
pub open spec fn mse_loss_spec<T: Scalar>(pred: Seq<T>, target: Seq<T>) -> T {
    squared_error_sum(pred, target, pred.len() as int).div_count_spec(pred.len() as usize)
}

/// The number two.
pub open spec fn two_spec<T: Scalar>() -> T {
    T::one_spec().add_spec(T::one_spec())
}

/// `grad` after the derivative of the mean squared error by each prediction,
/// `2 * (pred - target) / N`, was added to it.
pub open spec fn mse_grad_spec<T: Scalar>(pred: Seq<T>, target: Seq<T>, grad: Seq<T>) -> Seq<T> {
    Seq::new(
        grad.len(),
        |i: int|
            grad[i].add_spec(
                pred[i].sub_spec(target[i]).mul_spec(two_spec::<T>()).div_count_spec(
                    pred.len() as usize,
                ),
            ),
    )
}

/// Sets every row of `x_out` to `bias`, then adds the product of `x_in` and
/// `weight` to it.
pub fn linear_forward<T: Scalar>(
    x_in: &[T],
    x_out: &mut [T],
    weight: &[T],
    bias: &[T],
    bs: usize,
    n_in: usize,
    n_out: usize,
)
    requires
        x_in@.len() == bs * n_in,
        old(x_out)@.len() == bs * n_out,
        weight@.len() == n_in * n_out,
        bias@.len() == n_out,
    ensures
        final(x_out)@ == linear_forward_spec(x_in@, weight@, bias@, bs as int, n_in as int),
{
    let size: usize = x_out.len();
    let mut i_sample: usize = 0;
    assert(0 * n_out == 0);
    while i_sample < bs
        invariant
            i_sample <= bs,
            bias@.len() == n_out,
            x_out@.len() == size == bs * n_out,
            0 <= i_sample * n_out <= size,
            forall|idx: int|
                0 <= idx < i_sample * n_out ==> x_out@[idx] == bias@[idx % (n_out as int)],
        decreases bs - i_sample,
    {
        let mut j: usize = 0;
        proof {
            if n_out > 0 {
                lemma_flat_index(i_sample as int, bs as int, 0, n_out as int);
            }
        }
        while j < n_out
            invariant
                i_sample < bs,
                j <= n_out,
                bias@.len() == n_out,
                x_out@.len() == size == bs * n_out,
                0 <= i_sample * n_out,
                i_sample * n_out + n_out <= size,
                forall|idx: int|
                    0 <= idx < i_sample * n_out + j ==> x_out@[idx] == bias@[idx % (
                    n_out as int)],
            decreases n_out - j,
        {
            proof {
                lemma_flat_index(i_sample as int, bs as int, j as int, n_out as int);
            }
            x_out[i_sample * n_out + j] = bias[j];
            j += 1;
        }
        assert((i_sample + 1) * n_out == i_sample * n_out + n_out) by (nonlinear_arith);
        i_sample += 1;
    }
    assert(x_out@ =~= broadcast_rows(bias@, bs as int));
    gemm(x_in, weight, x_out, bs, n_in, n_out);
}

/// Adds to `bias_grad`, `weight_grad` and, where it is given, `grad_in` what
/// the upstream gradient `grad`, stored as `(bs, n_out)`, contributes to them.
pub fn linear_backward<T: Scalar>(
    x_in: &[T],
    weight: &[T],
    bias: &[T],
    grad: &[T],
    weight_grad: &mut [T],
    bias_grad: &mut [T],
    grad_in: Option<&mut [T]>,
    bs: usize,
    n_in: usize,
    n_out: usize,
)
    requires
        x_in@.len() == bs * n_in,
        grad@.len() == bs * n_out,
        weight@.len() == n_in * n_out,
        old(weight_grad)@.len() == n_in * n_out,
        bias@.len() == n_out,
        old(bias_grad)@.len() == n_out,
        match grad_in {
            Some(g) => g@.len() == bs * n_in,
            None => true,
        },
    ensures
        final(bias_grad)@ == bias_grad_spec(grad@, old(bias_grad)@, bs as int),
        final(weight_grad)@ == gemm_at_spec(
            x_in@,
            grad@,
            old(weight_grad)@,
            n_in as int,
            bs as int,
            n_out as int,
        ),
        match grad_in {
            Some(g) => final(g)@ == gemm_bt_spec(grad@, weight@, g@, n_out as int, n_in as int),
            None => true,
        },
{
    let size: usize = grad.len();
    let mut i: usize = 0;
    while i < bs
        invariant
            i <= bs,
            grad@.len() == size == bs * n_out,
            bias_grad@.len() == n_out,
            old(bias_grad)@.len() == n_out,
            forall|j: int|
                0 <= j < n_out ==> bias_grad@[j] == sum_from(
                    old(bias_grad)@[j],
                    col_of(grad@, n_out as int, j),
                    i as int,
                ),
        decreases bs - i,
    {
        let mut j: usize = 0;
        while j < n_out
            invariant
                i < bs,
                j <= n_out,
                grad@.len() == size == bs * n_out,
                bias_grad@.len() == n_out,
                old(bias_grad)@.len() == n_out,
                forall|q: int|
                    0 <= q < j ==> bias_grad@[q] == sum_from(
                        old(bias_grad)@[q],
                        col_of(grad@, n_out as int, q),
                        i + 1,
                    ),
                forall|q: int|
                    j <= q < n_out ==> bias_grad@[q] == sum_from(
                        old(bias_grad)@[q],
                        col_of(grad@, n_out as int, q),
                        i as int,
                    ),
            decreases n_out - j,
        {
            proof {
                lemma_flat_index(i as int, bs as int, j as int, n_out as int);
            }
            bias_grad[j] = bias_grad[j].add(grad[i * n_out + j]);
            j += 1;
        }
        i += 1;
    }
    assert(bias_grad@ =~= bias_grad_spec(grad@, old(bias_grad)@, bs as int));
    assert(bs * n_in == n_in * bs) by (nonlinear_arith);
    assert(n_in * n_out == n_out * n_in) by (nonlinear_arith);
    gemm_at(x_in, grad, weight_grad, n_in, bs, n_out);
    match grad_in {
        Some(g) => {
            gemm_bt(grad, weight, g, bs, n_out, n_in);
        },
        None => {},
    }
}

/// Replaces every element by a value of the logistic function at it.
pub fn sigmoid_forward_<T: Activation>(x: &mut [T])
    ensures
        final(x)@.len() == old(x)@.len(),
        forall|i: int| 0 <= i < old(x)@.len() ==> old(x)@[i].sigmoid_accepts(#[trigger] final(x)@[i]),
{
    let size: usize = x.len();
    let mut i: usize = 0;
    while i < size
        invariant
            i <= size,
            x@.len() == size == old(x)@.len(),
            forall|q: int| 0 <= q < i ==> old(x)@[q].sigmoid_accepts(#[trigger] x@[q]),
            forall|q: int| i <= q < size ==> x@[q] == old(x)@[q],
        decreases size - i,
    {
        x[i] = x[i].sigmoid();
        i += 1;
    }
}

/// Scales the upstream gradient `grad` in place by the derivative of the
/// logistic function, given the function's values `x_out`.
pub fn sigmoid_backward_<T: Scalar>(x_out: &[T], grad: &mut [T])
    requires
        x_out@.len() == old(grad)@.len(),
    ensures
        final(grad)@ == sigmoid_backward_spec(x_out@, old(grad)@),
{
    let size: usize = grad.len();
    let mut i: usize = 0;
    while i < size
        invariant
            i <= size,
            x_out@.len() == size,
            grad@.len() == size == old(grad)@.len(),
            forall|q: int| 0 <= q < i ==> grad@[q] == sigmoid_backward_spec(x_out@, old(grad)@)[q],
            forall|q: int| i <= q < size ==> grad@[q] == old(grad)@[q],
        decreases size - i,
    {
        let y: T = x_out[i];
        grad[i] = grad[i].mul(y.mul(T::one().sub(y)));
        i += 1;
    }
    assert(grad@ =~= sigmoid_backward_spec(x_out@, old(grad)@));
}

/// The mean squared error of the predictions against the targets.
pub fn mse_loss<T: Scalar>(x_pred: &[T], x_target: &[T]) -> (loss: T)
    requires
        x_pred@.len() == x_target@.len(),
    ensures
        loss == mse_loss_spec(x_pred@, x_target@),
{
    let bs: usize = x_pred.len();
    let mut sum: T = T::zero();
    let mut i: usize = 0;
    while i < bs
        invariant
            i <= bs,
            x_pred@.len() == bs,
            x_target@.len() == bs,
            sum == squared_error_sum(x_pred@, x_target@, i as int),
        decreases bs - i,
    {
        let d: T = x_pred[i].sub(x_target[i]);
        sum = sum.add(d.mul(d));
        i += 1;
    }
    sum.div_count(bs)
}

/// Adds the gradient of the mean squared error to `grad`.
pub fn mse_grad<T: Scalar>(x_pred: &[T], x_target: &[T], grad: &mut [T])
    requires
        x_pred@.len() == x_target@.len(),
        x_pred@.len() == old(grad)@.len(),
    ensures
        final(grad)@ == mse_grad_spec(x_pred@, x_target@, old(grad)@),
{
    let bs: usize = x_pred.len();
    let two: T = T::one().add(T::one());
    let mut i: usize = 0;
    while i < bs
        invariant
            i <= bs,
            two == two_spec::<T>(),
            x_pred@.len() == bs,
            x_target@.len() == bs,
            grad@.len() == bs == old(grad)@.len(),
            forall|q: int|
                0 <= q < i ==> grad@[q] == mse_grad_spec(x_pred@, x_target@, old(grad)@)[q],
            forall|q: int| i <= q < bs ==> grad@[q] == old(grad)@[q],
        decreases bs - i,
    {
        grad[i] = grad[i].add(x_pred[i].sub(x_target[i]).mul(two).div_count(bs));
        i += 1;
    }
    assert(grad@ =~= mse_grad_spec(x_pred@, x_target@, old(grad)@));
}

} // verus!
