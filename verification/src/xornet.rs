//! A network of two inputs, two hidden units and one output, with the
//! logistic function after each of its two affine layers.
use vstd::prelude::*;
use crate::gemm::{gemm_at_spec, gemm_bt_spec};
use crate::ops::{
    bias_grad_spec, linear_backward, linear_forward, linear_forward_spec, mse_grad, mse_grad_spec,
    sigmoid_backward_, sigmoid_backward_spec, sigmoid_forward_,
};
use crate::scalar::{zeros, Activation, Scalar};
use crate::tensor::{copy_from, resize, resized, Tensor};

verus! {

/// The parameters of both layers, the values that the last forward pass left
/// at each stage, and two buffers for the gradients that the backward pass
/// sends through the network.
///
/// A backward pass spends what the forward pass left at the input and at the
/// hidden stage: every backward pass follows a forward pass of its own.  The
/// output stays until the next forward pass.
#[derive(Debug)]
pub struct XorNet<T> {
    pub w0: Tensor<T>,
    pub b0: Tensor<T>,
    pub w1: Tensor<T>,
    pub b1: Tensor<T>,
    pub out: Vec<T>,
    pub bs: usize,
    pub inp0: Vec<T>,
    pub inp1: Vec<T>,
    pub grad_buf1: Vec<T>,
    pub grad_buf2: Vec<T>,
}

impl<T: Activation> XorNet<T> {
    /// The parameters have the lengths of a 2-2-1 network.
    pub open spec fn wf(&self) -> bool {
        &&& self.w0.has_len(4)
        &&& self.b0.has_len(2)
        &&& self.w1.has_len(2)
        &&& self.b1.has_len(1)
    }

    /// A forward pass has left a row at every stage for each row of its
    /// batch, and no backward pass has spent them.
    pub open spec fn ready(&self) -> bool {
        &&& self.inp0@.len() == self.bs * 2
        &&& self.inp1@.len() == self.bs * 2
        &&& self.out@.len() == self.bs
    }

    /// The gradient at the input of the output layer's logistic function, for
    /// the targets `target`.
    pub open spec fn out_grad(&self, target: Seq<T>) -> Seq<T> {
        sigmoid_backward_spec(
            self.out@,
            mse_grad_spec(self.out@, target, zeros::<T>(self.bs as nat)),
        )
    }

    /// The gradient at the input of the hidden layer's logistic function, for
    /// the targets `target`.
    pub open spec fn hidden_grad(&self, target: Seq<T>) -> Seq<T> {
        sigmoid_backward_spec(
            self.inp1@,
            gemm_bt_spec(
                self.out_grad(target),
                self.w1.data@,
                zeros::<T>(self.inp1@.len()),
                1,
                2,
            ),
        )
    }

    /// A network with the given weights and hidden bias, a zero output bias,
    /// and no batch seen yet.
    pub fn new(w0: Vec<T>, b0: Vec<T>, w1: Vec<T>) -> (net: Self)
        requires
            w0@.len() == 4,
            b0@.len() == 2,
            w1@.len() == 2,
        ensures
            net.wf(),
            net.ready(),
            net.bs == 0,
            net.w0.data@ == w0@,
            net.b0.data@ == b0@,
            net.w1.data@ == w1@,
            net.b1.data@ == zeros::<T>(1),
            net.w0.grad@ == zeros::<T>(4),
            net.b0.grad@ == zeros::<T>(2),
            net.w1.grad@ == zeros::<T>(2),
            net.b1.grad@ == zeros::<T>(1),
            net.grad_buf1@.len() == 0,
            net.grad_buf2@.len() == 0,
    {
        XorNet {
            w0: Tensor::uniform(w0),
            b0: Tensor::uniform(b0),
            w1: Tensor::uniform(w1),
            b1: Tensor::zeros(1),
            out: Vec::new(),
            bs: 0,
            inp0: Vec::new(),
            inp1: Vec::new(),
            grad_buf1: Vec::new(),
            grad_buf2: Vec::new(),
        }
    }

    /// Computes the output for the `bs` rows of `x` and keeps the values of
    /// every stage for the backward pass.
    pub fn forward(&mut self, x: &[T], bs: usize)
        requires
            old(self).wf(),
            x@.len() == bs * 2,
        ensures
            final(self).wf(),
            final(self).ready(),
            final(self).bs == bs,
            final(self).w0 == old(self).w0,
            final(self).b0 == old(self).b0,
            final(self).w1 == old(self).w1,
            final(self).b1 == old(self).b1,
            final(self).grad_buf1 == old(self).grad_buf1,
            final(self).grad_buf2 == old(self).grad_buf2,
            final(self).inp0@ == x@,
            forall|i: int|
                0 <= i < bs * 2 ==> linear_forward_spec(
                    x@,
                    old(self).w0.data@,
                    old(self).b0.data@,
                    bs as int,
                    2,
                )[i].sigmoid_accepts(#[trigger] final(self).inp1@[i]),
            forall|i: int|
                0 <= i < bs ==> linear_forward_spec(
                    final(self).inp1@,
                    old(self).w1.data@,
                    old(self).b1.data@,
                    bs as int,
                    2,
                )[i].sigmoid_accepts(#[trigger] final(self).out@[i]),
    {
        // as a machine integer, the length bounds `bs * 2`
        let _len: usize = x.len();
        self.resize_buffers(bs);
        copy_from(self.inp0.as_mut_slice(), x);
        linear_forward(
            self.inp0.as_slice(),
            self.inp1.as_mut_slice(),
            self.w0.data.as_slice(),
            self.b0.data.as_slice(),
            bs,
            2,
            2,
        );
        sigmoid_forward_(self.inp1.as_mut_slice());
        linear_forward(
            self.inp1.as_slice(),
            self.out.as_mut_slice(),
            self.w1.data.as_slice(),
            self.b1.data.as_slice(),
            bs,
            2,
            1,
        );
        sigmoid_forward_(self.out.as_mut_slice());
    }

    /// Adds to the gradients of all parameters what the mean squared error
    /// against `target` contributes, for the last forward pass, and forgets
    /// what that pass left at the input and at the hidden stage.  What the
    /// two gradient buffers held does not matter.
    pub fn backward(&mut self, target: &[T])
        requires
            old(self).wf(),
            old(self).ready(),
            target@.len() == old(self).bs,
        ensures
            final(self).wf(),
            final(self).bs == old(self).bs,
            final(self).out == old(self).out,
            final(self).inp0@.len() == 0,
            final(self).inp1@.len() == 0,
            final(self).w0.data == old(self).w0.data,
            final(self).b0.data == old(self).b0.data,
            final(self).w1.data == old(self).w1.data,
            final(self).b1.data == old(self).b1.data,
            final(self).grad_buf1@ == old(self).out_grad(target@),
            final(self).grad_buf2@ == old(self).hidden_grad(target@),
            final(self).w1.grad@ == gemm_at_spec(
                old(self).inp1@,
                old(self).out_grad(target@),
                old(self).w1.grad@,
                2,
                old(self).bs as int,
                1,
            ),
            final(self).b1.grad@ == bias_grad_spec(
                old(self).out_grad(target@),
                old(self).b1.grad@,
                old(self).bs as int,
            ),
            final(self).w0.grad@ == gemm_at_spec(
                old(self).inp0@,
                old(self).hidden_grad(target@),
                old(self).w0.grad@,
                2,
                old(self).bs as int,
                2,
            ),
            final(self).b0.grad@ == bias_grad_spec(
                old(self).hidden_grad(target@),
                old(self).b0.grad@,
                old(self).bs as int,
            ),
    {
        let size: usize = self.inp1.len();
        self.grad_buf1.clear();
        resize(&mut self.grad_buf1, self.bs, T::zero());
        assert(self.grad_buf1@ =~= zeros::<T>(self.bs as nat));
        mse_grad(self.out.as_slice(), target, self.grad_buf1.as_mut_slice());
        sigmoid_backward_(self.out.as_slice(), self.grad_buf1.as_mut_slice());
        self.grad_buf2.clear();
        resize(&mut self.grad_buf2, size, T::zero());
        assert(self.grad_buf2@ =~= zeros::<T>(size as nat));
        linear_backward(
            self.inp1.as_slice(),
            self.w1.data.as_slice(),
            self.b1.data.as_slice(),
            self.grad_buf1.as_slice(),
            self.w1.grad.as_mut_slice(),
            self.b1.grad.as_mut_slice(),
            Some(self.grad_buf2.as_mut_slice()),
            self.bs,
            2,
            1,
        );
        sigmoid_backward_(self.inp1.as_slice(), self.grad_buf2.as_mut_slice());
        linear_backward(
            self.inp0.as_slice(),
            self.w0.data.as_slice(),
            self.b0.data.as_slice(),
            self.grad_buf2.as_slice(),
            self.w0.grad.as_mut_slice(),
            self.b0.grad.as_mut_slice(),
            None,
            self.bs,
            2,
            2,
        );
        self.inp0.clear();
        self.inp1.clear();
    }

    /// Clears the gradients of all parameters; what the last forward pass
    /// left stays.
    pub fn zero_grad(&mut self)
        ensures
            final(self).bs == old(self).bs,
            final(self).out == old(self).out,
            final(self).inp0 == old(self).inp0,
            final(self).inp1 == old(self).inp1,
            final(self).grad_buf1 == old(self).grad_buf1,
            final(self).grad_buf2 == old(self).grad_buf2,
            final(self).w0.data@ == old(self).w0.data@,
            final(self).b0.data@ == old(self).b0.data@,
            final(self).w1.data@ == old(self).w1.data@,
            final(self).b1.data@ == old(self).b1.data@,
            final(self).w0.grad@ == zeros::<T>(old(self).w0.grad@.len()),
            final(self).b0.grad@ == zeros::<T>(old(self).b0.grad@.len()),
            final(self).w1.grad@ == zeros::<T>(old(self).w1.grad@.len()),
            final(self).b1.grad@ == zeros::<T>(old(self).b1.grad@.len()),
    {
        self.w0.zero_grad();
        self.b0.zero_grad();
        self.w1.zero_grad();
        self.b1.zero_grad();
    }

    /// Makes room for a batch of `bs` rows at every stage.
    fn resize_buffers(&mut self, bs: usize)
        requires
            bs * 2 <= usize::MAX,
        ensures
            final(self).bs == bs,
            final(self).inp0@ == resized(old(self).inp0@, bs * 2, T::zero_spec()),
            final(self).inp1@ == resized(old(self).inp1@, bs * 2, T::zero_spec()),
            final(self).out@ == resized(old(self).out@, bs as int, T::zero_spec()),
            final(self).w0 == old(self).w0,
            final(self).b0 == old(self).b0,
            final(self).w1 == old(self).w1,
            final(self).b1 == old(self).b1,
            final(self).grad_buf1 == old(self).grad_buf1,
            final(self).grad_buf2 == old(self).grad_buf2,
    {
        resize(&mut self.inp0, bs * 2, T::zero());
        resize(&mut self.inp1, bs * 2, T::zero());
        resize(&mut self.out, bs, T::zero());
        self.bs = bs;
    }
}

} // verus!
