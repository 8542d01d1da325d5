//! A single affine layer followed by the logistic function, trained against
//! the mean squared error.
use vstd::prelude::*;
use crate::gemm::{gemm_at_spec, lemma_flat_index};
use crate::linear::Linear;
use crate::ops::{
    bias_grad_spec, linear_forward_spec, mse_grad, mse_grad_spec, sigmoid_backward_,
    sigmoid_backward_spec, sigmoid_forward_,
};
use crate::scalar::{zeros, Activation, Scalar};
use crate::tensor::resize;

verus! {

/// Features of an input row.
pub const N_IN: usize = 768;

/// Features of an output row.
pub const N_OUT: usize = 10;

/// The network, the output of its last forward pass and a buffer for the
/// gradient that the backward pass sends through it.
#[derive(Debug)]
pub struct Perceptron<T> {
    pub l0: Linear<T>,
    pub out: Vec<T>,
    pub bs: usize,
    pub grad_buf: Vec<T>,
}

impl<T: Activation> Perceptron<T> {
    /// The layer has the network's feature counts, and the output has one row
    /// for each row of the last batch.
    pub open spec fn wf(&self) -> bool {
        &&& self.l0.wf()
        &&& self.l0.n_in == N_IN
        &&& self.l0.n_out == N_OUT
        &&& self.out@.len() == self.bs * N_OUT
    }

    /// The gradient at the input of the logistic function, for the targets
    /// `target`.
    pub open spec fn out_grad(&self, target: Seq<T>) -> Seq<T> {
        sigmoid_backward_spec(
            self.out@,
            mse_grad_spec(self.out@, target, zeros::<T>((self.bs * N_OUT) as nat)),
        )
    }

    /// A network with the weights `weight`, stored as `(N_IN, N_OUT)`, and a
    /// zero bias.
    pub fn new(weight: Vec<T>) -> (net: Self)
        requires
            weight@.len() == N_IN * N_OUT,
        ensures
            net.wf(),
            net.bs == 0,
            net.l0.weight.data@ == weight@,
            net.l0.inp@.len() == 0,
            net.grad_buf@.len() == 0,
    {
        Perceptron { l0: Linear::new(N_IN, N_OUT, weight), out: Vec::new(), bs: 0, grad_buf: Vec::new() }
    }

    /// Computes the output for the `bs` rows of `x`.
    pub fn forward(&mut self, x: &[T], bs: usize)
        requires
            old(self).wf(),
            x@.len() == bs * N_IN,
        ensures
            final(self).wf(),
            final(self).bs == bs,
            final(self).l0.weight == old(self).l0.weight,
            final(self).l0.bias == old(self).l0.bias,
            final(self).l0.inp@ == x@,
            final(self).grad_buf == old(self).grad_buf,
            forall|i: int|
                0 <= i < bs * N_OUT ==> linear_forward_spec(
                    x@,
                    old(self).l0.weight.data@,
                    old(self).l0.bias.data@,
                    bs as int,
                    N_IN as int,
                )[i].sigmoid_accepts(#[trigger] final(self).out@[i]),
    {
        // as a machine integer, the length bounds the products with `bs`
        let _len: usize = x.len();
        if self.bs != bs {
            resize(&mut self.out, bs * N_OUT, T::zero());
            self.bs = bs;
        }
        proof {
            lemma_flat_index(bs as int, bs + 1, 0, N_IN as int);
            lemma_flat_index(bs as int, bs + 1, 0, N_OUT as int);
        }
        self.l0.forward(x, self.out.as_mut_slice());
        sigmoid_forward_(self.out.as_mut_slice());
    }

    /// Adds to the parameters' gradients what the mean squared error against
    /// `target` contributes, for the last forward pass, and forgets the input
    /// of that pass.  What `grad_buf` held does not matter.
    pub fn backward(&mut self, target: &[T])
        requires
            old(self).wf(),
            target@.len() == old(self).bs * N_OUT,
            old(self).l0.inp@.len() == old(self).bs * N_IN,
        ensures
            final(self).wf(),
            final(self).bs == old(self).bs,
            final(self).out == old(self).out,
            final(self).l0.inp@.len() == 0,
            final(self).l0.weight.data == old(self).l0.weight.data,
            final(self).l0.bias.data == old(self).l0.bias.data,
            final(self).grad_buf@ == old(self).out_grad(target@),
            final(self).l0.bias.grad@ == bias_grad_spec(
                old(self).out_grad(target@),
                old(self).l0.bias.grad@,
                old(self).bs as int,
            ),
            final(self).l0.weight.grad@ == gemm_at_spec(
                old(self).l0.inp@,
                old(self).out_grad(target@),
                old(self).l0.weight.grad@,
                N_IN as int,
                old(self).bs as int,
                N_OUT as int,
            ),
    {
        let _len: usize = self.out.len();
        self.grad_buf.clear();
        resize(&mut self.grad_buf, self.bs * N_OUT, T::zero());
        assert(self.grad_buf@ =~= zeros::<T>((self.bs * N_OUT) as nat));
        mse_grad(self.out.as_slice(), target, self.grad_buf.as_mut_slice());
        sigmoid_backward_(self.out.as_slice(), self.grad_buf.as_mut_slice());
        proof {
            lemma_flat_index(self.bs as int, self.bs + 1, 0, N_OUT as int);
        }
        self.l0.backward(self.grad_buf.as_slice(), None);
    }

    /// Clears the gradients of the parameters.
    pub fn zero_grad(&mut self)
        ensures
            final(self).bs == old(self).bs,
            final(self).out == old(self).out,
            final(self).grad_buf == old(self).grad_buf,
            final(self).l0.n_in == old(self).l0.n_in,
            final(self).l0.n_out == old(self).l0.n_out,
            final(self).l0.inp == old(self).l0.inp,
            final(self).l0.weight.data@ == old(self).l0.weight.data@,
            final(self).l0.bias.data@ == old(self).l0.bias.data@,
            final(self).l0.weight.grad@ == zeros::<T>(old(self).l0.weight.grad@.len()),
            final(self).l0.bias.grad@ == zeros::<T>(old(self).l0.bias.grad@.len()),
    {
        self.l0.zero_grad();
    }
}

} // verus!
