//! An affine layer that remembers its input between the forward and the
//! backward pass.
use vstd::prelude::*;
use crate::gemm::{gemm_at_spec, gemm_bt_spec};
use crate::ops::{bias_grad_spec, linear_backward, linear_forward, linear_forward_spec};
use crate::scalar::{zeros, Scalar};
use crate::tensor::{copy_from, resize, Tensor};

verus! {

/// An affine layer from `n_in` to `n_out` features.
///
/// `inp` is the input of the last forward pass.  The backward pass needs it
/// and spends it: every backward pass follows a forward pass of its own.
#[derive(Debug)]
pub struct Linear<T> {
    pub weight: Tensor<T>,
    pub bias: Tensor<T>,
    pub inp: Vec<T>,
    pub n_in: usize,
    pub n_out: usize,
}

impl<T: Scalar> Linear<T> {
    /// The parameters have the lengths that the feature counts ask for.
    pub open spec fn wf(&self) -> bool {
        &&& self.weight.has_len(self.n_in * self.n_out)
        &&& self.bias.has_len(self.n_out as int)
    }

    /// A layer with the weights `weight`, stored as `(n_in, n_out)`, and a
    /// zero bias, that has not seen any input.
    pub fn new(n_in: usize, n_out: usize, weight: Vec<T>) -> (l: Self)
        requires
            weight@.len() == n_in * n_out,
        ensures
            l.wf(),
            l.n_in == n_in,
            l.n_out == n_out,
            l.weight.data@ == weight@,
            l.weight.grad@ == zeros::<T>(weight@.len()),
            l.bias.data@ == zeros::<T>(n_out as nat),
            l.bias.grad@ == zeros::<T>(n_out as nat),
            l.inp@.len() == 0,
    {
        Linear {
            weight: Tensor::uniform(weight),
            bias: Tensor::zeros(n_out),
            inp: Vec::new(),
            n_in,
            n_out,
        }
    }

    /// Writes the affine transform of `x_in` to `x_out` and remembers `x_in`.
    /// The batch size is what the length of `x_in` gives.
    pub fn forward(&mut self, x_in: &[T], x_out: &mut [T])
        requires
            old(self).wf(),
            old(self).n_in > 0,
            old(self).n_out > 0,
            (x_in@.len() as int) % (old(self).n_in as int) == 0,
            (old(x_out)@.len() as int) % (old(self).n_out as int) == 0,
            (old(x_out)@.len() as int) / (old(self).n_out as int) == (x_in@.len() as int) / (old(self).n_in as int),
        ensures
            final(self).wf(),
            final(self).n_in == old(self).n_in,
            final(self).n_out == old(self).n_out,
            final(self).weight == old(self).weight,
            final(self).bias == old(self).bias,
            final(self).inp@ == x_in@,
            final(x_out)@ == linear_forward_spec(
                x_in@,
                old(self).weight.data@,
                old(self).bias.data@,
                (x_in@.len() as int) / (old(self).n_in as int),
                old(self).n_in as int,
            ),
    {
        let bs: usize = x_in.len() / self.n_in;
        proof {
            vstd::arithmetic::div_mod::lemma_fundamental_div_mod(
                x_in@.len() as int,
                self.n_in as int,
            );
            vstd::arithmetic::div_mod::lemma_fundamental_div_mod(
                x_out@.len() as int,
                self.n_out as int,
            );
            assert(self.n_in * bs == bs * self.n_in) by (nonlinear_arith);
            assert(self.n_out * bs == bs * self.n_out) by (nonlinear_arith);
        }
        if self.inp.len() != x_in.len() {
            resize(&mut self.inp, x_in.len(), T::zero());
        }
        copy_from(self.inp.as_mut_slice(), x_in);
        linear_forward(
            x_in,
            x_out,
            self.weight.data.as_slice(),
            self.bias.data.as_slice(),
            bs,
            self.n_in,
            self.n_out,
        );
    }

    /// Adds to the parameters' gradients, and to `grad_in` where it is given,
    /// what the upstream gradient `grad` contributes, for the input that the
    /// last forward pass remembered, and forgets that input.
    pub fn backward(&mut self, grad: &[T], grad_in: Option<&mut [T]>)
        requires
            old(self).wf(),
            old(self).n_in > 0,
            old(self).n_out > 0,
            (grad@.len() as int) % (old(self).n_out as int) == 0,
            old(self).inp@.len() == ((grad@.len() as int) / (old(self).n_out as int)) * old(self).n_in,
            match grad_in {
                Some(g) => g@.len() == old(self).inp@.len(),
                None => true,
            },
        ensures
            final(self).wf(),
            final(self).n_in == old(self).n_in,
            final(self).n_out == old(self).n_out,
            final(self).inp@.len() == 0,
            final(self).weight.data == old(self).weight.data,
            final(self).bias.data == old(self).bias.data,
            final(self).bias.grad@ == bias_grad_spec(
                grad@,
                old(self).bias.grad@,
                (grad@.len() as int) / (old(self).n_out as int),
            ),
            final(self).weight.grad@ == gemm_at_spec(
                old(self).inp@,
                grad@,
                old(self).weight.grad@,
                old(self).n_in as int,
                (grad@.len() as int) / (old(self).n_out as int),
                old(self).n_out as int,
            ),
            match grad_in {
                Some(g) => final(g)@ == gemm_bt_spec(
                    grad@,
                    old(self).weight.data@,
                    g@,
                    old(self).n_out as int,
                    old(self).n_in as int,
                ),
                None => true,
            },
    {
        let bs: usize = grad.len() / self.n_out;
        proof {
            vstd::arithmetic::div_mod::lemma_fundamental_div_mod(
                grad@.len() as int,
                self.n_out as int,
            );
            assert(self.n_out * bs == bs * self.n_out) by (nonlinear_arith);
        }
        linear_backward(
            self.inp.as_slice(),
            self.weight.data.as_slice(),
            self.bias.data.as_slice(),
            grad,
            self.weight.grad.as_mut_slice(),
            self.bias.grad.as_mut_slice(),
            grad_in,
            bs,
            self.n_in,
            self.n_out,
        );
        self.inp.clear();
    }

    /// Clears the gradients of both parameters.
    pub fn zero_grad(&mut self)
        ensures
            final(self).n_in == old(self).n_in,
            final(self).n_out == old(self).n_out,
            final(self).inp == old(self).inp,
            final(self).weight.data@ == old(self).weight.data@,
            final(self).bias.data@ == old(self).bias.data@,
            final(self).weight.grad@ == zeros::<T>(old(self).weight.grad@.len()),
            final(self).bias.grad@ == zeros::<T>(old(self).bias.grad@.len()),
    {
        self.weight.zero_grad();
        self.bias.zero_grad();
    }
}

} // verus!
