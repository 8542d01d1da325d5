//! Plain gradient descent.
use vstd::prelude::*;
use crate::scalar::{Activation, Scalar};
use crate::xornet::XorNet;

verus! {

/// `params` after one step against `delta` at the learning rate `lr`; where
/// `delta` is the shorter of the two, the parameters beyond its end stay.
pub open spec fn apply_grad_spec<T: Scalar>(params: Seq<T>, delta: Seq<T>, lr: T) -> Seq<T> {
    Seq::new(
        params.len(),
        |i: int|
            if i < delta.len() {
                params[i].sub_spec(lr.mul_spec(delta[i]))
            } else {
                params[i]
            },
    )
}

/// Moves every parameter against its gradient: `param -= lr * delta`.
pub fn apply_grad<T: Scalar>(params: &mut [T], delta: &[T], lr: T)
    ensures
        final(params)@ == apply_grad_spec(old(params)@, delta@, lr),
{
    let size: usize = if params.len() < delta.len() {
        params.len()
    } else {
        delta.len()
    };
    let mut i: usize = 0;
    while i < size
        invariant
            i <= size,
            size <= delta@.len(),
            size <= params@.len(),
            size == params@.len() || size == delta@.len(),
            params@.len() == old(params)@.len(),
            forall|q: int| 0 <= q < i ==> params@[q] == old(params)@[q].sub_spec(lr.mul_spec(delta@[q])),
            forall|q: int| i <= q < params@.len() ==> params@[q] == old(params)@[q],
        decreases size - i,
    {
        params[i] = params[i].sub(lr.mul(delta[i]));
        i += 1;
    }
    assert(params@ =~= apply_grad_spec(old(params)@, delta@, lr));
}

/// Gradient descent with a fixed learning rate.
#[derive(Debug)]
pub struct SGD<T> {
    pub lr: T,
}

impl<T: Activation> SGD<T> {
    /// An optimizer with the learning rate `lr`.
    pub fn new(lr: T) -> (opt: Self)
        ensures
            opt.lr == lr,
    {
        SGD { lr }
    }

    /// Moves every parameter of `net` against its gradient.  Gradients and
    /// everything else in `net` stay.
    pub fn step(&self, net: &mut XorNet<T>)
        ensures
            final(net).w0.data@ == apply_grad_spec(old(net).w0.data@, old(net).w0.grad@, self.lr),
            final(net).b0.data@ == apply_grad_spec(old(net).b0.data@, old(net).b0.grad@, self.lr),
            final(net).w1.data@ == apply_grad_spec(old(net).w1.data@, old(net).w1.grad@, self.lr),
            final(net).b1.data@ == apply_grad_spec(old(net).b1.data@, old(net).b1.grad@, self.lr),
            final(net).w0.grad == old(net).w0.grad,
            final(net).b0.grad == old(net).b0.grad,
            final(net).w1.grad == old(net).w1.grad,
            final(net).b1.grad == old(net).b1.grad,
            final(net).out == old(net).out,
            final(net).bs == old(net).bs,
            final(net).inp0 == old(net).inp0,
            final(net).inp1 == old(net).inp1,
            final(net).grad_buf1 == old(net).grad_buf1,
            final(net).grad_buf2 == old(net).grad_buf2,
    {
        apply_grad(net.w0.data.as_mut_slice(), net.w0.grad.as_slice(), self.lr);
        apply_grad(net.b0.data.as_mut_slice(), net.b0.grad.as_slice(), self.lr);
        apply_grad(net.w1.data.as_mut_slice(), net.w1.grad.as_slice(), self.lr);
        apply_grad(net.b1.data.as_mut_slice(), net.b1.grad.as_slice(), self.lr);
    }
}

} // verus!
