//! Parameter tensors and the buffers around them.
use vstd::prelude::*;
use crate::scalar::{zeros, Scalar};

verus! {

/// `s` cut or extended to `len` elements, new elements being `fill`.
pub open spec fn resized<T>(s: Seq<T>, len: int, fill: T) -> Seq<T> {
    Seq::new(
        len as nat,
        |i: int|
            if i < s.len() {
                s[i]
            } else {
                fill
            },
    )
}

/// Cuts or extends `v` to `len` elements.  Elements that stay keep their
/// value; new elements are `fill`.
pub fn resize<T: Copy>(v: &mut Vec<T>, len: usize, fill: T)
    ensures
        final(v)@ == resized(old(v)@, len as int, fill),
{
    v.truncate(len);
    while v.len() < len
        invariant
            v@.len() <= len,
            v@.len() < len ==> old(v)@.len() <= v@.len(),
            forall|i: int| 0 <= i < v@.len() ==> v@[i] == resized(old(v)@, len as int, fill)[i],
        decreases len - v@.len(),
    {
        v.push(fill);
    }
    assert(v@ =~= resized(old(v)@, len as int, fill));
}

/// Sets every element of `buf` to `value`.
pub fn fill<T: Copy>(buf: &mut [T], value: T)
    ensures
        final(buf)@ == Seq::new(old(buf)@.len(), |i: int| value),
{
    let size: usize = buf.len();
    let mut i: usize = 0;
    while i < size
        invariant
            i <= size,
            buf@.len() == size == old(buf)@.len(),
            forall|q: int| 0 <= q < i ==> buf@[q] == value,
        decreases size - i,
    {
        buf[i] = value;
        i += 1;
    }
    assert(buf@ =~= Seq::new(old(buf)@.len(), |i: int| value));
}

/// Copies `src` over `dst`, which has the same length.
pub fn copy_from<T: Copy>(dst: &mut [T], src: &[T])
    requires
        old(dst)@.len() == src@.len(),
    ensures
        final(dst)@ == src@,
{
    let size: usize = src.len();
    let mut i: usize = 0;
    while i < size
        invariant
            i <= size,
            src@.len() == size,
            dst@.len() == size,
            forall|q: int| 0 <= q < i ==> dst@[q] == src@[q],
        decreases size - i,
    {
        dst[i] = src[i];
        i += 1;
    }
    assert(dst@ =~= src@);
}

/// A parameter: its values and, element for element, the gradient that the
/// backward passes add up.
#[derive(Debug)]
pub struct Tensor<T> {
    pub data: Vec<T>,
    pub grad: Vec<T>,
}

impl<T: Scalar> Tensor<T> {
    /// Values and gradient have `len` elements each.
    pub open spec fn has_len(&self, len: int) -> bool {
        self.data@.len() == len && self.grad@.len() == len
    }

    /// A tensor with the values `samples`, which the caller has drawn, and a
    /// zero gradient.
    pub fn uniform(samples: Vec<T>) -> (t: Self)
        ensures
            t.data@ == samples@,
            t.grad@ == zeros::<T>(samples@.len()),
    {
        let mut grad: Vec<T> = Vec::new();
        resize(&mut grad, samples.len(), T::zero());
        assert(grad@ =~= zeros::<T>(samples@.len()));
        Tensor { data: samples, grad }
    }

    /// A tensor of `len` zeros with a zero gradient.
    pub fn zeros(len: usize) -> (t: Self)
        ensures
            t.data@ == zeros::<T>(len as nat),
            t.grad@ == zeros::<T>(len as nat),
    {
        let mut data: Vec<T> = Vec::new();
        resize(&mut data, len, T::zero());
        let mut grad: Vec<T> = Vec::new();
        resize(&mut grad, len, T::zero());
        assert(data@ =~= zeros::<T>(len as nat));
        assert(grad@ =~= zeros::<T>(len as nat));
        Tensor { data, grad }
    }

    /// Clears the gradient; the values stay.
    pub fn zero_grad(&mut self)
        ensures
            final(self).data@ == old(self).data@,
            final(self).grad@ == zeros::<T>(old(self).grad@.len()),
    {
        fill(self.grad.as_mut_slice(), T::zero());
        assert(self.grad@ =~= zeros::<T>(old(self).grad@.len()));
    }
}

} // verus!
