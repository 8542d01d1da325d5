//! Dense matrix products and the forward and backward passes of small
//! feed-forward networks, written over any scalar type and verified.
//!
//! - `scalar`: the arithmetic that a scalar type offers, and its instance for
//!   wrapping integers.
//! - `gemm`: the three accumulating products.  `blocked`: the same product
//!   over repacked operands, tile by tile.  `laws`: how they relate.
//! - `ops`: affine transform, logistic function and mean squared error, each
//!   with its backward pass.  `gradient`: the backward passes give slopes.
//! - `tensor`, `linear`, `perceptron`, `xornet`, `optim`: parameters, layers,
//!   two small networks and gradient descent.
//! - `dataset`: decoding of the image and label files.
pub mod blocked;
pub mod dataset;
pub mod gemm;
pub mod gradient;
pub mod laws;
pub mod linear;
pub mod ops;
pub mod optim;
pub mod perceptron;
pub mod scalar;
pub mod tensor;
pub mod xornet;

pub use dataset::{Dataset, LoadError};
pub use gemm::{gemm, gemm_at, gemm_bt};
pub use ops::{
    linear_backward, linear_forward, mse_grad, mse_loss, sigmoid_backward_, sigmoid_forward_,
};
pub use scalar::{Activation, ExactScalar, RingScalar, Scalar};
