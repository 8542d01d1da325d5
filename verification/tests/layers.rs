use nnops::{
    linear_backward, linear_forward, mse_grad, mse_loss, sigmoid_backward_, sigmoid_forward_,
    Activation, Scalar,
};

#[derive(Clone, Copy, Debug, PartialEq)]
struct F(f32);

impl Scalar for F {
    fn zero_spec() -> Self {
        F(0.0)
    }

    fn one_spec() -> Self {
        F(1.0)
    }

    fn add_spec(self, rhs: Self) -> Self {
        F(self.0 + rhs.0)
    }

    fn sub_spec(self, rhs: Self) -> Self {
        F(self.0 - rhs.0)
    }

    fn mul_spec(self, rhs: Self) -> Self {
        F(self.0 * rhs.0)
    }

    fn mul_add_spec(self, a: Self, b: Self) -> Self {
        F(self.0.mul_add(a.0, b.0))
    }

    fn div_count_spec(self, n: usize) -> Self {
        F(self.0 / n as f32)
    }

    fn zero() -> Self {
        F(0.0)
    }

    fn one() -> Self {
        F(1.0)
    }

    fn add(self, rhs: Self) -> Self {
        F(self.0 + rhs.0)
    }

    fn sub(self, rhs: Self) -> Self {
        F(self.0 - rhs.0)
    }

    fn mul(self, rhs: Self) -> Self {
        F(self.0 * rhs.0)
    }

    fn mul_add(self, a: Self, b: Self) -> Self {
        F(self.0.mul_add(a.0, b.0))
    }

    fn div_count(self, n: usize) -> Self {
        F(self.0 / n as f32)
    }
}

impl Activation for F {
    fn sigmoid_accepts(self, y: Self) -> bool {
        let exact = 1. / (1. + f32::exp(-self.0));
        (exact.is_nan() && y.0.is_nan()) || (y.0 - exact).abs() <= 1e-6
    }

    fn sigmoid(self) -> Self {
        F(1. / (1. + f32::exp(-self.0)))
    }
}

fn wrap(v: &[f32]) -> Vec<F> {
    v.iter().map(|x| F(*x)).collect()
}

fn unwrap(v: &[F]) -> Vec<f32> {
    v.iter().map(|x| x.0).collect()
}

struct XorShift(u64);

impl XorShift {
    fn next_u32(&mut self) -> u32 {
        self.0 ^= self.0 >> 12;
        self.0 ^= self.0 << 25;
        self.0 ^= self.0 >> 27;
        (self.0.wrapping_mul(0x2545F4914F6CDD1Du64) >> 32) as u32
    }

    fn floats(&mut self, len: usize) -> Vec<F> {
        (0..len).map(|_| F(self.next_u32() as f32 / u32::MAX as f32 - 0.5)).collect()
    }
}

fn close(x: f32, y: f32, tol: f32) -> bool {
    (x - y).abs() <= tol
}

#[test]
fn linear_forward_starts_every_row_from_the_bias() {
    let x: Vec<i64> = vec![1, 0, -1, 2, 1, 0];
    let w: Vec<i64> = vec![1, 2, 3, 4, 5, 6];
    let b: Vec<i64> = vec![10, 20];
    let mut out: Vec<i64> = vec![777; 4];
    linear_forward(&x, &mut out, &w, &b, 2, 3, 2);
    assert_eq!(out, vec![10 + 1 - 5, 20 + 2 - 6, 10 + 2 + 3, 20 + 4 + 4]);
    linear_forward(&x, &mut out, &w, &b, 2, 3, 2);
    assert_eq!(out, vec![6, 16, 15, 28]);
}

#[test]
fn linear_forward_of_an_empty_batch() {
    let mut out: Vec<i64> = vec![];
    linear_forward(&[], &mut out, &[1, 2], &[3, 4], 0, 1, 2);
    assert!(out.is_empty());
}

#[test]
fn linear_backward_adds_to_every_gradient() {
    let x: Vec<i64> = vec![1, 0, -1, 2, 1, 0];
    let w: Vec<i64> = vec![1, 2, 3, 4, 5, 6];
    let b: Vec<i64> = vec![10, 20];
    let grad: Vec<i64> = vec![1, 2, 3, 4];
    let mut w_grad: Vec<i64> = vec![1000; 6];
    let mut b_grad: Vec<i64> = vec![100, 200];
    let mut grad_in: Vec<i64> = vec![-1; 6];
    linear_backward(&x, &w, &b, &grad, &mut w_grad, &mut b_grad, Some(&mut grad_in), 2, 3, 2);
    assert_eq!(b_grad, vec![104, 206]);
    assert_eq!(w_grad, vec![1007, 1010, 1003, 1004, 999, 998]);
    assert_eq!(grad_in, vec![4, 10, 16, 10, 24, 38]);
}

#[test]
fn linear_backward_without_an_input_gradient() {
    let x = wrap(&[1., 2.]);
    let w = wrap(&[3., 4.]);
    let b = wrap(&[0.]);
    let grad = wrap(&[0.5]);
    let mut w_grad = wrap(&[0., 0.]);
    let mut b_grad = wrap(&[0.]);
    linear_backward(&x, &w, &b, &grad, &mut w_grad, &mut b_grad, None, 1, 2, 1);
    assert_eq!(unwrap(&w_grad), vec![0.5, 1.]);
    assert_eq!(unwrap(&b_grad), vec![0.5]);
}

/// A scalar that depends on every output: the outputs weighted by `g`.
fn weighted_output(x: &[F], w: &[F], b: &[F], g: &[F], bs: usize, n_in: usize, n_out: usize) -> f32 {
    let mut out = vec![F(0.); bs * n_out];
    linear_forward(x, &mut out, w, b, bs, n_in, n_out);
    out.iter().zip(g).map(|(o, g)| o.0 * g.0).sum()
}

#[test]
fn affine_gradients_match_finite_differences() {
    let (bs, n_in, n_out) = (2, 3, 2);
    let mut rng = XorShift(0xdeadbeef);
    let x = rng.floats(bs * n_in);
    let w = rng.floats(n_in * n_out);
    let b = rng.floats(n_out);
    let g = rng.floats(bs * n_out);
    let mut w_grad = vec![F(0.); n_in * n_out];
    let mut b_grad = vec![F(0.); n_out];
    let mut x_grad = vec![F(0.); bs * n_in];
    linear_backward(&x, &w, &b, &g, &mut w_grad, &mut b_grad, Some(&mut x_grad), bs, n_in, n_out);
    let eps = 1e-2;
    for i in 0..w.len() {
        let (mut up, mut down) = (w.clone(), w.clone());
        up[i].0 += eps;
        down[i].0 -= eps;
        let numeric = (weighted_output(&x, &up, &b, &g, bs, n_in, n_out)
            - weighted_output(&x, &down, &b, &g, bs, n_in, n_out)) / (2. * eps);
        assert!(close(w_grad[i].0, numeric, 1e-3));
    }
    for i in 0..b.len() {
        let (mut up, mut down) = (b.clone(), b.clone());
        up[i].0 += eps;
        down[i].0 -= eps;
        let numeric = (weighted_output(&x, &w, &up, &g, bs, n_in, n_out)
            - weighted_output(&x, &w, &down, &g, bs, n_in, n_out)) / (2. * eps);
        assert!(close(b_grad[i].0, numeric, 1e-3));
    }
    for i in 0..x.len() {
        let (mut up, mut down) = (x.clone(), x.clone());
        up[i].0 += eps;
        down[i].0 -= eps;
        let numeric = (weighted_output(&up, &w, &b, &g, bs, n_in, n_out)
            - weighted_output(&down, &w, &b, &g, bs, n_in, n_out)) / (2. * eps);
        assert!(close(x_grad[i].0, numeric, 1e-3));
    }
}

#[test]
fn sigmoid_forward_values() {
    let mut x = wrap(&[0., 1., -1., 100., -100.]);
    sigmoid_forward_(&mut x);
    assert_eq!(x[0], F(0.5));
    assert_eq!(x[1], F(1. / (1. + f32::exp(-1.))));
    assert_eq!(x[2], F(1. / (1. + f32::exp(1.))));
    assert_eq!(x[3], F(1.));
    assert_eq!(x[4], F(1. / (1. + f32::exp(100.))));
    assert!(close(x[1].0, 0.731_058_6, 1e-6));
    assert!(close(x[1].0 + x[2].0, 1., 1e-6));
    assert!(F(0.).sigmoid_accepts(x[0]));
    assert!(!F(0.).sigmoid_accepts(x[1]));
    let mut odd = wrap(&[f32::NAN, f32::INFINITY, f32::NEG_INFINITY]);
    sigmoid_forward_(&mut odd);
    assert!(odd[0].0.is_nan());
    assert!(F(f32::NAN).sigmoid_accepts(odd[0]));
    assert_eq!(unwrap(&odd[1..]), vec![1., 0.]);
    assert!(F(f32::INFINITY).sigmoid_accepts(odd[1]));
    assert!(F(f32::NEG_INFINITY).sigmoid_accepts(odd[2]));
    let mut none: Vec<F> = vec![];
    sigmoid_forward_(&mut none);
    assert!(none.is_empty());
}

#[test]
fn sigmoid_backward_scales_by_the_derivative() {
    let y = wrap(&[0.5, 0.25, 1., 0.]);
    let mut grad = wrap(&[2., -4., 3., 3.]);
    sigmoid_backward_(&y, &mut grad);
    assert_eq!(unwrap(&grad), vec![0.5, -0.75, 0., 0.]);
}

#[test]
fn sigmoid_gradient_matches_finite_differences() {
    let h = 1e-2;
    for &x in &[-5.0f32, -1., 0., 1., 5.] {
        let mut y = wrap(&[x, x + h, x - h]);
        sigmoid_forward_(&mut y);
        let mut grad = wrap(&[1.]);
        sigmoid_backward_(&y[..1], &mut grad);
        let numeric = (y[1].0 - y[2].0) / (2. * h);
        assert!(close(grad[0].0, numeric, 1e-3));
        assert!(grad[0].0 > 0.);
    }
}

#[test]
fn mse_loss_is_the_mean_of_the_squares() {
    let loss = mse_loss(&wrap(&[1., 2., 3.]), &wrap(&[1., 0., 5.]));
    assert_eq!(loss, F(8. / 3.));
    assert_eq!(mse_loss(&wrap(&[0.5]), &wrap(&[0.5])), F(0.));
    assert_eq!(mse_loss(&[1i64, 2, 3], &[1i64, 0, 5]), 2);
}

#[test]
fn mse_loss_of_no_elements() {
    let none: Vec<F> = vec![];
    assert!(mse_loss(&none, &none).0.is_nan());
    let none: Vec<i64> = vec![];
    assert_eq!(mse_loss(&none, &none), 0);
}

#[test]
fn mse_grad_adds_twice_the_mean_difference() {
    let pred = wrap(&[1., 2., 3., 4.]);
    let target = wrap(&[1., 0., 5., 4.5]);
    let mut grad = wrap(&[0., 0., 10., 0.]);
    mse_grad(&pred, &target, &mut grad);
    assert_eq!(unwrap(&grad), vec![0., 1., 9., -0.25]);
    mse_grad(&pred, &target, &mut grad);
    assert_eq!(unwrap(&grad), vec![0., 2., 8., -0.5]);
    let mut none: Vec<F> = vec![];
    mse_grad(&[], &[], &mut none);
    assert!(none.is_empty());
}

#[test]
fn mse_gradient_matches_finite_differences() {
    let mut rng = XorShift(2024);
    let pred = rng.floats(5);
    let target = rng.floats(5);
    let mut grad = vec![F(0.); 5];
    mse_grad(&pred, &target, &mut grad);
    let h = 1e-2;
    let mut total = 0.;
    for i in 0..pred.len() {
        let (mut up, mut down) = (pred.clone(), pred.clone());
        up[i].0 += h;
        down[i].0 -= h;
        let numeric = (mse_loss(&up, &target).0 - mse_loss(&down, &target).0) / (2. * h);
        assert!(close(grad[i].0, numeric, 1e-3));
        total += numeric;
    }
    let sum: f32 = grad.iter().map(|g| g.0).sum();
    assert!(close(sum, total, 1e-3));
    // along the direction of all ones
    let up: Vec<F> = pred.iter().map(|p| F(p.0 + h)).collect();
    let down: Vec<F> = pred.iter().map(|p| F(p.0 - h)).collect();
    let along = (mse_loss(&up, &target).0 - mse_loss(&down, &target).0) / (2. * h);
    assert!(close(sum, along, 1e-3));
}

/// The outputs for integer operands, weighted by `g` and added up.
fn weighted_output_on_integers(x: &[i64], w: &[i64], b: &[i64], g: &[i64], bs: usize) -> i64 {
    let mut out = vec![0i64; g.len()];
    linear_forward(x, &mut out, w, b, bs, x.len() / bs, b.len());
    out.iter().zip(g).fold(0i64, |sum, (o, g)| sum.wrapping_add(g.wrapping_mul(*o)))
}

#[test]
fn affine_gradients_are_exact_slopes_on_integers() {
    let (bs, n_in, n_out) = (2, 3, 2);
    let x: Vec<i64> = vec![1, -2, 3, 0, 5, -1];
    let w: Vec<i64> = vec![2, 0, -1, 4, 3, -3];
    let b: Vec<i64> = vec![7, -7];
    let g: Vec<i64> = vec![1, 2, -3, 4];
    let mut w_grad = vec![0i64; n_in * n_out];
    let mut b_grad = vec![0i64; n_out];
    linear_backward(&x, &w, &b, &g, &mut w_grad, &mut b_grad, None, bs, n_in, n_out);
    assert_eq!(w_grad, vec![1, 2, -17, 16, 6, 2]);
    assert_eq!(b_grad, vec![-2, 6]);
    let base = weighted_output_on_integers(&x, &w, &b, &g, bs);
    for &h in &[1i64, -4, 1000, i64::MAX] {
        for q in 0..w.len() {
            let (mut up, mut down) = (w.clone(), w.clone());
            up[q] = up[q].wrapping_add(h);
            down[q] = down[q].wrapping_sub(h);
            let high = weighted_output_on_integers(&x, &up, &b, &g, bs);
            let low = weighted_output_on_integers(&x, &down, &b, &g, bs);
            assert_eq!(high, base.wrapping_add(h.wrapping_mul(w_grad[q])));
            assert_eq!(high.wrapping_sub(low), h.wrapping_add(h).wrapping_mul(w_grad[q]));
        }
        for j in 0..b.len() {
            let (mut up, mut down) = (b.clone(), b.clone());
            up[j] = up[j].wrapping_add(h);
            down[j] = down[j].wrapping_sub(h);
            let high = weighted_output_on_integers(&x, &w, &up, &g, bs);
            let low = weighted_output_on_integers(&x, &w, &down, &g, bs);
            assert_eq!(high, base.wrapping_add(h.wrapping_mul(b_grad[j])));
            assert_eq!(high.wrapping_sub(low), h.wrapping_add(h).wrapping_mul(b_grad[j]));
        }
    }
}

#[test]
fn squared_error_gradient_is_an_exact_slope_on_integers() {
    let pred: Vec<i64> = vec![9, -3, 4, 0];
    let target: Vec<i64> = vec![1, 3, 4, -6];
    let mut grad = vec![0i64; 4];
    mse_grad(&pred, &target, &mut grad);
    // (pred - target) * 2 / 4
    assert_eq!(grad, vec![4, -3, 0, 3]);
    for &h in &[1i64, 2, -5, 40] {
        for i in 0..pred.len() {
            let (mut up, mut down) = (pred.clone(), pred.clone());
            up[i] += h;
            down[i] -= h;
            // the sums of the squares differ by a multiple of the count
            let difference = mse_loss(&up, &target) - mse_loss(&down, &target);
            assert_eq!(difference, (h + h) * grad[i]);
        }
    }
    let one = mse_loss(&[6i64], &[2i64]) - mse_loss(&[4i64], &[2i64]);
    assert_eq!(one, 12);
}
