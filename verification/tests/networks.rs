use nnops::linear::Linear;
use nnops::optim::{apply_grad, SGD};
use nnops::perceptron::{Perceptron, N_IN, N_OUT};
use nnops::tensor::{copy_from, fill, resize, Tensor};
use nnops::xornet::XorNet;
use nnops::{mse_loss, Activation, Scalar};
use rand::distributions::Uniform;
use rand::rngs::StdRng;
use rand::{Rng, SeedableRng};

#[derive(Clone, Copy, Debug, PartialEq)]
struct F(f32);

impl Scalar for F {
    fn zero_spec() -> Self {
        F(0.0)
    }

    fn one_spec() -> Self {
        F(1.0)
    }

    fn add_spec(self, rhs: Self) -> Self {
        F(self.0 + rhs.0)
    }

    fn sub_spec(self, rhs: Self) -> Self {
        F(self.0 - rhs.0)
    }

    fn mul_spec(self, rhs: Self) -> Self {
        F(self.0 * rhs.0)
    }

    fn mul_add_spec(self, a: Self, b: Self) -> Self {
        F(self.0.mul_add(a.0, b.0))
    }

    fn div_count_spec(self, n: usize) -> Self {
        F(self.0 / n as f32)
    }

    fn zero() -> Self {
        F(0.0)
    }

    fn one() -> Self {
        F(1.0)
    }

    fn add(self, rhs: Self) -> Self {
        F(self.0 + rhs.0)
    }

    fn sub(self, rhs: Self) -> Self {
        F(self.0 - rhs.0)
    }

    fn mul(self, rhs: Self) -> Self {
        F(self.0 * rhs.0)
    }

    fn mul_add(self, a: Self, b: Self) -> Self {
        F(self.0.mul_add(a.0, b.0))
    }

    fn div_count(self, n: usize) -> Self {
        F(self.0 / n as f32)
    }
}

impl Activation for F {
    fn sigmoid_accepts(self, y: Self) -> bool {
        let exact = 1. / (1. + f32::exp(-self.0));
        (exact.is_nan() && y.0.is_nan()) || (y.0 - exact).abs() <= 1e-6
    }

    fn sigmoid(self) -> Self {
        F(1. / (1. + f32::exp(-self.0)))
    }
}

fn wrap(v: &[f32]) -> Vec<F> {
    v.iter().map(|x| F(*x)).collect()
}

fn unwrap(v: &[F]) -> Vec<f32> {
    v.iter().map(|x| x.0).collect()
}

fn uniform(rng: &mut StdRng, len: usize, n_out: usize) -> Vec<F> {
    let stdv = (n_out as f32).sqrt().recip();
    let dist = Uniform::new(-stdv, stdv);
    (0..len).map(|_| F(rng.sample(dist))).collect()
}

fn seeded_net(seed: u64) -> XorNet<F> {
    let mut rng = StdRng::seed_from_u64(seed);
    let w0 = uniform(&mut rng, 4, 2);
    let b0 = uniform(&mut rng, 2, 2);
    let w1 = uniform(&mut rng, 2, 1);
    XorNet::new(w0, b0, w1)
}

/// Trains on the four rows of two inputs and tells after how many steps all
/// four predictions round to their targets, looking every hundredth step.
fn steps_to_fit(seed: u64, targets: &[f32]) -> Option<usize> {
    let xb = wrap(&[0., 0., 0., 1., 1., 0., 1., 1.]);
    let yb = wrap(targets);
    let mut model = seeded_net(seed);
    let opt = SGD::new(F(1.));
    for step in 0..10000 {
        model.forward(&xb, 4);
        model.zero_grad();
        model.backward(&yb);
        opt.step(&mut model);
        if step % 100 == 0 {
            let hits =
                model.out.iter().zip(yb.iter()).filter(|(p, t)| p.0.round() == t.0.round()).count();
            if hits == 4 {
                return Some(step);
            }
        }
    }
    None
}

#[test]
fn training_fits_the_four_row_table() {
    let steps = steps_to_fit(0, &[0., 1., 1., 1.]);
    assert!(matches!(steps, Some(s) if s <= 10000));
}

#[test]
fn training_fits_exclusive_or() {
    let steps = steps_to_fit(0, &[0., 1., 1., 0.]);
    assert!(matches!(steps, Some(s) if s <= 10000));
}

#[test]
fn training_is_repeatable_with_one_seed() {
    assert_eq!(steps_to_fit(3, &[0., 1., 1., 0.]), steps_to_fit(3, &[0., 1., 1., 0.]));
    let a = seeded_net(5);
    let b = seeded_net(5);
    assert_eq!(a.w0.data, b.w0.data);
    assert_eq!(a.b0.data, b.b0.data);
    assert_eq!(a.w1.data, b.w1.data);
}

#[test]
fn training_lowers_the_loss() {
    let xb = wrap(&[0., 0., 0., 1., 1., 0., 1., 1.]);
    let yb = wrap(&[0., 1., 1., 0.]);
    let mut model = seeded_net(0);
    let opt = SGD::new(F(1.));
    model.forward(&xb, 4);
    let before = mse_loss(&model.out, &yb).0;
    for _ in 0..2000 {
        model.forward(&xb, 4);
        model.zero_grad();
        model.backward(&yb);
        opt.step(&mut model);
    }
    model.forward(&xb, 4);
    let after = mse_loss(&model.out, &yb).0;
    assert!(after < before);
    assert!(after < 0.05);
}

#[test]
fn new_network_has_zero_output_bias_and_gradients() {
    let net = XorNet::new(wrap(&[1., 2., 3., 4.]), wrap(&[5., 6.]), wrap(&[7., 8.]));
    assert_eq!(unwrap(&net.w0.data), vec![1., 2., 3., 4.]);
    assert_eq!(unwrap(&net.b0.data), vec![5., 6.]);
    assert_eq!(unwrap(&net.w1.data), vec![7., 8.]);
    assert_eq!(unwrap(&net.b1.data), vec![0.]);
    assert_eq!(unwrap(&net.w0.grad), vec![0.; 4]);
    assert_eq!(unwrap(&net.b0.grad), vec![0.; 2]);
    assert_eq!(unwrap(&net.w1.grad), vec![0.; 2]);
    assert_eq!(unwrap(&net.b1.grad), vec![0.]);
    assert_eq!(net.bs, 0);
    assert!(net.out.is_empty());
}

#[test]
fn forward_and_backward_of_a_zero_network() {
    let mut net = XorNet::new(wrap(&[0.; 4]), wrap(&[0.; 2]), wrap(&[0.; 2]));
    net.forward(&wrap(&[3., -2.]), 1);
    assert_eq!(net.bs, 1);
    assert_eq!(unwrap(&net.inp0), vec![3., -2.]);
    assert_eq!(unwrap(&net.inp1), vec![0.5, 0.5]);
    assert_eq!(unwrap(&net.out), vec![0.5]);
    net.backward(&wrap(&[1.]));
    // (0.5 - 1) * 2 / 1 = -1, times 0.5 * (1 - 0.5)
    assert_eq!(unwrap(&net.grad_buf1), vec![-0.25]);
    assert_eq!(unwrap(&net.b1.grad), vec![-0.25]);
    assert_eq!(unwrap(&net.w1.grad), vec![-0.125, -0.125]);
    assert_eq!(unwrap(&net.grad_buf2), vec![0., 0.]);
    assert_eq!(unwrap(&net.w0.grad), vec![0.; 4]);
    assert_eq!(unwrap(&net.b0.grad), vec![0.; 2]);
    assert_eq!(unwrap(&net.out), vec![0.5]);
    assert_eq!(net.bs, 1);
    assert!(net.inp0.is_empty() && net.inp1.is_empty());
}

#[test]
fn backward_reaches_the_first_layer() {
    let mut net = XorNet::new(wrap(&[0.; 4]), wrap(&[0.; 2]), wrap(&[4., -8.]));
    net.forward(&wrap(&[3., -2.]), 1);
    // 0.5 * 4 + 0.5 * -8 = -2
    let y = 1. / (1. + f32::exp(2.));
    assert_eq!(unwrap(&net.out), vec![y]);
    net.backward(&wrap(&[0.]));
    let g1 = (y - 0.) * 2. / 1. * (y * (1. - y));
    assert_eq!(unwrap(&net.grad_buf1), vec![g1]);
    let g2 = [g1 * 4. * 0.25, g1 * -8. * 0.25];
    assert_eq!(unwrap(&net.grad_buf2), g2.to_vec());
    assert_eq!(unwrap(&net.b0.grad), g2.to_vec());
    assert_eq!(unwrap(&net.w0.grad), vec![3. * g2[0], 3. * g2[1], -2. * g2[0], -2. * g2[1]]);
}

#[test]
fn backward_does_not_depend_on_earlier_passes() {
    let x = wrap(&[1., 2., 3., 4.]);
    let target = wrap(&[1., 1.]);
    let mut net = XorNet::new(wrap(&[0.; 4]), wrap(&[0.; 2]), wrap(&[1., -1.]));
    for _ in 0..3 {
        net.zero_grad();
        net.forward(&x, 2);
        assert_eq!(unwrap(&net.inp1), vec![0.5; 4]);
        assert_eq!(unwrap(&net.out), vec![0.5, 0.5]);
        net.backward(&target);
        // (0.5 - 1) * 2 / 2 = -0.5, times 0.25
        assert_eq!(unwrap(&net.grad_buf1), vec![-0.125, -0.125]);
        assert_eq!(unwrap(&net.b1.grad), vec![-0.25]);
        assert_eq!(unwrap(&net.w1.grad), vec![-0.125, -0.125]);
        assert_eq!(unwrap(&net.grad_buf2), vec![-0.03125, 0.03125, -0.03125, 0.03125]);
        assert_eq!(unwrap(&net.b0.grad), vec![-0.0625, 0.0625]);
        assert_eq!(unwrap(&net.w0.grad), vec![-0.125, 0.125, -0.1875, 0.1875]);
    }
}

#[test]
fn backward_ignores_what_its_buffers_held() {
    let mut net = XorNet::new(wrap(&[0.; 4]), wrap(&[0.; 2]), wrap(&[1., -1.]));
    net.grad_buf1 = wrap(&[7., 7., 7.]);
    net.grad_buf2 = wrap(&[9.]);
    net.forward(&wrap(&[1., 2., 3., 4.]), 2);
    net.backward(&wrap(&[1., 1.]));
    assert_eq!(unwrap(&net.grad_buf1), vec![-0.125, -0.125]);
    assert_eq!(unwrap(&net.grad_buf2), vec![-0.03125, 0.03125, -0.03125, 0.03125]);
    assert_eq!(unwrap(&net.b1.grad), vec![-0.25]);
}

#[test]
fn gradients_add_up_until_they_are_cleared() {
    let x = wrap(&[1., 2., 3., 4.]);
    let target = wrap(&[1., 1.]);
    let mut net = XorNet::new(wrap(&[0.; 4]), wrap(&[0.; 2]), wrap(&[1., -1.]));
    net.forward(&x, 2);
    net.backward(&target);
    net.forward(&x, 2);
    net.backward(&target);
    assert_eq!(unwrap(&net.b1.grad), vec![-0.5]);
    assert_eq!(unwrap(&net.b0.grad), vec![-0.125, 0.125]);
    assert_eq!(unwrap(&net.grad_buf1), vec![-0.125, -0.125]);
}

#[test]
fn zero_grad_keeps_the_forward_state() {
    let mut net = XorNet::new(wrap(&[0.; 4]), wrap(&[0.; 2]), wrap(&[0.; 2]));
    net.forward(&wrap(&[3., -2., 1., 1.]), 2);
    net.backward(&wrap(&[1., 1.]));
    assert_eq!(unwrap(&net.b1.grad), vec![-0.25]);
    net.forward(&wrap(&[3., -2., 1., 1.]), 2);
    net.zero_grad();
    assert_eq!(unwrap(&net.w0.grad), vec![0.; 4]);
    assert_eq!(unwrap(&net.b0.grad), vec![0.; 2]);
    assert_eq!(unwrap(&net.w1.grad), vec![0.; 2]);
    assert_eq!(unwrap(&net.b1.grad), vec![0.]);
    assert_eq!(unwrap(&net.inp0), vec![3., -2., 1., 1.]);
    assert_eq!(unwrap(&net.inp1), vec![0.5; 4]);
    assert_eq!(unwrap(&net.out), vec![0.5, 0.5]);
    assert_eq!(net.bs, 2);
    net.backward(&wrap(&[1., 1.]));
    assert_eq!(unwrap(&net.b1.grad), vec![-0.25]);
}

#[test]
fn forward_follows_the_batch_size() {
    let mut net = seeded_net(1);
    net.forward(&wrap(&[0., 0., 0., 1., 1., 0., 1., 1.]), 4);
    assert_eq!((net.out.len(), net.inp0.len(), net.inp1.len()), (4, 8, 8));
    let four = unwrap(&net.out);
    net.forward(&wrap(&[1., 0.]), 1);
    assert_eq!((net.out.len(), net.inp0.len(), net.inp1.len()), (1, 2, 2));
    assert_eq!(net.out[0].0, four[2]);
    net.forward(&[], 0);
    assert!(net.out.is_empty());
}

#[test]
fn integer_network_uses_the_rounded_logistic_function() {
    let mut net: XorNet<i64> = XorNet::new(vec![1, 0, 0, 1], vec![0, 0], vec![1, 1]);
    net.forward(&[1, -1, -3, 2], 2);
    assert_eq!(net.inp1, vec![1, 0, 0, 1]);
    assert_eq!(net.out, vec![1, 1]);
    assert_eq!(Activation::sigmoid(0i64), 0);
    assert_eq!(Activation::sigmoid(1i64), 1);
    assert_eq!(Activation::sigmoid(-1i64), 0);
}

#[test]
fn step_moves_parameters_against_their_gradients() {
    let mut net = XorNet::new(wrap(&[1., 2., 3., 4.]), wrap(&[5., 6.]), wrap(&[7., 8.]));
    net.w0.grad = wrap(&[0.5, -0.5, 1., 0.]);
    net.b0.grad = wrap(&[1., 2.]);
    net.w1.grad = wrap(&[-1., 0.25]);
    net.b1.grad = wrap(&[3.]);
    let opt = SGD::new(F(2.));
    assert_eq!(opt.lr, F(2.));
    opt.step(&mut net);
    assert_eq!(unwrap(&net.w0.data), vec![0., 3., 1., 4.]);
    assert_eq!(unwrap(&net.b0.data), vec![3., 2.]);
    assert_eq!(unwrap(&net.w1.data), vec![9., 7.5]);
    assert_eq!(unwrap(&net.b1.data), vec![-6.]);
    assert_eq!(unwrap(&net.w0.grad), vec![0.5, -0.5, 1., 0.]);
}

#[test]
fn apply_grad_stops_at_the_shorter_buffer() {
    let mut params: Vec<i64> = vec![10, 20, 30];
    apply_grad(&mut params, &[1, 2], 3);
    assert_eq!(params, vec![7, 14, 30]);
    apply_grad(&mut params, &[1, 1, 1, 1], 1);
    assert_eq!(params, vec![6, 13, 29]);
}

#[test]
fn tensors_start_with_a_zero_gradient() {
    let t: Tensor<F> = Tensor::zeros(3);
    assert_eq!(unwrap(&t.data), vec![0.; 3]);
    assert_eq!(unwrap(&t.grad), vec![0.; 3]);
    let mut t = Tensor::uniform(wrap(&[0.25, -0.5]));
    assert_eq!(unwrap(&t.data), vec![0.25, -0.5]);
    assert_eq!(unwrap(&t.grad), vec![0.; 2]);
    t.grad = wrap(&[1., 2.]);
    t.zero_grad();
    assert_eq!(unwrap(&t.data), vec![0.25, -0.5]);
    assert_eq!(unwrap(&t.grad), vec![0.; 2]);
    let empty: Tensor<i64> = Tensor::zeros(0);
    assert!(empty.data.is_empty() && empty.grad.is_empty());
}

#[test]
fn buffers_resize_fill_and_copy() {
    let mut v: Vec<i64> = vec![1, 2, 3];
    resize(&mut v, 5, 9);
    assert_eq!(v, vec![1, 2, 3, 9, 9]);
    resize(&mut v, 2, 7);
    assert_eq!(v, vec![1, 2]);
    resize(&mut v, 2, 7);
    assert_eq!(v, vec![1, 2]);
    fill(&mut v, 4);
    assert_eq!(v, vec![4, 4]);
    copy_from(&mut v, &[5, 6]);
    assert_eq!(v, vec![5, 6]);
}

#[test]
fn linear_layer_remembers_its_input() {
    let mut layer: Linear<i64> = Linear::new(3, 2, vec![1, 2, 3, 4, 5, 6]);
    assert_eq!((layer.n_in, layer.n_out), (3, 2));
    assert_eq!(layer.bias.data, vec![0, 0]);
    assert!(layer.inp.is_empty());
    layer.bias.data = vec![10, 20];
    let x = vec![1, 0, -1, 2, 1, 0];
    let mut out = vec![99; 4];
    layer.forward(&x, &mut out);
    assert_eq!(out, vec![10 + 1 - 5, 20 + 2 - 6, 10 + 2 + 3, 20 + 4 + 4]);
    assert_eq!(layer.inp, x);
    let mut out = vec![99; 2];
    layer.forward(&[0, 1, 0], &mut out);
    assert_eq!(out, vec![13, 24]);
    assert_eq!(layer.inp, vec![0, 1, 0]);
}

#[test]
fn linear_layer_backward_uses_the_remembered_input() {
    let mut layer: Linear<i64> = Linear::new(3, 2, vec![1, 2, 3, 4, 5, 6]);
    let x = vec![1, 0, -1, 2, 1, 0];
    let mut out = vec![0; 4];
    layer.forward(&x, &mut out);
    let grad = vec![1, 2, 3, 4];
    let mut grad_in = vec![100; 6];
    layer.backward(&grad, Some(&mut grad_in));
    assert_eq!(layer.bias.grad, vec![4, 6]);
    // x transposed is [[1, 2], [0, 1], [-1, 0]]
    assert_eq!(layer.weight.grad, vec![1 + 6, 2 + 8, 3, 4, -1, -2]);
    // the weights transposed are [[1, 3, 5], [2, 4, 6]]
    assert_eq!(grad_in, vec![100 + 5, 100 + 11, 100 + 17, 100 + 11, 100 + 25, 100 + 39]);
    assert!(layer.inp.is_empty());
    layer.forward(&x, &mut out);
    assert_eq!(layer.inp, x);
    layer.backward(&grad, None);
    assert_eq!(layer.bias.grad, vec![8, 12]);
    assert_eq!(layer.weight.grad, vec![14, 20, 6, 8, -2, -4]);
    assert!(layer.inp.is_empty());
    layer.forward(&x, &mut out);
    layer.zero_grad();
    assert_eq!(layer.bias.grad, vec![0, 0]);
    assert_eq!(layer.weight.grad, vec![0; 6]);
    assert_eq!(layer.weight.data, vec![1, 2, 3, 4, 5, 6]);
    assert_eq!(layer.inp, x);
}

#[test]
fn perceptron_of_zero_weights() {
    assert_eq!((N_IN, N_OUT), (768, 10));
    let mut net: Perceptron<F> = Perceptron::new(vec![F(0.); N_IN * N_OUT]);
    assert_eq!(net.bs, 0);
    let x = vec![F(1.); 2 * N_IN];
    net.forward(&x, 2);
    assert_eq!(net.bs, 2);
    assert_eq!(unwrap(&net.out), vec![0.5; 2 * N_OUT]);
    assert_eq!(net.l0.inp, x);
    let mut target = vec![F(0.5); 2 * N_OUT];
    target[3] = F(1.5);
    net.backward(&target);
    // (0.5 - 1.5) * 2 / 20 = -0.1, times 0.25
    assert_eq!(net.grad_buf.len(), 2 * N_OUT);
    assert_eq!(net.grad_buf[3], F(-0.1 * 0.25));
    assert_eq!(net.grad_buf[4], F(0.));
    assert_eq!(net.l0.bias.grad[3], F(-0.1 * 0.25));
    assert_eq!(net.l0.bias.grad[2], F(0.));
    assert_eq!(net.l0.weight.grad.len(), N_IN * N_OUT);
    assert_eq!(net.l0.weight.grad[3], F(-0.1 * 0.25));
    assert_eq!(net.l0.weight.grad[2], F(0.));
    assert!(net.l0.inp.is_empty());
    net.zero_grad();
    assert_eq!(net.l0.bias.grad, vec![F(0.); N_OUT]);
    assert_eq!(net.l0.weight.grad, vec![F(0.); N_IN * N_OUT]);
    assert_eq!(unwrap(&net.out), vec![0.5; 2 * N_OUT]);
    // a second pass starts from a zero gradient buffer as the first did
    net.forward(&x, 2);
    net.backward(&target);
    assert_eq!(net.grad_buf[3], F(-0.1 * 0.25));
    assert_eq!(net.grad_buf[4], F(0.));
    assert_eq!(net.l0.bias.grad[3], F(-0.1 * 0.25));
}

#[test]
fn perceptron_applies_weights_and_the_logistic_function() {
    let mut weight = vec![F(0.); N_IN * N_OUT];
    weight[0] = F(2.);
    weight[N_OUT + 1] = F(-3.);
    let mut net: Perceptron<F> = Perceptron::new(weight);
    let mut x = vec![F(0.); N_IN];
    x[0] = F(1.);
    x[1] = F(1.);
    net.forward(&x, 1);
    assert_eq!(net.out[0], F(1. / (1. + f32::exp(-2.))));
    assert_eq!(net.out[1], F(1. / (1. + f32::exp(3.))));
    assert_eq!(net.out[2], F(0.5));
}
