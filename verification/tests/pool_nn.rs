use dfdx::nn::{Module, NumParams, Residual, TensorCollection, TensorOptions, TensorVisitor};
use dfdx::ops::SumTo;
use dfdx::scalar::Scalar;
use dfdx::tensor::{Cpu, CpuError, Tensor};

/// Single-precision element for the kernels: IEEE arithmetic, `total_cmp`
/// ordering (a negative zero sorts below a positive one), numeric equality.
#[derive(Clone, Copy, Debug, PartialEq)]
struct F(f32);

impl Scalar for F {
    fn zero() -> F {
        F(0.0)
    }
    fn one() -> F {
        F(1.0)
    }
    fn add(a: F, b: F) -> F {
        F(a.0 + b.0)
    }
    fn mul(a: F, b: F) -> F {
        F(a.0 * b.0)
    }
    fn div_n(a: F, n: usize) -> F {
        F(a.0 / n as f32)
    }
    fn halve(a: F) -> F {
        F(0.5 * a.0)
    }
    fn exp(a: F) -> F {
        F(a.0.exp())
    }
    fn lt(a: F, b: F) -> bool {
        a.0.total_cmp(&b.0) == std::cmp::Ordering::Less
    }
    fn eq_num(a: F, b: F) -> bool {
        a.0 == b.0
    }
    fn standard_normal(rng: &mut rand::rngs::StdRng) -> F {
        F(rand::Rng::sample(rng, rand_distr::StandardNormal))
    }
}

fn tensor(dev: &mut Cpu, data: &[f32], shape: &[usize]) -> Tensor<F> {
    let v: Vec<F> = data.iter().map(|x| F(*x)).collect();
    dev.tensor_from_vec(v, shape.to_vec())
}

fn values(t: &Tensor<F>) -> Vec<f32> {
    t.as_vec().iter().map(|x| x.0).collect()
}

fn grad_values(g: &dfdx::tape::Gradients<F>, t: &Tensor<F>) -> Vec<f32> {
    g.get(t).iter().map(|x| x.0).collect()
}

fn assert_close(a: &[f32], b: &[f32]) {
    assert_eq!(a.len(), b.len());
    for i in 0..a.len() {
        assert!((a[i] - b[i]).abs() <= 1e-6, "{} vs {} at {}", a[i], b[i], i);
    }
}

fn all_axes(rank: usize) -> Vec<usize> {
    (0..rank).collect()
}

#[test]
fn test_pool2d_3d_max2d_eq_grads() {
    let mut dev = Cpu::default();
    let x = tensor(
        &mut dev,
        &[1.0, 1.0, 0.5, 0.2, 0.2, 0.2, 0.5, 1.2],
        &[1, 2, 4],
    );
    let r = x.trace().max_pool2d(&mut dev, 2, 1, 0);
    assert_close(&values(&r), &[1.0, 1.0, 1.2]);
    let g = r.sum(&mut dev, &all_axes(3)).backward();
    assert_close(
        &grad_values(&g, &x),
        &[1.0, 2.0, 0.0, 0.0, 0.0, 0.0, 0.0, 1.0],
    );
}

#[test]
fn test_pool2d_3d_min2d_eq_grads() {
    let mut dev = Cpu::default();
    let x = tensor(
        &mut dev,
        &[1.0, 1.0, 0.5, 0.2, 0.2, 0.2, 0.5, 1.2],
        &[1, 2, 4],
    );
    let r = x.trace().min_pool2d(&mut dev, 2, 1, 0);
    assert_close(&values(&r), &[0.2, 0.2, 0.2]);
    let g = r.sum(&mut dev, &all_axes(3)).backward();
    assert_close(
        &grad_values(&g, &x),
        &[0.0, 0.0, 0.0, 1.0, 1.0, 2.0, 0.0, 0.0],
    );
}

#[test]
fn test_pool2d_3d_max2d() {
    let mut dev = Cpu::seed_from_u64(234);
    let x: Tensor<F> = dev.sample_normal_like(&vec![2, 3, 4]);
    let r = x.trace().max_pool2d(&mut dev, 2, 2, 0);
    assert_close(
        &values(&r),
        &[1.79155397, 1.10126066, 1.14464748, 2.26301837],
    );
    let g = r.exp(&mut dev).mean(&mut dev).backward();
    assert_close(
        &grad_values(&g, &x),
        &[
            1.49969184, 0.0, 0.0, 0.75198889, 0.0, 0.0, 0.0, 0.0, 0.0, 0.0, 0.0, 0.0, 0.0,
            0.0, 2.40301466, 0.0, 0.78533345, 0.0, 0.0, 0.0, 0.0, 0.0, 0.0, 0.0,
        ],
    );
}

#[test]
fn test_pool2d_3d_min2d() {
    let mut dev = Cpu::seed_from_u64(234);
    let x: Tensor<F> = dev.sample_normal_like(&vec![2, 3, 4]);
    let r = x.trace().min_pool2d(&mut dev, 2, 2, 0);
    assert_close(
        &values(&r),
        &[-1.09635627, -1.07717276, -0.01996479, -1.82562149],
    );
    let g = r.exp(&mut dev).mean(&mut dev).backward();
    assert_close(
        &grad_values(&g, &x),
        &[
            0.0, 0.0, 0.0, 0.0, 0.083521545, 0.0, 0.0, 0.08513925, 0.0, 0.0, 0.0, 0.0, 0.0,
            0.2450583, 0.0, 0.04027937, 0.0, 0.0, 0.0, 0.0, 0.0, 0.0, 0.0, 0.0,
        ],
    );
}

#[test]
fn test_pool2d_3d_avg2d() {
    let mut dev = Cpu::seed_from_u64(234);
    let x: Tensor<F> = dev.sample_normal_like(&vec![2, 3, 4]);
    let r = x.trace().avg_pool2d(&mut dev, 2, 2, 0);
    assert_close(
        &values(&r),
        &[0.03031558, -0.25052455, 0.39499030, 0.04878314],
    );
    let g = r.exp(&mut dev).mean(&mut dev).backward();
    assert_close(
        &grad_values(&g, &x),
        &[
            0.06442373, 0.06442373, 0.048649523, 0.048649523, 0.06442373, 0.06442373,
            0.048649523, 0.048649523, 0.0, 0.0, 0.0, 0.0, 0.09277311, 0.09277311, 0.06562454,
            0.06562454, 0.09277311, 0.09277311, 0.06562454, 0.06562454, 0.0, 0.0, 0.0, 0.0,
        ],
    );
}

#[test]
fn test_pool2d_4d_avg2d() {
    let mut dev = Cpu::seed_from_u64(234);
    let x: Tensor<F> = dev.sample_normal_like(&vec![2, 4, 2, 2]);
    let r = x.trace().avg_pool2d(&mut dev, 1, 2, 0);
    assert_close(
        &values(&r),
        &[
            1.791554, -1.0963563, 0.86268073, 0.28538525, 1.1446475, 0.2833436, -1.2026008,
            0.21327473,
        ],
    );
    let g = r.exp(&mut dev).mean(&mut dev).backward();
    assert_close(
        &grad_values(&g, &x),
        &[
            0.7498459, 0.0, 0.0, 0.0, 0.041760772, 0.0, 0.0, 0.0, 0.29618803, 0.0, 0.0, 0.0,
            0.16628431, 0.0, 0.0, 0.0, 0.39266673, 0.0, 0.0, 0.0, 0.16594516, 0.0, 0.0, 0.0,
            0.037551485, 0.0, 0.0, 0.0, 0.15471558, 0.0, 0.0, 0.0,
        ],
    );
}

#[test]
fn test_pool2d_identity_window() {
    // with a unit kernel, unit stride and no padding, pooling is the
    // identity forward and backward, whichever family runs
    let mut dev = Cpu::default();
    let x = tensor(&mut dev, &[1.5, -2.0, 0.25, 4.0, -0.5, 3.0], &[1, 2, 3]);
    let r = x.trace().avg_pool2d(&mut dev, 1, 1, 0);
    assert_eq!(values(&r), values(&x));
    let g = r.sum(&mut dev, &all_axes(3)).backward();
    assert_eq!(grad_values(&g, &x), vec![1.0; 6]);
    let r2 = x.trace().max_pool2d(&mut dev, 1, 1, 0);
    assert_eq!(values(&r2), values(&x));
    let g2 = r2.sum(&mut dev, &all_axes(3)).backward();
    assert_eq!(grad_values(&g2, &x), vec![1.0; 6]);
}

/// A module scaling each element by a constant: enough structure to close a
/// residual connection over.
struct Scale(f32);

impl Module<F> for Scale {
    fn try_forward(&self, x: Tensor<F>, dev: &mut Cpu) -> Result<Tensor<F>, CpuError> {
        Ok(x.mul_scalar(dev, F(self.0)))
    }
    fn try_forward_mut(&mut self, x: Tensor<F>, dev: &mut Cpu) -> Result<Tensor<F>, CpuError> {
        Ok(x.mul_scalar(dev, F(self.0)))
    }
}

impl TensorCollection<F> for Scale {
    fn iter_tensors<V: TensorVisitor<F>>(&self, _visitor: &mut V) -> Result<(), CpuError> {
        Ok(())
    }
}

#[test]
fn test_residual_forward_adds_input() {
    let mut dev = Cpu::default();
    let model = Residual(Scale(2.0));
    let x = tensor(&mut dev, &[-2.0, -1.0, 0.0, 1.0, 2.0], &[5]);
    let y = model.try_forward(x.trace(), &mut dev).unwrap();
    assert_eq!(values(&y), vec![-6.0, -3.0, 0.0, 3.0, 6.0]);
    let g = y.sum(&mut dev, &all_axes(1)).backward();
    assert_eq!(grad_values(&g, &x), vec![3.0; 5]);
}

/// A parameter holder with one trainable and one frozen slot.
struct TwoSlots {
    weight: Tensor<F>,
    frozen: Tensor<F>,
}

impl TensorCollection<F> for TwoSlots {
    fn iter_tensors<V: TensorVisitor<F>>(&self, visitor: &mut V) -> Result<(), CpuError> {
        visitor.visit(
            "weight",
            TensorOptions { do_gradient_update: true },
            &self.weight,
        )?;
        visitor.visit(
            "frozen",
            TensorOptions { do_gradient_update: false },
            &self.frozen,
        )
    }
}

#[test]
fn test_num_trainable_params_respects_options() {
    let mut dev = Cpu::default();
    let m = TwoSlots {
        weight: tensor(&mut dev, &[1.0; 6], &[2, 3]),
        frozen: tensor(&mut dev, &[1.0; 4], &[4]),
    };
    assert_eq!(m.num_trainable_params(), 6);
}

#[test]
fn test_wrong_element_count_is_refused() {
    let mut dev = Cpu::default();
    let v: Vec<F> = vec![F(1.0), F(2.0), F(3.0)];
    let r = dev.try_tensor_from_vec(v, vec![2, 2]);
    assert!(matches!(r, Err(CpuError::WrongNumElements)));
}

#[test]
fn test_reshape_round_trip_is_identity() {
    let mut dev = Cpu::default();
    let t = tensor(&mut dev, &[1.0, 2.0, 3.0, 4.0, 5.0, 6.0], &[2, 3]);
    let r = t
        .retaped()
        .reshape(&mut dev, &vec![3, 2])
        .reshape(&mut dev, &vec![2, 3]);
    assert_eq!(values(&r), values(&t));
    assert_eq!(r.shape, t.shape);
}

#[test]
fn test_sum_then_backward_gives_ones() {
    let mut dev = Cpu::default();
    let t = tensor(&mut dev, &[0.25, -3.5, 7.0, 0.0], &[2, 2]);
    let y = t.trace().sum(&mut dev, &all_axes(2));
    let g = y.backward();
    assert_eq!(grad_values(&g, &t), vec![1.0; 4]);
}

#[test]
fn test_broadcast_then_sum_scales_by_axis_size() {
    let mut dev = Cpu::default();
    let a = tensor(&mut dev, &[1.25, -2.0, 3.5], &[3]);
    let b = a.trace().broadcast(&mut dev, &vec![4, 3, 2], &vec![0, 2]);
    let c = b.sum(&mut dev, &vec![0, 2]);
    assert_eq!(values(&c), vec![8.0 * 1.25, 8.0 * -2.0, 8.0 * 3.5]);
}

#[test]
fn test_permute_transposes_and_inverts() {
    let mut dev = Cpu::default();
    let t = tensor(&mut dev, &[1.0, 2.0, 3.0, 4.0, 5.0, 6.0], &[2, 3]);
    let y = t.retaped().permute(&mut dev, &vec![1, 0]);
    assert_eq!(y.shape, vec![3, 2]);
    assert_eq!(values(&y), vec![1.0, 4.0, 2.0, 5.0, 3.0, 6.0]);
    let z = y.permute(&mut dev, &vec![1, 0]);
    assert_eq!(z.shape, t.shape);
    assert_eq!(values(&z), values(&t));
}

#[test]
fn test_permute_backward_routes_gradients() {
    let mut dev = Cpu::default();
    let t = tensor(&mut dev, &[1.0, 2.0, 3.0, 4.0], &[2, 2]);
    let y = t.trace().permute(&mut dev, &vec![1, 0]);
    let s = y.mul_scalar(&mut dev, F(3.0)).sum(&mut dev, &all_axes(2));
    let g = s.backward();
    assert_eq!(grad_values(&g, &t), vec![3.0; 4]);
}

#[test]
fn test_mean_divides_full_sum() {
    let mut dev = Cpu::default();
    let t = tensor(&mut dev, &[1.0, 2.0, 3.0, 6.0], &[4]);
    let m = t.trace().mean(&mut dev);
    assert_eq!(values(&m), vec![3.0]);
    let g = m.backward();
    assert_eq!(grad_values(&g, &t), vec![0.25; 4]);
}

#[test]
fn test_tape_records_one_step_per_operation() {
    let mut dev = Cpu::default();
    let t = tensor(&mut dev, &[1.0, 2.0], &[2]);
    let a = t.trace().exp(&mut dev);
    let b = a.mul_scalar(&mut dev, F(3.0));
    let c = b.sum(&mut dev, &all_axes(1));
    match &c.tape {
        dfdx::tape::Tape::Traced(ot) => assert_eq!(ot.ops.len(), 3),
        dfdx::tape::Tape::Untraced => panic!("tape lost"),
    }
}
