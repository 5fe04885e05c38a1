use dfdx::ops::{maximum, MaxTo, MinTo, SumTo, TryStack};
use dfdx::scalar::Scalar;
use dfdx::tensor::{Cpu, Tensor};

/// Single-precision element for the kernels: IEEE arithmetic, `total_cmp`
/// ordering (a negative zero sorts below a positive one), numeric equality.
#[derive(Clone, Copy, Debug, PartialEq)]
struct F(f32);

impl Scalar for F {
    fn zero() -> F {
        F(0.0)
    }
    fn one() -> F {
        F(1.0)
    }
    fn add(a: F, b: F) -> F {
        F(a.0 + b.0)
    }
    fn mul(a: F, b: F) -> F {
        F(a.0 * b.0)
    }
    fn div_n(a: F, n: usize) -> F {
        F(a.0 / n as f32)
    }
    fn halve(a: F) -> F {
        F(0.5 * a.0)
    }
    fn exp(a: F) -> F {
        F(a.0.exp())
    }
    fn lt(a: F, b: F) -> bool {
        a.0.total_cmp(&b.0) == std::cmp::Ordering::Less
    }
    fn eq_num(a: F, b: F) -> bool {
        a.0 == b.0
    }
    fn standard_normal(rng: &mut rand::rngs::StdRng) -> F {
        F(rand::Rng::sample(rng, rand_distr::StandardNormal))
    }
}

fn tensor(dev: &mut Cpu, data: &[f32], shape: &[usize]) -> Tensor<F> {
    let v: Vec<F> = data.iter().map(|x| F(*x)).collect();
    dev.tensor_from_vec(v, shape.to_vec())
}

fn values(t: &Tensor<F>) -> Vec<f32> {
    t.as_vec().iter().map(|x| x.0).collect()
}

fn grad_values(g: &dfdx::tape::Gradients<F>, t: &Tensor<F>) -> Vec<f32> {
    g.get(t).iter().map(|x| x.0).collect()
}

fn assert_close(a: &[f32], b: &[f32]) {
    assert_eq!(a.len(), b.len());
    for i in 0..a.len() {
        assert!((a[i] - b[i]).abs() <= 1e-6, "{} vs {} at {}", a[i], b[i], i);
    }
}

fn all_axes(rank: usize) -> Vec<usize> {
    (0..rank).collect()
}

#[test]
fn test_sum_1d() {
    let mut dev = Cpu::default();
    let t = tensor(&mut dev, &[1.0, 2.0, 3.0], &[3]);
    let r = t.trace().sum(&mut dev, &all_axes(1));
    let e = 6.0f32;
    assert_eq!(values(&r), vec![e]);
    let g = r.exp(&mut dev).backward();
    assert_eq!(grad_values(&g, &t), vec![e.exp(); 3]);
}

#[test]
fn test_sum_axis_0_2d() {
    let mut dev = Cpu::default();
    let t = tensor(&mut dev, &[1.0, 2.0, 3.0, -2.0, 4.0, -6.0], &[2, 3]);
    let r = t.trace().sum(&mut dev, &vec![0]);
    let e = [-1.0f32, 6.0, -3.0];
    assert_eq!(values(&r), e.to_vec());
    let g = r.exp(&mut dev).mean(&mut dev).backward();
    let row: Vec<f32> = e.iter().map(|x| x.exp() / 3.0).collect();
    let mut want = row.clone();
    want.extend(row);
    assert_close(&grad_values(&g, &t), &want);
}

#[test]
fn test_sum_axis_1_2d() {
    let mut dev = Cpu::default();
    let t = tensor(&mut dev, &[1.0, 2.0, 3.0, -2.0, 4.0, -6.0], &[2, 3]);
    let r = t.trace().sum(&mut dev, &vec![1]);
    let e = [6.0f32, -4.0];
    assert_eq!(values(&r), e.to_vec());
    let g = r.exp(&mut dev).mean(&mut dev).backward();
    let want = vec![
        e[0].exp() / 2.0,
        e[0].exp() / 2.0,
        e[0].exp() / 2.0,
        e[1].exp() / 2.0,
        e[1].exp() / 2.0,
        e[1].exp() / 2.0,
    ];
    assert_close(&grad_values(&g, &t), &want);
}

#[test]
fn test_sum_axes_3d_to_1d() {
    let mut dev = Cpu::default();
    let t: Tensor<F> = dev.sample_normal_like(&vec![2, 3, 4]);
    let r = t.trace().sum(&mut dev, &vec![0, 2]);
    let r2 = t
        .trace()
        .sum(&mut dev, &vec![0])
        .sum(&mut dev, &vec![1]);
    assert_close(&values(&r), &values(&r2));
    let g = r.sum(&mut dev, &all_axes(1)).backward();
    let g2 = r2.sum(&mut dev, &all_axes(1)).backward();
    assert_close(&grad_values(&g, &t), &grad_values(&g2, &t));
}

#[test]
fn test_sum_broadcasted() {
    let mut dev = Cpu::default();
    let t1: Tensor<F> = dev.sample_normal_like(&vec![4, 3]);
    let t2 = t1.retaped().broadcast(&mut dev, &vec![4, 3, 5], &vec![2]);
    let r1 = t1
        .trace()
        .sum(&mut dev, &vec![1])
        .mul_scalar(&mut dev, F(5.0));
    let r2 = t2.trace().sum(&mut dev, &vec![1, 2]);
    let a = values(&r1);
    let b = values(&r2);
    assert_eq!(a.len(), b.len());
    for i in 0..a.len() {
        assert!((a[i] - b[i]).abs() <= 3e-6);
    }
    let g = r1.sum(&mut dev, &all_axes(1)).backward();
    assert_close(&grad_values(&g, &t1), &vec![5.0; 12]);
}

#[test]
fn test_sum_chunking() {
    let mut dev = Cpu::default();
    let t = tensor(&mut dev, &vec![1.0; 6000], &[60, 100]);
    let r = t.trace().sum(&mut dev, &vec![1]);
    assert_eq!(values(&r), vec![100.0; 60]);
    let g = r.sum(&mut dev, &all_axes(1)).backward();
    assert_close(&grad_values(&g, &t), &values(&t));
}

#[test]
fn test_sum_reduce_to_more_than_physical_elements() {
    let mut dev = Cpu::default();
    let a = tensor(&mut dev, &[1.0, 2.0, 3.0], &[3]);
    let b = a.retaped().broadcast(&mut dev, &vec![4, 3, 2], &vec![0, 2]);
    let c = b.sum(&mut dev, &vec![2]);
    assert_eq!(
        values(&c),
        vec![2.0, 4.0, 6.0, 2.0, 4.0, 6.0, 2.0, 4.0, 6.0, 2.0, 4.0, 6.0]
    );
}

#[test]
fn test_sum_reduce_to_0d_from_broadcasted() {
    let mut dev = Cpu::default();
    let a = tensor(&mut dev, &[1.0, 1.0, 1.0], &[3]);
    let b = a.trace().broadcast(&mut dev, &vec![4, 3, 2], &vec![0, 2]);
    let c = b.sum(&mut dev, &all_axes(3));
    assert_eq!(values(&c), vec![24.0]);
    let g = c.backward();
    assert_eq!(grad_values(&g, &a), vec![8.0; 3]);
}

#[test]
fn test_max_axis_0_2d() {
    let mut dev = Cpu::default();
    let t = tensor(&mut dev, &[1.0, 2.0, 2.0, 3.0, -2.0, 2.0], &[2, 3]);
    let r = t.trace().max(&mut dev, &vec![0]);
    assert_eq!(values(&r), vec![3.0, 2.0, 2.0]);
    let g = r.exp(&mut dev).mean(&mut dev).backward();
    assert_close(
        &grad_values(&g, &t),
        &[0.0, 2.463019, 2.463019, 6.695179, 0.0, 2.463019],
    );
}

#[test]
fn test_max_axis_1_2d() {
    let mut dev = Cpu::default();
    let t = tensor(&mut dev, &[1.0, 2.0, 2.0, 3.0, -2.0, 2.0], &[2, 3]);
    let r = t.trace().max(&mut dev, &vec![1]);
    assert_eq!(values(&r), vec![2.0, 3.0]);
    let g = r.sum(&mut dev, &all_axes(1)).backward();
    assert_eq!(
        grad_values(&g, &t),
        vec![0.0, 1.0, 1.0, 1.0, 0.0, 0.0]
    );
}

#[test]
fn test_max_axes_3d_to_1d() {
    let mut dev = Cpu::default();
    let t: Tensor<F> = dev.sample_normal_like(&vec![2, 3, 4]);
    let r = t.trace().max(&mut dev, &vec![0, 1]);
    let r2 = t
        .trace()
        .max(&mut dev, &vec![0])
        .max(&mut dev, &vec![0]);
    assert_close(&values(&r), &values(&r2));
    let g = r.mean(&mut dev).backward();
    let g2 = r2.mean(&mut dev).backward();
    assert_close(&grad_values(&g, &t), &grad_values(&g2, &t));
}

#[test]
fn test_max_negative_zero() {
    let mut dev = Cpu::default();
    let t = tensor(
        &mut dev,
        &[-0.0, 0.0, 0.0, -0.0, -1.0, -0.0, -1.0, 0.0],
        &[4, 2],
    );
    let r = t.trace().max(&mut dev, &vec![1]);
    assert_eq!(values(&r), vec![0.0, 0.0, -0.0, 0.0]);
    let g = r.sum(&mut dev, &all_axes(1)).backward();
    assert_eq!(
        grad_values(&g, &t),
        vec![1.0, 1.0, 1.0, 1.0, 0.0, 1.0, 0.0, 1.0]
    );
}

#[test]
fn test_min_axis_0_2d() {
    let mut dev = Cpu::default();
    let t = tensor(&mut dev, &[1.0, 1.0, 2.0, 3.0, -2.0, 2.0], &[2, 3]);
    let r = t.trace().min(&mut dev, &vec![0]);
    assert_eq!(values(&r), vec![1.0, -2.0, 2.0]);
    let g = r.exp(&mut dev).mean(&mut dev).backward();
    assert_close(
        &grad_values(&g, &t),
        &[0.90609396, 0.0, 2.463019, 0.0, 0.04511176, 2.463019],
    );
}

#[test]
fn test_min_axis_1_2d() {
    let mut dev = Cpu::default();
    let t = tensor(&mut dev, &[1.0, 1.0, 2.0, 3.0, -2.0, 2.0], &[2, 3]);
    let r = t.trace().min(&mut dev, &vec![1]);
    assert_eq!(values(&r), vec![1.0, -2.0]);
    let g = r.sum(&mut dev, &all_axes(1)).backward();
    assert_eq!(
        grad_values(&g, &t),
        vec![1.0, 1.0, 0.0, 0.0, 1.0, 0.0]
    );
}

#[test]
fn test_min_axes_3d_to_1d() {
    let mut dev = Cpu::default();
    let t: Tensor<F> = dev.sample_normal_like(&vec![2, 3, 4]);
    let r = t.trace().min(&mut dev, &vec![0, 1]);
    let r2 = t
        .trace()
        .min(&mut dev, &vec![0])
        .min(&mut dev, &vec![0]);
    assert_close(&values(&r), &values(&r2));
    let g = r.mean(&mut dev).backward();
    let g2 = r2.mean(&mut dev).backward();
    assert_close(&grad_values(&g, &t), &grad_values(&g2, &t));
}

#[test]
fn test_min_negative_zero() {
    let mut dev = Cpu::default();
    let t = tensor(
        &mut dev,
        &[-0.0, 0.0, 0.0, -0.0, -1.0, -0.0, -1.0, 0.0],
        &[4, 2],
    );
    let r = t.trace().min(&mut dev, &vec![1]);
    assert_eq!(values(&r), vec![-0.0, -0.0, -1.0, -1.0]);
    let g = r.sum(&mut dev, &all_axes(1)).backward();
    assert_eq!(
        grad_values(&g, &t),
        vec![1.0, 1.0, 1.0, 1.0, 1.0, 0.0, 1.0, 0.0]
    );
}

#[test]
fn test_maximum() {
    let mut dev = Cpu::default();
    let a = tensor(&mut dev, &[-1.0, 0.0, 1.0, 3.0, 4.0, -5.0], &[2, 3]);
    let b = tensor(&mut dev, &[0.0, 0.0, -1.0, 3.0, -4.0, 5.0], &[2, 3]);
    let result = a.trace().maximum(b.retaped(), &mut dev);
    assert_eq!(values(&result), vec![0.0, 0.0, 1.0, 3.0, 4.0, 5.0]);
    let g = result.sum(&mut dev, &all_axes(2)).backward();
    assert_eq!(
        grad_values(&g, &a),
        vec![0.0, 0.5, 1.0, 0.5, 1.0, 0.0]
    );
    assert_eq!(
        grad_values(&g, &b),
        vec![1.0, 0.5, 0.0, 0.5, 0.0, 1.0]
    );
}

#[test]
fn test_free_maximum_matches_method() {
    let mut dev = Cpu::default();
    let a = tensor(&mut dev, &[1.0, -2.0], &[2]);
    let b = tensor(&mut dev, &[0.5, 7.0], &[2]);
    let r = maximum(a.retaped(), b.retaped(), &mut dev);
    assert_eq!(values(&r), vec![1.0, 7.0]);
}

#[test]
fn test_minimum_splits_ties() {
    let mut dev = Cpu::default();
    let a = tensor(&mut dev, &[-1.0, 0.0, 1.0, 3.0, 4.0, -5.0], &[2, 3]);
    let b = tensor(&mut dev, &[0.0, 0.0, -1.0, 3.0, -4.0, 5.0], &[2, 3]);
    let result = a.trace().try_minimum(b.retaped(), &mut dev).unwrap();
    assert_eq!(values(&result), vec![-1.0, 0.0, -1.0, 3.0, -4.0, -5.0]);
    let g = result.sum(&mut dev, &all_axes(2)).backward();
    assert_eq!(
        grad_values(&g, &a),
        vec![1.0, 0.5, 0.0, 0.5, 0.0, 1.0]
    );
    assert_eq!(
        grad_values(&g, &b),
        vec![0.0, 0.5, 1.0, 0.5, 1.0, 0.0]
    );
}

#[test]
fn test_reshape_backward_returns_shape() {
    let mut dev = Cpu::default();
    let t = tensor(&mut dev, &[1.0, 2.0, 3.0, 4.0, 5.0, 6.0], &[2, 3]);
    let r = t.trace().reshape(&mut dev, &vec![6]);
    let s = r.mul_scalar(&mut dev, F(2.0)).sum(&mut dev, &all_axes(1));
    let g = s.backward();
    assert_eq!(grad_values(&g, &t), vec![2.0; 6]);
}

#[test]
fn test_valid_stacks() {
    let mut dev = Cpu::default();

    let x: Tensor<F> = dev.sample_normal_like(&vec![]);
    let y: Tensor<F> = dev.sample_normal_like(&vec![]);
    let r = dev.stack(vec![x, y]);
    assert_eq!(r.shape, vec![2]);

    let x: Tensor<F> = dev.sample_normal_like(&vec![3]);
    let y: Tensor<F> = dev.sample_normal_like(&vec![3]);
    let z: Tensor<F> = dev.sample_normal_like(&vec![3]);
    let r = dev.stack(vec![x, y, z]);
    assert_eq!(r.shape, vec![3, 3]);

    let x: Tensor<F> = dev.sample_normal_like(&vec![2, 3]);
    let y: Tensor<F> = dev.sample_normal_like(&vec![2, 3]);
    let z: Tensor<F> = dev.sample_normal_like(&vec![2, 3]);
    let r = dev.stack(vec![x, y, z]);
    assert_eq!(r.shape[0], 3);
}

#[test]
fn test_stack_with_all_broadcasted() {
    let mut dev = Cpu::default();
    let x: Tensor<F> = dev.sample_normal_like(&vec![3]);
    let y: Tensor<F> = dev.sample_normal_like(&vec![3]);
    let bx = x.trace().broadcast(&mut dev, &vec![4, 3], &vec![0]);
    let by = y.trace().broadcast(&mut dev, &vec![4, 3], &vec![0]);
    let r = dev.stack(vec![bx, by]);
    let mut want: Vec<f32> = Vec::new();
    for _ in 0..4 {
        want.extend(values(&x));
    }
    for _ in 0..4 {
        want.extend(values(&y));
    }
    assert_eq!(values(&r), want);
    let g = r
        .exp(&mut dev)
        .mean(&mut dev)
        .backward();
    let r1 = dev.stack(vec![x.trace(), y.trace()]);
    let g1 = r1.exp(&mut dev).mean(&mut dev).backward();
    assert_eq!(grad_values(&g, &x), grad_values(&g1, &x));
    assert_eq!(grad_values(&g, &y), grad_values(&g1, &y));
}

#[test]
fn test_stack_backwards() {
    let mut dev = Cpu::default();
    let x: Tensor<F> = dev.sample_normal_like(&vec![2, 3]);
    let y: Tensor<F> = dev.sample_normal_like(&vec![2, 3]);
    let z: Tensor<F> = dev.sample_normal_like(&vec![2, 3]);
    let r = dev.stack(vec![x.trace(), y.trace(), z.trace()]);
    let mut want = values(&x);
    want.extend(values(&y));
    want.extend(values(&z));
    assert_eq!(values(&r), want);
    let r1 = r.retaped();
    let g1 = r1.trace().exp(&mut dev).mean(&mut dev).backward();
    let g = r.exp(&mut dev).mean(&mut dev).backward();
    let r_grad = grad_values(&g1, &r1);
    assert_eq!(r_grad[0..6].to_vec(), grad_values(&g, &x));
    assert_eq!(r_grad[6..12].to_vec(), grad_values(&g, &y));
    assert_eq!(r_grad[12..18].to_vec(), grad_values(&g, &z));
}
