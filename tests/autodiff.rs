use backprop::ops;
use backprop::{
    AutodiffError, Indexer, LinearLayer, ParameterStore, Tape, TapeIds, TensorBackend, Var,
};
use ndarray::{ArrayD, Ix2, IxDyn};
use ndarray_rand::rand_distr::Uniform;
use ndarray_rand::RandomExt;

/// Dense row-major backend over ndarray.
#[derive(Debug, Clone, PartialEq)]
struct NdArray(ArrayD<f32>);

impl NdArray {
    fn from_slice(values: &[f32]) -> NdArray {
        NdArray(ArrayD::from_shape_vec(IxDyn(&[values.len()]), values.to_vec()).unwrap())
    }

    fn from_shape(shape: &[usize], values: &[f32]) -> NdArray {
        NdArray(ArrayD::from_shape_vec(IxDyn(shape), values.to_vec()).unwrap())
    }

    fn at(&self, coords: &[usize]) -> f32 {
        self.0[IxDyn(coords)]
    }

    fn to_vec(&self) -> Vec<f32> {
        self.0.iter().cloned().collect()
    }

    fn zeros(shape: &[usize]) -> NdArray {
        NdArray(ArrayD::zeros(IxDyn(shape)))
    }

    fn ones(shape: &[usize]) -> NdArray {
        NdArray(ArrayD::ones(IxDyn(shape)))
    }
}

/// Slope of the leaky rectifier on negative inputs.
const LEAK: f32 = 0.1;

impl TensorBackend for NdArray {
    // The named results of the backend are its own operations.
    fn spec_shape(&self) -> Vec<usize> {
        self.shape()
    }

    fn spec_zeros_like(&self) -> NdArray {
        self.zeros_like()
    }

    fn spec_one() -> NdArray {
        NdArray::one()
    }

    fn spec_add(&self, rhs: &NdArray) -> NdArray {
        self.add(rhs)
    }

    fn spec_sub(&self, rhs: &NdArray) -> NdArray {
        self.sub(rhs)
    }

    fn spec_mul(&self, rhs: &NdArray) -> NdArray {
        self.mul(rhs)
    }

    fn spec_matmul2d(&self, rhs: &NdArray) -> NdArray {
        self.matmul2d(rhs)
    }

    fn spec_transposed(&self) -> NdArray {
        self.transposed()
    }

    fn spec_sum(&self) -> NdArray {
        self.sum()
    }

    fn spec_broadcast(&self, scalar: &NdArray) -> NdArray {
        self.broadcast(scalar)
    }

    fn spec_scale(&self, factor: &NdArray) -> NdArray {
        self.scale(factor)
    }

    fn spec_exp(&self) -> NdArray {
        self.exp()
    }

    fn spec_leaky_relu(&self) -> NdArray {
        self.leaky_relu()
    }

    fn spec_leaky_relu_slope(&self) -> NdArray {
        self.leaky_relu_slope()
    }

    fn spec_log_softmax(&self) -> NdArray {
        self.log_softmax()
    }

    fn shape(&self) -> Vec<usize> {
        self.0.shape().to_vec()
    }

    fn rand(shape: &[usize]) -> NdArray {
        NdArray(ArrayD::random(IxDyn(shape), Uniform::new(0., 10.)))
    }

    fn copy(&self) -> NdArray {
        self.clone()
    }

    fn zeros_like(&self) -> NdArray {
        NdArray(ArrayD::zeros(self.0.raw_dim()))
    }

    fn one() -> NdArray {
        NdArray::from_slice(&[1.])
    }

    fn add(&self, rhs: &NdArray) -> NdArray {
        assert_eq!(self.0.shape(), rhs.0.shape(), "Can only add elements of same shape");
        NdArray(&self.0 + &rhs.0)
    }

    fn sub(&self, rhs: &NdArray) -> NdArray {
        assert_eq!(self.0.shape(), rhs.0.shape(), "Can only sub elements of same shape");
        NdArray(&self.0 - &rhs.0)
    }

    fn mul(&self, rhs: &NdArray) -> NdArray {
        assert_eq!(self.0.shape(), rhs.0.shape(), "Can only mul elements of same shape");
        NdArray(&self.0 * &rhs.0)
    }

    fn matmul2d(&self, rhs: &NdArray) -> NdArray {
        let a = self.0.view().into_dimensionality::<Ix2>().expect("rank 2 expected");
        let b = rhs.0.view().into_dimensionality::<Ix2>().expect("rank 2 expected");
        NdArray(a.dot(&b).into_dyn())
    }

    fn transposed(&self) -> NdArray {
        let mut t = self.0.clone();
        t.swap_axes(0, 1);
        NdArray(t)
    }

    fn sum(&self) -> NdArray {
        NdArray::from_slice(&[self.0.sum()])
    }

    fn broadcast(&self, scalar: &NdArray) -> NdArray {
        NdArray(ArrayD::from_elem(self.0.raw_dim(), scalar.0[[0]]))
    }

    fn scale(&self, factor: &NdArray) -> NdArray {
        NdArray(&self.0 * factor.0[[0]])
    }

    fn exp(&self) -> NdArray {
        NdArray(self.0.mapv(f32::exp))
    }

    fn leaky_relu(&self) -> NdArray {
        NdArray(self.0.mapv(|v| if v < 0. { LEAK * v } else { v }))
    }

    fn leaky_relu_slope(&self) -> NdArray {
        NdArray(self.0.mapv(|v| if v < 0. { LEAK } else { 1. }))
    }

    fn log_softmax(&self) -> NdArray {
        let max = self.0.fold(f32::NEG_INFINITY, |m, &v| m.max(v));
        let lse = max + self.0.mapv(|v| (v - max).exp()).sum().ln();
        NdArray(self.0.mapv(|v| v - lse))
    }
}

type Computation = dyn Fn(&mut Tape<NdArray>, &Var) -> Var;

/// Checks the gradient of `computation` at `input` coordinate by coordinate against the
/// change of its output when that coordinate is moved by a small step.
fn validate_grad(input: NdArray, computation: &Computation) {
    let delta = 0.01;
    let mut ids = TapeIds::new();
    let mut tape = Tape::new(&mut ids);
    let x = tape.new_var(input.clone());
    let y = computation(&mut tape, &x);
    let output = y.value(&tape).unwrap().at(&[0]);
    let grad = y.grad(&tape).unwrap();
    let dy_dx = grad.wrt(&x).unwrap().clone();
    let shape = input.shape();
    let mut indexer = Indexer::new(shape.as_slice());
    let mut checked = 0;
    while let Some(c) = indexer.next() {
        let mut bumped = input.clone();
        bumped.0[IxDyn(&c)] += delta;
        let mut other = Tape::new(&mut ids);
        let x2 = other.new_var(bumped);
        let y2 = computation(&mut other, &x2);
        let actual = y2.value(&other).unwrap().at(&[0]);
        let predicted = output + delta * dy_dx.at(&c);
        assert!((actual - predicted).abs() < 1e-3, "at {:?}: {} vs {}", c, actual, predicted);
        checked += 1;
    }
    assert_eq!(checked, input.0.len());
}

fn add_twice(t: &mut Tape<NdArray>, input: &Var) -> Var {
    let two = t.new_var(NdArray::from_slice(&[2.]));
    let x = ops::add(t, input, &two).unwrap();
    ops::add(t, &x, input).unwrap()
}

#[test]
fn add_test() {
    validate_grad(NdArray::from_slice(&[1.]), &add_twice);
}

#[test]
fn add_round_trip() {
    let mut t = Tape::new(&mut TapeIds::new());
    let x = t.new_var(NdArray::from_slice(&[1.0]));
    let z = add_twice(&mut t, &x);
    assert_eq!(z.value(&t).unwrap().to_vec(), vec![4.0]);
    let g = z.grad(&t).unwrap();
    assert_eq!(g.wrt(&x).unwrap().to_vec(), vec![2.0]);
}

fn mul_twice(t: &mut Tape<NdArray>, input: &Var) -> Var {
    let two = t.new_var(NdArray::from_slice(&[2.]));
    let x = ops::mul(t, input, &two).unwrap();
    ops::mul(t, &x, input).unwrap()
}

fn mul_twice_sum(t: &mut Tape<NdArray>, input: &Var) -> Var {
    let mut k = NdArray::zeros(&input.value(t).unwrap().shape());
    k.0.fill(2.);
    let k = t.new_var(k);
    let x = ops::mul(t, input, &k).unwrap();
    let y = ops::mul(t, &x, input).unwrap();
    ops::sum(t, &y).unwrap()
}

#[test]
fn mul_test() {
    validate_grad(NdArray::from_slice(&[1.]), &mul_twice);
    validate_grad(NdArray::from_slice(&[1., 2., 3., 4.]), &mul_twice_sum);
}

#[test]
fn mul_gradient_values() {
    let mut t = Tape::new(&mut TapeIds::new());
    let x = t.new_var(NdArray::from_slice(&[1., 2., 3., 4.]));
    let y = mul_twice_sum(&mut t, &x);
    assert_eq!(y.value(&t).unwrap().to_vec(), vec![60.]);
    let g = y.grad(&t).unwrap();
    assert_eq!(g.wrt(&x).unwrap().to_vec(), vec![4., 8., 12., 16.]);
}

fn sum_computation(t: &mut Tape<NdArray>, input: &Var) -> Var {
    ops::sum(t, input).unwrap()
}

#[test]
fn sum_test() {
    validate_grad(NdArray::from_slice(&[1., 2., 3., 4.]), &sum_computation);
}

#[test]
fn sum_gradient_is_ones() {
    let mut t = Tape::new(&mut TapeIds::new());
    let x = t.new_var(NdArray::from_shape(&[2, 2], &[1., 2., 3., 4.]));
    let y = ops::sum(&mut t, &x).unwrap();
    assert_eq!(y.value(&t).unwrap().to_vec(), vec![10.]);
    assert_eq!(y.shape(&t).unwrap(), &vec![1]);
    let g = y.grad(&t).unwrap();
    assert_eq!(g.wrt(&x).unwrap(), &NdArray::ones(&[2, 2]));
}

fn matmul_compute(t: &mut Tape<NdArray>, input: &Var) -> Var {
    let b = t.new_var(NdArray::from_shape(&[2, 2], &[5., 6., 7., 8.]));
    let x = ops::matmul(t, input, &b).unwrap();
    let y = ops::matmul(t, &x, input).unwrap();
    ops::sum(t, &y).unwrap()
}

#[test]
fn matmul_matmul_test() {
    validate_grad(NdArray::from_shape(&[2, 2], &[1., 2., 3., 4.]), &matmul_compute);
}

#[test]
fn matmul_forward_and_shape() {
    let mut t = Tape::new(&mut TapeIds::new());
    let a = t.new_var(NdArray::from_shape(&[2, 3], &[1., 2., 3., 4., 5., 6.]));
    let b = t.new_var(NdArray::from_shape(&[3, 1], &[1., 0., -1.]));
    let c = ops::matmul(&mut t, &a, &b).unwrap();
    assert_eq!(c.shape(&t).unwrap(), &vec![2, 1]);
    assert_eq!(c.value(&t).unwrap().to_vec(), vec![-2., -2.]);
    let y = ops::sum(&mut t, &c).unwrap();
    let g = y.grad(&t).unwrap();
    assert_eq!(g.wrt(&a).unwrap().to_vec(), vec![1., 0., -1., 1., 0., -1.]);
    assert_eq!(g.wrt(&b).unwrap().to_vec(), vec![5., 7., 9.]);
}

fn relu_comp(t: &mut Tape<NdArray>, input: &Var) -> Var {
    let y = ops::relu(t, input).unwrap();
    ops::sum(t, &y).unwrap()
}

#[test]
fn relu_test() {
    validate_grad(NdArray::from_slice(&[-2., -1., 0., 1., 2.]), &relu_comp);
}

#[test]
fn relu_forward_and_gradient() {
    let mut t = Tape::new(&mut TapeIds::new());
    let x = t.new_var(NdArray::from_slice(&[-2., -1., 0., 1., 2.]));
    let y = relu_comp(&mut t, &x);
    assert!((y.value(&t).unwrap().at(&[0]) - 2.7).abs() < 1e-6);
    let g = y.grad(&t).unwrap();
    assert_eq!(g.wrt(&x).unwrap().to_vec(), vec![0.1, 0.1, 1., 1., 1.]);
}

fn logsoftmax_compute(t: &mut Tape<NdArray>, input: &Var) -> Var {
    let y = ops::logsoftmax(t, input).unwrap();
    ops::sum(t, &y).unwrap()
}

#[test]
fn logsoftmax_test() {
    validate_grad(NdArray::from_slice(&[1., 2., 3., 4.]), &logsoftmax_compute);
}

#[test]
fn logsoftmax_of_equal_values() {
    let mut t = Tape::new(&mut TapeIds::new());
    let x = t.new_var(NdArray::from_slice(&[0., 0.]));
    let y = ops::logsoftmax(&mut t, &x).unwrap();
    for v in y.value(&t).unwrap().to_vec() {
        assert!((v - (0.5f32).ln()).abs() < 1e-6);
    }
    let s = ops::sum(&mut t, &y).unwrap();
    let g = s.grad(&t).unwrap();
    for v in g.wrt(&x).unwrap().to_vec() {
        assert!(v.abs() < 1e-6);
    }
}

#[test]
fn test_matmul() {
    let mut t = Tape::new(&mut TapeIds::new());
    let a = t.new_var(NdArray::from_shape(&[2, 2], &[2., 3., 4., 5.]));
    let g = a.grad_with_seed(&t, NdArray::ones(&[2, 2])).unwrap();
    assert_eq!(g.wrt(&a).unwrap(), &NdArray::ones(&[2, 2]));
}

#[test]
fn x_times_y_plus_sin_x() {
    let mut t = Tape::new(&mut TapeIds::new());
    let x = t.new_var(NdArray::from_slice(&[1., 2.]));
    let y = t.new_var(NdArray::from_slice(&[3., 4.]));
    let z = ops::mul(&mut t, &x, &y).unwrap();
    let s = ops::sum(&mut t, &z).unwrap();
    let g = s.grad(&t).unwrap();
    assert_eq!(g.wrt(&x).unwrap().to_vec(), vec![3., 4.]);
    assert_eq!(g.wrt(&y).unwrap().to_vec(), vec![1., 2.]);
}

#[test]
fn seed_scales_gradient() {
    let mut t = Tape::new(&mut TapeIds::new());
    let x = t.new_var(NdArray::from_slice(&[1., -2., 3.]));
    let w = t.new_var(NdArray::from_slice(&[0.5, 4., -1.]));
    let m = ops::mul(&mut t, &x, &w).unwrap();
    let y = ops::relu(&mut t, &m).unwrap();
    let s = NdArray::from_slice(&[1., 2., 3.]);
    let alpha = 2.5f32;
    let scaled = NdArray(&s.0 * alpha);
    let g1 = y.grad_with_seed(&t, s).unwrap();
    let g2 = y.grad_with_seed(&t, scaled).unwrap();
    let base = g1.wrt(&x).unwrap().to_vec();
    let big = g2.wrt(&x).unwrap().to_vec();
    for (b, s) in base.iter().zip(big.iter()) {
        assert!((alpha * b - s).abs() < 1e-5);
    }
}

#[test]
fn shared_operand_accumulates() {
    let mut t = Tape::new(&mut TapeIds::new());
    let x = t.new_var(NdArray::from_slice(&[1., 2., 3.]));
    let y = ops::add(&mut t, &x, &x).unwrap();
    let g = y.grad_with_seed(&t, NdArray::ones(&[3])).unwrap();
    assert_eq!(g.wrt(&x).unwrap().to_vec(), vec![2., 2., 2.]);
    let z = ops::mul(&mut t, &x, &x).unwrap();
    let g = z.grad_with_seed(&t, NdArray::ones(&[3])).unwrap();
    assert_eq!(g.wrt(&x).unwrap().to_vec(), vec![2., 4., 6.]);
}

#[test]
fn handles_of_another_tape_are_rejected() {
    let mut ids = TapeIds::new();
    let mut t1: Tape<NdArray> = Tape::new(&mut ids);
    let mut t2: Tape<NdArray> = Tape::new(&mut ids);
    assert_ne!(t1.id(), t2.id());
    let a = t1.new_var(NdArray::from_slice(&[1., 2.]));
    let b = t2.new_var(NdArray::from_slice(&[3., 4.]));
    let m = t1.new_var(NdArray::from_shape(&[1, 1], &[1.]));
    let tm = Err(AutodiffError::TapeMismatch);
    assert_eq!(ops::add(&mut t1, &a, &b), tm);
    assert_eq!(ops::mul(&mut t1, &a, &b), tm);
    assert_eq!(ops::matmul(&mut t1, &m, &b), tm);
    assert_eq!(ops::sum(&mut t1, &b), tm);
    assert_eq!(ops::relu(&mut t1, &b), tm);
    assert_eq!(ops::logsoftmax(&mut t1, &b), tm);
    assert_eq!(t1.len(), 2);
    assert!(b.grad(&t1).is_err());
    let s = ops::sum(&mut t1, &a).unwrap();
    let g = s.grad(&t1).unwrap();
    assert_eq!(g.wrt(&b).err(), Some(AutodiffError::TapeMismatch));
}

#[test]
fn repeated_backward_is_identical() {
    let mut t = Tape::new(&mut TapeIds::new());
    let x = t.new_var(NdArray::from_slice(&[0.3, -1.2, 2.]));
    let l = ops::logsoftmax(&mut t, &x).unwrap();
    let r = ops::relu(&mut t, &l).unwrap();
    let y = ops::sum(&mut t, &r).unwrap();
    let g1 = y.grad(&t).unwrap();
    let g2 = y.grad(&t).unwrap();
    for v in [&x, &l, &r, &y] {
        let a: Vec<u32> = g1.wrt(v).unwrap().to_vec().iter().map(|f| f.to_bits()).collect();
        let b: Vec<u32> = g2.wrt(v).unwrap().to_vec().iter().map(|f| f.to_bits()).collect();
        assert_eq!(a, b);
    }
}

#[test]
fn unused_input_is_not_in_graph() {
    let mut t = Tape::new(&mut TapeIds::new());
    let x = t.new_var(NdArray::from_slice(&[1.]));
    let unused = t.new_var(NdArray::from_slice(&[5.]));
    let y = ops::add(&mut t, &x, &x).unwrap();
    let later = t.new_var(NdArray::from_slice(&[7.]));
    let g = y.grad(&t).unwrap();
    assert_eq!(g.wrt(&unused).err(), Some(AutodiffError::NotInGraph));
    assert_eq!(g.wrt(&later).err(), Some(AutodiffError::NotInGraph));
    assert_eq!(g.wrt(&y).unwrap().to_vec(), vec![1.]);
}

#[test]
fn shape_errors() {
    let mut t = Tape::new(&mut TapeIds::new());
    let a = t.new_var(NdArray::from_slice(&[1., 2.]));
    let b = t.new_var(NdArray::from_slice(&[1., 2., 3.]));
    let m23 = t.new_var(NdArray::zeros(&[2, 3]));
    let m22 = t.new_var(NdArray::zeros(&[2, 2]));
    assert_eq!(ops::add(&mut t, &a, &b), Err(AutodiffError::ShapeMismatch));
    assert_eq!(ops::mul(&mut t, &a, &b), Err(AutodiffError::ShapeMismatch));
    assert_eq!(ops::matmul(&mut t, &a, &m22), Err(AutodiffError::RankError));
    assert_eq!(ops::matmul(&mut t, &m23, &m22), Err(AutodiffError::ShapeMismatch));
    let ok = ops::matmul(&mut t, &m22, &m23).unwrap();
    assert_eq!(ok.shape(&t).unwrap(), &vec![2, 3]);
    assert_eq!(t.len(), 5);
}

#[test]
fn seed_errors() {
    let mut t = Tape::new(&mut TapeIds::new());
    let a = t.new_var(NdArray::from_slice(&[1., 2.]));
    assert!(matches!(a.grad(&t), Err(AutodiffError::SeedRequired)));
    assert!(matches!(
        a.grad_with_seed(&t, NdArray::ones(&[3])),
        Err(AutodiffError::ShapeMismatch)
    ));
    let g = a.grad_with_seed(&t, NdArray::from_slice(&[3., 4.])).unwrap();
    assert_eq!(g.wrt(&a).unwrap().to_vec(), vec![3., 4.]);
}

#[test]
fn slots_are_handed_out_in_order() {
    let mut ids = TapeIds::new();
    let first: Tape<NdArray> = Tape::new(&mut ids);
    let mut t = Tape::new(&mut ids);
    assert_eq!(t.len(), 0);
    assert_ne!(t.id(), first.id());
    let a = t.new_var(NdArray::from_slice(&[1.]));
    let b = t.new_var(NdArray::from_slice(&[2.]));
    let c = ops::add(&mut t, &a, &b).unwrap();
    assert_eq!((a.slot(), b.slot(), c.slot()), (0, 1, 2));
    assert_eq!(c.tape_id(), t.id());
    assert_eq!(t.len(), 3);
    assert_eq!(c.value(&t).unwrap().to_vec(), vec![3.]);
}

/// One training step of a `[1, 3] -> [1, 3]` layer followed by leaky ReLU and a sum;
/// returns the loss before the update.
fn training_step(ids: &mut TapeIds, store: &mut ParameterStore<NdArray>) -> f32 {
    let mut rec: Tape<NdArray> = Tape::new(ids);
    let linear = LinearLayer::new(&mut rec, 3, 3, store, "a".to_string());
    let input = rec.new_var(NdArray::from_shape(&[1, 3], &[1., 2., 3.]));
    let output = linear.forward(&mut rec, &input).unwrap();
    let output = ops::relu(&mut rec, &output).unwrap();
    let loss = ops::sum(&mut rec, &output).unwrap();
    let value = loss.value(&rec).unwrap().at(&[0]);
    let grad = loss.grad(&rec).unwrap();
    linear.optimize(&rec, &grad, &NdArray::from_slice(&[0.01]), store).unwrap();
    value
}

#[test]
fn layers_matmul_test() {
    let mut parameter_store: ParameterStore<NdArray> = ParameterStore::new();
    let mut ids = TapeIds::new();
    let first = training_step(&mut ids, &mut parameter_store);
    let mut last = first;
    for _i in 1..1000 {
        last = training_step(&mut ids, &mut parameter_store);
    }
    assert!(last.is_finite());
    assert!(last < first);
}

#[test]
fn layer_update_is_gradient_step() {
    let mut store: ParameterStore<NdArray> = ParameterStore::new();
    let id = "w".to_string();
    store.insert(id.clone(), NdArray::from_shape(&[2, 1], &[1., -1.]));
    let mut t = Tape::new(&mut TapeIds::new());
    let layer = LinearLayer::new(&mut t, 2, 1, &store, id.clone());
    assert_eq!(store.get(&id).unwrap().to_vec(), vec![1., -1.]);
    assert_eq!(layer.weights().value(&t).unwrap().to_vec(), vec![1., -1.]);
    let input = t.new_var(NdArray::from_shape(&[1, 2], &[3., 4.]));
    let out = layer.forward(&mut t, &input).unwrap();
    assert_eq!(out.value(&t).unwrap().to_vec(), vec![-1.]);
    let loss = ops::sum(&mut t, &out).unwrap();
    let g = loss.grad(&t).unwrap();
    layer.optimize(&t, &g, &NdArray::from_slice(&[0.5]), &mut store).unwrap();
    assert_eq!(store.get(&id).unwrap().to_vec(), vec![-0.5, -3.]);
}

#[test]
fn layer_without_gradient_is_not_updated() {
    let mut store: ParameterStore<NdArray> = ParameterStore::new();
    let mut t = Tape::new(&mut TapeIds::new());
    let layer = LinearLayer::new(&mut t, 2, 2, &store, "w".to_string());
    assert_eq!(layer.weights().shape(&t).unwrap(), &vec![2, 2]);
    for v in layer.weights().value(&t).unwrap().to_vec() {
        assert!((0. ..10.).contains(&v));
    }
    let x = t.new_var(NdArray::from_slice(&[1.]));
    let y = ops::sum(&mut t, &x).unwrap();
    let g = y.grad(&t).unwrap();
    let lr = NdArray::from_slice(&[0.1]);
    assert_eq!(
        layer.optimize(&t, &g, &lr, &mut store),
        Err(AutodiffError::UninitializedParameter)
    );
    assert!(store.get(&"w".to_string()).is_none());
    let other: Tape<NdArray> = Tape::new(&mut TapeIds::new());
    assert_eq!(layer.optimize(&other, &g, &lr, &mut store), Err(AutodiffError::TapeMismatch));
}

#[test]
fn parameter_store_operations() {
    let mut store: ParameterStore<NdArray> = ParameterStore::new();
    let a = "a".to_string();
    let b = "b".to_string();
    assert!(store.get(&a).is_none());
    store.insert(a.clone(), NdArray::from_slice(&[1.]));
    store.insert(b.clone(), NdArray::from_slice(&[2.]));
    store.insert(a.clone(), NdArray::from_slice(&[3.]));
    assert_eq!(store.get(&a).unwrap().to_vec(), vec![3.]);
    assert_eq!(store.get(&b).unwrap().to_vec(), vec![2.]);
    assert_eq!(store.remove(&a).unwrap().to_vec(), vec![3.]);
    assert!(store.remove(&a).is_none());
    assert_eq!(store.get(&b).unwrap().to_vec(), vec![2.]);
    let v = store.remove_or_init(&a, || NdArray::from_slice(&[9.]));
    assert_eq!(v.to_vec(), vec![9.]);
    let v = store.remove_or_init(&b, || NdArray::from_slice(&[9.]));
    assert_eq!(v.to_vec(), vec![2.]);
    assert!(store.get(&b).is_none());
}

#[test]
fn failed_update_keeps_stored_weights() {
    let mut store: ParameterStore<NdArray> = ParameterStore::new();
    let id = "w".to_string();
    store.insert(id.clone(), NdArray::from_shape(&[1, 1], &[3.]));
    let mut t = Tape::new(&mut TapeIds::new());
    let layer = LinearLayer::new(&mut t, 1, 1, &store, id.clone());
    let x = t.new_var(NdArray::from_slice(&[1.]));
    let y = ops::sum(&mut t, &x).unwrap();
    let g = y.grad(&t).unwrap();
    let lr = NdArray::from_slice(&[0.1]);
    assert!(layer.optimize(&t, &g, &lr, &mut store).is_err());
    assert_eq!(store.get(&id).unwrap().to_vec(), vec![3.]);
    let mut next = Tape::new(&mut TapeIds::new());
    let again = LinearLayer::new(&mut next, 1, 1, &store, id.clone());
    assert_eq!(again.weights().value(&next).unwrap().to_vec(), vec![3.]);
}
