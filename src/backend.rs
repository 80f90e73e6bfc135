use vstd::prelude::*;

verus! {

/// The numeric array that the engine computes with: a dense, value-semantic array of
/// single-precision numbers that carries its shape.
///
/// Each operation that computes a value has a name for its result, the `spec_` function
/// of the same stem: the engine's contracts say which operations made each value. An
/// implementation defines each `spec_` function as its operation, which must therefore
/// be deterministic (equal arguments give equal results). `rand` draws at random and
/// has no name.
///
/// The rules an implementation follows:
/// - `rand` builds an array of exactly the given shape, each element drawn uniformly
///   from `[0, 10)`;
/// - `zeros_like` is all zeros in the shape of `self`, `one` the `[1]` array holding `1`,
///   and `copy` an equal array;
/// - `add`, `sub` and `mul` are element-wise on two arrays of one shape;
/// - `matmul2d` multiplies an `[m, k]` by a `[k, n]` array into an `[m, n]` one;
/// - `transposed` swaps axes 0 and 1 of an array of rank at least two;
/// - `sum` adds all elements into a `[1]` array;
/// - `broadcast` is an array of the shape of `self` whose every element is the single
///   element of the `[1]` array `scalar`, and `scale` multiplies every element of `self`
///   by it;
/// - `exp` is the element-wise exponential;
/// - `leaky_relu` keeps non-negative elements and multiplies negative ones by the leak
///   slope `0.1`; `leaky_relu_slope` is the element-wise derivative of that map: `1` where
///   the element is non-negative, the slope elsewhere;
/// - `log_softmax` is `x - ln(sum(exp(x)))`, computed stably.
/// The engine checks the shapes of the forward operations before each call (see
/// `result_shape`).
pub trait TensorBackend: Sized {
    /// The shape the array reports.
    spec fn spec_shape(&self) -> Vec<usize>;

    spec fn spec_zeros_like(&self) -> Self;

    spec fn spec_one() -> Self;

    spec fn spec_add(&self, rhs: &Self) -> Self;

    spec fn spec_sub(&self, rhs: &Self) -> Self;

    spec fn spec_mul(&self, rhs: &Self) -> Self;

    spec fn spec_matmul2d(&self, rhs: &Self) -> Self;

    spec fn spec_transposed(&self) -> Self;

    spec fn spec_sum(&self) -> Self;

    spec fn spec_broadcast(&self, scalar: &Self) -> Self;

    spec fn spec_scale(&self, factor: &Self) -> Self;

    spec fn spec_exp(&self) -> Self;

    spec fn spec_leaky_relu(&self) -> Self;

    spec fn spec_leaky_relu_slope(&self) -> Self;

    spec fn spec_log_softmax(&self) -> Self;

    fn shape(&self) -> (r: Vec<usize>)
        ensures
            r@ == self.spec_shape()@,
    ;

    fn rand(shape: &[usize]) -> (r: Self)
        ensures
            r.spec_shape()@ == shape@,
    ;

    fn copy(&self) -> (r: Self)
        ensures
            r == *self,
    ;

    fn zeros_like(&self) -> (r: Self)
        ensures
            r == self.spec_zeros_like(),
    ;

    fn one() -> (r: Self)
        ensures
            r == Self::spec_one(),
    ;

    fn add(&self, rhs: &Self) -> (r: Self)
        ensures
            r == self.spec_add(rhs),
    ;

    fn sub(&self, rhs: &Self) -> (r: Self)
        ensures
            r == self.spec_sub(rhs),
    ;

    fn mul(&self, rhs: &Self) -> (r: Self)
        ensures
            r == self.spec_mul(rhs),
    ;

    fn matmul2d(&self, rhs: &Self) -> (r: Self)
        ensures
            r == self.spec_matmul2d(rhs),
    ;

    fn transposed(&self) -> (r: Self)
        ensures
            r == self.spec_transposed(),
    ;

    fn sum(&self) -> (r: Self)
        ensures
            r == self.spec_sum(),
    ;

    fn broadcast(&self, scalar: &Self) -> (r: Self)
        ensures
            r == self.spec_broadcast(scalar),
    ;

    fn scale(&self, factor: &Self) -> (r: Self)
        ensures
            r == self.spec_scale(factor),
    ;

    fn exp(&self) -> (r: Self)
        ensures
            r == self.spec_exp(),
    ;

    fn leaky_relu(&self) -> (r: Self)
        ensures
            r == self.spec_leaky_relu(),
    ;

    fn leaky_relu_slope(&self) -> (r: Self)
        ensures
            r == self.spec_leaky_relu_slope(),
    ;

    fn log_softmax(&self) -> (r: Self)
        ensures
            r == self.spec_log_softmax(),
    ;
}

} // verus!
