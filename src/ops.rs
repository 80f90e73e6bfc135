use vstd::prelude::*;
use crate::backend::TensorBackend;
use crate::error::AutodiffError;
use crate::shape::{copy_dims, same_shape};
use crate::tape::{is_matrix, OpKind, Tape, Var};

verus! {

/// The error an operation of two operands raises on operands of these shapes, if any.
pub open spec fn shape_error(op: OpKind, sa: Seq<usize>, sb: Seq<usize>) -> Option<AutodiffError> {
    match op {
        OpKind::MatMul => if !is_matrix(sa) || !is_matrix(sb) {
            Some(AutodiffError::RankError)
        } else if sa[1] != sb[0] {
            Some(AutodiffError::ShapeMismatch)
        } else {
            None
        },
        _ => if sa != sb {
            Some(AutodiffError::ShapeMismatch)
        } else {
            None
        },
    }
}

/// The value that `op` computes from the values at the `operands` slots of `tape`.
pub open spec fn forward_value<T: TensorBackend>(op: OpKind, tape: &Tape<T>, operands: Seq<usize>) -> T {
    let a = tape.value_at(operands[0] as int);
    match op {
        OpKind::Add => a.spec_add(&tape.value_at(operands[1] as int)),
        OpKind::Mul => a.spec_mul(&tape.value_at(operands[1] as int)),
        OpKind::MatMul => a.spec_matmul2d(&tape.value_at(operands[1] as int)),
        OpKind::Sum => a.spec_sum(),
        OpKind::Relu => a.spec_leaky_relu(),
        _ => a.spec_log_softmax(),
    }
}

/// What an operation of two operands does to the tape: it refuses handles of another
/// tape, then operands of unfit shapes, and otherwise records itself at a new slot,
/// with the value it computes.
/// A refusal leaves the tape as it was.
pub open spec fn binary_outcome<T: TensorBackend>(
    old: &Tape<T>,
    new: &Tape<T>,
    op: OpKind,
    a: Var,
    b: Var,
    r: Result<Var, AutodiffError>,
) -> bool {
    if !(old.holds(a) && old.holds(b)) {
        r == Err::<Var, AutodiffError>(AutodiffError::TapeMismatch) && *new == *old
    } else if shape_error(op, old.shape_at(a.slot() as int), old.shape_at(b.slot() as int)) is Some {
        &&& r == Err::<Var, AutodiffError>(
            shape_error(op, old.shape_at(a.slot() as int), old.shape_at(b.slot() as int))->Some_0,
        )
        &&& *new == *old
    } else {
        &&& r is Ok
        &&& new.records_op(old, op, seq![a.slot(), b.slot()], r->Ok_0)
        &&& new.value_at(r->Ok_0.slot() as int) == forward_value(op, old, seq![a.slot(), b.slot()])
    }
}

/// What an operation of one operand does to the tape: it refuses a handle of another
/// tape, and otherwise records itself at a new slot, with the value it computes.
pub open spec fn unary_outcome<T: TensorBackend>(
    old: &Tape<T>,
    new: &Tape<T>,
    op: OpKind,
    a: Var,
    r: Result<Var, AutodiffError>,
) -> bool {
    if !old.holds(a) {
        r == Err::<Var, AutodiffError>(AutodiffError::TapeMismatch) && *new == *old
    } else {
        &&& r is Ok
        &&& new.records_op(old, op, seq![a.slot()], r->Ok_0)
        &&& new.value_at(r->Ok_0.slot() as int) == forward_value(op, old, seq![a.slot()])
    }
}

proof fn lemma_shapes_of2<T>(tape: &Tape<T>, a: usize, b: usize)
    ensures
        tape.shapes_of(seq![a, b]) == seq![tape.shape_at(a as int), tape.shape_at(b as int)],
{
    assert(tape.shapes_of(seq![a, b]) =~= seq![tape.shape_at(a as int), tape.shape_at(b as int)]);
}

proof fn lemma_shapes_of1<T>(tape: &Tape<T>, a: usize)
    ensures
        tape.shapes_of(seq![a]) == seq![tape.shape_at(a as int)],
{
    assert(tape.shapes_of(seq![a]) =~= seq![tape.shape_at(a as int)]);
}

/// Element-wise sum of two values of one shape. Backward: each operand receives the
/// incoming gradient.
pub fn add<T: TensorBackend>(tape: &mut Tape<T>, a: &Var, b: &Var) -> (r: Result<Var, AutodiffError>)
    requires
        old(tape).wf(),
    ensures
        final(tape).wf(),
        binary_outcome(old(tape), final(tape), OpKind::Add, *a, *b, r),
{
    elementwise(tape, OpKind::Add, a, b)
}

/// Element-wise product of two values of one shape. Backward: each operand receives the
/// incoming gradient times the other operand.
pub fn mul<T: TensorBackend>(tape: &mut Tape<T>, a: &Var, b: &Var) -> (r: Result<Var, AutodiffError>)
    requires
        old(tape).wf(),
    ensures
        final(tape).wf(),
        binary_outcome(old(tape), final(tape), OpKind::Mul, *a, *b, r),
{
    elementwise(tape, OpKind::Mul, a, b)
}

fn elementwise<T: TensorBackend>(tape: &mut Tape<T>, op: OpKind, a: &Var, b: &Var) -> (r: Result<
    Var,
    AutodiffError,
>)
    requires
        old(tape).wf(),
        op == OpKind::Add || op == OpKind::Mul,
    ensures
        final(tape).wf(),
        binary_outcome(old(tape), final(tape), op, *a, *b, r),
{
    if !tape.contains(a) || !tape.contains(b) {
        return Err(AutodiffError::TapeMismatch);
    }
    if !same_shape(tape.shape_of(a.slot()).as_slice(), tape.shape_of(b.slot()).as_slice()) {
        return Err(AutodiffError::ShapeMismatch);
    }
    let value = if op == OpKind::Add {
        tape.value_of(a.slot()).add(tape.value_of(b.slot()))
    } else {
        tape.value_of(a.slot()).mul(tape.value_of(b.slot()))
    };
    let shape = copy_dims(tape.shape_of(a.slot()).as_slice());
    proof {
        lemma_shapes_of2(tape, a.slot(), b.slot());
    }
    let v = tape.record_binary(op, a.slot(), b.slot(), value, shape);
    Ok(v)
}

/// Matrix product of an `[m, k]` and a `[k, n]` value. Backward: the left operand
/// receives the incoming gradient times the transposed right operand, the right operand
/// the transposed left operand times the incoming gradient.
pub fn matmul<T: TensorBackend>(tape: &mut Tape<T>, a: &Var, b: &Var) -> (r: Result<
    Var,
    AutodiffError,
>)
    requires
        old(tape).wf(),
    ensures
        final(tape).wf(),
        binary_outcome(old(tape), final(tape), OpKind::MatMul, *a, *b, r),
{
    if !tape.contains(a) || !tape.contains(b) {
        return Err(AutodiffError::TapeMismatch);
    }
    let sa = tape.shape_of(a.slot());
    let sb = tape.shape_of(b.slot());
    if sa.len() != 2 || sb.len() != 2 {
        return Err(AutodiffError::RankError);
    }
    if sa[1] != sb[0] {
        return Err(AutodiffError::ShapeMismatch);
    }
    let mut shape: Vec<usize> = Vec::new();
    shape.push(sa[0]);
    shape.push(sb[1]);
    let value = tape.value_of(a.slot()).matmul2d(tape.value_of(b.slot()));
    proof {
        lemma_shapes_of2(tape, a.slot(), b.slot());
        assert(shape@ =~= seq![sa@[0], sb@[1]]);
    }
    let v = tape.record_binary(OpKind::MatMul, a.slot(), b.slot(), value, shape);
    Ok(v)
}

/// Sum of all elements, as a value of shape `[1]`. Backward: every element of the
/// operand receives the single element of the incoming gradient.
pub fn sum<T: TensorBackend>(tape: &mut Tape<T>, a: &Var) -> (r: Result<Var, AutodiffError>)
    requires
        old(tape).wf(),
    ensures
        final(tape).wf(),
        unary_outcome(old(tape), final(tape), OpKind::Sum, *a, r),
{
    if !tape.contains(a) {
        return Err(AutodiffError::TapeMismatch);
    }
    let value = tape.value_of(a.slot()).sum();
    let mut shape: Vec<usize> = Vec::new();
    shape.push(1);
    proof {
        lemma_shapes_of1(tape, a.slot());
        assert(shape@ =~= seq![1usize]);
    }
    let v = tape.record_unary(OpKind::Sum, a.slot(), value, shape);
    Ok(v)
}

/// Leaky rectifier: non-negative elements are kept, negative ones scaled by the leak
/// slope. Backward: the incoming gradient times the derivative of that map at the input.
pub fn relu<T: TensorBackend>(tape: &mut Tape<T>, a: &Var) -> (r: Result<Var, AutodiffError>)
    requires
        old(tape).wf(),
    ensures
        final(tape).wf(),
        unary_outcome(old(tape), final(tape), OpKind::Relu, *a, r),
{
    same_shape_unary(tape, OpKind::Relu, a)
}

/// `x - ln(sum(exp(x)))`, of the shape of `x`. Backward: the incoming gradient minus the
/// softmax of the input times the sum of the incoming gradient.
pub fn logsoftmax<T: TensorBackend>(tape: &mut Tape<T>, a: &Var) -> (r: Result<
    Var,
    AutodiffError,
>)
    requires
        old(tape).wf(),
    ensures
        final(tape).wf(),
        unary_outcome(old(tape), final(tape), OpKind::LogSoftmax, *a, r),
{
    same_shape_unary(tape, OpKind::LogSoftmax, a)
}

fn same_shape_unary<T: TensorBackend>(tape: &mut Tape<T>, op: OpKind, a: &Var) -> (r: Result<
    Var,
    AutodiffError,
>)
    requires
        old(tape).wf(),
        op == OpKind::Relu || op == OpKind::LogSoftmax,
    ensures
        final(tape).wf(),
        unary_outcome(old(tape), final(tape), op, *a, r),
{
    if !tape.contains(a) {
        return Err(AutodiffError::TapeMismatch);
    }
    let value = if op == OpKind::Relu {
        tape.value_of(a.slot()).leaky_relu()
    } else {
        tape.value_of(a.slot()).log_softmax()
    };
    let shape = copy_dims(tape.shape_of(a.slot()).as_slice());
    proof {
        lemma_shapes_of1(tape, a.slot());
    }
    let v = tape.record_unary(op, a.slot(), value, shape);
    Ok(v)
}

} // verus!
