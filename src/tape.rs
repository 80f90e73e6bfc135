use vstd::prelude::*;
use crate::backend::TensorBackend;
use crate::error::AutodiffError;
use crate::shape::copy_dims;

verus! {

/// The operation that produced a slot of the tape.
#[derive(Debug, Clone, Copy, PartialEq, Eq, Structural)]
pub enum OpKind {
    /// A value handed in by the user.
    Leaf,
    Add,
    Mul,
    MatMul,
    Sum,
    Relu,
    LogSoftmax,
}

/// Number of operands of each operation.
pub open spec fn arity(op: OpKind) -> nat {
    match op {
        OpKind::Leaf => 0,
        OpKind::Add | OpKind::Mul | OpKind::MatMul => 2,
        _ => 1,
    }
}

/// What the backward pass needs of one operand: where its gradient accumulates, and the
/// shape that gradient has.
pub struct OperandGrad {
    pub slot: usize,
    pub grad_shape: Vec<usize>,
}

/// One slot of the tape: the operation, what the backward pass needs of each operand, and
/// the forward value with its shape.
pub struct Record<T> {
    op: OpKind,
    operands: Vec<OperandGrad>,
    value: T,
    shape: Vec<usize>,
}

/// The plain content of a record, without the forward value.
pub struct Node {
    pub op: OpKind,
    pub operands: Seq<usize>,
    pub grad_shapes: Seq<Seq<usize>>,
    pub shape: Seq<usize>,
}

pub open spec fn is_matrix(s: Seq<usize>) -> bool {
    s.len() == 2
}

/// Shape of the result of `op` on operands of the given shapes; `None` where the shapes
/// are not accepted.
pub open spec fn result_shape(op: OpKind, shapes: Seq<Seq<usize>>) -> Option<Seq<usize>> {
    match op {
        OpKind::Leaf => None,
        OpKind::Add | OpKind::Mul => if shapes[0] == shapes[1] {
            Some(shapes[0])
        } else {
            None
        },
        OpKind::MatMul => if is_matrix(shapes[0]) && is_matrix(shapes[1]) && shapes[0][1]
            == shapes[1][0] {
            Some(seq![shapes[0][0], shapes[1][1]])
        } else {
            None
        },
        OpKind::Sum => Some(seq![1usize]),
        OpKind::Relu | OpKind::LogSoftmax => Some(shapes[0]),
    }
}

/// The node at slot `i` is consistent with the nodes before it: its operands come
/// earlier, each operand gradient has the operand's shape, and its own shape follows
/// from the operation.
pub open spec fn node_wf(nodes: Seq<Node>, i: int) -> bool {
    let n = nodes[i];
    &&& n.operands.len() == arity(n.op)
    &&& n.grad_shapes.len() == n.operands.len()
    &&& forall|k: int| 0 <= k < n.operands.len() ==> #[trigger] n.operands[k] < i
    &&& forall|k: int| 0 <= k < n.operands.len() ==> #[trigger] n.grad_shapes[k]
        == nodes[n.operands[k] as int].shape
    &&& n.op != OpKind::Leaf ==> result_shape(n.op, n.grad_shapes) == Some(n.shape)
}

pub open spec fn nodes_wf(nodes: Seq<Node>) -> bool {
    forall|i: int| 0 <= i < nodes.len() ==> #[trigger] node_wf(nodes, i)
}

impl<T> Record<T> {
    pub closed spec fn node(&self) -> Node {
        Node {
            op: self.op,
            operands: self.operands@.map_values(|b: OperandGrad| b.slot),
            grad_shapes: self.operands@.map_values(|b: OperandGrad| b.grad_shape@),
            shape: self.shape@,
        }
    }
}

/// A handle on one slot of one tape: the user-facing differentiable value. Only a tape
/// makes handles, on its own slots.
#[derive(Debug, Clone, Copy, PartialEq, Eq, Structural)]
pub struct Var {
    pub(crate) tape: u64,
    pub(crate) slot: usize,
}

impl Var {
    pub closed spec fn spec_tape_id(&self) -> u64 {
        self.tape
    }

    pub closed spec fn spec_slot(&self) -> usize {
        self.slot
    }

    /// Id of the tape this handle belongs to.
    #[verifier::when_used_as_spec(spec_tape_id)]
    pub fn tape_id(&self) -> (r: u64)
        ensures
            r == self.spec_tape_id(),
    {
        self.tape
    }

    /// The slot this handle names.
    #[verifier::when_used_as_spec(spec_slot)]
    pub fn slot(&self) -> (r: usize)
        ensures
            r == self.spec_slot(),
    {
        self.slot
    }
}

/// Relies on `rand::random` (rand 0.8, reached through ndarray-rand's re-export): a `u64`
/// from the thread-local generator. Nothing is assumed of the value.
#[verifier::external_body]
fn random_u64() -> u64 {
    ndarray_rand::rand::random::<u64>()
}

/// The `count`-th id of a source that starts at `base`, counting round modulo `2^64`.
pub open spec fn nth_id(base: u64, count: int) -> int {
    if base + count > u64::MAX {
        base + count - (u64::MAX + 1)
    } else {
        base + count
    }
}

/// Hands out tape ids, each at most once, so that the tapes made from one source never
/// accept each other's handles. A source starts at a random point, so that two sources
/// are unlikely to hand out the same id.
pub struct TapeIds {
    base: u64,
    next: u64,
    issued: Ghost<Set<u64>>,
}

impl TapeIds {
    /// The ids handed out so far.
    pub closed spec fn issued(&self) -> Set<u64> {
        self.issued@
    }

    /// How many ids were handed out.
    pub closed spec fn count(&self) -> u64 {
        self.next
    }

    pub closed spec fn wf(&self) -> bool {
        forall|id: u64| #[trigger] self.issued@.contains(id) ==> exists|c: int|
            0 <= c < self.next && id == nth_id(self.base, c)
    }

    /// A source that has handed out nothing.
    pub fn new() -> (r: TapeIds)
        ensures
            r.wf(),
            r.count() == 0,
            r.issued() == Set::<u64>::empty(),
    {
        TapeIds { base: random_u64(), next: 0, issued: Ghost(Set::empty()) }
    }

    /// Whether every id has been handed out.
    pub fn exhausted(&self) -> (r: bool)
        ensures
            r == (self.count() == u64::MAX),
    {
        self.next == u64::MAX
    }

    /// A fresh id.
    fn issue(&mut self) -> (r: u64)
        requires
            old(self).wf(),
            old(self).count() < u64::MAX,
        ensures
            final(self).wf(),
            !old(self).issued().contains(r),
            final(self).issued() == old(self).issued().insert(r),
            final(self).count() == old(self).count() + 1,
    {
        let id = self.base.wrapping_add(self.next);
        assert(id == nth_id(self.base, self.next as int));
        assert(!self.issued@.contains(id));
        self.next = self.next + 1;
        self.issued = Ghost(self.issued@.insert(id));
        assert forall|x: u64| #[trigger] self.issued@.contains(x) implies exists|c: int|
            0 <= c < self.next && x == nth_id(self.base, c) by {
            if x != id {
                assert(old(self).issued@.contains(x));
                let c = choose|c: int| 0 <= c < old(self).next && x == nth_id(self.base, c);
                assert(0 <= c < self.next);
            } else {
                assert(x == nth_id(self.base, old(self).next as int));
            }
        }
        id
    }
}

/// The recording structure: an append-only list of records, one per slot. Slots are
/// handed out in increasing order and never reused.
pub struct Tape<T> {
    id: u64,
    records: Vec<Record<T>>,
}

impl<T> Tape<T> {
    pub closed spec fn id_view(&self) -> u64 {
        self.id
    }

    pub closed spec fn nodes(&self) -> Seq<Node> {
        self.records@.map_values(|r: Record<T>| r.node())
    }

    pub closed spec fn value_at(&self, i: int) -> T {
        self.records@[i].value
    }

    pub open spec fn len_view(&self) -> nat {
        self.nodes().len()
    }

    pub open spec fn wf(&self) -> bool {
        nodes_wf(self.nodes())
    }

    /// `v` names a slot of this tape.
    pub open spec fn holds(&self, v: Var) -> bool {
        v.tape_id() == self.id_view() && v.slot() < self.len_view()
    }

    pub open spec fn shape_at(&self, i: int) -> Seq<usize> {
        self.nodes()[i].shape
    }

    /// The shapes of the values at the given slots.
    pub open spec fn shapes_of(&self, slots: Seq<usize>) -> Seq<Seq<usize>> {
        slots.map_values(|s: usize| self.shape_at(s as int))
    }

    /// `self` is `old` with `op` on `operands` recorded at a new slot named by `r`.
    pub open spec fn records_op(&self, old: &Tape<T>, op: OpKind, operands: Seq<usize>, r: Var) -> bool {
        let shapes = old.shapes_of(operands);
        &&& r.tape_id() == old.id_view()
        &&& r.slot() == old.len_view()
        &&& result_shape(op, shapes) is Some
        &&& self.extends(
            old,
            Node { op, operands, grad_shapes: shapes, shape: result_shape(op, shapes)->Some_0 },
        )
    }

    /// `self` is `old` with `node` appended, every earlier value kept.
    pub open spec fn extends(&self, old: &Tape<T>, node: Node) -> bool {
        &&& self.id_view() == old.id_view()
        &&& self.nodes() == old.nodes().push(node)
        &&& forall|i: int| 0 <= i < old.len_view() ==> #[trigger] self.value_at(i)
            == old.value_at(i)
    }

    /// An empty tape, with an id that `ids` never handed out before.
    pub fn new(ids: &mut TapeIds) -> (r: Tape<T>)
        requires
            old(ids).wf(),
            old(ids).count() < u64::MAX,
        ensures
            final(ids).wf(),
            !old(ids).issued().contains(r.id_view()),
            final(ids).issued() == old(ids).issued().insert(r.id_view()),
            final(ids).count() == old(ids).count() + 1,
            r.len_view() == 0,
            r.wf(),
    {
        let id = ids.issue();
        let r = Tape { id, records: Vec::new() };
        assert(r.nodes() =~= Seq::<Node>::empty());
        r
    }

    pub fn id(&self) -> (r: u64)
        ensures
            r == self.id_view(),
    {
        self.id
    }

    pub fn len(&self) -> (r: usize)
        ensures
            r == self.len_view(),
    {
        self.records.len()
    }

    /// Whether `v` names a slot of this tape.
    pub fn contains(&self, v: &Var) -> (r: bool)
        ensures
            r == self.holds(*v),
    {
        v.tape_id() == self.id && v.slot() < self.records.len()
    }

    /// The forward value at a slot.
    pub fn value_of(&self, i: usize) -> (r: &T)
        requires
            i < self.len_view(),
        ensures
            *r == self.value_at(i as int),
    {
        &self.records[i].value
    }

    /// The shape of the forward value at a slot.
    pub fn shape_of(&self, i: usize) -> (r: &Vec<usize>)
        requires
            i < self.len_view(),
        ensures
            r@ == self.shape_at(i as int),
    {
        &self.records[i].shape
    }

    /// The operation recorded at a slot.
    pub fn op_of(&self, i: usize) -> (r: OpKind)
        requires
            i < self.len_view(),
        ensures
            r == self.nodes()[i as int].op,
    {
        self.records[i].op
    }

    /// The operand slots recorded at a slot.
    pub fn operands_of(&self, i: usize) -> (r: &Vec<OperandGrad>)
        requires
            i < self.len_view(),
        ensures
            r@.len() == self.nodes()[i as int].operands.len(),
            forall|k: int| 0 <= k < r@.len() ==> #[trigger] r@[k].slot
                == self.nodes()[i as int].operands[k] && r@[k].grad_shape@
                == self.nodes()[i as int].grad_shapes[k],
    {
        &self.records[i].operands
    }

    /// Appends a record and returns its slot.
    fn push(&mut self, op: OpKind, operands: Vec<OperandGrad>, value: T, shape: Vec<usize>) -> (r:
        usize)
        ensures
            r == old(self).len_view(),
            final(self).value_at(r as int) == value,
            final(self).extends(
                old(self),
                Node {
                    op,
                    operands: operands@.map_values(|b: OperandGrad| b.slot),
                    grad_shapes: operands@.map_values(|b: OperandGrad| b.grad_shape@),
                    shape: shape@,
                },
            ),
    {
        let r = self.records.len();
        let rec = Record { op, operands, value, shape };
        self.records.push(rec);
        assert(self.nodes() =~= old(self).nodes().push(rec.node()));
        r
    }

    /// Records the operand at slot `s`: its slot and the shape of its gradient.
    fn operand(&self, s: usize) -> (r: OperandGrad)
        requires
            s < self.len_view(),
        ensures
            r.slot == s,
            r.grad_shape@ == self.shape_at(s as int),
    {
        OperandGrad { slot: s, grad_shape: copy_dims(self.records[s].shape.as_slice()) }
    }

    /// Records an operation on one operand.
    pub(crate) fn record_unary(&mut self, op: OpKind, a: usize, value: T, shape: Vec<usize>) -> (r:
        Var)
        requires
            old(self).wf(),
            a < old(self).len_view(),
            arity(op) == 1,
            result_shape(op, seq![old(self).shape_at(a as int)]) == Some(shape@),
        ensures
            final(self).wf(),
            r.tape_id() == old(self).id_view(),
            r.slot() == old(self).len_view(),
            final(self).extends(
                old(self),
                Node {
                    op,
                    operands: seq![a],
                    grad_shapes: seq![old(self).shape_at(a as int)],
                    shape: shape@,
                },
            ),
            final(self).value_at(r.slot() as int) == value,
    {
        let oa = self.operand(a);
        let mut ops: Vec<OperandGrad> = Vec::new();
        ops.push(oa);
        let ghost node = Node {
            op,
            operands: seq![a],
            grad_shapes: seq![self.shape_at(a as int)],
            shape: shape@,
        };
        assert(ops@.map_values(|b: OperandGrad| b.slot) =~= node.operands);
        assert(ops@.map_values(|b: OperandGrad| b.grad_shape@) =~= node.grad_shapes);
        let slot = self.push(op, ops, value, shape);
        proof {
            self.lemma_push_wf(old(self), node);
        }
        Var { tape: self.id, slot }
    }

    /// Records an operation on two operands.
    pub(crate) fn record_binary(
        &mut self,
        op: OpKind,
        a: usize,
        b: usize,
        value: T,
        shape: Vec<usize>,
    ) -> (r: Var)
        requires
            old(self).wf(),
            a < old(self).len_view(),
            b < old(self).len_view(),
            arity(op) == 2,
            result_shape(op, seq![old(self).shape_at(a as int), old(self).shape_at(b as int)])
                == Some(shape@),
        ensures
            final(self).wf(),
            r.tape_id() == old(self).id_view(),
            r.slot() == old(self).len_view(),
            final(self).extends(
                old(self),
                Node {
                    op,
                    operands: seq![a, b],
                    grad_shapes: seq![
                        old(self).shape_at(a as int),
                        old(self).shape_at(b as int),
                    ],
                    shape: shape@,
                },
            ),
            final(self).value_at(r.slot() as int) == value,
    {
        let oa = self.operand(a);
        let ob = self.operand(b);
        let mut ops: Vec<OperandGrad> = Vec::new();
        ops.push(oa);
        ops.push(ob);
        let ghost node = Node {
            op,
            operands: seq![a, b],
            grad_shapes: seq![self.shape_at(a as int), self.shape_at(b as int)],
            shape: shape@,
        };
        assert(ops@.map_values(|b: OperandGrad| b.slot) =~= node.operands);
        assert(ops@.map_values(|b: OperandGrad| b.grad_shape@) =~= node.grad_shapes);
        let slot = self.push(op, ops, value, shape);
        proof {
            self.lemma_push_wf(old(self), node);
        }
        Var { tape: self.id, slot }
    }

    proof fn lemma_push_wf(&self, old: &Tape<T>, node: Node)
        requires
            old.wf(),
            self.nodes() == old.nodes().push(node),
            node_wf(self.nodes(), old.len_view() as int),
        ensures
            self.wf(),
    {
        assert forall|i: int| 0 <= i < self.len_view() implies #[trigger] node_wf(
            self.nodes(),
            i,
        ) by {
            if i < old.len_view() {
                assert(node_wf(old.nodes(), i));
                assert(self.nodes()[i] == old.nodes()[i]);
                let n = old.nodes()[i];
                assert forall|k: int| 0 <= k < n.operands.len() implies #[trigger] n.grad_shapes[k]
                    == self.nodes()[n.operands[k] as int].shape by {
                    assert(n.operands[k] < i);
                }
            }
        }
    }
}

impl<T: TensorBackend> Tape<T> {
    /// Wraps a value as a leaf of the tape: a new slot with no operands.
    pub fn new_var(&mut self, value: T) -> (r: Var)
        requires
            old(self).wf(),
        ensures
            final(self).wf(),
            final(self).id_view() == old(self).id_view(),
            r.tape_id() == old(self).id_view(),
            r.slot() == old(self).len_view(),
            final(self).nodes().len() == old(self).nodes().len() + 1,
            final(self).nodes().take(old(self).len_view() as int) == old(self).nodes(),
            final(self).nodes()[r.slot() as int].op == OpKind::Leaf,
            final(self).nodes()[r.slot() as int].operands.len() == 0,
            final(self).value_at(r.slot() as int) == value,
            final(self).shape_at(r.slot() as int) == value.spec_shape()@,
            forall|i: int| 0 <= i < old(self).len_view() ==> #[trigger] final(self).value_at(i)
                == old(self).value_at(i),
    {
        let shape = value.shape();
        let ghost node = Node {
            op: OpKind::Leaf,
            operands: seq![],
            grad_shapes: seq![],
            shape: shape@,
        };
        let ops: Vec<OperandGrad> = Vec::new();
        assert(ops@.map_values(|b: OperandGrad| b.slot) =~= node.operands);
        assert(ops@.map_values(|b: OperandGrad| b.grad_shape@) =~= node.grad_shapes);
        let slot = self.push(OpKind::Leaf, ops, value, shape);
        proof {
            self.lemma_push_wf(old(self), node);
            assert(self.nodes().take(old(self).len_view() as int) =~= old(self).nodes());
        }
        Var { tape: self.id, slot }
    }
}

impl Var {
    /// The forward value of this handle.
    pub fn value<'a, T>(&self, tape: &'a Tape<T>) -> (r: Result<&'a T, AutodiffError>)
        ensures
            tape.holds(*self) ==> r == Ok::<&T, AutodiffError>(&tape.value_at(self.slot() as int)),
            !tape.holds(*self) ==> r == Err::<&T, AutodiffError>(AutodiffError::TapeMismatch),
    {
        if tape.contains(self) {
            Ok(tape.value_of(self.slot()))
        } else {
            Err(AutodiffError::TapeMismatch)
        }
    }

    /// The shape of the forward value of this handle.
    pub fn shape<'a, T>(&self, tape: &'a Tape<T>) -> (r: Result<&'a Vec<usize>, AutodiffError>)
        ensures
            tape.holds(*self) ==> r is Ok && r->Ok_0@ == tape.shape_at(self.slot() as int),
            !tape.holds(*self) ==> r == Err::<&Vec<usize>, AutodiffError>(
                AutodiffError::TapeMismatch,
            ),
    {
        if tape.contains(self) {
            Ok(tape.shape_of(self.slot()))
        } else {
            Err(AutodiffError::TapeMismatch)
        }
    }
}

} // verus!
