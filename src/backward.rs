use vstd::prelude::*;
use crate::backend::TensorBackend;
use crate::error::AutodiffError;
use crate::shape::same_shape;
use crate::tape::{Node, OpKind, Tape, Var, node_wf, nodes_wf};

verus! {

/// Slot `j` contributes to the output at slot `out`: it is the output, or an operand of a
/// slot that contributes.
pub open spec fn live(nodes: Seq<Node>, out: int, j: int) -> bool
    decreases out - j,
{
    if j == out {
        0 <= out < nodes.len()
    } else if j > out || j < 0 {
        false
    } else {
        exists|i: int, k: int|
            j < i <= out && 0 <= k < nodes[i].operands.len() && #[trigger] nodes[i].operands[k]
                == j && live(nodes, out, i)
    }
}

/// One application of a backward rule: operand `operand` of the record at `slot`
/// receives its contribution.
pub struct Step {
    pub slot: int,
    pub operand: int,
}

/// The slot that a step accumulates into.
pub open spec fn target(nodes: Seq<Node>, s: Step) -> int {
    nodes[s.slot].operands[s.operand] as int
}

/// The steps of one slot: one per operand, in operand order, if the slot contributes.
pub open spec fn slot_steps(nodes: Seq<Node>, out: int, i: int) -> Seq<Step> {
    if live(nodes, out, i) {
        Seq::new(nodes[i].operands.len(), |k: int| Step { slot: i, operand: k })
    } else {
        seq![]
    }
}

/// The steps of the slots from `out` down to `lo`, in that order.
pub open spec fn steps_from(nodes: Seq<Node>, out: int, lo: int) -> Seq<Step>
    decreases out + 1 - lo,
{
    if lo > out {
        seq![]
    } else {
        steps_from(nodes, out, lo + 1) + slot_steps(nodes, out, lo)
    }
}

/// The backward pass from `out`: the slots in decreasing order, each contributing slot
/// applying the rule of each of its operands once.
pub open spec fn schedule(nodes: Seq<Node>, out: int) -> Seq<Step> {
    steps_from(nodes, out, 0)
}

/// Some step of `steps` accumulates into `j`.
pub open spec fn touched(nodes: Seq<Node>, steps: Seq<Step>, j: int) -> bool {
    exists|p: int| 0 <= p < steps.len() && #[trigger] target(nodes, steps[p]) == j
}

/// Some step of `steps` applies the rule of operand `k` of slot `i`.
pub open spec fn in_steps(steps: Seq<Step>, i: int, k: int) -> bool {
    exists|p: int| 0 <= p < steps.len() && steps[p].slot == i && #[trigger] steps[p].operand == k
}

/// A step lies in `steps_from(nodes, out, lo)` exactly when its slot lies between `lo`
/// and `out`, contributes, and has that operand.
pub proof fn lemma_steps_from_members(nodes: Seq<Node>, out: int, lo: int)
    requires
        0 <= lo,
    ensures
        forall|p: int|
            0 <= p < steps_from(nodes, out, lo).len() ==> {
                let s = #[trigger] steps_from(nodes, out, lo)[p];
                lo <= s.slot <= out && live(nodes, out, s.slot) && 0 <= s.operand
                    < nodes[s.slot].operands.len()
            },
        forall|i: int, k: int|
            lo <= i <= out && live(nodes, out, i) && 0 <= k < nodes[i].operands.len()
                ==> #[trigger] in_steps(steps_from(nodes, out, lo), i, k),
    decreases out + 1 - lo,
{
    if lo <= out {
        lemma_steps_from_members(nodes, out, lo + 1);
        let a = steps_from(nodes, out, lo + 1);
        let b = slot_steps(nodes, out, lo);
        assert(steps_from(nodes, out, lo) == a + b);
        assert forall|i: int, k: int|
            lo <= i <= out && live(nodes, out, i) && 0 <= k
                < nodes[i].operands.len() implies #[trigger] in_steps(a + b, i, k) by {
            if i == lo {
                assert(b[k] == Step { slot: i, operand: k });
                assert((a + b)[a.len() + k] == b[k]);
                assert((a + b)[a.len() + k].operand == k);
            } else {
                assert(in_steps(a, i, k));
                let p = choose|p: int|
                    0 <= p < a.len() && a[p].slot == i && #[trigger] a[p].operand == k;
                assert((a + b)[p] == a[p]);
            }
        }
    }
}

/// Along the schedule, slots never increase, and the operands of one slot come in
/// increasing order; so no step appears twice.
pub proof fn lemma_steps_from_ordered(nodes: Seq<Node>, out: int, lo: int)
    requires
        0 <= lo,
    ensures
        forall|p: int, q: int|
            0 <= p < q < steps_from(nodes, out, lo).len() ==> {
                let s = #[trigger] steps_from(nodes, out, lo)[p];
                let t = #[trigger] steps_from(nodes, out, lo)[q];
                s.slot > t.slot || (s.slot == t.slot && s.operand < t.operand)
            },
    decreases out + 1 - lo,
{
    if lo <= out {
        lemma_steps_from_ordered(nodes, out, lo + 1);
        lemma_steps_from_members(nodes, out, lo + 1);
        let a = steps_from(nodes, out, lo + 1);
        let b = slot_steps(nodes, out, lo);
        assert(steps_from(nodes, out, lo) == a + b);
        assert forall|p: int, q: int| 0 <= p < q < (a + b).len() implies {
            let s = #[trigger] (a + b)[p];
            let t = #[trigger] (a + b)[q];
            s.slot > t.slot || (s.slot == t.slot && s.operand < t.operand)
        } by {
            if q < a.len() {
                assert((a + b)[p] == a[p]);
                assert((a + b)[q] == a[q]);
            } else if p < a.len() {
                assert((a + b)[p] == a[p]);
                assert(a[p].slot >= lo + 1);
            }
        }
    }
}

/// The gradients that a backward pass produced, one per slot of the tape: present for the
/// slots that contributed to the output, absent for the others.
pub struct Grad<T> {
    tape: u64,
    grads: Vec<Option<T>>,
    applied: Ghost<Seq<Step>>,
}

impl<T> Grad<T> {
    pub closed spec fn tape_id(&self) -> u64 {
        self.tape
    }

    pub closed spec fn len_view(&self) -> nat {
        self.grads@.len()
    }

    /// The gradient of slot `j`, if it received one.
    pub closed spec fn grad_at(&self, j: int) -> Option<T> {
        self.grads@[j]
    }

    /// The backward steps that were applied, in order.
    pub closed spec fn applied(&self) -> Seq<Step> {
        self.applied@
    }

    /// The gradient with respect to `v`, a handle of the tape the pass ran on.
    pub fn wrt(&self, v: &Var) -> (r: Result<&T, AutodiffError>)
        ensures
            v.tape_id() != self.tape_id() || v.slot() >= self.len_view() ==> r == Err::<&T, AutodiffError>(
                AutodiffError::TapeMismatch,
            ),
            v.tape_id() == self.tape_id() && v.slot() < self.len_view() ==> {
                &&& self.grad_at(v.slot() as int) is None ==> r == Err::<&T, AutodiffError>(
                    AutodiffError::NotInGraph,
                )
                &&& self.grad_at(v.slot() as int) is Some ==> r is Ok && *r->Ok_0 == self.grad_at(
                    v.slot() as int,
                )->Some_0
            },
    {
        if v.tape_id() != self.tape || v.slot() >= self.grads.len() {
            return Err(AutodiffError::TapeMismatch);
        }
        match &self.grads[v.slot()] {
            Some(g) => Ok(g),
            None => Err(AutodiffError::NotInGraph),
        }
    }
}

/// What the rule of operand `k` of slot `i` makes of the accumulator `acc` given the
/// incoming gradient `g`: `acc` plus that operand's contribution.
/// - `add`: `g`;
/// - `mul`: the other operand times `g`;
/// - `matmul`: `g` times the transposed right operand for the left one, the transposed
///   left operand times `g` for the right one;
/// - `sum`: an array of the operand's shape filled with the single element of `g`;
/// - `relu`: `g` times the derivative of the leaky rectifier at the operand;
/// - `logsoftmax`: `g` minus the softmax of the operand (the exponential of the output)
///   times the sum of `g`.
pub open spec fn contribution<T: TensorBackend>(tape: &Tape<T>, i: int, k: int, g: T, acc: T) -> T {
    let n = tape.nodes()[i];
    match n.op {
        OpKind::Mul => acc.spec_add(&tape.value_at(n.operands[1 - k] as int).spec_mul(&g)),
        OpKind::MatMul => if k == 0 {
            acc.spec_add(&g.spec_matmul2d(&tape.value_at(n.operands[1] as int).spec_transposed()))
        } else {
            acc.spec_add(&tape.value_at(n.operands[0] as int).spec_transposed().spec_matmul2d(&g))
        },
        OpKind::Sum => acc.spec_add(&tape.value_at(n.operands[0] as int).spec_broadcast(&g)),
        OpKind::Relu => acc.spec_add(
            &g.spec_mul(&tape.value_at(n.operands[0] as int).spec_leaky_relu_slope()),
        ),
        OpKind::LogSoftmax => acc.spec_add(
            &g.spec_sub(&tape.value_at(i).spec_exp().spec_scale(&g.spec_sum())),
        ),
        _ => acc.spec_add(&g),
    }
}

/// The gradients after one step: the step's target receives the contribution, from an
/// accumulator of zeros shaped like the target's value if it had no gradient yet.
pub open spec fn apply_step<T: TensorBackend>(tape: &Tape<T>, grads: Seq<Option<T>>, s: Step) -> Seq<
    Option<T>,
> {
    let t = target(tape.nodes(), s);
    let acc = match grads[t] {
        Some(a) => a,
        None => tape.value_at(t).spec_zeros_like(),
    };
    grads.update(t, Some(contribution(tape, s.slot, s.operand, grads[s.slot]->Some_0, acc)))
}

/// The gradients after applying `steps` in order to `grads`.
pub open spec fn apply_steps<T: TensorBackend>(
    tape: &Tape<T>,
    grads: Seq<Option<T>>,
    steps: Seq<Step>,
) -> Seq<Option<T>>
    decreases steps.len(),
{
    if steps.len() == 0 {
        grads
    } else {
        apply_step(tape, apply_steps(tape, grads, steps.drop_last()), steps.last())
    }
}

/// `n` gradients, all absent but `seed` at `out`.
pub open spec fn seeded<T>(n: nat, out: int, seed: T) -> Seq<Option<T>> {
    Seq::new(n, |j: int| if j == out { Some(seed) } else { None })
}

/// The gradients of the backward pass from `out` seeded with `seed`: the steps of the
/// schedule applied in order.
pub open spec fn gradients<T: TensorBackend>(tape: &Tape<T>, out: int, seed: T) -> Seq<Option<T>> {
    apply_steps(tape, seeded(tape.len_view(), out, seed), schedule(tape.nodes(), out))
}

impl<T: TensorBackend> Grad<T> {
    /// `self` is the result of the backward pass from slot `out` of `tape`, seeded with
    /// `seed`: the slots that contribute to the output have a gradient, the others none,
    /// and the gradients are those of applying the schedule's steps in order.
    pub open spec fn computed_from(&self, tape: &Tape<T>, out: int, seed: T) -> bool {
        &&& self.tape_id() == tape.id_view()
        &&& self.len_view() == tape.len_view()
        &&& forall|j: int|
            0 <= j < tape.len_view() ==> (#[trigger] self.grad_at(j) is Some <==> live(
                tape.nodes(),
                out,
                j,
            ))
        &&& forall|j: int| 0 <= j < tape.len_view() ==> #[trigger] self.grad_at(j) == gradients(
            tape,
            out,
            seed,
        )[j]
        &&& self.grad_at(out) == Some(seed)
        &&& self.applied() == schedule(tape.nodes(), out)
    }
}

/// Applies the rule of operand `k` of slot `i` to the accumulator `acc`.
fn contribute<T: TensorBackend>(tape: &Tape<T>, i: usize, k: usize, g: &T, acc: &T) -> (r: T)
    requires
        tape.wf(),
        i < tape.len_view(),
        k < tape.nodes()[i as int].operands.len(),
    ensures
        r == contribution(tape, i as int, k as int, *g, *acc),
{
    proof {
        assert(node_wf(tape.nodes(), i as int));
    }
    let ops = tape.operands_of(i);
    match tape.op_of(i) {
        OpKind::Mul => {
            let other = tape.value_of(ops[1 - k].slot);
            acc.add(&other.mul(g))
        },
        OpKind::MatMul => {
            if k == 0 {
                let rhs = tape.value_of(ops[1].slot);
                acc.add(&g.matmul2d(&rhs.transposed()))
            } else {
                let lhs = tape.value_of(ops[0].slot);
                acc.add(&lhs.transposed().matmul2d(g))
            }
        },
        OpKind::Sum => acc.add(&tape.value_of(ops[0].slot).broadcast(g)),
        OpKind::Relu => {
            let input = tape.value_of(ops[0].slot);
            acc.add(&g.mul(&input.leaky_relu_slope()))
        },
        OpKind::LogSoftmax => {
            // exp of the output is the softmax of the input
            let output = tape.value_of(i);
            acc.add(&g.sub(&output.exp().scale(&g.sum())))
        },
        // Add passes the gradient through; a leaf has no operands
        _ => acc.add(g),
    }
}

/// Runs the backward pass from slot `out` with gradient `seed` there.
fn backward<T: TensorBackend>(tape: &Tape<T>, out: usize, seed: T) -> (r: Grad<T>)
    requires
        tape.wf(),
        out < tape.len_view(),
    ensures
        r.computed_from(tape, out as int, seed),
{
    let ghost nodes = tape.nodes();
    let n = tape.len();
    let mut grads: Vec<Option<T>> = Vec::new();
    let mut j: usize = 0;
    while j < n
        invariant
            0 <= j <= n,
            grads@.len() == j,
            forall|m: int| 0 <= m < j ==> #[trigger] grads@[m] is None,
        decreases n - j,
    {
        grads.push(None);
        j = j + 1;
    }
    grads.set(out, Some(seed));
    let ghost mut applied: Seq<Step> = seq![];
    let ghost init = seeded(n as nat, out as int, seed);
    assert(grads@ =~= init);
    let mut i: usize = out + 1;
    while i > 0
        invariant
            tape.wf(),
            nodes == tape.nodes(),
            n == nodes.len(),
            out < n,
            0 <= i <= out + 1,
            grads@.len() == n,
            applied == steps_from(nodes, out as int, i as int),
            init == seeded(n as nat, out as int, seed),
            grads@ == apply_steps(tape, init, applied),
            forall|m: int|
                0 <= m < n ==> (#[trigger] grads@[m] is Some <==> (m == out || touched(
                    nodes,
                    applied,
                    m,
                ))),
            grads@[out as int] == Some(seed),
        decreases i,
    {
        i = i - 1;
        proof {
            lemma_live_by_touch(nodes, out as int, i as int);
        }
        if grads[i].is_some() {
            let ops = tape.operands_of(i);
            let ghost before = applied;
            let mut k: usize = 0;
            while k < ops.len()
                invariant
                    tape.wf(),
                    nodes == tape.nodes(),
                    n == nodes.len(),
                    out < n,
                    i <= out,
                    live(nodes, out as int, i as int),
                    grads@.len() == n,
                    ops@.len() == nodes[i as int].operands.len(),
                    forall|kk: int| 0 <= kk < ops@.len() ==> #[trigger] ops@[kk].slot
                        == nodes[i as int].operands[kk] && ops@[kk].grad_shape@
                        == nodes[i as int].grad_shapes[kk],
                    0 <= k <= ops@.len(),
                    before == steps_from(nodes, out as int, i as int + 1),
                    applied == before + slot_steps(nodes, out as int, i as int).take(k as int),
                    init == seeded(n as nat, out as int, seed),
                    grads@ == apply_steps(tape, init, applied),
                    grads@[i as int] is Some,
                    forall|m: int|
                        0 <= m < n ==> (#[trigger] grads@[m] is Some <==> (m == out || touched(
                            nodes,
                            applied,
                            m,
                        ))),
                    grads@[out as int] == Some(seed),
                decreases ops@.len() - k,
            {
                proof {
                    assert(node_wf(nodes, i as int));
                    assert(nodes[i as int].operands[k as int] < i);
                }
                let t = ops[k].slot;
                let new_acc = match (&grads[i], &grads[t]) {
                    (Some(g), Some(acc)) => contribute(tape, i, k, g, acc),
                    (Some(g), None) => {
                        let zeros = tape.value_of(t).zeros_like();
                        contribute(tape, i, k, g, &zeros)
                    },
                    _ => {
                        proof {
                            assert(false);
                        }
                        tape.value_of(t).zeros_like()
                    },
                };
                grads.set(t, Some(new_acc));
                let ghost step = Step { slot: i as int, operand: k as int };
                proof {
                    let old_applied = applied;
                    applied = applied.push(step);
                    assert(applied.drop_last() =~= old_applied);
                    assert(grads@ =~= apply_step(tape, apply_steps(tape, init, old_applied), step));
                    assert(slot_steps(nodes, out as int, i as int).take(k + 1) =~= slot_steps(
                        nodes,
                        out as int,
                        i as int,
                    ).take(k as int).push(step));
                    assert(applied == before + slot_steps(nodes, out as int, i as int).take(
                        k + 1,
                    ));
                    assert(target(nodes, step) == t);
                    assert forall|m: int| 0 <= m < n implies (#[trigger] grads@[m] is Some <==> (m
                        == out || touched(nodes, applied, m))) by {
                        if touched(nodes, old_applied, m) {
                            let p = choose|p: int|
                                0 <= p < old_applied.len() && #[trigger] target(
                                    nodes,
                                    old_applied[p],
                                ) == m;
                            assert(applied[p] == old_applied[p]);
                        }
                        if m == t {
                            assert(applied[old_applied.len() as int] == step);
                        }
                        if touched(nodes, applied, m) && m != t {
                            let p = choose|p: int|
                                0 <= p < applied.len() && #[trigger] target(nodes, applied[p]) == m;
                            assert(p < old_applied.len());
                            assert(applied[p] == old_applied[p]);
                        }
                    }
                }
                k = k + 1;
            }
            proof {
                assert(slot_steps(nodes, out as int, i as int).take(k as int) =~= slot_steps(
                    nodes,
                    out as int,
                    i as int,
                ));
            }
        } else {
            proof {
                assert(slot_steps(nodes, out as int, i as int) =~= Seq::<Step>::empty());
                assert(applied + slot_steps(nodes, out as int, i as int) =~= applied);
            }
        }
    }
    proof {
        lemma_live_complete(nodes, out as int);
        assert(applied == schedule(nodes, out as int));
    }
    Grad { tape: tape.id(), grads, applied: Ghost(applied) }
}

/// At the time slot `i` is visited, every step into it has been applied: it contributes
/// exactly when it is the output or one of the steps so far touched it.
proof fn lemma_live_by_touch(nodes: Seq<Node>, out: int, i: int)
    requires
        nodes_wf(nodes),
        0 <= i <= out < nodes.len(),
    ensures
        live(nodes, out, i) <==> (i == out || touched(nodes, steps_from(nodes, out, i + 1), i)),
{
    lemma_steps_from_members(nodes, out, i + 1);
    let s = steps_from(nodes, out, i + 1);
    if i != out {
        if live(nodes, out, i) {
            let (a, k) = choose|a: int, k: int|
                i < a <= out && 0 <= k < nodes[a].operands.len() && #[trigger] nodes[a].operands[k]
                    == i && live(nodes, out, a);
            assert(in_steps(s, a, k));
            let p = choose|p: int| 0 <= p < s.len() && s[p].slot == a && #[trigger] s[p].operand == k;
            assert(target(nodes, s[p]) == i);
        }
        if touched(nodes, s, i) {
            let p = choose|p: int| 0 <= p < s.len() && #[trigger] target(nodes, s[p]) == i;
            let st = s[p];
            assert(nodes[st.slot].operands[st.operand] == i);
        }
    }
}

/// After the whole pass, a slot was touched or is the output exactly when it contributes.
proof fn lemma_live_complete(nodes: Seq<Node>, out: int)
    requires
        nodes_wf(nodes),
        0 <= out < nodes.len(),
    ensures
        forall|m: int|
            0 <= m < nodes.len() ==> ((m == out || touched(nodes, schedule(nodes, out), m))
                <==> #[trigger] live(nodes, out, m)),
{
    lemma_steps_from_members(nodes, out, 0);
    let s = schedule(nodes, out);
    assert forall|m: int| 0 <= m < nodes.len() implies ((m == out || touched(nodes, s, m))
        <==> #[trigger] live(nodes, out, m)) by {
        if m != out {
            if touched(nodes, s, m) {
                let p = choose|p: int| 0 <= p < s.len() && #[trigger] target(nodes, s[p]) == m;
                let st = s[p];
                assert(node_wf(nodes, st.slot));
                assert(nodes[st.slot].operands[st.operand] < st.slot);
                assert(nodes[st.slot].operands[st.operand] == m);
            }
            if live(nodes, out, m) && m < out {
                let (a, k) = choose|a: int, k: int|
                    m < a <= out && 0 <= k < nodes[a].operands.len() && #[trigger] nodes[a].operands[k]
                        == m && live(nodes, out, a);
                assert(in_steps(s, a, k));
                let p = choose|p: int|
                    0 <= p < s.len() && s[p].slot == a && #[trigger] s[p].operand == k;
                assert(target(nodes, s[p]) == m);
            }
        }
    }
}

impl Var {
    /// The gradient of this scalar output with respect to every slot of its tape, seeded
    /// with one.
    pub fn grad<T: TensorBackend>(&self, tape: &Tape<T>) -> (r: Result<Grad<T>, AutodiffError>)
        requires
            tape.wf(),
        ensures
            !tape.holds(*self) ==> r == Err::<Grad<T>, AutodiffError>(AutodiffError::TapeMismatch),
            tape.holds(*self) && tape.shape_at(self.slot() as int) != seq![1usize] ==> r == Err::<
                Grad<T>,
                AutodiffError,
            >(AutodiffError::SeedRequired),
            tape.holds(*self) && tape.shape_at(self.slot() as int) == seq![1usize] ==> {
                &&& r is Ok
                &&& r->Ok_0.computed_from(tape, self.slot() as int, T::spec_one())
            },
    {
        if !tape.contains(self) {
            return Err(AutodiffError::TapeMismatch);
        }
        let shape = tape.shape_of(self.slot());
        if shape.len() != 1 || shape[0] != 1 {
            proof {
                if shape@.len() == 1 {
                    assert(shape@ != seq![1usize]);
                }
            }
            return Err(AutodiffError::SeedRequired);
        }
        assert(shape@ =~= seq![1usize]);
        let seed = T::one();
        Ok(backward(tape, self.slot(), seed))
    }

    /// The gradient of this output with respect to every slot of its tape, seeded with
    /// `seed`, which must have the output's shape.
    pub fn grad_with_seed<T: TensorBackend>(&self, tape: &Tape<T>, seed: T) -> (r: Result<
        Grad<T>,
        AutodiffError,
    >)
        requires
            tape.wf(),
        ensures
            !tape.holds(*self) ==> r == Err::<Grad<T>, AutodiffError>(AutodiffError::TapeMismatch),
            tape.holds(*self) ==> r is Ok || r == Err::<Grad<T>, AutodiffError>(
                AutodiffError::ShapeMismatch,
            ),
            r is Ok ==> r->Ok_0.computed_from(tape, self.slot() as int, seed),
    {
        if !tape.contains(self) {
            return Err(AutodiffError::TapeMismatch);
        }
        let seed_shape = seed.shape();
        if !same_shape(seed_shape.as_slice(), tape.shape_of(self.slot()).as_slice()) {
            return Err(AutodiffError::ShapeMismatch);
        }
        Ok(backward(tape, self.slot(), seed))
    }
}

} // verus!
