use vstd::prelude::*;
use crate::backward::{
    in_steps, lemma_steps_from_members, lemma_steps_from_ordered, live, schedule, target, Grad,
};
use crate::backend::TensorBackend;
use crate::tape::{node_wf, Tape, TapeIds, Var};

verus! {

/// In the backward pass from any output, the gradient of a slot is complete before it is
/// used: every step that accumulates into a slot comes before every step that applies
/// that slot's own rules.
pub proof fn gradient_complete_before_use<T>(tape: &Tape<T>, out: int)
    requires
        tape.wf(),
        0 <= out < tape.len_view(),
    ensures
        forall|p: int, q: int|
            0 <= p < schedule(tape.nodes(), out).len() && 0 <= q < schedule(tape.nodes(), out).len()
                && #[trigger] target(tape.nodes(), schedule(tape.nodes(), out)[p]) == (#[trigger] schedule(
                tape.nodes(),
                out,
            )[q]).slot ==> p < q,
{
    let nodes = tape.nodes();
    let s = schedule(nodes, out);
    lemma_steps_from_members(nodes, out, 0);
    lemma_steps_from_ordered(nodes, out, 0);
    assert forall|p: int, q: int|
        0 <= p < s.len() && 0 <= q < s.len() && #[trigger] target(nodes, s[p]) == (
        #[trigger] s[q]).slot implies p < q by {
        assert(node_wf(nodes, s[p].slot));
        assert(nodes[s[p].slot].operands[s[p].operand] < s[p].slot);
        if q < p {
            assert(s[q].slot >= s[p].slot);
        }
    }
}

/// Every operand of every slot that contributes to the output has its rule applied
/// exactly once, and no other rule is applied: a value used several times receives the
/// sum of one contribution per use.
pub proof fn each_rule_applied_once<T>(tape: &Tape<T>, out: int)
    requires
        tape.wf(),
        0 <= out < tape.len_view(),
    ensures
        forall|i: int, k: int|
            #[trigger] in_steps(schedule(tape.nodes(), out), i, k) <==> (0 <= i < tape.len_view()
                && live(tape.nodes(), out, i) && 0 <= k < tape.nodes()[i].operands.len()),
        forall|p: int, q: int|
            0 <= p < schedule(tape.nodes(), out).len() && 0 <= q < schedule(tape.nodes(), out).len()
                && p != q ==> #[trigger] schedule(tape.nodes(), out)[p] != #[trigger] schedule(
                tape.nodes(),
                out,
            )[q],
{
    let nodes = tape.nodes();
    let s = schedule(nodes, out);
    lemma_steps_from_members(nodes, out, 0);
    lemma_steps_from_ordered(nodes, out, 0);
    assert forall|i: int, k: int| #[trigger] in_steps(s, i, k) implies (0 <= i < tape.len_view()
        && live(nodes, out, i) && 0 <= k < nodes[i].operands.len()) by {
        let p = choose|p: int| 0 <= p < s.len() && s[p].slot == i && #[trigger] s[p].operand == k;
        assert(s[p] == s[p]);
    }
    assert forall|p: int, q: int|
        0 <= p < s.len() && 0 <= q < s.len() && p != q implies #[trigger] s[p] != #[trigger] s[q] by {
        if p < q {
            assert(s[p].slot > s[q].slot || s[p].operand < s[q].operand);
        } else {
            assert(s[q].slot > s[p].slot || s[q].operand < s[p].operand);
        }
    }
}

/// A value that is both operands of a contributing slot (as in `add(x, x)` or
/// `mul(x, x)`) receives two separate contributions from it.
pub proof fn shared_operand_accumulates_twice<T>(tape: &Tape<T>, out: int, i: int)
    requires
        tape.wf(),
        0 <= out < tape.len_view(),
        0 <= i < tape.len_view(),
        live(tape.nodes(), out, i),
        tape.nodes()[i].operands.len() == 2,
        tape.nodes()[i].operands[0] == tape.nodes()[i].operands[1],
    ensures
        exists|p: int, q: int|
            0 <= p < q < schedule(tape.nodes(), out).len() && schedule(tape.nodes(), out)[p].slot == i
                && schedule(tape.nodes(), out)[q].slot == i && #[trigger] target(
                tape.nodes(),
                schedule(tape.nodes(), out)[p],
            ) == tape.nodes()[i].operands[0] as int && #[trigger] target(
                tape.nodes(),
                schedule(tape.nodes(), out)[q],
            ) == tape.nodes()[i].operands[0] as int,
{
    let nodes = tape.nodes();
    let s = schedule(nodes, out);
    each_rule_applied_once(tape, out);
    assert(in_steps(s, i, 0));
    assert(in_steps(s, i, 1));
    let p = choose|p: int| 0 <= p < s.len() && s[p].slot == i && #[trigger] s[p].operand == 0;
    let q = choose|q: int| 0 <= q < s.len() && s[q].slot == i && #[trigger] s[q].operand == 1;
    assert(target(nodes, s[p]) == nodes[i].operands[0] as int);
    assert(target(nodes, s[q]) == nodes[i].operands[0] as int);
    if q < p {
        assert(target(nodes, s[q]) == nodes[i].operands[0] as int);
        assert(target(nodes, s[p]) == nodes[i].operands[0] as int);
    }
}

/// Two backward passes from the same output of the same tape with the same seed give the
/// same gradient to every slot, through the same steps in the same order.
pub proof fn backward_deterministic<T: TensorBackend>(
    tape: &Tape<T>,
    out: int,
    seed: T,
    first: &Grad<T>,
    second: &Grad<T>,
)
    requires
        first.computed_from(tape, out, seed),
        second.computed_from(tape, out, seed),
    ensures
        first.applied() == second.applied(),
        first.len_view() == second.len_view(),
        forall|j: int| 0 <= j < tape.len_view() ==> #[trigger] first.grad_at(j) == second.grad_at(j),
{
}

/// A handle of one tape is refused by every other tape made from the same id source:
/// tapes made one after the other from a source have different ids, and a tape holds only
/// handles that carry its own id.
pub proof fn tapes_from_one_source_are_isolated<T>(
    ids: &TapeIds,
    first: &Tape<T>,
    second: &Tape<T>,
    v: Var,
)
    requires
        ids.issued().contains(first.id_view()),
        !ids.issued().contains(second.id_view()),
        second.holds(v),
    ensures
        first.id_view() != second.id_view(),
        !first.holds(v),
{
}

/// A slot recorded after the output never contributes to it.
pub proof fn later_slot_not_live<T>(tape: &Tape<T>, out: int, x: int)
    requires
        out < x,
    ensures
        !live(tape.nodes(), out, x),
{
}

/// A value of the tape that did not take part in computing the output gets no gradient,
/// so asking for it fails with `NotInGraph`.
pub proof fn unused_value_has_no_gradient<T: TensorBackend>(tape: &Tape<T>, out: int, seed: T, grad: &Grad<T>, x: int)
    requires
        grad.computed_from(tape, out, seed),
        0 <= x < tape.len_view(),
        !live(tape.nodes(), out, x),
    ensures
        grad.grad_at(x) is None,
{
}

} // verus!
