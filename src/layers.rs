use vstd::prelude::*;
use crate::backend::TensorBackend;
use crate::backward::Grad;
use crate::error::AutodiffError;
use crate::ops::{binary_outcome, matmul};
use crate::tape::{OpKind, Tape, Var};

verus! {

/// Raw parameters kept between tapes, keyed by a string id.
pub struct ParameterStore<T> {
    entries: Vec<(String, T)>,
}

/// Some entry of `s` has key `k`.
pub open spec fn has_key<T>(s: Seq<(String, T)>, k: Seq<char>) -> bool {
    exists|i: int| 0 <= i < s.len() && #[trigger] s[i].0@ == k
}

/// The map that entries with distinct keys describe.
pub open spec fn entries_map<T>(s: Seq<(String, T)>) -> Map<Seq<char>, T> {
    Map::new(
        |k: Seq<char>| has_key(s, k),
        |k: Seq<char>| s[choose|i: int| 0 <= i < s.len() && #[trigger] s[i].0@ == k].1,
    )
}

pub open spec fn keys_distinct<T>(s: Seq<(String, T)>) -> bool {
    forall|i: int, j: int| 0 <= i < s.len() && 0 <= j < s.len() && i != j ==> #[trigger] s[i].0@
        != #[trigger] s[j].0@
}

proof fn lemma_entry_value<T>(s: Seq<(String, T)>, i: int)
    requires
        keys_distinct(s),
        0 <= i < s.len(),
    ensures
        entries_map(s).contains_key(s[i].0@),
        entries_map(s)[s[i].0@] == s[i].1,
{
    let k = s[i].0@;
    assert(has_key(s, k));
    let j = choose|j: int| 0 <= j < s.len() && #[trigger] s[j].0@ == k;
    assert(i == j);
}

impl<T> View for ParameterStore<T> {
    type V = Map<Seq<char>, T>;

    closed spec fn view(&self) -> Map<Seq<char>, T> {
        entries_map(self.entries@)
    }
}

impl<T> ParameterStore<T> {
    pub closed spec fn wf(&self) -> bool {
        keys_distinct(self.entries@)
    }

    /// An empty store.
    pub fn new() -> (r: ParameterStore<T>)
        ensures
            r.wf(),
            r@ == Map::<Seq<char>, T>::empty(),
    {
        let r = ParameterStore { entries: Vec::new() };
        assert(r@ =~= Map::<Seq<char>, T>::empty());
        r
    }

    /// Position of the entry with key `id`.
    fn find(&self, id: &String) -> (r: Option<usize>)
        requires
            self.wf(),
        ensures
            r is None ==> !self@.contains_key(id@),
            r matches Some(i) ==> i < self.entries@.len() && self.entries@[i as int].0@ == id@
                && self@.contains_key(id@) && self@[id@] == self.entries@[i as int].1,
    {
        let mut i: usize = 0;
        while i < self.entries.len()
            invariant
                self.wf(),
                0 <= i <= self.entries@.len(),
                forall|j: int| 0 <= j < i ==> #[trigger] self.entries@[j].0@ != id@,
            decreases self.entries@.len() - i,
        {
            if self.entries[i].0 == *id {
                proof {
                    lemma_entry_value(self.entries@, i as int);
                }
                return Some(i);
            }
            i = i + 1;
        }
        None
    }

    /// The parameter stored under `id`.
    pub fn get(&self, id: &String) -> (r: Option<&T>)
        requires
            self.wf(),
        ensures
            r is Some <==> self@.contains_key(id@),
            r matches Some(v) ==> *v == self@[id@],
    {
        match self.find(id) {
            Some(i) => Some(&self.entries[i].1),
            None => None,
        }
    }

    /// Stores `value` under `id`, replacing what was there.
    pub fn insert(&mut self, id: String, value: T)
        requires
            old(self).wf(),
        ensures
            final(self).wf(),
            final(self)@ == old(self)@.insert(id@, value),
    {
        let ghost k = id@;
        let ghost s0 = self.entries@;
        match self.find(&id) {
            Some(i) => {
                self.entries.set(i, (id, value));
                proof {
                    let s = self.entries@;
                    assert(keys_distinct(s)) by {
                        assert forall|a: int, b: int|
                            0 <= a < s.len() && 0 <= b < s.len() && a != b implies #[trigger] s[a].0@
                            != #[trigger] s[b].0@ by {
                            assert(s0[a].0@ != s0[b].0@);
                        }
                    }
                    lemma_entry_value(s, i as int);
                    assert forall|q: Seq<char>| #[trigger] has_key(s, q) == has_key(s0, q) by {
                        if has_key(s0, q) {
                            let j = choose|j: int| 0 <= j < s0.len() && #[trigger] s0[j].0@ == q;
                            assert(s[j].0@ == q);
                        }
                        if has_key(s, q) {
                            let j = choose|j: int| 0 <= j < s.len() && #[trigger] s[j].0@ == q;
                            assert(s0[j].0@ == q);
                        }
                    }
                    assert forall|q: Seq<char>| q != k && has_key(s, q) implies entries_map(s)[q]
                        == #[trigger] entries_map(s0)[q] by {
                        let j = choose|j: int| 0 <= j < s0.len() && #[trigger] s0[j].0@ == q;
                        lemma_entry_value(s0, j);
                        assert(j != i);
                        assert(s[j] == s0[j]);
                        lemma_entry_value(s, j);
                    }
                    assert(self@ =~= old(self)@.insert(k, value));
                }
            },
            None => {
                self.entries.push((id, value));
                proof {
                    let s = self.entries@;
                    let n = s0.len() as int;
                    assert(s[n].0@ == k);
                    assert(keys_distinct(s)) by {
                        assert forall|a: int, b: int|
                            0 <= a < s.len() && 0 <= b < s.len() && a != b implies #[trigger] s[a].0@
                            != #[trigger] s[b].0@ by {
                            if a < n && b < n {
                                assert(s0[a].0@ != s0[b].0@);
                            } else if a < n {
                                assert(s[a] == s0[a]);
                                assert(has_key(s0, s0[a].0@));
                            } else {
                                assert(s[b] == s0[b]);
                                assert(has_key(s0, s0[b].0@));
                            }
                        }
                    }
                    lemma_entry_value(s, n);
                    assert forall|q: Seq<char>| #[trigger] has_key(s, q) == (has_key(s0, q) || q
                        == k) by {
                        if has_key(s0, q) {
                            let j = choose|j: int| 0 <= j < s0.len() && #[trigger] s0[j].0@ == q;
                            assert(s[j].0@ == q);
                        }
                        if has_key(s, q) && q != k {
                            let j = choose|j: int| 0 <= j < s.len() && #[trigger] s[j].0@ == q;
                            assert(s0[j].0@ == q);
                        }
                    }
                    assert forall|q: Seq<char>| q != k && has_key(s, q) implies entries_map(s)[q]
                        == #[trigger] entries_map(s0)[q] by {
                        let j = choose|j: int| 0 <= j < s0.len() && #[trigger] s0[j].0@ == q;
                        lemma_entry_value(s0, j);
                        assert(s[j] == s0[j]);
                        lemma_entry_value(s, j);
                    }
                    assert(self@ =~= old(self)@.insert(k, value));
                }
            },
        }
    }

    /// Takes the parameter stored under `id` out of the store.
    pub fn remove(&mut self, id: &String) -> (r: Option<T>)
        requires
            old(self).wf(),
        ensures
            final(self).wf(),
            final(self)@ == old(self)@.remove(id@),
            r is Some <==> old(self)@.contains_key(id@),
            r matches Some(v) ==> v == old(self)@[id@],
    {
        let ghost k = id@;
        let ghost s0 = self.entries@;
        match self.find(id) {
            Some(i) => {
                let (_, v) = self.entries.remove(i);
                proof {
                    let s = self.entries@;
                    let ii = i as int;
                    assert forall|j: int| 0 <= j < s.len() implies #[trigger] s[j] == (if j < ii {
                        s0[j]
                    } else {
                        s0[j + 1]
                    }) by {}
                    assert(keys_distinct(s)) by {
                        assert forall|a: int, b: int|
                            0 <= a < s.len() && 0 <= b < s.len() && a != b implies #[trigger] s[a].0@
                            != #[trigger] s[b].0@ by {
                            let a0 = if a < ii {
                                a
                            } else {
                                a + 1
                            };
                            let b0 = if b < ii {
                                b
                            } else {
                                b + 1
                            };
                            assert(s0[a0].0@ != s0[b0].0@);
                        }
                    }
                    assert forall|q: Seq<char>| #[trigger] has_key(s, q) == (has_key(s0, q) && q
                        != k) by {
                        if has_key(s0, q) && q != k {
                            let j = choose|j: int| 0 <= j < s0.len() && #[trigger] s0[j].0@ == q;
                            assert(j != ii);
                            if j < ii {
                                assert(s[j].0@ == q);
                            } else {
                                assert(s[j - 1].0@ == q);
                            }
                        }
                        if has_key(s, q) {
                            let j = choose|j: int| 0 <= j < s.len() && #[trigger] s[j].0@ == q;
                            let j0 = if j < ii {
                                j
                            } else {
                                j + 1
                            };
                            assert(s0[j0].0@ == q);
                            assert(j0 != ii);
                        }
                    }
                    assert forall|q: Seq<char>| has_key(s, q) implies entries_map(s)[q]
                        == #[trigger] entries_map(s0)[q] by {
                        let j = choose|j: int| 0 <= j < s.len() && #[trigger] s[j].0@ == q;
                        let j0 = if j < ii {
                            j
                        } else {
                            j + 1
                        };
                        assert(s0[j0] == s[j]);
                        lemma_entry_value(s0, j0);
                        lemma_entry_value(s, j);
                    }
                    assert(self@ =~= old(self)@.remove(k));
                }
                Some(v)
            },
            None => {
                proof {
                    assert(self@ =~= old(self)@.remove(k));
                }
                None
            },
        }
    }

    /// Takes the parameter stored under `id` out of the store, or makes one with `init`
    /// when there is none.
    pub fn remove_or_init<F: FnOnce() -> T>(&mut self, id: &String, init: F) -> (r: T)
        requires
            old(self).wf(),
            init.requires(()),
        ensures
            final(self).wf(),
            final(self)@ == old(self)@.remove(id@),
            old(self)@.contains_key(id@) ==> r == old(self)@[id@],
            !old(self)@.contains_key(id@) ==> init.ensures((), r),
    {
        match self.remove(id) {
            Some(v) => v,
            None => init(),
        }
    }
}

/// A dense layer without bias: an input of shape `[1, in]` times a weight matrix of
/// shape `[in, out]`. The weights live in a parameter store between tapes and are
/// wrapped as a leaf of each new tape.
pub struct LinearLayer {
    weights: Var,
    id: String,
}

impl LinearLayer {
    pub closed spec fn weights_view(&self) -> Var {
        self.weights
    }

    pub closed spec fn id_view(&self) -> Seq<char> {
        self.id@
    }

    /// Wraps the weights stored under `id` as a leaf of `tape`, or, when `store` has none,
    /// new random weights of shape `[in_size, out_size]`. The store is only read.
    pub fn new<T: TensorBackend>(
        tape: &mut Tape<T>,
        in_size: usize,
        out_size: usize,
        store: &ParameterStore<T>,
        id: String,
    ) -> (r: LinearLayer)
        requires
            old(tape).wf(),
            store.wf(),
        ensures
            final(tape).wf(),
            r.id_view() == id@,
            final(tape).id_view() == old(tape).id_view(),
            r.weights_view().tape_id() == old(tape).id_view(),
            r.weights_view().slot() == old(tape).len_view(),
            final(tape).nodes().len() == old(tape).nodes().len() + 1,
            final(tape).nodes().take(old(tape).len_view() as int) == old(tape).nodes(),
            final(tape).nodes()[old(tape).len_view() as int].op == OpKind::Leaf,
            forall|i: int| 0 <= i < old(tape).len_view() ==> #[trigger] final(tape).value_at(i)
                == old(tape).value_at(i),
            store@.contains_key(id@) ==> final(tape).value_at(old(tape).len_view() as int)
                == store@[id@],
            !store@.contains_key(id@) ==> final(tape).shape_at(old(tape).len_view() as int)
                == seq![in_size, out_size],
    {
        let param = match store.get(&id) {
            Some(v) => v.copy(),
            None => {
                let mut dims: Vec<usize> = Vec::new();
                dims.push(in_size);
                dims.push(out_size);
                assert(dims@ =~= seq![in_size, out_size]);
                T::rand(dims.as_slice())
            },
        };
        let weights = tape.new_var(param);
        LinearLayer { weights, id }
    }

    /// The handle of the weights on the tape they were wrapped in.
    pub fn weights(&self) -> (r: Var)
        ensures
            r == self.weights_view(),
    {
        self.weights
    }

    /// `input · weights`.
    pub fn forward<T: TensorBackend>(&self, tape: &mut Tape<T>, input: &Var) -> (r: Result<
        Var,
        AutodiffError,
    >)
        requires
            old(tape).wf(),
        ensures
            final(tape).wf(),
            binary_outcome(old(tape), final(tape), OpKind::MatMul, *input, self.weights_view(), r),
    {
        matmul(tape, input, &self.weights)
    }

    /// One step of gradient descent: stores `W - learning_rate · G` under the layer's id,
    /// where `W` are the weights on `tape`, `G` their gradient in `grad` and
    /// `learning_rate` a value of shape `[1]`. Fails, leaving the store as it was, with
    /// `TapeMismatch` when the weights are not on `tape` or not on the tape of `grad`, and
    /// with `UninitializedParameter` when they received no gradient: the layer's forward
    /// was not part of the computation `grad` differentiates.
    pub fn optimize<T: TensorBackend>(
        &self,
        tape: &Tape<T>,
        grad: &Grad<T>,
        learning_rate: &T,
        store: &mut ParameterStore<T>,
    ) -> (r: Result<(), AutodiffError>)
        requires
            old(store).wf(),
        ensures
            final(store).wf(),
            !tape.holds(self.weights_view()) ==> r == Err::<(), AutodiffError>(
                AutodiffError::TapeMismatch,
            ),
            tape.holds(self.weights_view()) && (grad.tape_id() != self.weights_view().tape_id()
                || self.weights_view().slot() >= grad.len_view()) ==> r == Err::<(), AutodiffError>(
                AutodiffError::TapeMismatch,
            ),
            tape.holds(self.weights_view()) && grad.tape_id() == self.weights_view().tape_id()
                && self.weights_view().slot() < grad.len_view() ==> {
                &&& grad.grad_at(self.weights_view().slot() as int) is None ==> r == Err::<
                    (),
                    AutodiffError,
                >(AutodiffError::UninitializedParameter)
                &&& grad.grad_at(self.weights_view().slot() as int) is Some ==> r is Ok
            },
            r is Ok ==> final(store)@ == old(store)@.insert(
                self.id_view(),
                tape.value_at(self.weights_view().slot() as int).spec_sub(
                    &grad.grad_at(self.weights_view().slot() as int)->Some_0.spec_scale(
                        learning_rate,
                    ),
                ),
            ),
            r is Err ==> final(store)@ == old(store)@,
    {
        if !tape.contains(&self.weights) {
            return Err(AutodiffError::TapeMismatch);
        }
        let g = match grad.wrt(&self.weights) {
            Ok(g) => g,
            Err(AutodiffError::NotInGraph) => {
                return Err(AutodiffError::UninitializedParameter);
            },
            Err(e) => {
                return Err(e);
            },
        };
        let w = tape.value_of(self.weights.slot());
        let updated = w.sub(&g.scale(learning_rate));
        store.insert(self.id.clone(), updated);
        Ok(())
    }
}

} // verus!
