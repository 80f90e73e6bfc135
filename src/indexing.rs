use vstd::prelude::*;
use crate::shape::copy_dims;
use vstd::arithmetic::div_mod::{
    lemma_fundamental_div_mod, lemma_fundamental_div_mod_converse, lemma_mod_pos_bound,
};

verus! {

/// Number of coordinates of an array of the given shape: the product of its dimensions
/// (one for the rank-0 shape).
pub open spec fn coord_count(shape: Seq<usize>) -> nat
    decreases shape.len(),
{
    if shape.len() == 0 {
        1
    } else {
        coord_count(shape.drop_last()) * (shape.last() as nat)
    }
}

/// Number of coordinates an `Indexer` emits for `shape`: a rank-0 shape is not indexed.
pub open spec fn indexed_count(shape: Seq<usize>) -> nat {
    if shape.len() == 0 {
        0
    } else {
        coord_count(shape)
    }
}

/// The `p`-th coordinate of `shape` in row-major order (last axis fastest).
pub open spec fn coords_at(shape: Seq<usize>, p: nat) -> Seq<usize>
    decreases shape.len(),
{
    if shape.len() == 0 {
        seq![]
    } else {
        let d = shape.last() as nat;
        coords_at(shape.drop_last(), p / d).push((p % d) as usize)
    }
}

/// Every dimension is positive.
pub open spec fn dims_positive(shape: Seq<usize>) -> bool {
    forall|i: int| 0 <= i < shape.len() ==> shape[i] > 0
}

/// A coordinate lies inside `shape`.
pub open spec fn in_bounds(shape: Seq<usize>, c: Seq<usize>) -> bool {
    &&& c.len() == shape.len()
    &&& forall|i: int| 0 <= i < c.len() ==> c[i] < shape[i]
}

/// Odometer step: the coordinate that follows `c` in row-major order, or `None` when
/// `c` is the last one.
pub open spec fn successor(shape: Seq<usize>, c: Seq<usize>) -> Option<Seq<usize>>
    decreases shape.len(),
{
    if shape.len() == 0 || c.len() != shape.len() {
        None
    } else if c.last() + 1 < shape.last() {
        Some(c.drop_last().push((c.last() + 1) as usize))
    } else {
        match successor(shape.drop_last(), c.drop_last()) {
            Some(p) => Some(p.push(0usize)),
            None => None,
        }
    }
}

pub open spec fn zeros_seq(n: nat) -> Seq<usize> {
    Seq::new(n, |i: int| 0usize)
}

proof fn lemma_count_positive(shape: Seq<usize>)
    requires
        dims_positive(shape),
    ensures
        coord_count(shape) > 0,
    decreases shape.len(),
{
    if shape.len() > 0 {
        lemma_count_positive(shape.drop_last());
        let a = coord_count(shape.drop_last());
        let b = shape.last() as nat;
        assert(a * b > 0) by (nonlinear_arith)
            requires
                a > 0,
                b > 0,
        ;
    }
}

proof fn lemma_first_coords(shape: Seq<usize>)
    requires
        dims_positive(shape),
    ensures
        coords_at(shape, 0) == zeros_seq(shape.len()),
    decreases shape.len(),
{
    if shape.len() > 0 {
        let d = shape.last() as int;
        lemma_fundamental_div_mod_converse(0, d, 0, 0);
        lemma_first_coords(shape.drop_last());
        assert(coords_at(shape, 0) =~= zeros_seq(shape.len()));
    }
}

/// Every emitted coordinate is in bounds.
pub proof fn lemma_coords_in_bounds(shape: Seq<usize>, p: nat)
    requires
        dims_positive(shape),
        p < coord_count(shape),
    ensures
        in_bounds(shape, coords_at(shape, p)),
    decreases shape.len(),
{
    if shape.len() > 0 {
        let s = shape.drop_last();
        let d = shape.last() as int;
        let q = p as int / d;
        let r = p as int % d;
        lemma_fundamental_div_mod(p as int, d);
        lemma_mod_pos_bound(p as int, d);
        let c = coord_count(s) as int;
        assert(q < c) by (nonlinear_arith)
            requires
                p == d * q + r,
                0 <= r < d,
                p < c * d,
        ;
        assert(q >= 0) by (nonlinear_arith)
            requires
                p == d * q + r,
                0 <= r < d,
                p >= 0,
        ;
        lemma_coords_in_bounds(s, q as nat);
    }
}

/// The odometer step on the `p`-th coordinate gives the `p + 1`-th, and runs off the end
/// exactly after the last one.
proof fn lemma_successor(shape: Seq<usize>, p: nat)
    requires
        dims_positive(shape),
        shape.len() > 0,
        p < coord_count(shape),
    ensures
        successor(shape, coords_at(shape, p)) == (if p + 1 < coord_count(shape) {
            Some(coords_at(shape, p + 1))
        } else {
            None::<Seq<usize>>
        }),
    decreases shape.len(),
{
    let s = shape.drop_last();
    let d = shape.last() as int;
    let q = p as int / d;
    let r = p as int % d;
    let c = coord_count(s) as int;
    lemma_fundamental_div_mod(p as int, d);
    lemma_mod_pos_bound(p as int, d);
    assert(0 <= q < c) by (nonlinear_arith)
        requires
            p == d * q + r,
            0 <= r < d,
            p < c * d,
            p >= 0,
    ;
    let cq = coords_at(s, q as nat);
    assert(coords_at(shape, p) == cq.push(r as usize));
    lemma_coords_in_bounds(s, q as nat);
    assert(cq.push(r as usize).drop_last() =~= cq);
    if r + 1 < d {
        lemma_fundamental_div_mod_converse(p as int + 1, d, q, r + 1);
        assert(p + 1 < c * d) by (nonlinear_arith)
            requires
                p == d * q + r,
                r + 1 < d,
                0 <= q < c,
                d > 0,
        ;
    } else {
        assert(p + 1 == (q + 1) * d + 0) by (nonlinear_arith)
            requires
                p == d * q + r,
                r + 1 == d,
        ;
        lemma_fundamental_div_mod_converse(p as int + 1, d, q + 1, 0);
        assert((p + 1 < c * d) == (q + 1 < c)) by (nonlinear_arith)
            requires
                p == d * q + r,
                r + 1 == d,
                d > 0,
        ;
        if s.len() == 0 {
            assert(c == 1);
        } else {
            lemma_successor(s, q as nat);
        }
    }
}

/// Row-major position of the coordinate `c` of `shape`.
pub open spec fn flat_index(shape: Seq<usize>, c: Seq<usize>) -> nat
    decreases shape.len(),
{
    if shape.len() == 0 || c.len() == 0 {
        0
    } else {
        flat_index(shape.drop_last(), c.drop_last()) * (shape.last() as nat) + (c.last() as nat)
    }
}

/// Row-major order is a bijection between the positions below `coord_count(shape)` and
/// the in-bounds coordinates: every in-bounds coordinate is emitted, at its row-major
/// position, and no position is emitted twice.
pub proof fn lemma_row_major_bijection(shape: Seq<usize>)
    requires
        dims_positive(shape),
    ensures
        forall|c: Seq<usize>|
            #[trigger] in_bounds(shape, c) ==> flat_index(shape, c) < coord_count(shape)
                && coords_at(shape, flat_index(shape, c)) == c,
        forall|p: nat| p < coord_count(shape) ==> #[trigger] flat_index(shape, coords_at(shape, p)) == p,
    decreases shape.len(),
{
    if shape.len() > 0 {
        let s = shape.drop_last();
        let d = shape.last() as int;
        lemma_row_major_bijection(s);
        let cs = coord_count(s) as int;
        assert forall|c: Seq<usize>| #[trigger] in_bounds(shape, c) implies flat_index(shape, c)
            < coord_count(shape) && coords_at(shape, flat_index(shape, c)) == c by {
            let c2 = c.drop_last();
            assert(in_bounds(s, c2));
            let f = flat_index(s, c2) as int;
            let r = c.last() as int;
            assert(0 <= r < d);
            assert(f * d + r < cs * d) by (nonlinear_arith)
                requires
                    0 <= f < cs,
                    0 <= r < d,
            ;
            lemma_fundamental_div_mod_converse(f * d + r, d, f, r);
            assert(c2.push(c.last()) =~= c);
        }
        assert forall|p: nat| p < coord_count(shape) implies #[trigger] flat_index(
            shape,
            coords_at(shape, p),
        ) == p by {
            let q = p as int / d;
            let r = p as int % d;
            lemma_fundamental_div_mod(p as int, d);
            lemma_mod_pos_bound(p as int, d);
            assert(0 <= q < cs) by (nonlinear_arith)
                requires
                    p == d * q + r,
                    0 <= r < d,
                    p < cs * d,
            ;
            let c = coords_at(shape, p);
            assert(c == coords_at(s, q as nat).push(r as usize));
            assert(c.drop_last() =~= coords_at(s, q as nat));
            assert(c.last() == r);
            assert(flat_index(s, coords_at(s, q as nat)) == q);
            assert(flat_index(shape, c) == q * d + r);
            assert(p == q * d + r) by (nonlinear_arith)
                requires
                    p == d * q + r,
            ;
        }
    }
}

/// Enumerates every coordinate of a shape exactly once, in row-major order, starting
/// with all zeros and ending with the largest index on every axis.
pub struct Indexer {
    shape: Vec<usize>,
    current: Vec<usize>,
    started: bool,
    done: bool,
    /// Position of `current` in row-major order.
    pos: Ghost<nat>,
}

impl Indexer {
    /// The shape being enumerated.
    pub closed spec fn shape_view(&self) -> Seq<usize> {
        self.shape@
    }

    /// How many coordinates were handed out so far.
    pub closed spec fn emitted(&self) -> nat {
        if self.done {
            indexed_count(self.shape@)
        } else if !self.started {
            0
        } else {
            self.pos@ + 1
        }
    }

    pub closed spec fn wf(&self) -> bool {
        &&& !self.done ==> self.shape@.len() > 0 && dims_positive(self.shape@)
        &&& self.started && !self.done ==> {
            &&& self.pos@ + 1 < indexed_count(self.shape@) || self.pos@ + 1
                == indexed_count(self.shape@)
            &&& self.current@ == coords_at(self.shape@, self.pos@)
        }
    }

    /// An indexer over `shape`, a non-empty shape of positive dimensions, that has
    /// emitted nothing yet.
    pub fn new(shape: &[usize]) -> (r: Indexer)
        requires
            shape@.len() > 0,
            dims_positive(shape@),
        ensures
            r.wf(),
            r.shape_view() == shape@,
            r.emitted() == 0,
    {
        Indexer {
            shape: copy_dims(shape),
            current: Vec::new(),
            started: false,
            done: false,
            pos: Ghost(0),
        }
    }

    /// The next coordinate in row-major order, or `None` once all were handed out.
    pub fn next(&mut self) -> (r: Option<Vec<usize>>)
        requires
            old(self).wf(),
        ensures
            final(self).wf(),
            final(self).shape_view() == old(self).shape_view(),
            old(self).emitted() < indexed_count(old(self).shape_view()) ==> {
                &&& r is Some
                &&& r->Some_0@ == coords_at(old(self).shape_view(), old(self).emitted())
                &&& final(self).emitted() == old(self).emitted() + 1
            },
            old(self).emitted() >= indexed_count(old(self).shape_view()) ==> {
                &&& r is None
                &&& final(self).emitted() == old(self).emitted()
            },
    {
        if self.done {
            return None;
        }
        let n = self.shape.len();
        if !self.started {
            let mut zeros: Vec<usize> = Vec::new();
            let mut i: usize = 0;
            while i < n
                invariant
                    0 <= i <= n,
                    zeros@ == zeros_seq(i as nat),
                decreases n - i,
            {
                zeros.push(0);
                i = i + 1;
                assert(zeros@ =~= zeros_seq(i as nat));
            }
            proof {
                lemma_first_coords(self.shape@);
                lemma_count_positive(self.shape@);
            }
            self.current = zeros;
            self.started = true;
            self.pos = Ghost(0);
            return Some(copy_dims(self.current.as_slice()));
        }
        let ghost c0 = self.current@;
        let ghost sh = self.shape@;
        let ghost pos0 = self.pos@;
        proof {
            lemma_successor(sh, pos0);
            lemma_coords_in_bounds(sh, pos0);
            assert(c0.take(n as int) + zeros_seq(0) =~= c0);
            assert(sh.take(n as int) =~= sh);
            assert(c0.take(n as int) =~= c0);
        }
        let mut k: usize = n;
        while k > 0
            invariant
                n == sh.len(),
                sh == self.shape@,
                0 <= k <= n,
                self.current@.len() == n,
                c0.len() == n,
                in_bounds(sh, c0),
                pos0 == self.pos@,
                sh == old(self).shape@,
                pos0 == old(self).pos@,
                old(self).started,
                !old(self).done,
                self.started,
                !self.done,
                pos0 + 1 <= indexed_count(sh),
                successor(sh, c0) == (if pos0 + 1 < coord_count(sh) {
                    Some(coords_at(sh, pos0 + 1))
                } else {
                    None::<Seq<usize>>
                }),
                self.current@ == c0.take(k as int) + zeros_seq((n - k) as nat),
                successor(sh, c0) == match successor(sh.take(k as int), c0.take(k as int)) {
                    Some(p) => Some(p + zeros_seq((n - k) as nat)),
                    None => None,
                },
            decreases k,
        {
            k = k - 1;
            let ghost sk = sh.take(k + 1);
            let ghost ck = c0.take(k + 1);
            assert(sk.drop_last() =~= sh.take(k as int));
            assert(ck.drop_last() =~= c0.take(k as int));
            assert(ck.last() == self.current@[k as int]);
            if self.current[k] + 1 < self.shape[k] {
                let v = self.current[k] + 1;
                self.current.set(k, v);
                assert(self.current@ =~= c0.take(k as int).push(v) + zeros_seq((n - k - 1) as nat));
                assert(successor(sk, ck) == Some(ck.drop_last().push(v)));
                assert(successor(sh, c0) == Some(self.current@));
                assert(pos0 + 1 < coord_count(sh));
                self.pos = Ghost(self.pos@ + 1);
                return Some(copy_dims(self.current.as_slice()));
            }
            self.current.set(k, 0);
            assert(self.current@ =~= c0.take(k as int) + zeros_seq((n - k) as nat));
            assert forall|p: Seq<usize>| #[trigger] (p.push(0usize) + zeros_seq((n - k - 1) as nat))
                =~= p + zeros_seq((n - k) as nat) by {}
        }
        assert(sh.take(0) =~= Seq::<usize>::empty());
        self.done = true;
        None
    }
}

} // verus!
