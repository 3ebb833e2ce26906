//! Row-major enumeration of buffer offsets for a strided array.
//!
//! [`NdIndex`] walks every logical position of a shape in row-major order and
//! hands out the buffer offset each position reaches under the strides. The
//! general path keeps a per-axis counter and a running offset, incrementing
//! the last axis and carrying outward on overflow. When the strides are the
//! canonical row-major strides the iterator takes a fast path that skips the
//! carry logic and counts `0, 1, 2, ...`; the contract of [`NdIndex::next`]
//! is one and the same for both paths, so the fast path is proved to yield
//! exactly the offsets the general path would.

use vstd::prelude::*;

use crate::shapes::{
    counts_fit, idx_next, idx_wf, is_canonical, lemma_canonical_offset_is_rank, lemma_dot_mono,
    lemma_dot_nonneg, lemma_dot_term, lemma_dot_update, lemma_idx_next, lemma_numel_pos,
    lemma_rank_bounds, lemma_rank_injective, lemma_unrank, rank_of, spec_dot, spec_numel,
    try_canonical_strides, try_num_elements, unrank,
};

verus! {

/// The all-zero multi-index of the given length.
pub open spec fn zero_index(len: int) -> Seq<usize> {
    Seq::new(len as nat, |i: int| 0usize)
}

/// The all-zero index is the index of rank 0.
pub proof fn lemma_rank_zero(sh: Seq<usize>)
    ensures
        rank_of(sh, zero_index(sh.len() as int)) == 0,
    decreases sh.len(),
{
    if sh.len() > 0 {
        assert(zero_index(sh.len() as int).drop_last() =~= zero_index(sh.len() - 1));
        lemma_rank_zero(sh.drop_last());
        let r = rank_of(sh.drop_last(), zero_index(sh.len() - 1));
        assert(r * (sh.last() as int) == 0) by (nonlinear_arith)
            requires
                r == 0,
        {
        }
    }
}

/// Walks the offsets of a `(shape, strides)` pair in row-major order.
pub struct NdIndex {
    indices: Vec<usize>,
    shape: Vec<usize>,
    strides: Vec<usize>,
    next: Option<usize>,
    contiguous: Option<usize>,
}

/// One odometer step of the general path: increment the last axis of
/// `indices`, carrying outward; `off` is the offset of the current index and
/// the result is the offset of the new index, or `None` when the index was
/// the last one of the shape.
fn odometer_step(shape: &Vec<usize>, strides: &Vec<usize>, indices: &mut Vec<usize>, off: usize)
    -> (r: Option<usize>)
    requires
        shape@.len() == strides@.len(),
        shape@.len() > 0,
        idx_wf(shape@, old(indices)@),
        off as int == spec_dot(old(indices)@, strides@),
        spec_dot(shape@, strides@) <= usize::MAX,
    ensures
        final(indices)@.len() == shape@.len(),
        match r {
            Some(o2) => idx_next(shape@, old(indices)@) == Some(final(indices)@) && o2 as int
                == spec_dot(final(indices)@, strides@),
            None => idx_next(shape@, old(indices)@) is None,
        },
{
    let ghost orig = indices@;
    let ghost sh = shape@;
    let ghost st = strides@;
    let n = shape.len();
    let mut dim = n - 1;
    let mut cur: usize = off;
    let mut exhausted = false;
    proof {
        assert(sh.take(n as int) =~= sh);
        assert(orig.take(n as int) =~= orig);
        assert(idx_next(sh, orig) == match idx_next(sh.take(n as int), orig.take(n as int)) {
            Some(p) => Some(p + zero_index(0)),
            None => None::<Seq<usize>>,
        }) by {
            if idx_next(sh, orig) is Some {
                let p = idx_next(sh, orig)->Some_0;
                assert(p + zero_index(0) =~= p);
            }
        }
    }
    loop
        invariant_except_break
            0 <= dim < n,
            exhausted == false,
            // Axes after `dim` were maximal and have been reset to zero.
            forall|i: int| 0 <= i <= dim ==> indices@[i] == orig[i],
            forall|i: int|
                dim < i < n ==> indices@[i] == 0 && (orig[i] as int) + 1 == (sh[i] as int),
            cur as int == spec_dot(indices@, st),
            // What remains to decide is the carry on the leading axes.
            idx_next(sh, orig) == match idx_next(sh.take(dim + 1), orig.take(dim + 1)) {
                Some(p) => Some(p + zero_index(n - dim - 1)),
                None => None::<Seq<usize>>,
            },
        invariant
            n == sh.len() == st.len(),
            n > 0,
            shape@ == sh,
            strides@ == st,
            indices@.len() == n,
            idx_wf(sh, orig),
            spec_dot(sh, st) <= usize::MAX,
        ensures
            if exhausted {
                idx_next(sh, orig) is None
            } else {
                idx_next(sh, orig) == Some(indices@) && cur as int == spec_dot(indices@, st)
            },
        decreases dim,
    {
        proof {
            assert forall|i: int| 0 <= i < n implies (indices@[i] as int) < (sh[i] as int) by {
                if i > dim {
                    assert((sh[i] as int) >= 1);
                }
            }
            // Stepping axis `dim` keeps every coordinate within the extents,
            // so the running offset stays within the weight of the shape.
            let stepped = indices@.update(dim as int, (indices@[dim as int] + 1) as usize);
            lemma_dot_update(indices@, st, dim as int, (indices@[dim as int] + 1) as usize);
            assert(forall|i: int| 0 <= i < n ==> (stepped[i] as int) <= (sh[i] as int));
            lemma_dot_mono(stepped, sh, st);
            lemma_dot_nonneg(indices@, st);
            let a = indices@[dim as int] as int;
            let w = st[dim as int] as int;
            assert(a * w + w == (a + 1) * w) by (nonlinear_arith);
        }
        let bumped = indices[dim] + 1;
        indices[dim] = bumped;
        cur = cur + strides[dim];
        if bumped < shape[dim] {
            proof {
                let p1 = orig.take(dim + 1);
                let nxt_here = p1.drop_last().push((orig[dim as int] + 1) as usize);
                assert(p1.last() == orig[dim as int]);
                assert(idx_next(sh.take(dim + 1), p1) == Some(nxt_here));
                assert(nxt_here + zero_index(n - dim - 1) =~= indices@);
            }
            break;
        }
        proof {
            // The bumped coordinate reached its extent: take its whole
            // contribution back out and reset it to zero.
            assert((indices@[dim as int] as int) == (sh[dim as int] as int));
            lemma_dot_update(indices@, st, dim as int, 0usize);
            lemma_dot_term(indices@, st, dim as int);
            lemma_dot_term(sh, st, dim as int);
            let a = indices@[dim as int] as int;
            let w = st[dim as int] as int;
            assert((0 - a) * w == -(a * w)) by (nonlinear_arith);
        }
        cur = cur - shape[dim] * strides[dim];
        indices[dim] = 0;
        proof {
            let p1 = orig.take(dim + 1);
            assert(p1.last() == orig[dim as int]);
            assert(sh.take(dim + 1).last() == sh[dim as int]);
            assert((p1.last() as int) + 1 == (sh.take(dim + 1).last() as int));
            assert(sh.take(dim + 1).drop_last() =~= sh.take(dim as int));
            assert(p1.drop_last() =~= orig.take(dim as int));
            if idx_next(sh.take(dim as int), orig.take(dim as int)) is Some {
                let c = idx_next(sh.take(dim as int), orig.take(dim as int))->Some_0;
                assert(idx_next(sh.take(dim + 1), p1) == Some(c.push(0)));
                assert(c.push(0) + zero_index(n - dim - 1) =~= c + zero_index(n - dim));
            } else {
                assert(idx_next(sh.take(dim + 1), p1) is None);
            }
        }
        if dim == 0 {
            proof {
                assert(sh.take(0) =~= Seq::<usize>::empty());
            }
            exhausted = true;
            break;
        }
        dim = dim - 1;
    }
    if exhausted {
        None
    } else {
        Some(cur)
    }
}

/// The offset of the all-zero index is zero.
proof fn lemma_dot_zero(len: int, st: Seq<usize>)
    requires
        0 <= len,
    ensures
        spec_dot(zero_index(len), st) == 0,
    decreases len,
{
    if len > 0 {
        assert(zero_index(len).drop_last() =~= zero_index(len - 1));
        lemma_dot_zero(len - 1, st.drop_last());
        assert(zero_index(len).last() == 0);
        assert(0int * (st.last() as int) == 0) by (nonlinear_arith);
    }
}

/// An element-for-element copy of a multi-index.
fn clone_indices(v: &Vec<usize>) -> (r: Vec<usize>)
    ensures
        r@ == v@,
{
    let mut r: Vec<usize> = Vec::new();
    let mut i: usize = 0;
    while i < v.len()
        invariant
            i <= v@.len(),
            r@ =~= v@.take(i as int),
        decreases v@.len() - i,
    {
        r.push(v[i]);
        proof {
            assert(r@ =~= v@.take(i as int + 1));
        }
        i += 1;
    }
    proof {
        assert(v@.take(v@.len() as int) =~= v@);
    }
    r
}

/// The multi-index of position `k`, computed by division and remainder from
/// the last axis outward.
pub(crate) fn compute_index(shape: &Vec<usize>, k: usize) -> (r: Vec<usize>)
    requires
        0 <= (k as int) < spec_numel(shape@),
    ensures
        r@ == unrank(shape@, k as int),
{
    proof {
        lemma_numel_pos(shape@);
    }
    let n = shape.len();
    let mut built: Vec<usize> = Vec::new();
    let mut kk: usize = k;
    let mut j = n;
    proof {
        assert(shape@.take(n as int) =~= shape@);
        assert(unrank(shape@, k as int) + built@ =~= unrank(shape@, k as int));
    }
    while j > 0
        invariant
            0 <= j <= n,
            n == shape@.len(),
            built@.len() == n - j,
            forall|i: int| 0 <= i < shape@.len() ==> (shape@[i] as int) >= 1,
            unrank(shape@, k as int) =~= unrank(shape@.take(j as int), kk as int) + built@,
        decreases j,
    {
        let s = shape[j - 1];
        let m = kk % s;
        let q = kk / s;
        let mut grown: Vec<usize> = Vec::new();
        grown.push(m);
        let mut t: usize = 0;
        while t < built.len()
            invariant
                t <= built@.len(),
                grown@ =~= seq![m].add(built@.take(t as int)),
            decreases built@.len() - t,
        {
            grown.push(built[t]);
            proof {
                assert(grown@ =~= seq![m].add(built@.take(t as int + 1)));
            }
            t += 1;
        }
        proof {
            assert(built@.take(built@.len() as int) =~= built@);
            let pre = shape@.take(j as int);
            assert(pre.last() == shape@[j - 1]);
            assert(pre.drop_last() =~= shape@.take(j - 1));
            assert(unrank(pre, kk as int) == unrank(shape@.take(j - 1), (kk as int) / (
            s as int)).push(((kk as int) % (s as int)) as usize));
            assert(unrank(shape@.take(j - 1), q as int).push(m) + built@ =~= unrank(
                shape@.take(j - 1),
                q as int,
            ) + (seq![m] + built@));
        }
        built = grown;
        kk = q;
        j -= 1;
    }
    proof {
        assert(shape@.take(0) =~= Seq::<usize>::empty());
        assert(unrank(Seq::<usize>::empty(), kk as int) + built@ =~= built@);
    }
    built
}

impl NdIndex {
    /// The shape being walked.
    pub closed spec fn sh(self) -> Seq<usize> {
        self.shape@
    }

    /// The strides applied to it.
    pub closed spec fn st(self) -> Seq<usize> {
        self.strides@
    }

    /// Number of offsets already handed out.
    pub closed spec fn pos(self) -> int {
        match self.next {
            None => spec_numel(self.shape@),
            Some(i) => if self.contiguous is Some {
                i as int
            } else {
                rank_of(self.shape@, self.indices@)
            },
        }
    }

    /// Internal consistency: the `contiguous` field marks exactly the
    /// canonical-stride case, and while the walk is active the counters
    /// describe the position still to be emitted.
    pub closed spec fn inv(self) -> bool {
        &&& self.shape@.len() == self.strides@.len()
        &&& self.indices@.len() == self.shape@.len()
        &&& counts_fit(self.shape@)
        &&& spec_dot(self.shape@, self.strides@) <= usize::MAX
        &&& match self.contiguous {
            Some(m) => is_canonical(self.shape@, self.strides@) && m as int == spec_numel(
                self.shape@,
            ),
            None => !is_canonical(self.shape@, self.strides@),
        }
        &&& match self.next {
            None => true,
            Some(i) => {
                &&& spec_numel(self.shape@) > 0
                &&& match self.contiguous {
                    Some(_) => (i as int) < spec_numel(self.shape@),
                    None => idx_wf(self.shape@, self.indices@) && i as int == spec_dot(
                        self.indices@,
                        self.strides@,
                    ),
                }
            },
        }
    }

    /// The position always lies between 0 and the element count.
    pub proof fn lemma_pos_bounds(self)
        requires
            self.inv(),
        ensures
            0 <= self.pos() <= spec_numel(self.sh()),
    {
        crate::shapes::lemma_numel_nonneg(self.shape@);
        match self.next {
            None => {},
            Some(i) => {
                match self.contiguous {
                    Some(_) => {},
                    None => {
                        lemma_rank_bounds(self.shape@, self.indices@);
                    },
                }
            },
        }
    }

    /// Starts a walk of `(shape, strides)` at the first position.
    ///
    /// The preconditions are the machine limits under which the walk cannot
    /// overflow a `usize`: every running product of extents is representable,
    /// and so is the combined weight of the shape under the strides.
    pub fn new(shape: Vec<usize>, strides: Vec<usize>) -> (r: NdIndex)
        requires
            shape@.len() == strides@.len(),
            counts_fit(shape@),
            spec_dot(shape@, strides@) <= usize::MAX,
        ensures
            r.inv(),
            r.sh() == shape@,
            r.st() == strides@,
            r.pos() == 0,
    {
        let n = shape.len();
        let mut indices: Vec<usize> = Vec::new();
        let mut i: usize = 0;
        while i < n
            invariant
                i <= n,
                indices@ =~= zero_index(i as int),
            decreases n - i,
        {
            indices.push(0);
            proof {
                assert(indices@ =~= zero_index(i as int + 1));
            }
            i += 1;
        }
        let numel = match try_num_elements(&shape) {
            Some(m) => m,
            None => {
                proof {
                    assert(false);
                }
                0
            },
        };
        let contiguous = match try_canonical_strides(&shape) {
            Some(canon) => {
                let mut eq = canon.len() == strides.len();
                let mut j: usize = 0;
                while eq && j < strides.len()
                    invariant
                        j <= strides@.len(),
                        eq ==> canon@.len() == strides@.len() && (forall|t: int|
                            0 <= t < j ==> canon@[t] == strides@[t]),
                        !eq ==> canon@.len() != strides@.len() || exists|t: int|
                            0 <= t < strides@.len() && canon@[t] != strides@[t],
                    decreases strides@.len() - j,
                {
                    if canon[j] != strides[j] {
                        proof {
                            assert(canon@[j as int] != strides@[j as int]);
                        }
                        eq = false;
                    }
                    j += 1;
                }
                if eq {
                    proof {
                        assert(canon@ =~= strides@);
                    }
                    Some(numel)
                } else {
                    proof {
                        if is_canonical(shape@, strides@) {
                            assert(strides@ =~= canon@);
                        }
                    }
                    None
                }
            },
            None => {
                proof {
                    if is_canonical(shape@, strides@) {
                        assert forall|t: int| 1 <= t <= shape@.len() implies spec_numel(
                            #[trigger] shape@.skip(t),
                        ) <= usize::MAX by {
                            assert((strides@[t - 1] as int) == spec_numel(shape@.skip(t)));
                        }
                    }
                }
                None
            },
        };
        let next = if numel > 0 {
            Some(0usize)
        } else {
            None
        };
        let r = NdIndex { indices, shape, strides, next, contiguous };
        proof {
            if numel > 0 {
                lemma_numel_pos(r.shape@);
                lemma_dot_zero(n as int, r.strides@);
                lemma_rank_zero(r.shape@);
            }
        }
        r
    }

    /// Hands out the offset of the current position together with its
    /// multi-index, and advances. The `k`-th call yields the offset that the
    /// multi-index of rank `k` reaches under the strides.
    pub fn next_with_idx(&mut self) -> (r: Option<(usize, Vec<usize>)>)
        requires
            old(self).inv(),
        ensures
            final(self).inv(),
            final(self).sh() == old(self).sh(),
            final(self).st() == old(self).st(),
            ({
                let k = old(self).pos();
                let sh = old(self).sh();
                let st = old(self).st();
                if k < spec_numel(sh) {
                    match r {
                        Some(pair) => {
                            &&& pair.1@ == unrank(sh, k)
                            &&& pair.0 as int == spec_dot(unrank(sh, k), st)
                            &&& final(self).pos() == k + 1
                        },
                        None => false,
                    }
                } else {
                    r is None && final(self).pos() == k
                }
            }),
    {
        let cur = match self.next {
            Some(i) => i,
            None => {
                return None;
            },
        };
        let ghost k = self.pos();
        let ghost sh = self.shape@;
        let ghost st = self.strides@;
        match self.contiguous {
            Some(numel) => {
                let idx = compute_index(&self.shape, cur);
                proof {
                    lemma_unrank(sh, cur as int);
                    lemma_canonical_offset_is_rank(sh, st, unrank(sh, cur as int));
                }
                if cur + 1 < numel {
                    self.next = Some(cur + 1);
                } else {
                    self.next = None;
                }
                Some((cur, idx))
            },
            None => {
                proof {
                    if self.shape@.len() == 0 {
                        assert(is_canonical(self.shape@, self.strides@));
                    }
                    lemma_rank_bounds(sh, self.indices@);
                    lemma_unrank(sh, k);
                    lemma_rank_injective(sh, self.indices@, unrank(sh, k));
                }
                let snapshot = clone_indices(&self.indices);
                let stepped = odometer_step(&self.shape, &self.strides, &mut self.indices, cur);
                proof {
                    lemma_idx_next(sh, snapshot@);
                }
                match stepped {
                    Some(o2) => {
                        self.next = Some(o2);
                    },
                    None => {
                        self.next = None;
                    },
                }
                Some((cur, snapshot))
            },
        }
    }

    /// Hands out the offset of the current position and advances; the `k`-th
    /// call yields the offset reached by the multi-index of rank `k`. On the
    /// canonical-stride fast path this is the plain counter `k` itself, with
    /// no carry bookkeeping.
    pub fn next(&mut self) -> (r: Option<usize>)
        requires
            old(self).inv(),
        ensures
            final(self).inv(),
            final(self).sh() == old(self).sh(),
            final(self).st() == old(self).st(),
            ({
                let k = old(self).pos();
                let sh = old(self).sh();
                let st = old(self).st();
                if k < spec_numel(sh) {
                    match r {
                        Some(o) => o as int == spec_dot(unrank(sh, k), st) && final(self).pos()
                            == k + 1,
                        None => false,
                    }
                } else {
                    r is None && final(self).pos() == k
                }
            }),
    {
        match self.contiguous {
            Some(numel) => {
                match self.next {
                    Some(i) => {
                        proof {
                            lemma_unrank(self.shape@, i as int);
                            lemma_canonical_offset_is_rank(
                                self.shape@,
                                self.strides@,
                                unrank(self.shape@, i as int),
                            );
                        }
                        if i + 1 < numel {
                            self.next = Some(i + 1);
                        } else {
                            self.next = None;
                        }
                        Some(i)
                    },
                    None => None,
                }
            },
            None => {
                match self.next_with_idx() {
                    Some(pair) => Some(pair.0),
                    None => None,
                }
            },
        }
    }
}

} // verus!
