//! Shapes, strides and row-major index arithmetic.
//!
//! A shape is the ordered list of per-axis extents; strides give the buffer
//! offset contributed by one step along each axis. The spec functions here
//! define the element count of a shape, the rank (row-major position) of a
//! multi-index, the offset a multi-index reaches under given strides, and the
//! canonical row-major strides of a shape. The lemmas tie those together; the
//! central one shows that under canonical strides the offset of a multi-index
//! is exactly its rank, which is what makes the contiguous fast path of the
//! index iterator equivalent to the general carry-based path.

use vstd::prelude::*;
use vstd::arithmetic::div_mod::lemma_fundamental_div_mod;

verus! {

/// Number of logical elements of a shape: the product of its extents.
/// A rank-0 (scalar) shape has one element.
pub open spec fn spec_numel(sh: Seq<usize>) -> int
    decreases sh.len(),
{
    if sh.len() == 0 {
        1
    } else {
        spec_numel(sh.drop_last()) * (sh.last() as int)
    }
}

/// A multi-index that addresses a logical position of `sh`.
pub open spec fn idx_wf(sh: Seq<usize>, idx: Seq<usize>) -> bool {
    &&& idx.len() == sh.len()
    &&& forall|i: int| 0 <= i < sh.len() ==> (idx[i] as int) < (sh[i] as int)
}

/// Row-major position of a multi-index: the last axis varies fastest.
pub open spec fn rank_of(sh: Seq<usize>, idx: Seq<usize>) -> int
    decreases sh.len(),
{
    if sh.len() == 0 {
        0
    } else {
        rank_of(sh.drop_last(), idx.drop_last()) * (sh.last() as int) + (idx.last() as int)
    }
}

/// Buffer offset reached by a multi-index under the given strides.
pub open spec fn spec_dot(idx: Seq<usize>, st: Seq<usize>) -> int
    decreases idx.len(),
{
    if idx.len() == 0 {
        0
    } else {
        spec_dot(idx.drop_last(), st.drop_last()) + (idx.last() as int) * (st.last() as int)
    }
}

/// The canonical row-major strides of `sh`: along axis `i`, one step skips
/// all the elements of the axes behind it.
pub open spec fn is_canonical(sh: Seq<usize>, st: Seq<usize>) -> bool {
    &&& st.len() == sh.len()
    &&& forall|i: int| 0 <= i < sh.len() ==> (st[i] as int) == spec_numel(sh.skip(i + 1))
}

/// The canonical strides themselves, as stride values.
pub open spec fn spec_canonical(sh: Seq<usize>) -> Seq<usize> {
    Seq::new(sh.len(), |i: int| spec_numel(sh.skip(i + 1)) as usize)
}

/// Only one stride list is canonical for a shape.
pub proof fn lemma_canonical_unique(sh: Seq<usize>, st: Seq<usize>)
    requires
        is_canonical(sh, st),
    ensures
        st == spec_canonical(sh),
{
    assert forall|i: int| 0 <= i < sh.len() implies st[i] == spec_canonical(sh)[i] by {
        assert((st[i] as int) == spec_numel(sh.skip(i + 1)));
        assert(spec_canonical(sh)[i] == spec_numel(sh.skip(i + 1)) as usize);
    }
    assert(st =~= spec_canonical(sh));
}

/// Whether a fresh contiguous buffer of this shape can exist at all: the
/// running extent products, the canonical strides and the combined weight
/// must all be representable.
pub open spec fn alloc_ok(sh: Seq<usize>) -> bool {
    &&& counts_fit(sh)
    &&& strides_fit(sh)
    &&& spec_dot(sh, spec_canonical(sh)) <= usize::MAX
}

/// A shape that carries some valid canonical-stride storage is allocatable.
pub proof fn lemma_canonical_alloc_ok(sh: Seq<usize>, st: Seq<usize>)
    requires
        is_canonical(sh, st),
        counts_fit(sh),
        spec_dot(sh, st) <= usize::MAX,
    ensures
        alloc_ok(sh),
{
    lemma_canonical_unique(sh, st);
    assert forall|i: int| 1 <= i <= sh.len() implies spec_numel(#[trigger] sh.skip(i))
        <= usize::MAX by {
        assert((st[i - 1] as int) == spec_numel(sh.skip(i)));
    }
}

/// The multi-index whose row-major position is `k`.
pub open spec fn unrank(sh: Seq<usize>, k: int) -> Seq<usize>
    decreases sh.len(),
{
    if sh.len() == 0 {
        Seq::empty()
    } else {
        unrank(sh.drop_last(), k / (sh.last() as int)).push(
            (k % (sh.last() as int)) as usize,
        )
    }
}

/// A position always unranks to a full-rank multi-index.
pub proof fn lemma_unrank_len(sh: Seq<usize>, k: int)
    ensures
        unrank(sh, k).len() == sh.len(),
    decreases sh.len(),
{
    if sh.len() > 0 {
        lemma_unrank_len(sh.drop_last(), k / (sh.last() as int));
    }
}

/// A shape with at least one element has every extent positive.
pub proof fn lemma_numel_pos(sh: Seq<usize>)
    requires
        spec_numel(sh) > 0,
    ensures
        forall|i: int| 0 <= i < sh.len() ==> (sh[i] as int) >= 1,
    decreases sh.len(),
{
    if sh.len() > 0 {
        lemma_numel_nonneg(sh.drop_last());
        assert(spec_numel(sh) == spec_numel(sh.drop_last()) * (sh.last() as int));
        assert(spec_numel(sh.drop_last()) > 0 && (sh.last() as int) > 0) by (nonlinear_arith)
            requires
                spec_numel(sh.drop_last()) * (sh.last() as int) > 0,
                spec_numel(sh.drop_last()) >= 0,
                (sh.last() as int) >= 0,
        {
        }
        lemma_numel_pos(sh.drop_last());
        assert forall|i: int| 0 <= i < sh.len() implies (sh[i] as int) >= 1 by {
            if i < sh.len() - 1 {
                assert(sh.drop_last()[i] == sh[i]);
            } else {
                assert(sh.last() == sh[sh.len() - 1]);
            }
        }
    }
}

/// The element count is never negative.
pub proof fn lemma_numel_nonneg(sh: Seq<usize>)
    ensures
        spec_numel(sh) >= 0,
    decreases sh.len(),
{
    if sh.len() > 0 {
        lemma_numel_nonneg(sh.drop_last());
        assert(spec_numel(sh.drop_last()) * (sh.last() as int) >= 0) by (nonlinear_arith)
            requires
                spec_numel(sh.drop_last()) >= 0,
                (sh.last() as int) >= 0,
        {
        }
    }
}

/// The rank of a valid multi-index lies in `[0, numel)`.
pub proof fn lemma_rank_bounds(sh: Seq<usize>, idx: Seq<usize>)
    requires
        idx_wf(sh, idx),
    ensures
        0 <= rank_of(sh, idx) < spec_numel(sh),
    decreases sh.len(),
{
    if sh.len() == 0 {
        assert(spec_numel(sh) == 1);
    } else {
        let shp = sh.drop_last();
        let idp = idx.drop_last();
        assert(idx_wf(shp, idp));
        lemma_rank_bounds(shp, idp);
        let r = rank_of(shp, idp);
        let s = sh.last() as int;
        let a = idx.last() as int;
        assert(0 <= r * s + a < spec_numel(shp) * s) by (nonlinear_arith)
            requires
                0 <= r < spec_numel(shp),
                0 <= a < s,
        {
        }
    }
}

/// Two valid multi-indices with the same rank are the same index.
pub proof fn lemma_rank_injective(sh: Seq<usize>, a: Seq<usize>, b: Seq<usize>)
    requires
        idx_wf(sh, a),
        idx_wf(sh, b),
        rank_of(sh, a) == rank_of(sh, b),
    ensures
        a =~= b,
    decreases sh.len(),
{
    if sh.len() == 0 {
        assert(a =~= b);
    } else {
        let shp = sh.drop_last();
        let s = sh.last() as int;
        let ra = rank_of(shp, a.drop_last());
        let rb = rank_of(shp, b.drop_last());
        let xa = a.last() as int;
        let xb = b.last() as int;
        assert(ra == rb && xa == xb) by (nonlinear_arith)
            requires
                ra * s + xa == rb * s + xb,
                0 <= xa < s,
                0 <= xb < s,
        {
        }
        assert(idx_wf(shp, a.drop_last()));
        assert(idx_wf(shp, b.drop_last()));
        lemma_rank_injective(shp, a.drop_last(), b.drop_last());
        assert(a =~= a.drop_last().push(a.last()));
        assert(b =~= b.drop_last().push(b.last()));
    }
}

/// `unrank` really is the inverse of `rank_of`: for every position `k` of the
/// shape it gives a valid multi-index whose rank is `k`.
pub proof fn lemma_unrank(sh: Seq<usize>, k: int)
    requires
        0 <= k < spec_numel(sh),
    ensures
        idx_wf(sh, unrank(sh, k)),
        rank_of(sh, unrank(sh, k)) == k,
    decreases sh.len(),
{
    if sh.len() == 0 {
    } else {
        let shp = sh.drop_last();
        let s = sh.last() as int;
        lemma_numel_pos(sh);
        assert(sh.last() == sh[sh.len() - 1]);
        assert(s >= 1);
        lemma_fundamental_div_mod(k, s);
        let q = k / s;
        let m = k % s;
        assert(0 <= q < spec_numel(shp)) by (nonlinear_arith)
            requires
                0 <= k < spec_numel(shp) * s,
                k == s * q + m,
                0 <= m < s,
                s >= 1,
        {
        }
        lemma_unrank(shp, q);
        let pre = unrank(shp, q);
        let full = pre.push(m as usize);
        assert(full.drop_last() =~= pre);
        assert(full.last() == m as usize);
        assert(rank_of(sh, full) == rank_of(shp, pre) * s + m);
        assert(q * s + m == k) by (nonlinear_arith)
            requires
                k == s * q + m,
        {
        }
        assert(idx_wf(sh, full)) by {
            assert(forall|i: int|
                0 <= i < sh.len() - 1 ==> #[trigger] full[i] == pre[i] && sh[i] == shp[i]);
        }
    }
}

/// Scaling every stride scales the offset.
proof fn lemma_dot_scale(idx: Seq<usize>, st: Seq<usize>, base: Seq<usize>, c: int)
    requires
        idx.len() == st.len() == base.len(),
        forall|i: int| 0 <= i < st.len() ==> (st[i] as int) == (base[i] as int) * c,
    ensures
        spec_dot(idx, st) == spec_dot(idx, base) * c,
    decreases idx.len(),
{
    if idx.len() == 0 {
        let d = spec_dot(idx, base);
        assert(d == 0);
        assert(d * c == 0) by (nonlinear_arith)
            requires
                d == 0,
        {
        }
    } else {
        let n = idx.len() - 1;
        assert((st[n] as int) == (base[n] as int) * c);
        lemma_dot_scale(idx.drop_last(), st.drop_last(), base.drop_last(), c);
        let dp = spec_dot(idx.drop_last(), base.drop_last());
        let a = idx.last() as int;
        let b = base.last() as int;
        assert(st.last() == st[n] && base.last() == base[n]);
        assert(dp * c + a * (b * c) == (dp + a * b) * c) by (nonlinear_arith);
    }
}

/// Under canonical strides, the offset of a multi-index equals its rank.
/// This is the fact behind the contiguous fast path: enumerating offsets of
/// a contiguous array in row-major order gives `0, 1, 2, ...`.
pub proof fn lemma_canonical_offset_is_rank(sh: Seq<usize>, st: Seq<usize>, idx: Seq<usize>)
    requires
        is_canonical(sh, st),
        idx_wf(sh, idx),
    ensures
        spec_dot(idx, st) == rank_of(sh, idx),
    decreases sh.len(),
{
    if sh.len() == 0 {
    } else {
        let n = sh.len() - 1;
        let shp = sh.drop_last();
        let stp = st.drop_last();
        let s = sh.last() as int;
        assert(sh.last() == sh[n] && idx.last() == idx[n] && st.last() == st[n]);
        assert(s >= 1);
        // The last canonical stride is 1.
        assert(sh.skip(n + 1) =~= Seq::<usize>::empty());
        assert((st[n] as int) == 1);
        // Strides of the leading axes are the canonical strides of the
        // leading shape, each scaled by the last extent.
        let can = Seq::<usize>::new(n as nat, |i: int| spec_numel(shp.skip(i + 1)) as usize);
        assert forall|i: int| 0 <= i < n implies (can[i] as int) == spec_numel(shp.skip(i + 1))
            && (stp[i] as int) == (can[i] as int) * s by {
            assert((st[i] as int) == spec_numel(sh.skip(i + 1)));
            assert(sh.skip(i + 1).drop_last() =~= shp.skip(i + 1));
            assert(sh.skip(i + 1).last() == sh.last());
            assert(spec_numel(sh.skip(i + 1)) == spec_numel(shp.skip(i + 1)) * s);
            lemma_numel_fits_when_scaled(shp.skip(i + 1), s, st[i] as int);
            assert(stp[i] == st[i]);
        }
        assert(is_canonical(shp, can));
        assert(idx_wf(shp, idx.drop_last()));
        lemma_canonical_offset_is_rank(shp, can, idx.drop_last());
        lemma_dot_scale(idx.drop_last(), stp, can, s);
        assert(spec_dot(idx, st) == spec_dot(idx.drop_last(), stp) + (idx.last() as int) * (
        st.last() as int));
        assert(rank_of(sh, idx) == rank_of(shp, idx.drop_last()) * s + (idx.last() as int));
    }
}

/// One odometer step: increment the last axis; on overflow reset it and
/// carry into the next more significant axis. `None` when the index was the
/// last one of the shape.
pub open spec fn idx_next(sh: Seq<usize>, idx: Seq<usize>) -> Option<Seq<usize>>
    decreases sh.len(),
{
    if sh.len() == 0 {
        None
    } else if (idx.last() as int) + 1 < (sh.last() as int) {
        Some(idx.drop_last().push((idx.last() + 1) as usize))
    } else {
        match idx_next(sh.drop_last(), idx.drop_last()) {
            Some(carried) => Some(carried.push(0)),
            None => None,
        }
    }
}

/// The odometer step moves to the index of the next rank; it returns `None`
/// exactly from the index of the last rank.
pub proof fn lemma_idx_next(sh: Seq<usize>, idx: Seq<usize>)
    requires
        idx_wf(sh, idx),
    ensures
        match idx_next(sh, idx) {
            Some(nxt) => idx_wf(sh, nxt) && rank_of(sh, nxt) == rank_of(sh, idx) + 1,
            None => rank_of(sh, idx) == spec_numel(sh) - 1,
        },
    decreases sh.len(),
{
    if sh.len() == 0 {
    } else {
        let shp = sh.drop_last();
        let idp = idx.drop_last();
        let s = sh.last() as int;
        let a = idx.last() as int;
        assert(idx_wf(shp, idp));
        assert(sh.last() == sh[sh.len() - 1] && idx.last() == idx[sh.len() - 1]);
        assert(a < s);
        if a + 1 < s {
            let nxt = idp.push((idx.last() + 1) as usize);
            assert(nxt.drop_last() =~= idp);
            assert(rank_of(sh, nxt) == rank_of(shp, idp) * s + a + 1);
            assert(idx_wf(sh, nxt)) by {
                assert(forall|i: int|
                    0 <= i < sh.len() - 1 ==> #[trigger] nxt[i] == idp[i] && sh[i] == shp[i]);
                assert(nxt[sh.len() - 1] == nxt.last());
            }
        } else {
            lemma_idx_next(shp, idp);
            match idx_next(shp, idp) {
                Some(carried) => {
                    let nxt = carried.push(0);
                    assert(nxt.drop_last() =~= carried);
                    assert(rank_of(sh, nxt) == rank_of(shp, carried) * s + 0);
                    assert(rank_of(shp, carried) == rank_of(shp, idp) + 1);
                    assert((rank_of(shp, idp) + 1) * s == rank_of(shp, idp) * s + s)
                        by (nonlinear_arith);
                    assert(rank_of(sh, idx) == rank_of(shp, idp) * s + a);
                    assert(idx_wf(sh, nxt)) by {
                        assert(forall|i: int|
                            0 <= i < sh.len() - 1 ==> #[trigger] nxt[i] == carried[i] && sh[i]
                                == shp[i]);
                        assert(nxt[sh.len() - 1] == nxt.last());
                        assert(s >= 1);
                    }
                },
                None => {
                    assert(rank_of(shp, idp) == spec_numel(shp) - 1);
                    assert((spec_numel(shp) - 1) * s + s - 1 == spec_numel(shp) * s - 1)
                        by (nonlinear_arith);
                    assert(rank_of(sh, idx) == rank_of(shp, idp) * s + a);
                    assert(a == s - 1);
                },
            }
        }
    }
}

/// Offsets are never negative.
pub proof fn lemma_dot_nonneg(idx: Seq<usize>, st: Seq<usize>)
    ensures
        spec_dot(idx, st) >= 0,
    decreases idx.len(),
{
    if idx.len() > 0 {
        lemma_dot_nonneg(idx.drop_last(), st.drop_last());
        assert((idx.last() as int) * (st.last() as int) >= 0) by (nonlinear_arith);
    }
}

/// Growing any coordinate cannot shrink the offset; in particular every
/// offset of a multi-index bounded by the extents is at most the weight
/// `spec_dot(sh, st)` of the shape itself.
pub proof fn lemma_dot_mono(lo: Seq<usize>, hi: Seq<usize>, st: Seq<usize>)
    requires
        lo.len() == hi.len(),
        forall|i: int| 0 <= i < lo.len() ==> (lo[i] as int) <= (hi[i] as int),
    ensures
        spec_dot(lo, st) <= spec_dot(hi, st),
    decreases lo.len(),
{
    if lo.len() > 0 {
        assert(forall|i: int|
            0 <= i < lo.len() - 1 ==> (#[trigger] lo.drop_last()[i] as int) <= (
            hi.drop_last()[i] as int));
        lemma_dot_mono(lo.drop_last(), hi.drop_last(), st.drop_last());
        assert(lo.last() == lo[lo.len() - 1] && hi.last() == hi[lo.len() - 1]);
        assert((lo.last() as int) * (st.last() as int) <= (hi.last() as int) * (st.last() as int))
            by (nonlinear_arith)
            requires
                (lo.last() as int) <= (hi.last() as int),
                (st.last() as int) >= 0,
        {
        }
    }
}

/// Changing one coordinate changes the offset by the difference times that
/// axis's stride.
pub proof fn lemma_dot_update(idx: Seq<usize>, st: Seq<usize>, d: int, v: usize)
    requires
        idx.len() == st.len(),
        0 <= d < idx.len(),
    ensures
        spec_dot(idx.update(d, v), st) == spec_dot(idx, st) + ((v as int) - (idx[d] as int)) * (
        st[d] as int),
    decreases idx.len(),
{
    let upd = idx.update(d, v);
    if d == idx.len() - 1 {
        assert(upd.drop_last() =~= idx.drop_last());
        assert(upd.last() == v);
        assert((v as int) * (st[d] as int) - (idx[d] as int) * (st[d] as int) == ((v as int) - (
        idx[d] as int)) * (st[d] as int)) by (nonlinear_arith);
        assert(idx.last() == idx[d] && st.last() == st[d]);
    } else {
        assert(upd.drop_last() =~= idx.drop_last().update(d, v));
        assert(upd.last() == idx.last());
        lemma_dot_update(idx.drop_last(), st.drop_last(), d, v);
        assert(idx.drop_last()[d] == idx[d] && st.drop_last()[d] == st[d]);
    }
}

/// A single term of the offset sum is at most the whole sum.
pub proof fn lemma_dot_term(idx: Seq<usize>, st: Seq<usize>, d: int)
    requires
        idx.len() == st.len(),
        0 <= d < idx.len(),
    ensures
        (idx[d] as int) * (st[d] as int) <= spec_dot(idx, st),
    decreases idx.len(),
{
    if d == idx.len() - 1 {
        lemma_dot_nonneg(idx.drop_last(), st.drop_last());
        assert(idx.last() == idx[d] && st.last() == st[d]);
    } else {
        lemma_dot_term(idx.drop_last(), st.drop_last(), d);
        assert(idx.drop_last()[d] == idx[d] && st.drop_last()[d] == st[d]);
        assert((idx.last() as int) * (st.last() as int) >= 0) by (nonlinear_arith);
    }
}

/// Helper: if `p * s` fits in `usize` (because it equals a stride value) and
/// `p >= 0, s >= 1`, then `p` itself fits in `usize`.
proof fn lemma_numel_fits_when_scaled(sh: Seq<usize>, s: int, scaled: int)
    requires
        spec_numel(sh) * s == scaled,
        0 <= scaled <= usize::MAX,
        s >= 1,
    ensures
        0 <= spec_numel(sh) <= usize::MAX,
        (spec_numel(sh) as usize) as int == spec_numel(sh),
{
    lemma_numel_nonneg(sh);
    assert(spec_numel(sh) <= scaled) by (nonlinear_arith)
        requires
            spec_numel(sh) * s == scaled,
            spec_numel(sh) >= 0,
            s >= 1,
    {
    }
}

/// Whether the canonical strides of `sh` are all representable: every proper
/// suffix of the shape has at most `usize::MAX` elements.
pub open spec fn strides_fit(sh: Seq<usize>) -> bool {
    forall|i: int| 1 <= i <= sh.len() ==> spec_numel(#[trigger] sh.skip(i)) <= usize::MAX
}

/// Whether every prefix of the shape has a representable element count;
/// the running product in `try_num_elements` stays in range exactly then.
pub open spec fn counts_fit(sh: Seq<usize>) -> bool {
    forall|i: int| 0 <= i <= sh.len() ==> spec_numel(#[trigger] sh.take(i)) <= usize::MAX
}

/// The element count of a shape, when every running product of extents is
/// representable.
pub fn try_num_elements(shape: &Vec<usize>) -> (r: Option<usize>)
    ensures
        match r {
            Some(n) => n as int == spec_numel(shape@) && counts_fit(shape@),
            None => !counts_fit(shape@),
        },
{
    let mut acc: usize = 1;
    let n = shape.len();
    let mut i: usize = 0;
    proof {
        assert(shape@.take(0) =~= Seq::<usize>::empty());
    }
    while i < n
        invariant
            i <= n,
            n == shape@.len(),
            acc as int == spec_numel(shape@.take(i as int)),
            forall|t: int| 0 <= t <= i ==> spec_numel(#[trigger] shape@.take(t)) <= usize::MAX,
        decreases n - i,
    {
        proof {
            assert(shape@.take(i + 1).drop_last() =~= shape@.take(i as int));
            assert(shape@.take(i + 1).last() == shape@[i as int]);
        }
        match acc.checked_mul(shape[i]) {
            Some(next) => {
                acc = next;
            },
            None => {
                proof {
                    assert(spec_numel(shape@.take(i + 1)) > usize::MAX);
                }
                return None;
            },
        }
        i += 1;
    }
    proof {
        assert(shape@.take(n as int) =~= shape@);
        assert forall|t: int| 0 <= t <= shape@.len() implies spec_numel(
            #[trigger] shape@.take(t),
        ) <= usize::MAX by {
            assert(spec_numel(shape@.take(t)) <= usize::MAX);
        }
    }
    Some(acc)
}

/// The canonical row-major strides of `sh`, or `None` when some stride would
/// not fit in `usize`.
pub fn try_canonical_strides(shape: &Vec<usize>) -> (r: Option<Vec<usize>>)
    ensures
        match r {
            Some(st) => is_canonical(shape@, st@) && strides_fit(shape@),
            None => !strides_fit(shape@),
        },
{
    let n = shape.len();
    let mut st: Vec<usize> = Vec::new();
    let mut k: usize = 0;
    // Build the strides back to front, then reverse.
    let mut acc: usize = 1;
    while k < n
        invariant
            k <= n,
            n == shape@.len(),
            st@.len() == k,
            k < n ==> acc as int == spec_numel(shape@.skip(n - k)),
            forall|j: int|
                0 <= j < k ==> (st@[j] as int) == spec_numel(shape@.skip(n - j)),
        decreases n - k,
    {
        st.push(acc);
        if k + 1 < n {
            let e = shape[n - 1 - k];
            proof {
                assert(shape@.skip(n - k - 1).drop_first() =~= shape@.skip(n - k));
                lemma_numel_head(shape@.skip(n - k - 1));
                assert(shape@.skip(n - k - 1)[0] == shape@[n - 1 - k]);
                assert(spec_numel(shape@.skip(n - k - 1)) == (e as int) * spec_numel(
                    shape@.skip(n - k),
                ));
                assert((e as int) * (acc as int) == (acc as int) * (e as int))
                    by (nonlinear_arith);
            }
            match acc.checked_mul(e) {
                Some(next) => {
                    acc = next;
                },
                None => {
                    proof {
                        assert((acc as int) * (e as int) > usize::MAX);
                        assert(spec_numel(shape@.skip(n - k - 1)) > usize::MAX);
                    }
                    return None;
                },
            }
        }
        k += 1;
    }
    let mut rev: Vec<usize> = Vec::new();
    let mut j: usize = 0;
    while j < n
        invariant
            j <= n,
            n == shape@.len(),
            st@.len() == n,
            rev@.len() == j,
            forall|t: int| 0 <= t < n ==> (st@[t] as int) == spec_numel(shape@.skip(n - t)),
            forall|t: int| 0 <= t < j ==> rev@[t] == st@[n - 1 - t],
        decreases n - j,
    {
        rev.push(st[n - 1 - j]);
        j += 1;
    }
    proof {
        assert forall|i: int| 0 <= i < n implies (rev@[i] as int) == spec_numel(
            shape@.skip(i + 1),
        ) by {
            assert(rev@[i] == st@[n - 1 - i]);
            assert((st@[n - 1 - i] as int) == spec_numel(shape@.skip(n - (n - 1 - i))));
            assert(n - (n - 1 - i) == i + 1);
        }
        assert(is_canonical(shape@, rev@));
        assert forall|i: int| 1 <= i <= n implies spec_numel(#[trigger] shape@.skip(i))
            <= usize::MAX by {
            assert((st@[n - i] as int) == spec_numel(shape@.skip(i)));
        }
    }
    Some(rev)
}

/// When the leading extent is positive, dropping it keeps every running
/// extent product representable.
pub proof fn lemma_counts_fit_tail(sh: Seq<usize>)
    requires
        counts_fit(sh),
        sh.len() > 0,
        (sh[0] as int) >= 1,
    ensures
        counts_fit(sh.drop_first()),
{
    let tail = sh.drop_first();
    assert forall|i: int| 0 <= i <= tail.len() implies spec_numel(#[trigger] tail.take(i))
        <= usize::MAX by {
        assert(sh.take(i + 1).drop_first() =~= tail.take(i));
        lemma_numel_head(sh.take(i + 1));
        assert(sh.take(i + 1)[0] == sh[0]);
        assert(spec_numel(sh.take(i + 1)) <= usize::MAX);
        lemma_numel_nonneg(tail.take(i));
        let head = sh[0] as int;
        let rest = spec_numel(tail.take(i));
        assert(rest <= head * rest) by (nonlinear_arith)
            requires
                head >= 1,
                rest >= 0,
        {
        }
    }
}

/// Whether some listed axis is the position `i`.
pub open spec fn axes_has(axes: Seq<usize>, i: int) -> bool {
    exists|t: int| 0 <= t < axes.len() && (axes[t] as int) == i
}

/// A usable axis list for a shape of the given rank: strictly increasing
/// positions, each below the rank.
pub open spec fn axes_wf(axes: Seq<usize>, rank: int) -> bool {
    &&& forall|i: int| 0 <= i < axes.len() ==> (axes[i] as int) < rank
    &&& forall|i: int, j: int|
        0 <= i < j < axes.len() ==> (#[trigger] axes[i] as int) < (#[trigger] axes[j] as int)
}

/// What remains of `s` after dropping the listed positions, looking from
/// position `i` on.
pub open spec fn drop_axes_from(s: Seq<usize>, axes: Seq<usize>, i: int) -> Seq<usize>
    decreases s.len() - i,
{
    if i < 0 || i >= s.len() {
        Seq::empty()
    } else if axes_has(axes, i) {
        drop_axes_from(s, axes, i + 1)
    } else {
        seq![s[i]] + drop_axes_from(s, axes, i + 1)
    }
}

/// `s` with the listed positions dropped; order of the rest preserved.
pub open spec fn drop_axes(s: Seq<usize>, axes: Seq<usize>) -> Seq<usize> {
    drop_axes_from(s, axes, 0)
}

/// Dropping the same positions from a shape and from a multi-index of that
/// shape leaves a multi-index of the dropped shape.
proof fn lemma_drop_wf_from(sh: Seq<usize>, idx: Seq<usize>, axes: Seq<usize>, i: int)
    requires
        sh.len() == idx.len(),
        forall|t: int| 0 <= t < sh.len() ==> (idx[t] as int) < (sh[t] as int),
    ensures
        drop_axes_from(idx, axes, i).len() == drop_axes_from(sh, axes, i).len(),
        forall|j: int|
            0 <= j < drop_axes_from(idx, axes, i).len() ==> (#[trigger] drop_axes_from(
                idx,
                axes,
                i,
            )[j] as int) < (drop_axes_from(sh, axes, i)[j] as int),
    decreases sh.len() - i,
{
    if i < 0 || i >= sh.len() {
    } else if axes_has(axes, i) {
        lemma_drop_wf_from(sh, idx, axes, i + 1);
    } else {
        lemma_drop_wf_from(sh, idx, axes, i + 1);
        let di = drop_axes_from(idx, axes, i);
        let ds = drop_axes_from(sh, axes, i);
        assert forall|j: int| 0 <= j < di.len() implies (#[trigger] di[j] as int) < (
        ds[j] as int) by {
            if j == 0 {
                assert(di[0] == idx[i] && ds[0] == sh[i]);
            } else {
                assert(di[j] == drop_axes_from(idx, axes, i + 1)[j - 1]);
                assert(ds[j] == drop_axes_from(sh, axes, i + 1)[j - 1]);
            }
        }
    }
}

/// The index form of the lemma above, at the top level.
pub proof fn lemma_drop_axes_wf(sh: Seq<usize>, idx: Seq<usize>, axes: Seq<usize>)
    requires
        idx_wf(sh, idx),
    ensures
        idx_wf(drop_axes(sh, axes), drop_axes(idx, axes)),
{
    lemma_drop_wf_from(sh, idx, axes, 0);
}

/// Whether the axis list names position `i`.
pub fn axes_contains(axes: &Vec<usize>, i: usize) -> (r: bool)
    ensures
        r == axes_has(axes@, i as int),
{
    let n = axes.len();
    let mut t: usize = 0;
    while t < n
        invariant
            t <= n,
            n == axes@.len(),
            forall|u: int| 0 <= u < t ==> (axes@[u] as int) != i as int,
        decreases n - t,
    {
        if axes[t] == i {
            return true;
        }
        t += 1;
    }
    false
}

/// Checks an axis list against a rank.
pub fn check_axes(axes: &Vec<usize>, rank: usize) -> (r: bool)
    ensures
        r == axes_wf(axes@, rank as int),
{
    let n = axes.len();
    let mut t: usize = 0;
    while t < n
        invariant
            t <= n,
            n == axes@.len(),
            forall|u: int| 0 <= u < t ==> (axes@[u] as int) < rank as int,
            forall|u: int, v: int|
                0 <= u < v < t ==> (#[trigger] axes@[u] as int) < (#[trigger] axes@[v] as int),
        decreases n - t,
    {
        if axes[t] >= rank {
            return false;
        }
        if t > 0 {
            if axes[t - 1] >= axes[t] {
                return false;
            }
        }
        proof {
            assert forall|u: int, v: int|
                0 <= u < v < t + 1 implies (#[trigger] axes@[u] as int) < (
            #[trigger] axes@[v] as int) by {
                if v == t && u < t - 1 {
                    assert((axes@[u] as int) < (axes@[t - 1] as int));
                }
            }
        }
        t += 1;
    }
    true
}

/// Drops the listed positions out of a dimension list.
pub fn drop_axes_vec(v: &Vec<usize>, axes: &Vec<usize>) -> (r: Vec<usize>)
    ensures
        r@ == drop_axes(v@, axes@),
{
    let n = v.len();
    let mut r: Vec<usize> = Vec::new();
    let mut i: usize = 0;
    while i < n
        invariant
            i <= n,
            n == v@.len(),
            drop_axes(v@, axes@) =~= r@ + drop_axes_from(v@, axes@, i as int),
        decreases n - i,
    {
        if !axes_contains(axes, i) {
            r.push(v[i]);
            proof {
                assert(drop_axes_from(v@, axes@, i as int) =~= seq![v@[i as int]]
                    + drop_axes_from(v@, axes@, i as int + 1));
                assert(drop_axes(v@, axes@) =~= r@ + drop_axes_from(v@, axes@, i as int + 1));
            }
        }
        i += 1;
    }
    proof {
        assert(drop_axes_from(v@, axes@, n as int) =~= Seq::<usize>::empty());
        assert(r@ + Seq::<usize>::empty() =~= r@);
    }
    r
}

/// The row-major position of a multi-index, computed by the usual running
/// product.
pub fn rank_index(shape: &Vec<usize>, idx: &Vec<usize>) -> (r: usize)
    requires
        idx_wf(shape@, idx@),
        counts_fit(shape@),
    ensures
        r as int == rank_of(shape@, idx@),
{
    let n = shape.len();
    let mut r: usize = 0;
    let mut i: usize = 0;
    proof {
        assert(shape@.take(0) =~= Seq::<usize>::empty());
        assert(idx@.take(0) =~= Seq::<usize>::empty());
    }
    while i < n
        invariant
            i <= n,
            n == shape@.len() == idx@.len(),
            idx_wf(shape@, idx@),
            counts_fit(shape@),
            r as int == rank_of(shape@.take(i as int), idx@.take(i as int)),
        decreases n - i,
    {
        proof {
            assert(shape@.take(i + 1).drop_last() =~= shape@.take(i as int));
            assert(idx@.take(i + 1).drop_last() =~= idx@.take(i as int));
            assert(shape@.take(i + 1).last() == shape@[i as int]);
            assert(idx@.take(i + 1).last() == idx@[i as int]);
            assert(idx_wf(shape@.take(i + 1), idx@.take(i + 1))) by {
                assert(forall|t: int|
                    0 <= t < i + 1 ==> (#[trigger] idx@.take(i + 1)[t] as int) == (
                    idx@[t] as int) && (shape@.take(i + 1)[t] as int) == (shape@[t] as int));
            }
            lemma_rank_bounds(shape@.take(i + 1), idx@.take(i + 1));
            lemma_rank_bounds(shape@.take(i as int), idx@.take(i as int));
            assert(spec_numel(shape@.take(i + 1)) <= usize::MAX);
            let rr = rank_of(shape@.take(i as int), idx@.take(i as int));
            let ss = shape@[i as int] as int;
            assert(rr * ss >= 0 && rr * ss <= rr * ss + (idx@[i as int] as int))
                by (nonlinear_arith)
                requires
                    rr >= 0,
                    ss >= 0,
                    (idx@[i as int] as int) >= 0,
            {
            }
        }
        r = r * shape[i] + idx[i];
        i += 1;
    }
    proof {
        assert(shape@.take(n as int) =~= shape@);
        assert(idx@.take(n as int) =~= idx@);
    }
    r
}

/// Splitting the element count at the first axis instead of the last.
pub proof fn lemma_numel_head(sh: Seq<usize>)
    requires
        sh.len() > 0,
    ensures
        spec_numel(sh) == (sh[0] as int) * spec_numel(sh.drop_first()),
    decreases sh.len(),
{
    if sh.len() == 1 {
        assert(sh.drop_first() =~= Seq::<usize>::empty());
        assert(sh.last() == sh[0]);
        assert(spec_numel(sh) == spec_numel(sh.drop_last()) * (sh.last() as int));
        assert(1 * (sh[0] as int) == (sh[0] as int) * 1) by (nonlinear_arith);
    } else {
        lemma_numel_head(sh.drop_last());
        assert(sh.drop_last()[0] == sh[0]);
        assert(sh.drop_last().drop_first() =~= sh.drop_first().drop_last());
        assert(sh.drop_first().last() == sh.last());
        let a = sh[0] as int;
        let m = spec_numel(sh.drop_first().drop_last());
        let s = sh.last() as int;
        assert(spec_numel(sh) == (a * m) * s);
        assert(spec_numel(sh.drop_first()) == m * s);
        assert((a * m) * s == a * (m * s)) by (nonlinear_arith);
    }
}

/// Turns a possibly negative axis number into the axis position it names:
/// negative numbers count back from the last axis, so `-1` is the last.
/// `None` exactly when the number reaches outside the rank.
pub fn normalize_axis(axis: i64, rank: usize) -> (r: Option<usize>)
    requires
        rank <= i64::MAX,
    ensures
        match r {
            Some(a) => {
                &&& -(rank as int) <= (axis as int) && (axis as int) < rank as int
                &&& a as int == if axis >= 0 {
                    axis as int
                } else {
                    rank as int + axis as int
                }
                &&& (a as int) < rank as int
            },
            None => !(-(rank as int) <= (axis as int) && (axis as int) < rank as int),
        },
{
    if axis >= 0 {
        if axis < rank as i64 {
            Some(axis as usize)
        } else {
            None
        }
    } else {
        if axis >= -(rank as i64) {
            Some((rank as i64 + axis) as usize)
        } else {
            None
        }
    }
}

/// Normalizes a whole list of possibly negative axis numbers against a
/// rank; `None` exactly when some entry reaches outside it. Order is kept,
/// so a sorted list of nonnegative positions stays sorted.
pub fn normalize_axes(axes: &Vec<i64>, rank: usize) -> (r: Option<Vec<usize>>)
    requires
        rank <= i64::MAX,
    ensures
        match r {
            Some(out) => {
                &&& out@.len() == axes@.len()
                &&& forall|i: int|
                    0 <= i < axes@.len() ==> (out@[i] as int) == (if axes@[i] >= 0 {
                        axes@[i] as int
                    } else {
                        rank as int + axes@[i] as int
                    }) && (out@[i] as int) < rank as int
            },
            None => exists|i: int|
                0 <= i < axes@.len() && !(-(rank as int) <= (#[trigger] axes@[i] as int)
                    && (axes@[i] as int) < rank as int),
        },
{
    let n = axes.len();
    let mut out: Vec<usize> = Vec::new();
    let mut i: usize = 0;
    while i < n
        invariant
            i <= n,
            n == axes@.len(),
            rank <= i64::MAX,
            out@.len() == i,
            forall|t: int|
                0 <= t < i ==> (out@[t] as int) == (if axes@[t] >= 0 {
                    axes@[t] as int
                } else {
                    rank as int + axes@[t] as int
                }) && (out@[t] as int) < rank as int,
        decreases n - i,
    {
        match normalize_axis(axes[i], rank) {
            Some(a) => {
                out.push(a);
            },
            None => {
                return None;
            },
        }
        i += 1;
    }
    Some(out)
}

/// Pads a shape/stride description on the left up to rank four, the form a
/// fixed-rank reduction backend expects: the added leading axes have extent
/// one and stride zero, which leaves the described elements untouched.
pub fn make_at_least_4d(shape: &Vec<usize>, strides: &Vec<usize>) -> (r: (Vec<usize>, Vec<usize>))
    requires
        shape@.len() == strides@.len(),
    ensures
        r.0@.len() == r.1@.len(),
        r.0@.len() == if shape@.len() >= 4 {
            shape@.len() as int
        } else {
            4
        },
        ({
            let pad = r.0@.len() - shape@.len();
            &&& forall|i: int| 0 <= i < pad ==> r.0@[i] == 1usize && r.1@[i] == 0usize
            &&& forall|i: int|
                0 <= i < shape@.len() ==> r.0@[pad + i] == shape@[i] && r.1@[pad + i]
                    == strides@[i]
        }),
{
    let n = shape.len();
    let pad: usize = if n >= 4 {
        0
    } else {
        4 - n
    };
    let mut sh: Vec<usize> = Vec::new();
    let mut st: Vec<usize> = Vec::new();
    let mut i: usize = 0;
    while i < pad
        invariant
            i <= pad,
            sh@.len() == i,
            st@.len() == i,
            forall|t: int| 0 <= t < i ==> sh@[t] == 1usize && st@[t] == 0usize,
        decreases pad - i,
    {
        sh.push(1);
        st.push(0);
        i += 1;
    }
    let mut j: usize = 0;
    while j < n
        invariant
            j <= n,
            n == shape@.len() == strides@.len(),
            sh@.len() == pad + j,
            st@.len() == pad + j,
            forall|t: int| 0 <= t < pad ==> sh@[t] == 1usize && st@[t] == 0usize,
            forall|t: int|
                0 <= t < j ==> sh@[pad + t] == shape@[t] && st@[pad + t] == strides@[t],
        decreases n - j,
    {
        sh.push(shape[j]);
        st.push(strides[j]);
        j += 1;
    }
    (sh, st)
}

} // verus!
