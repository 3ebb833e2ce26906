//! The broadcast/reduce engine: folding a strided array along chosen axes,
//! and the adjoint of that — replicating a reduced array back across the
//! dropped axes.
//!
//! The output position of a source element is found by dropping the reduced
//! axes out of its multi-index; the remaining axes keep their order. A
//! reduction folds every source element into its output slot with the
//! chosen accumulator, starting from that accumulator's identity element.

use vstd::prelude::*;

use crate::ratio::Ratio;
use crate::shapes::{
    alloc_ok, axes_wf, drop_axes, lemma_canonical_alloc_ok, lemma_drop_axes_wf,
    lemma_numel_nonneg, lemma_rank_bounds, lemma_unrank, spec_numel, unrank,
};
use crate::storage::{CpuError, StridedArray};
use crate::tape::dropped_rank;

verus! {

/// The combining function of a reduction or broadcast.
#[derive(Debug, Clone, Copy, PartialEq, Eq, Structural)]
pub enum Accumulator {
    /// Sum; identity 0.
    Add,
    /// Product; identity 1.
    Mul,
    /// Running maximum; starts from the least representable value.
    Max,
    /// Running minimum; starts from the greatest representable value.
    Min,
    /// Plain assignment: the value visited last wins. Meant for pure
    /// broadcasts, where each slot is written exactly once.
    Copy,
}

impl Accumulator {
    /// The value a fold with this accumulator starts from.
    pub open spec fn spec_identity(self) -> Ratio {
        match self {
            Accumulator::Add => Ratio::spec_zero(),
            Accumulator::Mul => Ratio::spec_one(),
            Accumulator::Max => Ratio::spec_new(i64::MIN, 1),
            Accumulator::Min => Ratio::spec_new(i64::MAX, 1),
            Accumulator::Copy => Ratio::spec_zero(),
        }
    }

    /// Folding `b` into the running value `a`.
    pub open spec fn spec_combine(self, a: Ratio, b: Ratio) -> Ratio {
        match self {
            Accumulator::Add => a.spec_add(b),
            Accumulator::Mul => a.spec_mul(b),
            Accumulator::Max => a.spec_max(b),
            Accumulator::Min => a.spec_min(b),
            Accumulator::Copy => b,
        }
    }

    /// The identity element, for callers.
    pub fn identity(self) -> (r: Ratio)
        ensures
            r == self.spec_identity(),
    {
        match self {
            Accumulator::Add => Ratio::zero(),
            Accumulator::Mul => Ratio::one(),
            Accumulator::Max => Ratio::most_negative(),
            Accumulator::Min => Ratio::most_positive(),
            Accumulator::Copy => Ratio::zero(),
        }
    }

    /// One combining step, for callers.
    pub fn combine(self, a: Ratio, b: Ratio) -> (r: Ratio)
        ensures
            r == self.spec_combine(a, b),
    {
        match self {
            Accumulator::Add => a.add(b),
            Accumulator::Mul => a.mul(b),
            Accumulator::Max => a.max(b),
            Accumulator::Min => a.min(b),
            Accumulator::Copy => b,
        }
    }
}

/// The reduced array after folding the first `k` source elements, visited
/// in row-major order, each into the output slot its multi-index keeps
/// after the reduced axes are dropped.
pub open spec fn reduce_fold(
    src: Seq<Ratio>,
    sh: Seq<usize>,
    axes: Seq<usize>,
    acc: Accumulator,
    k: int,
) -> Seq<Ratio>
    decreases k,
{
    if k <= 0 {
        Seq::new(spec_numel(drop_axes(sh, axes)) as nat, |j: int| acc.spec_identity())
    } else {
        let prev = reduce_fold(src, sh, axes, acc, k - 1);
        let pos = dropped_rank(sh, axes, k - 1);
        prev.update(pos, acc.spec_combine(prev[pos], src[k - 1]))
    }
}

/// Folds `src` along `axes` with the accumulator, producing the array of
/// the remaining axes. At least one axis must be reduced; reducing every
/// axis leaves a scalar.
pub fn reduce_into(acc: Accumulator, src: &StridedArray<Ratio>, axes: &Vec<usize>) -> (r:
    Result<StridedArray<Ratio>, CpuError>)
    requires
        src.wf(),
    ensures
        match r {
            Ok(out) => {
                &&& axes_wf(axes@, src.sh().len() as int)
                &&& axes@.len() > 0
                &&& out.wf()
                &&& out.sh() == drop_axes(src.sh(), axes@)
                &&& out.is_contiguous()
                &&& out.logical() == reduce_fold(
                    src.logical(),
                    src.sh(),
                    axes@,
                    acc,
                    spec_numel(src.sh()),
                )
            },
            Err(e) => {
                &&& (e == CpuError::ShapeMismatch <==> !(axes_wf(axes@, src.sh().len() as int)
                    && axes@.len() > 0))
                &&& (e == CpuError::OutOfMemory ==> !alloc_ok(drop_axes(src.sh(), axes@)))
            },
        },
{
    if axes.len() == 0 {
        return Err(CpuError::ShapeMismatch);
    }
    if !crate::shapes::check_axes(axes, src.shape().len()) {
        return Err(CpuError::ShapeMismatch);
    }
    let reduced = crate::shapes::drop_axes_vec(src.shape(), axes);
    let mut out = match StridedArray::filled(reduced, acc.identity()) {
        Ok(a) => a,
        Err(_) => {
            return Err(CpuError::OutOfMemory);
        },
    };
    proof {
        lemma_canonical_alloc_ok(out.sh(), out.st());
        lemma_numel_nonneg(src.sh());
        lemma_numel_nonneg(out.sh());
        crate::storage::lemma_contiguous_logical(out);
        assert(out.logical() =~= reduce_fold(src.logical(), src.sh(), axes@, acc, 0));
    }
    let ghost sh = src.sh();
    let ghost axs = axes@;
    let ghost red = out.sh();
    let n = src.num_elements();
    let mut k: usize = 0;
    while k < n
        invariant
            k <= n,
            n as int == spec_numel(sh),
            src.wf(),
            src.sh() == sh,
            axs == axes@,
            axes_wf(axs, sh.len() as int),
            out.wf(),
            out.sh() == red,
            out.is_contiguous(),
            red == drop_axes(sh, axs),
            out.numel() == out.buf().len(),
            out.logical() == reduce_fold(src.logical(), sh, axs, acc, k as int),
        decreases n - k,
    {
        proof {
            lemma_unrank(sh, k as int);
            lemma_drop_axes_wf(sh, unrank(sh, k as int), axs);
            lemma_rank_bounds(red, drop_axes(unrank(sh, k as int), axs));
        }
        let idx = crate::iterate::compute_index(src.shape(), k);
        let didx = crate::shapes::drop_axes_vec(&idx, axes);
        let pos = crate::shapes::rank_index(out.shape(), &didx);
        let cur = out.get(pos);
        let v = src.get(k);
        let ghost out_before = out;
        out.set(pos, acc.combine(cur, v));
        proof {
            crate::shapes::lemma_canonical_unique(red, out.st());
            lemma_unrank(red, pos as int);
            crate::shapes::lemma_canonical_offset_is_rank(red, out.st(), unrank(red, pos as int));
            crate::storage::lemma_contiguous_logical(out);
            crate::storage::lemma_contiguous_logical(out_before);
            assert(out.logical() =~= reduce_fold(src.logical(), sh, axs, acc, k as int + 1));
        }
        k += 1;
    }
    Ok(out)
}

/// Replicates the reduced array `src` back across the dropped axes of
/// `dst`'s shape, combining each replicated value into the slot it lands
/// on: the adjoint of [`reduce_into`]. With [`Accumulator::Copy`] this is a
/// pure broadcast that overwrites `dst`; an empty axis list makes it a
/// one-for-one copy.
pub fn broadcast_into(
    acc: Accumulator,
    dst: &mut StridedArray<Ratio>,
    src: &StridedArray<Ratio>,
    axes: &Vec<usize>,
) -> (r: Result<(), CpuError>)
    requires
        old(dst).wf(),
        old(dst).is_contiguous(),
        old(dst).buf().len() == old(dst).numel(),
        src.wf(),
    ensures
        final(dst).wf(),
        final(dst).sh() == old(dst).sh(),
        final(dst).is_contiguous(),
        match r {
            Ok(_) => {
                &&& axes_wf(axes@, old(dst).sh().len() as int)
                &&& src.sh() == drop_axes(old(dst).sh(), axes@)
                &&& final(dst).logical() == Seq::new(
                    spec_numel(old(dst).sh()) as nat,
                    |k: int| acc.spec_combine(
                        old(dst).logical()[k],
                        src.logical()[dropped_rank(old(dst).sh(), axes@, k)],
                    ),
                )
            },
            Err(_) => {
                ||| !axes_wf(axes@, old(dst).sh().len() as int)
                ||| src.sh() != drop_axes(old(dst).sh(), axes@)
            },
        },
{
    if !crate::shapes::check_axes(axes, dst.shape().len()) {
        return Err(CpuError::ShapeMismatch);
    }
    let reduced = crate::shapes::drop_axes_vec(dst.shape(), axes);
    if !crate::storage::dims_eq(src.shape(), &reduced) {
        return Err(CpuError::ShapeMismatch);
    }
    let ghost sh = old(dst).sh();
    let ghost axs = axes@;
    let ghost red = src.sh();
    let ghost dst0 = old(dst).logical();
    proof {
        lemma_numel_nonneg(sh);
        lemma_numel_nonneg(red);
        crate::storage::lemma_contiguous_logical(*dst);
    }
    let n = dst.num_elements();
    // Read the replicated values first, then write them back one slot at a
    // time; the copy-on-write storage handles sharing.
    let mut new_vals: Vec<Ratio> = Vec::new();
    let mut k: usize = 0;
    while k < n
        invariant
            k <= n,
            n as int == spec_numel(sh),
            dst.wf(),
            src.wf(),
            dst.sh() == sh,
            src.sh() == red,
            axs == axes@,
            axes_wf(axs, sh.len() as int),
            red == drop_axes(sh, axs),
            dst.logical() == dst0,
            new_vals@ =~= Seq::new(
                k as nat,
                |t: int| acc.spec_combine(dst0[t], src.logical()[dropped_rank(sh, axs, t)]),
            ),
        decreases n - k,
    {
        proof {
            lemma_unrank(sh, k as int);
            lemma_drop_axes_wf(sh, unrank(sh, k as int), axs);
            lemma_rank_bounds(red, drop_axes(unrank(sh, k as int), axs));
        }
        let idx = crate::iterate::compute_index(dst.shape(), k);
        let didx = crate::shapes::drop_axes_vec(&idx, axes);
        let pos = crate::shapes::rank_index(src.shape(), &didx);
        let combined = acc.combine(dst.get(k), src.get(pos));
        new_vals.push(combined);
        proof {
            assert(new_vals@ =~= Seq::new(
                k as nat + 1,
                |t: int| acc.spec_combine(dst0[t], src.logical()[dropped_rank(sh, axs, t)]),
            ));
        }
        k += 1;
    }
    let mut k2: usize = 0;
    proof {
        crate::storage::lemma_contiguous_logical(*dst);
    }
    while k2 < n
        invariant
            k2 <= n,
            n as int == spec_numel(sh),
            dst.wf(),
            dst.sh() == sh,
            dst.is_contiguous(),
            dst.buf().len() == n,
            new_vals@.len() == n,
            dst0.len() == n,
            forall|t: int| 0 <= t < k2 ==> dst.buf()[t] == new_vals@[t],
            forall|t: int| k2 <= t < n ==> dst.buf()[t] == dst0[t],
        decreases n - k2,
    {
        proof {
            lemma_unrank(sh, k2 as int);
            crate::shapes::lemma_canonical_offset_is_rank(sh, dst.st(), unrank(sh, k2 as int));
        }
        dst.set(k2, new_vals[k2]);
        k2 += 1;
    }
    proof {
        crate::storage::lemma_contiguous_logical(*dst);
        assert(dst.logical() =~= Seq::new(
            spec_numel(sh) as nat,
            |k: int| acc.spec_combine(dst0[k], src.logical()[dropped_rank(sh, axs, k)]),
        ));
    }
    Ok(())
}

} // verus!
