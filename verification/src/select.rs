//! Selecting rows from the leading axis of a strided array, and the
//! adjoint of that: accumulating values back into the selected rows.
//!
//! The mode markers distinguish, at the type level, picking one row,
//! recursing into a deeper axis, and broadcasting one source over many
//! index lists.

use vstd::prelude::*;

use crate::ratio::Ratio;
use crate::shapes::{lemma_numel_nonneg, spec_numel, unrank};
use crate::storage::{CpuError, StridedArray};

verus! {

/// Mode marker: pick a single position on the leading axis.
pub struct Index;

/// Mode marker: recurse `N` axes deep before picking.
pub struct Recurse<const N: usize>;

/// Mode marker: broadcast one source across `N` index lists.
pub struct Broadcast<const N: usize>;

/// Selection along the leading axis, with its adjoint.
pub trait DeviceSelect: Sized {
    /// The logical elements, in row-major order.
    spec fn sel_elems(&self) -> Seq<Ratio>;

    /// The logical shape.
    spec fn sel_shape(&self) -> Seq<usize>;

    /// The implementation's validity condition.
    spec fn sel_wf(&self) -> bool;

    /// Whether the elements lie one per buffer slot, in row-major order;
    /// the adjoint writes rows in place and needs each position to own its
    /// slot.
    spec fn sel_compact(&self) -> bool;

    /// The contiguous copy of the leading-axis row at `index`: the run of
    /// row-major positions whose leading coordinate is `index`.
    fn select_axis(&self, index: usize) -> (r: Result<Self, CpuError>)
        ensures
            match r {
                Ok(row) => {
                    &&& self.sel_wf()
                    &&& self.sel_shape().len() > 0
                    &&& (index as int) < self.sel_shape()[0] as int
                    &&& row.sel_wf()
                    &&& row.sel_shape() == self.sel_shape().drop_first()
                    &&& row.sel_elems() == self.sel_elems().subrange(
                        (index as int) * spec_numel(self.sel_shape().drop_first()),
                        (index as int + 1) * spec_numel(self.sel_shape().drop_first()),
                    )
                },
                Err(_) => {
                    ||| !self.sel_wf()
                    ||| self.sel_shape().len() == 0
                    ||| (index as int) >= self.sel_shape()[0] as int
                    ||| !crate::shapes::alloc_ok(self.sel_shape().drop_first())
                },
            },
    ;

    /// Adds `row` element-wise onto the leading-axis row at `index`: the
    /// adjoint of [`DeviceSelect::select_axis`].
    fn select_add(&mut self, index: usize, row: &Self) -> (r: Result<(), CpuError>)
        ensures
            final(self).sel_shape() == old(self).sel_shape(),
            final(self).sel_wf() == old(self).sel_wf(),
            final(self).sel_compact() == old(self).sel_compact(),
            match r {
                Ok(_) => {
                    &&& old(self).sel_wf()
                    &&& old(self).sel_compact()
                    &&& old(self).sel_shape().len() > 0
                    &&& (index as int) < old(self).sel_shape()[0] as int
                    &&& row.sel_wf()
                    &&& row.sel_shape() == old(self).sel_shape().drop_first()
                    &&& ({
                        let rest = spec_numel(old(self).sel_shape().drop_first());
                        let start = (index as int) * rest;
                        final(self).sel_elems() == Seq::new(
                            old(self).sel_elems().len(),
                            |k: int| if start <= k < start + rest {
                                old(self).sel_elems()[k].spec_add(row.sel_elems()[k - start])
                            } else {
                                old(self).sel_elems()[k]
                            },
                        )
                    })
                },
                Err(_) => final(self).sel_elems() == old(self).sel_elems() && {
                    ||| !old(self).sel_wf()
                    ||| !old(self).sel_compact()
                    ||| old(self).sel_shape().len() == 0
                    ||| (index as int) >= old(self).sel_shape()[0] as int
                    ||| !row.sel_wf()
                    ||| row.sel_shape() != old(self).sel_shape().drop_first()
                },
            },
    ;
}

/// The row boundaries of a positive leading coordinate lie inside the
/// element count.
pub proof fn lemma_row_of_rank(sh: Seq<usize>, index: int, j: int)
    requires
        sh.len() > 0,
        0 <= index < sh[0] as int,
        0 <= j < spec_numel(sh.drop_first()),
    ensures
        0 <= index * spec_numel(sh.drop_first()) + j < spec_numel(sh),
        (index + 1) * spec_numel(sh.drop_first()) <= spec_numel(sh),
    decreases sh.len(),
{
    crate::shapes::lemma_numel_head(sh);
    lemma_numel_nonneg(sh.drop_first());
    let rest = spec_numel(sh.drop_first());
    assert(0 <= index * rest + j && (index + 1) * rest <= (sh[0] as int) * rest)
        by (nonlinear_arith)
        requires
            0 <= index,
            index + 1 <= sh[0] as int,
            0 <= j < rest,
        {
    }
    assert((index + 1) * rest == index * rest + rest) by (nonlinear_arith);
}

impl DeviceSelect for StridedArray<Ratio> {
    open spec fn sel_elems(&self) -> Seq<Ratio> {
        self.logical()
    }

    open spec fn sel_shape(&self) -> Seq<usize> {
        self.sh()
    }

    open spec fn sel_wf(&self) -> bool {
        self.wf()
    }

    open spec fn sel_compact(&self) -> bool {
        self.is_contiguous() && self.buf().len() == self.numel()
    }

    fn select_axis(&self, index: usize) -> (r: Result<StridedArray<Ratio>, CpuError>) {
        if !self.check() {
            return Err(CpuError::ShapeMismatch);
        }
        if self.shape().len() == 0 {
            return Err(CpuError::ShapeMismatch);
        }
        if index >= self.shape()[0] {
            return Err(CpuError::ShapeMismatch);
        }
        let rest_shape = tail_dims(self.shape());
        proof {
            crate::shapes::lemma_counts_fit_tail(self.sh());
        }
        let rest = match crate::shapes::try_num_elements(&rest_shape) {
            Some(m) => m,
            None => {
                proof {
                    assert(false);
                }
                return Err(CpuError::OutOfMemory);
            },
        };
        proof {
            crate::shapes::lemma_numel_head(self.sh());
            lemma_numel_nonneg(self.sh().drop_first());
            lemma_numel_nonneg(self.sh());
            assert(self.sh().take(self.sh().len() as int) =~= self.sh());
            assert(spec_numel(self.sh()) <= usize::MAX);
        }
        let start = match index.checked_mul(rest) {
            Some(s) => s,
            None => {
                proof {
                    let head = index as int;
                    let restn = rest as int;
                    assert(head * restn <= (self.sh()[0] as int) * restn) by (nonlinear_arith)
                        requires
                            head < self.sh()[0] as int,
                            restn >= 0,
                    {
                    }
                    assert(false);
                }
                return Err(CpuError::OutOfMemory);
            },
        };
        let mut vals: Vec<Ratio> = Vec::new();
        let mut j: usize = 0;
        while j < rest
            invariant
                j <= rest,
                rest as int == spec_numel(self.sh().drop_first()),
                self.wf(),
                self.sh().len() > 0,
                (index as int) < self.sh()[0] as int,
                start as int == (index as int) * (rest as int),
                spec_numel(self.sh()) <= usize::MAX,
                vals@.len() == j,
                forall|t: int| 0 <= t < j ==> vals@[t] == self.logical()[start + t],
            decreases rest - j,
        {
            proof {
                lemma_row_of_rank(self.sh(), index as int, j as int);
            }
            vals.push(self.get(start + j));
            j += 1;
        }
        let strides = match crate::shapes::try_canonical_strides(&rest_shape) {
            Some(st) => st,
            None => {
                return Err(CpuError::OutOfMemory);
            },
        };
        let ghost red = rest_shape@;
        proof {
            crate::shapes::lemma_counts_fit_tail(self.sh());
            crate::shapes::lemma_numel_head(self.sh());
            lemma_numel_nonneg(self.sh().drop_first());
            lemma_numel_nonneg(self.sh());
            crate::shapes::lemma_canonical_unique(red, strides@);
            assert forall|idx: Seq<usize>|
                crate::shapes::idx_wf(red, idx) implies crate::shapes::spec_dot(idx, strides@)
                < vals@.len() by {
                crate::shapes::lemma_rank_bounds(red, idx);
                crate::shapes::lemma_canonical_offset_is_rank(red, strides@, idx);
            }
        }
        match StridedArray::from_parts(vals, rest_shape, strides) {
            Some(a) => {
                proof {
                    crate::storage::lemma_contiguous_logical(a);
                    let restn = spec_numel(self.sh().drop_first());
                    let head = index as int;
                    if restn > 0 {
                        lemma_row_of_rank(self.sh(), head, 0);
                    } else {
                        assert(head * restn == 0 && (head + 1) * restn == 0)
                            by (nonlinear_arith)
                            requires
                                restn == 0,
                        {
                        }
                    }
                    assert((head + 1) * restn == head * restn + restn) by (nonlinear_arith);
                    assert(a.logical() =~= self.logical().subrange(
                        head * restn,
                        (head + 1) * restn,
                    ));
                }
                Ok(a)
            },
            None => {
                // Every other conjunct of the triple's validity holds, so
                // the refusal pins the canonical weight as unrepresentable.
                proof {
                    assert(!crate::shapes::alloc_ok(red));
                }
                Err(CpuError::OutOfMemory)
            },
        }
    }

    fn select_add(&mut self, index: usize, row: &StridedArray<Ratio>) -> (r: Result<
        (),
        CpuError,
    >) {
        if !self.check() || !row.check() {
            return Err(CpuError::ShapeMismatch);
        }
        if !self.check_contiguous() || self.buffer_len() != self.num_elements() {
            return Err(CpuError::ShapeMismatch);
        }
        if self.shape().len() == 0 {
            return Err(CpuError::ShapeMismatch);
        }
        if index >= self.shape()[0] {
            return Err(CpuError::ShapeMismatch);
        }
        let rest_shape = tail_dims(self.shape());
        if !crate::storage::dims_eq(row.shape(), &rest_shape) {
            return Err(CpuError::ShapeMismatch);
        }
        proof {
            crate::shapes::lemma_counts_fit_tail(self.sh());
        }
        let rest = match crate::shapes::try_num_elements(&rest_shape) {
            Some(m) => m,
            None => {
                proof {
                    assert(false);
                }
                return Err(CpuError::OutOfMemory);
            },
        };
        proof {
            crate::shapes::lemma_numel_head(self.sh());
            lemma_numel_nonneg(self.sh().drop_first());
            lemma_numel_nonneg(self.sh());
            assert(self.sh().take(self.sh().len() as int) =~= self.sh());
            assert(spec_numel(self.sh()) <= usize::MAX);
        }
        let start = match index.checked_mul(rest) {
            Some(s) => s,
            None => {
                proof {
                    let head = index as int;
                    let restn = rest as int;
                    assert(head * restn <= (self.sh()[0] as int) * restn) by (nonlinear_arith)
                        requires
                            head < self.sh()[0] as int,
                            restn >= 0,
                    {
                    }
                    assert(false);
                }
                return Err(CpuError::OutOfMemory);
            },
        };
        let ghost d0 = self.logical();
        let ghost restn = rest as int;
        let ghost startn = start as int;
        proof {
            crate::storage::lemma_contiguous_logical(*self);
        }
        let mut j: usize = 0;
        while j < rest
            invariant
                j <= rest,
                rest as int == restn,
                start as int == startn,
                (index as int) < old(self).sh()[0] as int,
                restn == spec_numel(old(self).sh().drop_first()),
                self.wf(),
                row.wf(),
                self.is_contiguous(),
                self.buf().len() == self.numel(),
                self.sh().len() > 0,
                self.sh() == old(self).sh(),
                row.sh() == self.sh().drop_first(),
                restn == spec_numel(row.sh()),
                (index as int) < self.sh()[0] as int,
                startn == (index as int) * restn,
                spec_numel(self.sh()) <= usize::MAX,
                d0.len() == self.numel(),
                forall|t: int|
                    0 <= t < j ==> self.buf()[startn + t] == d0[startn + t].spec_add(
                        row.logical()[t],
                    ),
                forall|t: int|
                    0 <= t < d0.len() && !(startn <= t < startn + j) ==> self.buf()[t] == d0[t],
            decreases rest - j,
        {
            proof {
                lemma_row_of_rank(self.sh(), index as int, j as int);
                crate::shapes::lemma_unrank(self.sh(), startn + j);
                crate::shapes::lemma_canonical_offset_is_rank(
                    self.sh(),
                    self.st(),
                    unrank(self.sh(), startn + j),
                );
                crate::storage::lemma_contiguous_logical(*self);
            }
            let cur = self.get(start + j);
            let v = row.get(j);
            self.set(start + j, cur.add(v));
            j += 1;
        }
        proof {
            crate::storage::lemma_contiguous_logical(*self);
            assert(self.logical() =~= Seq::new(
                d0.len(),
                |k: int| if startn <= k < startn + restn {
                    d0[k].spec_add(row.logical()[k - startn])
                } else {
                    d0[k]
                },
            ));
        }
        Ok(())
    }
}

/// The shape without its leading axis.
fn tail_dims(shape: &Vec<usize>) -> (r: Vec<usize>)
    requires
        shape@.len() > 0,
    ensures
        r@ == shape@.drop_first(),
{
    let mut r: Vec<usize> = Vec::new();
    let mut i: usize = 1;
    while i < shape.len()
        invariant
            1 <= i <= shape@.len(),
            r@ =~= shape@.subrange(1, i as int),
        decreases shape@.len() - i,
    {
        r.push(shape[i]);
        proof {
            assert(r@ =~= shape@.subrange(1, i as int + 1));
        }
        i += 1;
    }
    proof {
        assert(shape@.subrange(1, shape@.len() as int) =~= shape@.drop_first());
    }
    r
}

} // verus!
