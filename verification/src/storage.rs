//! Strided array storage: a shared, reference-counted flat buffer together
//! with a logical shape and per-axis strides.
//!
//! Cloning a storage is cheap: the clone shares the buffer. Mutation first
//! makes the buffer unique (copying it if it is shared), so a write through
//! one storage is never visible through another — the classic copy-on-write
//! rule. All mutation goes through [`StridedArray::set`]; it stands in for
//! a lending mutable iterator, which this verifier cannot express. A zero
//! stride along an axis makes every position of that axis read the same
//! buffer slot, which is how broadcast views work.

use std::sync::Arc;
use vstd::prelude::*;

use crate::iterate::NdIndex;
use crate::shapes::{
    counts_fit, idx_wf, is_canonical, lemma_dot_mono, lemma_dot_nonneg, lemma_dot_term,
    lemma_numel_pos, lemma_rank_bounds, lemma_unrank, spec_dot, spec_numel, strides_fit,
    try_canonical_strides, try_num_elements, unrank,
};

verus! {

/// What can go wrong in this backend. Memory can run out (a shape whose
/// element count or stride weight cannot even be represented in `usize` is
/// reported the same way, since no such buffer can exist), and a recorded
/// backward operation can meet a gradient whose runtime shape does not
/// match the one it was recorded for.
#[derive(Debug, Clone, Copy, PartialEq, Eq, Structural)]
pub enum CpuError {
    OutOfMemory,
    ShapeMismatch,
}

/// Relies on `std::sync::Arc::clone`: returns a new handle to the same
/// allocation, leaving the pointed-to value untouched.
#[verifier::external_body]
fn arc_clone<T>(a: &Arc<T>) -> (r: Arc<T>)
    ensures
        r == *a,
{
    Arc::clone(a)
}

/// Relies on `std::sync::Arc::make_mut`: gives mutable access to the value
/// inside the `Arc`, first cloning the value if the allocation is shared, so
/// writes through the result are seen only by this handle. The contract
/// also leans on that clone preserving the value, which an arbitrary
/// `Clone` impl need not; the one instantiation here is `Vec<E>` of plain
/// copyable elements, whose clone is an element-for-element copy.
#[verifier::external_body]
fn arc_make_mut<T: Clone>(a: &mut Arc<T>) -> (r: &mut T)
    ensures
        *r == **old(a),
        **final(a) == *final(r),
{
    Arc::make_mut(a)
}

/// A flat buffer interpreted through a shape and strides.
#[derive(Debug)]
pub struct StridedArray<E> {
    data: Arc<Vec<E>>,
    shape: Vec<usize>,
    strides: Vec<usize>,
}

/// An element-for-element copy of a dimension list.
pub(crate) fn clone_dims(v: &Vec<usize>) -> (r: Vec<usize>)
    ensures
        r@ == v@,
{
    let mut r: Vec<usize> = Vec::new();
    let mut i: usize = 0;
    while i < v.len()
        invariant
            i <= v@.len(),
            r@ =~= v@.take(i as int),
        decreases v@.len() - i,
    {
        r.push(v[i]);
        proof {
            assert(r@ =~= v@.take(i as int + 1));
        }
        i += 1;
    }
    proof {
        assert(v@.take(v@.len() as int) =~= v@);
    }
    r
}

/// The conditions under which a `(buffer length, shape, strides)` triple is
/// a valid storage: matching ranks, iteration arithmetic that fits `usize`,
/// and every reachable offset inside the buffer.
pub open spec fn valid_parts(buf_len: int, sh: Seq<usize>, st: Seq<usize>) -> bool {
    &&& st.len() == sh.len()
    &&& counts_fit(sh)
    &&& spec_dot(sh, st) <= usize::MAX
    &&& forall|idx: Seq<usize>| idx_wf(sh, idx) ==> spec_dot(idx, st) < buf_len
}

/// A prefix of the shape/stride weight never exceeds the whole weight.
proof fn lemma_dot_prefix_le(sh: Seq<usize>, st: Seq<usize>, i: int)
    requires
        sh.len() == st.len(),
        0 <= i <= sh.len(),
    ensures
        spec_dot(sh.take(i), st.take(i)) <= spec_dot(sh, st),
    decreases sh.len() - i,
{
    if i == sh.len() {
        assert(sh.take(i) =~= sh);
        assert(st.take(i) =~= st);
    } else {
        lemma_dot_prefix_le(sh, st, i + 1);
        assert(sh.take(i + 1).drop_last() =~= sh.take(i));
        assert(st.take(i + 1).drop_last() =~= st.take(i));
        assert((sh.take(i + 1).last() as int) * (st.take(i + 1).last() as int) >= 0)
            by (nonlinear_arith);
    }
}

/// Decides `valid_parts` for a prospective storage.
fn parts_ok(buf_len: usize, shape: &Vec<usize>, strides: &Vec<usize>) -> (r: bool)
    ensures
        r == valid_parts(buf_len as int, shape@, strides@),
{
    if shape.len() != strides.len() {
        return false;
    }
    match try_num_elements(shape) {
        Some(_) => {},
        None => {
            return false;
        },
    }
    let n = shape.len();
    // The combined weight of the shape under the strides, checked.
    let mut w: usize = 0;
    let mut i: usize = 0;
    proof {
        assert(shape@.take(0) =~= Seq::<usize>::empty());
    }
    while i < n
        invariant
            i <= n,
            n == shape@.len() == strides@.len(),
            w as int == spec_dot(shape@.take(i as int), strides@.take(i as int)),
        decreases n - i,
    {
        proof {
            assert(shape@.take(i + 1).drop_last() =~= shape@.take(i as int));
            assert(strides@.take(i + 1).drop_last() =~= strides@.take(i as int));
            assert(shape@.take(i + 1).last() == shape@[i as int]);
            assert(strides@.take(i + 1).last() == strides@[i as int]);
        }
        let term = match shape[i].checked_mul(strides[i]) {
            Some(t) => t,
            None => {
                proof {
                    lemma_dot_nonneg(shape@.take(i as int), strides@.take(i as int));
                    lemma_dot_prefix_le(shape@, strides@, i as int + 1);
                }
                return false;
            },
        };
        w = match w.checked_add(term) {
            Some(t) => t,
            None => {
                proof {
                    lemma_dot_prefix_le(shape@, strides@, i as int + 1);
                }
                return false;
            },
        };
        i += 1;
    }
    proof {
        assert(shape@.take(n as int) =~= shape@);
        assert(strides@.take(n as int) =~= strides@);
    }
    // Bound check: the offset of the greatest multi-index must lie inside
    // the buffer; when the shape is empty, nothing is reachable at all.
    let numel = match try_num_elements(shape) {
        Some(m) => m,
        None => {
            proof {
                assert(false);
            }
            0
        },
    };
    if numel > 0 {
        proof {
            lemma_numel_pos(shape@);
        }
        let mut top: usize = 0;
        let mut j: usize = 0;
        let ghost maxidx = Seq::<usize>::new(n as nat, |t: int| (shape@[t] - 1) as usize);
        proof {
            assert(maxidx.take(0) =~= Seq::<usize>::empty());
        }
        while j < n
            invariant
                j <= n,
                n == shape@.len() == strides@.len(),
                spec_numel(shape@) > 0,
                forall|t: int| 0 <= t < n ==> (shape@[t] as int) >= 1,
                maxidx == Seq::<usize>::new(n as nat, |t: int| (shape@[t] - 1) as usize),
                top as int == spec_dot(maxidx.take(j as int), strides@.take(j as int)),
                spec_dot(shape@, strides@) <= usize::MAX,
            decreases n - j,
        {
            proof {
                assert(maxidx.take(j + 1).drop_last() =~= maxidx.take(j as int));
                assert(strides@.take(j + 1).drop_last() =~= strides@.take(j as int));
                assert(maxidx.take(j + 1).last() == maxidx[j as int]);
                assert(strides@.take(j + 1).last() == strides@[j as int]);
                assert(forall|t: int|
                    0 <= t < n ==> (#[trigger] maxidx[t] as int) <= (shape@[t] as int));
                lemma_dot_mono(maxidx.take(j + 1), shape@.take(j + 1), strides@.take(j + 1));
                lemma_dot_prefix_le(shape@, strides@, j as int + 1);
                lemma_dot_term(shape@, strides@, j as int);
                let a = maxidx[j as int] as int;
                let b = shape@[j as int] as int;
                let ww = strides@[j as int] as int;
                assert(a * ww <= b * ww) by (nonlinear_arith)
                    requires
                        a <= b,
                        ww >= 0,
                {
                }
            }
            top = top + (shape[j] - 1) * strides[j];
            j += 1;
        }
        proof {
            assert(maxidx.take(n as int) =~= maxidx);
            assert(strides@.take(n as int) =~= strides@);
        }
        if top >= buf_len {
            proof {
                assert(idx_wf(shape@, maxidx));
            }
            return false;
        }
        proof {
            assert forall|idx: Seq<usize>|
                idx_wf(shape@, idx) implies spec_dot(idx, strides@) < buf_len as int by {
                assert(forall|t: int|
                    0 <= t < n ==> (#[trigger] idx[t] as int) <= (maxidx[t] as int));
                lemma_dot_mono(idx, maxidx, strides@);
            }
        }
    } else {
        proof {
            assert forall|idx: Seq<usize>|
                idx_wf(shape@, idx) implies spec_dot(idx, strides@) < buf_len as int by {
                // No multi-index is valid for an empty shape: its rank would
                // have to lie below the element count zero.
                lemma_rank_bounds(shape@, idx);
            }
        }
    }
    true
}

impl<E> StridedArray<E> {
    /// The buffer contents.
    pub closed spec fn buf(self) -> Seq<E> {
        self.data@
    }

    /// The logical shape.
    pub closed spec fn sh(self) -> Seq<usize> {
        self.shape@
    }

    /// The per-axis strides.
    pub closed spec fn st(self) -> Seq<usize> {
        self.strides@
    }

    /// Storage invariant: the buffer, shape and strides form a valid triple.
    pub open spec fn wf(self) -> bool {
        valid_parts(self.buf().len() as int, self.sh(), self.st())
    }

    /// Number of logical elements.
    pub open spec fn numel(self) -> int {
        spec_numel(self.sh())
    }

    /// The buffer offset of logical position `k`.
    pub open spec fn offset_of(self, k: int) -> int {
        spec_dot(unrank(self.sh(), k), self.st())
    }

    /// The storage read as the row-major sequence of its logical elements.
    pub open spec fn logical(self) -> Seq<E> {
        Seq::new(self.numel() as nat, |k: int| self.buf()[self.offset_of(k)])
    }

    /// Whether the strides are the canonical row-major strides of the shape.
    pub open spec fn is_contiguous(self) -> bool {
        is_canonical(self.sh(), self.st())
    }

    /// Interprets `data` through `shape` and `strides`; succeeds exactly
    /// when the triple is valid.
    pub fn from_parts(data: Vec<E>, shape: Vec<usize>, strides: Vec<usize>) -> (r: Option<
        StridedArray<E>,
    >)
        ensures
            match r {
                Some(a) => {
                    &&& a.wf()
                    &&& a.buf() == data@
                    &&& a.sh() == shape@
                    &&& a.st() == strides@
                },
                None => !valid_parts(data@.len() as int, shape@, strides@),
            },
    {
        if parts_ok(data.len(), &shape, &strides) {
            Some(StridedArray { data: Arc::new(data), shape, strides })
        } else {
            None
        }
    }

    /// The shape, for callers.
    pub fn shape(&self) -> (r: &Vec<usize>)
        ensures
            r@ == self.sh(),
    {
        &self.shape
    }

    /// Decides the storage invariant at runtime.
    pub fn check(&self) -> (r: bool)
        ensures
            r == self.wf(),
    {
        parts_ok(self.data.len(), &self.shape, &self.strides)
    }

    /// Decides at runtime whether the strides are canonical.
    pub fn check_contiguous(&self) -> (r: bool)
        ensures
            r == self.is_contiguous(),
    {
        match try_canonical_strides(&self.shape) {
            Some(canon) => {
                let same = dims_eq(&self.strides, &canon);
                proof {
                    if self.is_contiguous() {
                        crate::shapes::lemma_canonical_unique(self.sh(), self.st());
                        crate::shapes::lemma_canonical_unique(self.sh(), canon@);
                    }
                }
                same
            },
            None => {
                proof {
                    if self.is_contiguous() {
                        assert forall|i: int|
                            1 <= i <= self.sh().len() implies spec_numel(
                            #[trigger] self.sh().skip(i),
                        ) <= usize::MAX by {
                            assert((self.st()[i - 1] as int) == spec_numel(self.sh().skip(i)));
                        }
                    }
                }
                false
            },
        }
    }

    /// The buffer's length, which a broadcast view's logical element count
    /// can exceed.
    pub fn buffer_len(&self) -> (r: usize)
        ensures
            r as int == self.buf().len(),
    {
        self.data.len()
    }

    /// The strides, for callers.
    pub fn strides(&self) -> (r: &Vec<usize>)
        ensures
            r@ == self.st(),
    {
        &self.strides
    }

    /// The number of logical elements.
    pub fn num_elements(&self) -> (r: usize)
        requires
            self.wf(),
        ensures
            r as int == self.numel(),
    {
        match try_num_elements(&self.shape) {
            Some(m) => m,
            None => {
                proof {
                    assert(false);
                }
                0
            },
        }
    }

    /// A zero-copy clone: the new storage shares this one's buffer, in
    /// constant time; no element is copied.
    pub fn try_clone(&self) -> (r: Result<StridedArray<E>, CpuError>)
        ensures
            match r {
                Ok(a) => a.buf() == self.buf() && a.sh() == self.sh() && a.st() == self.st(),
                Err(_) => false,
            },
    {
        Ok(
            StridedArray {
                data: arc_clone(&self.data),
                shape: clone_dims(&self.shape),
                strides: clone_dims(&self.strides),
            },
        )
    }

    /// A zero-copy reinterpretation of the buffer under a new shape and new
    /// strides, used for broadcasting and permuting. Succeeds exactly when
    /// the new pair keeps every reachable offset inside the shared buffer.
    pub fn view_with_strides(&self, shape: Vec<usize>, strides: Vec<usize>) -> (r: Option<
        StridedArray<E>,
    >)
        ensures
            match r {
                Some(a) => {
                    &&& a.wf()
                    &&& a.buf() == self.buf()
                    &&& a.sh() == shape@
                    &&& a.st() == strides@
                },
                None => !valid_parts(self.buf().len() as int, shape@, strides@),
            },
    {
        let len = self.data.len();
        if parts_ok(len, &shape, &strides) {
            Some(StridedArray { data: arc_clone(&self.data), shape, strides })
        } else {
            None
        }
    }

    /// The buffer offset that logical position `k` reaches.
    pub fn offset_at(&self, k: usize) -> (r: usize)
        requires
            self.wf(),
            (k as int) < self.numel(),
        ensures
            r as int == self.offset_of(k as int),
            r < self.buf().len(),
    {
        proof {
            lemma_unrank(self.sh(), k as int);
        }
        let idx = crate::iterate::compute_index(&self.shape, k);
        let n = self.shape.len();
        let mut off: usize = 0;
        let mut i: usize = 0;
        proof {
            assert(idx@.take(0) =~= Seq::<usize>::empty());
            assert(self.st().take(0) =~= Seq::<usize>::empty());
            lemma_dot_mono(idx@, self.sh(), self.st());
        }
        while i < n
            invariant
                i <= n,
                n == idx@.len() == self.st().len() == self.sh().len(),
                idx_wf(self.sh(), idx@),
                spec_dot(self.sh(), self.st()) <= usize::MAX,
                spec_dot(idx@, self.st()) <= spec_dot(self.sh(), self.st()),
                off as int == spec_dot(idx@.take(i as int), self.st().take(i as int)),
            decreases n - i,
        {
            proof {
                assert(idx@.take(i + 1).drop_last() =~= idx@.take(i as int));
                assert(self.st().take(i + 1).drop_last() =~= self.st().take(i as int));
                assert(idx@.take(i + 1).last() == idx@[i as int]);
                assert(self.st().take(i + 1).last() == self.st()[i as int]);
                lemma_dot_prefix_le(idx@, self.st(), i as int + 1);
                lemma_dot_term(self.sh(), self.st(), i as int);
                let a = idx@[i as int] as int;
                let b = self.sh()[i as int] as int;
                let ww = self.st()[i as int] as int;
                assert(a * ww <= b * ww) by (nonlinear_arith)
                    requires
                        a <= b,
                        ww >= 0,
                {
                }
                lemma_dot_nonneg(idx@.take(i as int), self.st().take(i as int));
            }
            off = off + idx[i] * self.strides[i];
            i += 1;
        }
        proof {
            assert(idx@.take(n as int) =~= idx@);
            assert(self.st().take(n as int) =~= self.st());
        }
        off
    }
}

impl<E: Copy> StridedArray<E> {
    /// Reads logical position `k`.
    pub fn get(&self, k: usize) -> (r: E)
        requires
            self.wf(),
            (k as int) < self.numel(),
        ensures
            r == self.logical()[k as int],
    {
        let off = self.offset_at(k);
        self.data[off]
    }

    /// Writes logical position `k`, copying the buffer first if it is
    /// shared, so the write is seen through this storage alone.
    pub fn set(&mut self, k: usize, v: E)
        requires
            old(self).wf(),
            (k as int) < old(self).numel(),
        ensures
            final(self).wf(),
            final(self).sh() == old(self).sh(),
            final(self).st() == old(self).st(),
            final(self).buf() == old(self).buf().update(old(self).offset_of(k as int), v),
    {
        let off = self.offset_at(k);
        let buf = arc_make_mut(&mut self.data);
        buf[off] = v;
    }

    /// A fresh contiguous storage of the given shape with every element set
    /// to `value`. Fails when no buffer of that shape can exist in memory.
    pub fn filled(shape: Vec<usize>, value: E) -> (r: Result<StridedArray<E>, CpuError>)
        ensures
            match r {
                Ok(a) => {
                    &&& a.wf()
                    &&& a.sh() == shape@
                    &&& a.is_contiguous()
                    &&& a.buf().len() == spec_numel(shape@)
                    &&& a.logical() == Seq::new(spec_numel(shape@) as nat, |k: int| value)
                },
                Err(_) => !counts_fit(shape@) || !strides_fit(shape@) || spec_dot(
                    shape@,
                    crate::shapes::spec_canonical(shape@),
                ) > usize::MAX,
            },
    {
        let numel = match try_num_elements(&shape) {
            Some(m) => m,
            None => {
                return Err(CpuError::OutOfMemory);
            },
        };
        let strides = match try_canonical_strides(&shape) {
            Some(st) => st,
            None => {
                return Err(CpuError::OutOfMemory);
            },
        };
        proof {
            crate::shapes::lemma_canonical_unique(shape@, strides@);
        }
        let mut data: Vec<E> = Vec::new();
        let mut i: usize = 0;
        while i < numel
            invariant
                i <= numel,
                data@ =~= Seq::new(i as nat, |k: int| value),
            decreases numel - i,
        {
            data.push(value);
            proof {
                assert(data@ =~= Seq::new(i as nat + 1, |k: int| value));
            }
            i += 1;
        }
        proof {
            if spec_dot(shape@, strides@) <= usize::MAX {
                assert forall|idx: Seq<usize>|
                    idx_wf(shape@, idx) implies spec_dot(idx, strides@) < data@.len() by {
                    lemma_rank_bounds(shape@, idx);
                    crate::shapes::lemma_canonical_offset_is_rank(shape@, strides@, idx);
                }
                assert(valid_parts(data@.len() as int, shape@, strides@));
            }
        }
        match StridedArray::from_parts(data, shape, strides) {
            Some(a) => {
                proof {
                    assert(a.logical() =~= Seq::new(spec_numel(a.sh()) as nat, |k: int| value))
                        by {
                        assert forall|k: int| 0 <= k < a.numel() implies a.logical()[k]
                            == value by {
                            lemma_unrank(a.sh(), k);
                            crate::shapes::lemma_canonical_offset_is_rank(
                                a.sh(),
                                a.st(),
                                unrank(a.sh(), k),
                            );
                        }
                    }
                }
                Ok(a)
            },
            None => Err(CpuError::OutOfMemory),
        }
    }
}

/// Iterates the logical elements of a storage in row-major order. It holds
/// its own handle on the shared buffer, so the storage it came from can be
/// dropped or mutated (which, by copy-on-write, leaves this buffer alone).
pub struct StridedRefIter<E> {
    data: Arc<Vec<E>>,
    index: NdIndex,
}

/// Like [`StridedRefIter`], but each element comes with its multi-index.
pub struct StridedRefIndexIter<E> {
    data: Arc<Vec<E>>,
    index: NdIndex,
}

impl<E> StridedRefIter<E> {
    /// The full element sequence being walked.
    pub closed spec fn elems(self) -> Seq<E> {
        Seq::new(
            spec_numel(self.index.sh()) as nat,
            |k: int| self.data@[spec_dot(unrank(self.index.sh(), k), self.index.st())],
        )
    }

    /// How many elements were already handed out.
    pub closed spec fn pos(self) -> int {
        self.index.pos()
    }

    #[verifier::opaque]
    pub closed spec fn inv(self) -> bool {
        &&& self.index.inv()
        &&& valid_parts(self.data@.len() as int, self.index.sh(), self.index.st())
    }
}

impl<E: Copy> StridedRefIter<E> {
    /// The next logical element, in row-major order.
    pub fn next(&mut self) -> (r: Option<E>)
        requires
            old(self).inv(),
        ensures
            final(self).inv(),
            final(self).elems() == old(self).elems(),
            ({
                let k = old(self).pos();
                if k < old(self).elems().len() {
                    r == Some(old(self).elems()[k]) && final(self).pos() == k + 1
                } else {
                    r is None && final(self).pos() == k
                }
            }),
    {
        proof {
            reveal(StridedRefIter::inv);
            crate::shapes::lemma_numel_nonneg(self.index.sh());
            self.index.lemma_pos_bounds();
        }
        let ghost k = self.index.pos();
        match self.index.next() {
            Some(off) => {
                proof {
                    lemma_unrank(self.index.sh(), k);
                }
                Some(self.data[off])
            },
            None => None,
        }
    }
}

impl<E> StridedRefIndexIter<E> {
    /// The full element sequence being walked.
    pub closed spec fn elems(self) -> Seq<E> {
        Seq::new(
            spec_numel(self.index.sh()) as nat,
            |k: int| self.data@[spec_dot(unrank(self.index.sh(), k), self.index.st())],
        )
    }

    /// The shape being walked, whose multi-indices are handed out.
    pub closed spec fn walk_shape(self) -> Seq<usize> {
        self.index.sh()
    }

    /// How many elements were already handed out.
    pub closed spec fn pos(self) -> int {
        self.index.pos()
    }

    #[verifier::opaque]
    pub closed spec fn inv(self) -> bool {
        &&& self.index.inv()
        &&& valid_parts(self.data@.len() as int, self.index.sh(), self.index.st())
    }
}

impl<E: Copy> StridedRefIndexIter<E> {
    /// The next logical element together with its multi-index.
    pub fn next(&mut self) -> (r: Option<(E, Vec<usize>)>)
        requires
            old(self).inv(),
        ensures
            final(self).inv(),
            final(self).elems() == old(self).elems(),
            final(self).walk_shape() == old(self).walk_shape(),
            ({
                let k = old(self).pos();
                if k < old(self).elems().len() {
                    match r {
                        Some(pair) => {
                            &&& pair.0 == old(self).elems()[k]
                            &&& pair.1@ == unrank(old(self).walk_shape(), k)
                            &&& final(self).pos() == k + 1
                        },
                        None => false,
                    }
                } else {
                    r is None && final(self).pos() == k
                }
            }),
    {
        proof {
            reveal(StridedRefIndexIter::inv);
            crate::shapes::lemma_numel_nonneg(self.index.sh());
            self.index.lemma_pos_bounds();
        }
        let ghost k = self.index.pos();
        match self.index.next_with_idx() {
            Some(pair) => {
                proof {
                    lemma_unrank(self.index.sh(), k);
                }
                let (off, idx) = pair;
                Some((self.data[off], idx))
            },
            None => None,
        }
    }
}

impl<E> StridedArray<E> {
    /// A fresh iterator over the logical elements, in row-major order.
    pub fn iter(&self) -> (r: StridedRefIter<E>)
        requires
            self.wf(),
        ensures
            r.inv(),
            r.elems() == self.logical(),
            r.pos() == 0,
    {
        let r = StridedRefIter {
            data: arc_clone(&self.data),
            index: NdIndex::new(clone_dims(&self.shape), clone_dims(&self.strides)),
        };
        proof {
            reveal(StridedRefIter::inv);
            assert(r.elems() =~= self.logical());
        }
        r
    }

    /// A fresh iterator that also reports each element's multi-index.
    pub fn iter_with_index(&self) -> (r: StridedRefIndexIter<E>)
        requires
            self.wf(),
        ensures
            r.inv(),
            r.elems() == self.logical(),
            r.walk_shape() == self.sh(),
            r.pos() == 0,
    {
        let r = StridedRefIndexIter {
            data: arc_clone(&self.data),
            index: NdIndex::new(clone_dims(&self.shape), clone_dims(&self.strides)),
        };
        proof {
            reveal(StridedRefIndexIter::inv);
            assert(r.elems() =~= self.logical());
        }
        r
    }
}

/// A contiguous storage whose buffer is exactly as long as its element
/// count reads back its buffer unchanged.
pub proof fn lemma_contiguous_logical<E>(arr: StridedArray<E>)
    requires
        arr.wf(),
        arr.is_contiguous(),
        arr.buf().len() == arr.numel(),
    ensures
        arr.logical() =~= arr.buf(),
{
    crate::shapes::lemma_numel_nonneg(arr.sh());
    assert forall|k: int| 0 <= k < arr.numel() implies arr.logical()[k] == arr.buf()[k] by {
        lemma_unrank(arr.sh(), k);
        crate::shapes::lemma_canonical_offset_is_rank(arr.sh(), arr.st(), unrank(arr.sh(), k));
    }
}

/// Element-for-element equality of two dimension lists.
pub(crate) fn dims_eq(a: &Vec<usize>, b: &Vec<usize>) -> (r: bool)
    ensures
        r == (a@ == b@),
{
    if a.len() != b.len() {
        proof {
            assert(a@.len() != b@.len());
        }
        return false;
    }
    let n = a.len();
    let mut i: usize = 0;
    while i < n
        invariant
            i <= n,
            n == a@.len() == b@.len(),
            forall|t: int| 0 <= t < i ==> a@[t] == b@[t],
        decreases n - i,
    {
        if a[i] != b[i] {
            proof {
                assert(a@[i as int] != b@[i as int]);
            }
            return false;
        }
        i += 1;
    }
    proof {
        assert(a@ =~= b@);
    }
    true
}

} // verus!
