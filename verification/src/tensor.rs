//! Tensors: a storage, a unique identity, and a tape carrier.
//!
//! The identity is the stable key under which gradients accumulate: two
//! tensors with the same identity are the same logical quantity even when
//! their storages differ. The carrier type parameter decides at compile
//! time whether operations on the tensor record backward steps.

use vstd::prelude::*;

use crate::ratio::Ratio;
use crate::shapes::{alloc_ok, counts_fit, spec_numel};
use crate::storage::{CpuError, StridedArray};
use crate::tape::{NoneTape, OwnedTape, Tape};

verus! {

/// The device: it allocates storages and issues the process-unique tensor
/// identities from a monotonic counter. Holding the counter here, rather
/// than in hidden global state, makes the uniqueness argument a plain
/// invariant: every identity already issued is below `ids_issued`.
pub struct Cpu {
    next_id: u64,
}

impl Cpu {
    /// How many identities this device has issued.
    pub closed spec fn ids_issued(self) -> int {
        self.next_id as int
    }

    pub fn new() -> (r: Cpu)
        ensures
            r.ids_issued() == 0,
    {
        Cpu { next_id: 0 }
    }

    /// Whether another identity can still be issued.
    pub fn can_issue(&self) -> (r: bool)
        ensures
            r == (self.ids_issued() < u64::MAX),
    {
        self.next_id < u64::MAX
    }

    /// Issues an identity distinct from every one issued before.
    pub fn fresh_id(&mut self) -> (r: u64)
        requires
            old(self).ids_issued() < u64::MAX,
        ensures
            r as int == old(self).ids_issued(),
            final(self).ids_issued() == old(self).ids_issued() + 1,
    {
        let id = self.next_id;
        self.next_id = self.next_id + 1;
        id
    }

    /// A tensor owning the given row-major data under the given shape.
    /// Succeeds exactly when the data has one element per logical position
    /// and a buffer of that shape can exist.
    pub fn tensor_from(&mut self, data: Vec<Ratio>, shape: Vec<usize>) -> (r: Result<
        Tensor<NoneTape>,
        CpuError,
    >)
        requires
            old(self).ids_issued() < u64::MAX,
        ensures
            final(self).ids_issued() <= old(self).ids_issued() + 1,
            match r {
                Ok(t) => {
                    &&& t.wf()
                    &&& t.sh() == shape@
                    &&& t.data() == data@
                    &&& t.id() as int == old(self).ids_issued()
                    &&& final(self).ids_issued() == old(self).ids_issued() + 1
                },
                Err(e) => {
                    &&& (e == CpuError::ShapeMismatch ==> counts_fit(shape@) && data@.len()
                        != spec_numel(shape@))
                    &&& (e == CpuError::OutOfMemory ==> !alloc_ok(shape@))
                },
            },
    {
        let numel = match crate::shapes::try_num_elements(&shape) {
            Some(m) => m,
            None => {
                return Err(CpuError::OutOfMemory);
            },
        };
        if data.len() != numel {
            return Err(CpuError::ShapeMismatch);
        }
        let strides = match crate::shapes::try_canonical_strides(&shape) {
            Some(st) => st,
            None => {
                return Err(CpuError::OutOfMemory);
            },
        };
        let ghost sh = shape@;
        proof {
            crate::shapes::lemma_canonical_unique(sh, strides@);
            assert forall|idx: Seq<usize>|
                crate::shapes::idx_wf(sh, idx) implies crate::shapes::spec_dot(idx, strides@)
                < data@.len() by {
                crate::shapes::lemma_rank_bounds(sh, idx);
                crate::shapes::lemma_canonical_offset_is_rank(sh, strides@, idx);
            }
        }
        let storage = match StridedArray::from_parts(data, shape, strides) {
            Some(a) => a,
            None => {
                return Err(CpuError::OutOfMemory);
            },
        };
        proof {
            crate::shapes::lemma_canonical_alloc_ok(storage.sh(), storage.st());
            crate::storage::lemma_contiguous_logical(storage);
        }
        let id = self.fresh_id();
        Ok(Tensor { id, storage, tape: NoneTape })
    }

    /// A zero-filled tensor of the given shape.
    pub fn zeros(&mut self, shape: Vec<usize>) -> (r: Result<Tensor<NoneTape>, CpuError>)
        requires
            old(self).ids_issued() < u64::MAX,
        ensures
            final(self).ids_issued() <= old(self).ids_issued() + 1,
            match r {
                Ok(t) => {
                    &&& t.wf()
                    &&& t.sh() == shape@
                    &&& t.data() == Seq::new(
                        spec_numel(shape@) as nat,
                        |k: int| Ratio::spec_zero(),
                    )
                    &&& t.id() as int == old(self).ids_issued()
                    &&& final(self).ids_issued() == old(self).ids_issued() + 1
                },
                Err(_) => !alloc_ok(shape@),
            },
    {
        self.filled_with(shape, Ratio::zero())
    }

    /// A one-filled tensor of the given shape.
    pub fn ones(&mut self, shape: Vec<usize>) -> (r: Result<Tensor<NoneTape>, CpuError>)
        requires
            old(self).ids_issued() < u64::MAX,
        ensures
            final(self).ids_issued() <= old(self).ids_issued() + 1,
            match r {
                Ok(t) => {
                    &&& t.wf()
                    &&& t.sh() == shape@
                    &&& t.data() == Seq::new(
                        spec_numel(shape@) as nat,
                        |k: int| Ratio::spec_one(),
                    )
                    &&& t.id() as int == old(self).ids_issued()
                    &&& final(self).ids_issued() == old(self).ids_issued() + 1
                },
                Err(_) => !alloc_ok(shape@),
            },
    {
        self.filled_with(shape, Ratio::one())
    }

    /// A tensor of the given shape with every element set to `value`.
    pub fn filled_with(&mut self, shape: Vec<usize>, value: Ratio) -> (r: Result<
        Tensor<NoneTape>,
        CpuError,
    >)
        requires
            old(self).ids_issued() < u64::MAX,
        ensures
            final(self).ids_issued() <= old(self).ids_issued() + 1,
            match r {
                Ok(t) => {
                    &&& t.wf()
                    &&& t.sh() == shape@
                    &&& t.data() == Seq::new(spec_numel(shape@) as nat, |k: int| value)
                    &&& t.id() as int == old(self).ids_issued()
                    &&& final(self).ids_issued() == old(self).ids_issued() + 1
                },
                Err(_) => !alloc_ok(shape@),
            },
    {
        let storage = match StridedArray::filled(shape, value) {
            Ok(a) => a,
            Err(e) => {
                return Err(e);
            },
        };
        proof {
            crate::shapes::lemma_canonical_alloc_ok(storage.sh(), storage.st());
        }
        let id = self.fresh_id();
        Ok(Tensor { id, storage, tape: NoneTape })
    }
}

impl Default for Cpu {
    /// A fresh device with no identities issued.
    fn default() -> (r: Cpu)
        ensures
            r.ids_issued() == 0,
    {
        Cpu::new()
    }
}

/// A storage with a unique identity and a tape carrier.
#[derive(Debug)]
pub struct Tensor<T = NoneTape> {
    id: u64,
    storage: StridedArray<Ratio>,
    tape: T,
}

impl<T> Tensor<T> {
    /// The unique identity: the key this tensor's gradient accumulates
    /// under.
    pub closed spec fn id(self) -> u64 {
        self.id
    }

    /// The logical elements, in row-major order.
    pub open spec fn data(self) -> Seq<Ratio> {
        self.store().logical()
    }

    /// The shape.
    pub open spec fn sh(self) -> Seq<usize> {
        self.store().sh()
    }

    /// The underlying storage.
    pub closed spec fn store(self) -> StridedArray<Ratio> {
        self.storage
    }

    /// The tape carrier.
    pub closed spec fn carrier(self) -> T {
        self.tape
    }

    pub open spec fn wf(self) -> bool {
        self.store().wf()
    }

    /// The identity, for callers.
    pub fn id_value(&self) -> (r: u64)
        ensures
            r == self.id(),
    {
        self.id
    }

    /// The shape, for callers.
    pub fn shape(&self) -> (r: &Vec<usize>)
        ensures
            r@ == self.sh(),
    {
        self.storage.shape()
    }

    /// The storage, for the operation machinery.
    pub(crate) fn storage_ref(&self) -> (r: &StridedArray<Ratio>)
        ensures
            *r == self.store(),
    {
        &self.storage
    }

    /// The logical elements as a plain vector, in row-major order.
    pub fn array(&self) -> (r: Vec<Ratio>)
        requires
            self.wf(),
        ensures
            r@ == self.data(),
    {
        proof {
            crate::shapes::lemma_numel_nonneg(self.sh());
        }
        let n = self.storage.num_elements();
        let mut r: Vec<Ratio> = Vec::new();
        let mut k: usize = 0;
        while k < n
            invariant
                k <= n,
                n as int == self.store().numel(),
                self.wf(),
                r@ =~= self.data().take(k as int),
            decreases n - k,
        {
            r.push(self.storage.get(k));
            proof {
                assert(r@ =~= self.data().take(k as int + 1));
            }
            k += 1;
        }
        proof {
            assert(self.data().take(n as int) =~= self.data());
        }
        r
    }
}

impl<T: Tape> Tensor<T> {
    /// Decides at runtime whether storage and carrier are in valid states.
    pub fn check_valid(&self) -> (r: bool)
        ensures
            r == (self.wf() && self.carrier().tape_wf()),
    {
        self.storage.check() && self.tape.check()
    }

    /// Splits the carrier off, leaving an untracked tensor with the same
    /// identity and storage.
    pub fn split_tape(self) -> (r: (Tensor<NoneTape>, T))
        ensures
            r.0.id() == self.id(),
            r.0.store() == self.store(),
            r.1 == self.carrier(),
    {
        (Tensor { id: self.id, storage: self.storage, tape: NoneTape }, self.tape)
    }

    /// The same tensor carrying a fresh, empty tape of the same kind.
    pub fn with_empty_tape(&self) -> (r: Tensor<T>)
        ensures
            r.id() == self.id(),
            r.sh() == self.sh(),
            r.data() == self.data(),
            r.wf() == self.wf(),
            r.carrier().tape_wf(),
            r.carrier().tape_ops() == Seq::<crate::tape::OpView>::empty(),
            r.carrier().tape_grads() == Map::<u64, crate::tape::GradVal>::empty(),
    {
        Tensor { id: self.id, storage: clone_storage(&self.storage), tape: T::empty() }
    }

    /// The same tensor carrying a fresh, empty tape of a different kind.
    pub fn with_diff_tape<New: Tape>(&self) -> (r: Tensor<New>)
        ensures
            r.id() == self.id(),
            r.sh() == self.sh(),
            r.data() == self.data(),
            r.wf() == self.wf(),
            r.carrier().tape_wf(),
            r.carrier().tape_ops() == Seq::<crate::tape::OpView>::empty(),
            r.carrier().tape_grads() == Map::<u64, crate::tape::GradVal>::empty(),
    {
        Tensor { id: self.id, storage: clone_storage(&self.storage), tape: New::empty() }
    }

    /// The same tensor without any tape.
    pub fn with_none_tape(&self) -> (r: Tensor<NoneTape>)
        ensures
            r.id() == self.id(),
            r.sh() == self.sh(),
            r.data() == self.data(),
            r.wf() == self.wf(),
    {
        Tensor { id: self.id, storage: clone_storage(&self.storage), tape: NoneTape }
    }

    /// Moves the given carrier onto this tensor.
    pub fn put_tape<New: Tape>(self, tape: New) -> (r: Tensor<New>)
        ensures
            r.id() == self.id(),
            r.store() == self.store(),
            r.carrier() == tape,
    {
        Tensor { id: self.id, storage: self.storage, tape }
    }
}

impl Tensor<NoneTape> {
    /// Starts gradient tracking: a copy of this tensor carrying a fresh
    /// empty tape. The copy shares the identity, so gradients land under
    /// this tensor's key.
    pub fn trace(&self) -> (r: Tensor<OwnedTape>)
        ensures
            r.id() == self.id(),
            r.sh() == self.sh(),
            r.data() == self.data(),
            r.wf() == self.wf(),
            r.carrier().tape_wf(),
            r.carrier().tape_ops() == Seq::<crate::tape::OpView>::empty(),
            r.carrier().tape_grads() =~= Map::<u64, crate::tape::GradVal>::empty(),
    {
        self.with_diff_tape()
    }

    /// Starts gradient tracking, consuming the tensor.
    pub fn traced(self) -> (r: Tensor<OwnedTape>)
        ensures
            r.id() == self.id(),
            r.store() == self.store(),
            r.carrier().tape_wf(),
            r.carrier().tape_ops() == Seq::<crate::tape::OpView>::empty(),
            r.carrier().tape_grads() =~= Map::<u64, crate::tape::GradVal>::empty(),
    {
        let tape = OwnedTape::empty();
        self.put_tape(tape)
    }

    /// An untracked copy sharing this tensor's identity and buffer.
    pub fn duplicate(&self) -> (r: Tensor<NoneTape>)
        ensures
            r.id() == self.id(),
            r.sh() == self.sh(),
            r.data() == self.data(),
            r.wf() == self.wf(),
    {
        self.with_none_tape()
    }
}

/// Identities of tensors that asked for a gradient none was recorded for:
/// what an optimizer reports as parameters the backward pass never
/// reached.
pub struct UnusedTensors {
    pub ids: Vec<u64>,
}

impl UnusedTensors {
    pub fn new() -> (r: UnusedTensors)
        ensures
            r.ids@ == Seq::<u64>::empty(),
    {
        UnusedTensors { ids: Vec::new() }
    }

    /// Records one identity that had no gradient.
    pub fn add(&mut self, id: u64)
        ensures
            final(self).ids@ == old(self).ids@.push(id),
    {
        self.ids.push(id);
    }

    /// Whether every parameter had its gradient.
    pub fn is_empty(&self) -> (r: bool)
        ensures
            r == (self.ids@.len() == 0),
    {
        self.ids.len() == 0
    }
}

impl Default for UnusedTensors {
    /// No identities recorded yet.
    fn default() -> (r: UnusedTensors)
        ensures
            r.ids@ == Seq::<u64>::empty(),
    {
        UnusedTensors::new()
    }
}

/// Hands out the recorded gradient of a given identity, if any; an
/// optimizer working through a populated gradient map implements this.
/// Callers own the implementation, so nothing is promised of what comes
/// back; the verified step that consumes the result is
/// [`Tensor::apply_gradient`], which is exact for every value handed in.
pub trait GradientProvider {
    fn gradient(&mut self, id: u64) -> Option<StridedArray<Ratio>>;
}

/// Anything holding parameter tensors that a gradient step can update. The
/// effect on each tensor depends on what the caller's provider returns, so
/// the exact contract lives one level down, on
/// [`Tensor::apply_gradient`]: subtract the provided gradient, or report
/// the identity as unused when none was provided.
pub trait CanUpdateWithGradients {
    fn update<G: GradientProvider>(&mut self, grads: &mut G, unused: &mut UnusedTensors)
        -> Result<(), CpuError>;
}

impl Tensor<NoneTape> {
    /// Subtracts a same-shaped gradient from this tensor's values, the
    /// plain gradient-descent step. A gradient of the wrong shape is a
    /// typed error, reported before any element changes.
    pub fn apply_gradient(&mut self, grad: &StridedArray<Ratio>) -> (r: Result<(), CpuError>)
        requires
            old(self).wf(),
            grad.wf(),
        ensures
            final(self).wf(),
            final(self).id() == old(self).id(),
            final(self).sh() == old(self).sh(),
            match r {
                Ok(_) => grad.sh() == old(self).sh() && final(self).data() == Seq::new(
                    spec_numel(old(self).sh()) as nat,
                    |k: int| old(self).data()[k].spec_sub(grad.logical()[k]),
                ),
                Err(_) => (grad.sh() != old(self).sh() || !alloc_ok(old(self).sh()))
                    && final(self).data() == old(self).data(),
            },
    {
        if !crate::storage::dims_eq(self.storage.shape(), grad.shape()) {
            return Err(CpuError::ShapeMismatch);
        }
        proof {
            crate::shapes::lemma_numel_nonneg(self.sh());
        }
        let ghost data0 = self.data();
        let n = self.storage.num_elements();
        let mut k: usize = 0;
        let mut stepped: Vec<Ratio> = Vec::new();
        while k < n
            invariant
                k <= n,
                n as int == spec_numel(self.sh()),
                self.wf(),
                grad.wf(),
                grad.sh() == self.sh(),
                self.data() == data0,
                stepped@ =~= Seq::new(
                    k as nat,
                    |t: int| data0[t].spec_sub(grad.logical()[t]),
                ),
            decreases n - k,
        {
            stepped.push(self.storage.get(k).sub(grad.get(k)));
            proof {
                assert(stepped@ =~= Seq::new(
                    k as nat + 1,
                    |t: int| data0[t].spec_sub(grad.logical()[t]),
                ));
            }
            k += 1;
        }
        // The stepped values replace the storage wholesale, under canonical
        // strides; this is exact whatever layout the old storage had.
        let shape = crate::storage::clone_dims(self.storage.shape());
        let strides = match crate::shapes::try_canonical_strides(&shape) {
            Some(st) => st,
            None => {
                return Err(CpuError::OutOfMemory);
            },
        };
        proof {
            crate::shapes::lemma_canonical_unique(self.sh(), strides@);
            assert forall|idx: Seq<usize>|
                crate::shapes::idx_wf(self.sh(), idx) implies crate::shapes::spec_dot(
                idx,
                strides@,
            ) < stepped@.len() by {
                crate::shapes::lemma_rank_bounds(self.sh(), idx);
                crate::shapes::lemma_canonical_offset_is_rank(self.sh(), strides@, idx);
            }
        }
        let replacement = match StridedArray::from_parts(stepped, shape, strides) {
            Some(a) => a,
            None => {
                return Err(CpuError::OutOfMemory);
            },
        };
        proof {
            crate::shapes::lemma_canonical_alloc_ok(replacement.sh(), replacement.st());
            crate::storage::lemma_contiguous_logical(replacement);
        }
        self.storage = replacement;
        proof {
            assert(self.data() =~= Seq::new(
                spec_numel(old(self).sh()) as nat,
                |k: int| data0[k].spec_sub(grad.logical()[k]),
            ));
        }
        Ok(())
    }
}

impl CanUpdateWithGradients for Tensor<NoneTape> {
    /// Applies this tensor's recorded gradient, or reports the identity as
    /// unused when the backward pass never produced one.
    fn update<G: GradientProvider>(&mut self, grads: &mut G, unused: &mut UnusedTensors)
        -> Result<(), CpuError> {
        match grads.gradient(self.id) {
            Some(grad) => {
                if !self.storage.check() || !grad.check() {
                    return Err(CpuError::ShapeMismatch);
                }
                self.apply_gradient(&grad)
            },
            None => {
                unused.add(self.id);
                Ok(())
            },
        }
    }
}

/// A zero-copy storage clone; `try_clone` cannot in fact fail.
fn clone_storage(s: &StridedArray<Ratio>) -> (r: StridedArray<Ratio>)
    ensures
        r.buf() == s.buf(),
        r.sh() == s.sh(),
        r.st() == s.st(),
        r.wf() == s.wf(),
        r.logical() == s.logical(),
        r.numel() == s.numel(),
{
    let r = match s.try_clone() {
        Ok(c) => c,
        Err(_) => vstd::pervasive::unreached(),
    };
    proof {
        assert(r.logical() =~= s.logical());
    }
    r
}

} // verus!
