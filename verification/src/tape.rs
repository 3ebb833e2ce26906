//! The gradient tape: an ordered log of deferred backward operations,
//! replayed in reverse registration order against a [`Gradients`] map.
//!
//! A recorded operation is a small record naming the identities it touches
//! and carrying the per-element multipliers it needs, rather than an opaque
//! closure; one dispatch arm per kind interprets it. Replaying the log
//! backward is what composes the chain rule correctly: the operation
//! recorded last during the forward pass runs first during backward.

use vstd::prelude::*;

use crate::gradients::Gradients;
use crate::ratio::Ratio;
use crate::shapes::{
    alloc_ok, axes_wf, counts_fit, drop_axes, lemma_canonical_alloc_ok, lemma_drop_axes_wf,
    lemma_numel_nonneg, lemma_rank_bounds, lemma_unrank, rank_of, spec_dot, spec_numel, unrank,
};
use crate::storage::{CpuError, StridedArray};

verus! {

/// A gradient value as the specifications see it: a shape and the row-major
/// sequence of its elements.
pub struct GradVal {
    pub shape: Seq<usize>,
    pub elems: Seq<Ratio>,
}

/// The zero gradient of a shape, which an entry never touched stands for.
pub open spec fn zero_val(sh: Seq<usize>) -> GradVal {
    GradVal { shape: sh, elems: Seq::new(spec_numel(sh) as nat, |k: int| Ratio::spec_zero()) }
}

/// The entry under `id`, or the zero gradient of `sh` when the map has none.
pub open spec fn entry_or_zero(m: Map<u64, GradVal>, id: u64, sh: Seq<usize>) -> GradVal {
    if m.contains_key(id) {
        m[id]
    } else {
        zero_val(sh)
    }
}

/// What the gradient map holds, shape and elements per identity.
pub open spec fn grads_model(g: Gradients) -> Map<u64, GradVal> {
    Map::new(
        |id: u64| g.view().contains_key(id),
        |id: u64| GradVal { shape: g.view()[id].sh(), elems: g.view()[id].logical() },
    )
}

/// A deferred backward operation, as the specifications see it: the same
/// record as [`BackwardOp`] with mathematical sequences for its lists.
pub enum OpView {
    Fill { id: u64, shape: Seq<usize>, value: Ratio },
    ChainRule { inp_id: u64, out_id: u64, shape: Seq<usize>, der: Seq<Ratio> },
    SumAdjoint { inp_id: u64, out_id: u64, shape: Seq<usize>, axes: Seq<usize> },
    ReshapeAdjoint { inp_id: u64, out_id: u64, inp_shape: Seq<usize>, out_shape: Seq<usize> },
}

/// One deferred backward operation.
#[derive(Debug)]
pub enum BackwardOp {
    /// Set the gradient of `id` to `value` everywhere: how the backward pass
    /// seeds the root's own gradient with one.
    Fill { id: u64, shape: Vec<usize>, value: Ratio },
    /// The chain rule for an element-wise operation: accumulate, element by
    /// element, `der * grad[out_id]` into `grad[inp_id]`; input and output
    /// share the shape, and `der` holds the per-element derivative values
    /// saved during the forward pass.
    ChainRule { inp_id: u64, out_id: u64, shape: Vec<usize>, der: Vec<Ratio> },
    /// The chain rule for a sum over `axes`: broadcast the reduced output
    /// gradient back over the summed axes and accumulate it into the input
    /// gradient. `shape` is the full input shape; the output gradient has
    /// the shape left over after dropping `axes`.
    SumAdjoint { inp_id: u64, out_id: u64, shape: Vec<usize>, axes: Vec<usize> },
    /// The chain rule for a reshape: the output gradient, read in row-major
    /// order, accumulates position for position into the input gradient;
    /// the two shapes hold the same number of elements.
    ReshapeAdjoint { inp_id: u64, out_id: u64, inp_shape: Vec<usize>, out_shape: Vec<usize> },
}

/// The record a backward operation stands for.
pub open spec fn op_view(op: BackwardOp) -> OpView {
    match op {
        BackwardOp::Fill { id, shape, value } => OpView::Fill { id, shape: shape@, value },
        BackwardOp::ChainRule { inp_id, out_id, shape, der } => OpView::ChainRule {
            inp_id,
            out_id,
            shape: shape@,
            der: der@,
        },
        BackwardOp::SumAdjoint { inp_id, out_id, shape, axes } => OpView::SumAdjoint {
            inp_id,
            out_id,
            shape: shape@,
            axes: axes@,
        },
        BackwardOp::ReshapeAdjoint { inp_id, out_id, inp_shape, out_shape } => OpView::ReshapeAdjoint {
            inp_id,
            out_id,
            inp_shape: inp_shape@,
            out_shape: out_shape@,
        },
    }
}

/// The output position a full-shape position lands on when the listed axes
/// are dropped.
pub open spec fn dropped_rank(sh: Seq<usize>, axes: Seq<usize>, k: int) -> int {
    rank_of(drop_axes(sh, axes), drop_axes(unrank(sh, k), axes))
}

/// Whether an operation can run against the map: its shapes agree with the
/// entries it touches and the gradients it may allocate can exist.
pub open spec fn op_ok(m: Map<u64, GradVal>, op: OpView) -> bool {
    match op {
        OpView::Fill { id, shape, value } => alloc_ok(shape),
        OpView::ChainRule { inp_id, out_id, shape, der } => {
            &&& alloc_ok(shape)
            &&& der.len() == spec_numel(shape)
            &&& (m.contains_key(inp_id) ==> m[inp_id].shape == shape)
            &&& (m.contains_key(out_id) ==> m[out_id].shape == shape)
        },
        OpView::SumAdjoint { inp_id, out_id, shape, axes } => {
            &&& axes_wf(axes, shape.len() as int)
            &&& alloc_ok(shape)
            &&& alloc_ok(drop_axes(shape, axes))
            &&& (m.contains_key(inp_id) ==> m[inp_id].shape == shape)
            &&& (m.contains_key(out_id) ==> m[out_id].shape == drop_axes(shape, axes))
        },
        OpView::ReshapeAdjoint { inp_id, out_id, inp_shape, out_shape } => {
            &&& alloc_ok(inp_shape)
            &&& alloc_ok(out_shape)
            &&& spec_numel(inp_shape) == spec_numel(out_shape)
            &&& (m.contains_key(inp_id) ==> m[inp_id].shape == inp_shape)
            &&& (m.contains_key(out_id) ==> m[out_id].shape == out_shape)
        },
    }
}

/// The map after one operation.
pub open spec fn op_apply(m: Map<u64, GradVal>, op: OpView) -> Map<u64, GradVal> {
    match op {
        OpView::Fill { id, shape, value } => m.insert(
            id,
            GradVal {
                shape: shape,
                elems: Seq::new(spec_numel(shape) as nat, |k: int| value),
            },
        ),
        OpView::ChainRule { inp_id, out_id, shape, der } => {
            let n = spec_numel(shape);
            let out0 = entry_or_zero(m, out_id, shape);
            let inp0 = entry_or_zero(m, inp_id, shape);
            let grown = GradVal {
                shape: shape,
                elems: Seq::new(
                    n as nat,
                    |k: int| inp0.elems[k].spec_add(der[k].spec_mul(out0.elems[k])),
                ),
            };
            m.insert(out_id, out0).insert(inp_id, grown)
        },
        OpView::SumAdjoint { inp_id, out_id, shape, axes } => {
            let n = spec_numel(shape);
            let reduced = drop_axes(shape, axes);
            let out0 = entry_or_zero(m, out_id, reduced);
            let inp0 = entry_or_zero(m, inp_id, shape);
            let grown = GradVal {
                shape: shape,
                elems: Seq::new(
                    n as nat,
                    |k: int| inp0.elems[k].spec_add(
                        out0.elems[dropped_rank(shape, axes, k)],
                    ),
                ),
            };
            m.insert(out_id, out0).insert(inp_id, grown)
        },
        OpView::ReshapeAdjoint { inp_id, out_id, inp_shape, out_shape } => {
            let n = spec_numel(inp_shape);
            let out0 = entry_or_zero(m, out_id, out_shape);
            let inp0 = entry_or_zero(m, inp_id, inp_shape);
            let grown = GradVal {
                shape: inp_shape,
                elems: Seq::new(n as nat, |k: int| inp0.elems[k].spec_add(out0.elems[k])),
            };
            m.insert(out_id, out0).insert(inp_id, grown)
        },
    }
}

/// Replaying a whole log, last-recorded operation first. `None` marks the
/// run aborted by the first operation that cannot run — nothing after it
/// (in reverse order) is applied.
pub open spec fn run_tape(m: Map<u64, GradVal>, ops: Seq<OpView>) -> Option<
    Map<u64, GradVal>,
>
    decreases ops.len(),
{
    if ops.len() == 0 {
        Some(m)
    } else if op_ok(m, ops.last()) {
        run_tape(op_apply(m, ops.last()), ops.drop_last())
    } else {
        None
    }
}

/// The law of the tape: appending an operation to a log and replaying it
/// runs the appended operation first, before everything recorded earlier.
pub proof fn lemma_last_recorded_runs_first(m: Map<u64, GradVal>, ops: Seq<OpView>, f: OpView)
    requires
        op_ok(m, f),
    ensures
        run_tape(m, ops.push(f)) == run_tape(op_apply(m, f), ops),
{
    assert(ops.push(f).last() == f);
    assert(ops.push(f).drop_last() =~= ops);
}

/// The two-operation case of the law, spelled out: a log `[f1, f2]`
/// applies `f2` to the map first and `f1` after.
pub proof fn lemma_replay_of_two(m: Map<u64, GradVal>, f1: OpView, f2: OpView)
    requires
        op_ok(m, f2),
        op_ok(op_apply(m, f2), f1),
    ensures
        run_tape(m, seq![f1, f2]) == Some(op_apply(op_apply(m, f2), f1)),
{
    let both = seq![f1, f2];
    assert(both.last() == f2);
    assert(both.drop_last() =~= seq![f1]);
    let m2 = op_apply(m, f2);
    assert(run_tape(m, both) == run_tape(m2, seq![f1]));
    assert(seq![f1].last() == f1);
    assert(seq![f1].drop_last() =~= Seq::<OpView>::empty());
    assert(run_tape(m2, seq![f1]) == run_tape(op_apply(m2, f1), Seq::<OpView>::empty()));
}

/// Reads every logical element of a storage into a plain vector.
pub(crate) fn read_all(arr: &StridedArray<Ratio>) -> (r: Vec<Ratio>)
    requires
        arr.wf(),
    ensures
        r@ == arr.logical(),
{
    proof {
        lemma_numel_nonneg(arr.sh());
    }
    let n = arr.num_elements();
    let mut r: Vec<Ratio> = Vec::new();
    let mut k: usize = 0;
    while k < n
        invariant
            k <= n,
            n as int == arr.numel(),
            arr.wf(),
            r@ =~= arr.logical().take(k as int),
        decreases n - k,
    {
        r.push(arr.get(k));
        proof {
            assert(r@ =~= arr.logical().take(k as int + 1));
        }
        k += 1;
    }
    proof {
        assert(arr.logical().take(n as int) =~= arr.logical());
    }
    r
}

/// Applies one [`BackwardOp::Fill`].
fn apply_fill(g: &mut Gradients, id: u64, shape: Vec<usize>, value: Ratio) -> (r: Result<
    (),
    CpuError,
>)
    requires
        old(g).wf(),
    ensures
        final(g).wf(),
        ({
            let op = OpView::Fill { id, shape: shape@, value };
            match r {
                Ok(_) => op_ok(grads_model(*old(g)), op) && grads_model(*final(g)) == op_apply(
                    grads_model(*old(g)),
                    op,
                ),
                Err(_) => !op_ok(grads_model(*old(g)), op) && grads_model(*final(g))
                    == grads_model(*old(g)),
            }
        }),
{
    let ghost m0 = grads_model(*g);
    let ghost op = OpView::Fill { id, shape: shape@, value };
    let arr = match StridedArray::filled(shape, value) {
        Ok(a) => a,
        Err(e) => {
            return Err(e);
        },
    };
    proof {
        lemma_canonical_alloc_ok(arr.sh(), arr.st());
    }
    g.insert(id, arr);
    proof {
        assert(grads_model(*g) =~~= op_apply(m0, op));
    }
    Ok(())
}

/// Applies one [`BackwardOp::ChainRule`]. No gradient is touched on the
/// error paths.
fn apply_chain(g: &mut Gradients, inp_id: u64, out_id: u64, shape: Vec<usize>, der: Vec<Ratio>)
    -> (r: Result<(), CpuError>)
    requires
        old(g).wf(),
    ensures
        final(g).wf(),
        ({
            let op = OpView::ChainRule { inp_id, out_id, shape: shape@, der: der@ };
            match r {
                Ok(_) => op_ok(grads_model(*old(g)), op) && grads_model(*final(g)) == op_apply(
                    grads_model(*old(g)),
                    op,
                ),
                Err(_) => !op_ok(grads_model(*old(g)), op) && grads_model(*final(g))
                    == grads_model(*old(g)),
            }
        }),
{
    let ghost m0 = grads_model(*g);
    let ghost op = OpView::ChainRule { inp_id, out_id, shape: shape@, der: der@ };
    let ghost sh = shape@;
    // Allocation feasibility, and the zero gradient both entries default to.
    let zero = match StridedArray::filled(crate::storage::clone_dims(&shape), Ratio::zero()) {
        Ok(a) => a,
        Err(_) => {
            return Err(CpuError::OutOfMemory);
        },
    };
    proof {
        lemma_canonical_alloc_ok(zero.sh(), zero.st());
        lemma_numel_nonneg(sh);
    }
    let numel = zero.num_elements();
    if der.len() != numel {
        return Err(CpuError::ShapeMismatch);
    }
    if g.contains(inp_id) {
        if !crate::storage::dims_eq(g.get(inp_id).shape(), &shape) {
            return Err(CpuError::ShapeMismatch);
        }
    }
    if g.contains(out_id) {
        if !crate::storage::dims_eq(g.get(out_id).shape(), &shape) {
            return Err(CpuError::ShapeMismatch);
        }
    }
    proof {
        assert(op_ok(m0, op));
    }
    // From here on the operation runs to completion.
    if !g.contains(out_id) {
        let out_zero = match zero.try_clone() {
            Ok(a) => a,
            Err(_) => {
                proof {
                    assert(false);
                }
                return Err(CpuError::OutOfMemory);
            },
        };
        g.insert(out_id, out_zero);
    }
    let ghost out0 = entry_or_zero(m0, out_id, sh);
    proof {
        g.lemma_values_wf(out_id);
    }
    let outvals = read_all(g.get(out_id));
    proof {
        assert(outvals@ == out0.elems);
    }
    let inp_arr = match g.remove(inp_id) {
        Some(a) => a,
        None => zero,
    };
    let ghost inp0 = entry_or_zero(m0, inp_id, sh);
    proof {
        assert(inp_arr.logical() == inp0.elems);
        assert(inp_arr.sh() == sh);
        assert(inp_arr.wf()) by {
            if m0.contains_key(inp_id) {
                old(g).lemma_values_wf(inp_id);
            }
        }
    }
    let mut new_data: Vec<Ratio> = Vec::new();
    let mut k: usize = 0;
    while k < numel
        invariant
            k <= numel,
            numel as int == spec_numel(sh),
            inp_arr.wf(),
            inp_arr.sh() == sh,
            der@.len() == numel,
            outvals@.len() == numel,
            inp_arr.logical() == inp0.elems,
            outvals@ == out0.elems,
            new_data@ =~= Seq::new(
                k as nat,
                |t: int| inp0.elems[t].spec_add(der@[t].spec_mul(out0.elems[t])),
            ),
        decreases numel - k,
    {
        let cur = inp_arr.get(k);
        let delta = der[k].mul(outvals[k]);
        new_data.push(cur.add(delta));
        proof {
            assert(new_data@ =~= Seq::new(
                k as nat + 1,
                |t: int| inp0.elems[t].spec_add(der@[t].spec_mul(out0.elems[t])),
            ));
        }
        k += 1;
    }
    let strides = match crate::shapes::try_canonical_strides(&shape) {
        Some(st) => st,
        None => {
            proof {
                assert(false);
            }
            return Err(CpuError::OutOfMemory);
        },
    };
    proof {
        crate::shapes::lemma_canonical_unique(sh, strides@);
        assert forall|idx: Seq<usize>|
            crate::shapes::idx_wf(sh, idx) implies spec_dot(idx, strides@)
            < new_data@.len() by {
            lemma_rank_bounds(sh, idx);
            crate::shapes::lemma_canonical_offset_is_rank(sh, strides@, idx);
        }
    }
    let new_arr = match StridedArray::from_parts(new_data, shape, strides) {
        Some(a) => a,
        None => {
            proof {
                assert(false);
            }
            return Err(CpuError::OutOfMemory);
        },
    };
    g.insert(inp_id, new_arr);
    proof {
        crate::storage::lemma_contiguous_logical(new_arr);
        assert(grads_model(*g) =~~= op_apply(m0, op));
    }
    Ok(())
}

/// Applies one [`BackwardOp::SumAdjoint`]. No gradient is touched on the
/// error paths.
fn apply_sum_adjoint(
    g: &mut Gradients,
    inp_id: u64,
    out_id: u64,
    shape: Vec<usize>,
    axes: Vec<usize>,
) -> (r: Result<(), CpuError>)
    requires
        old(g).wf(),
    ensures
        final(g).wf(),
        ({
            let op = OpView::SumAdjoint { inp_id, out_id, shape: shape@, axes: axes@ };
            match r {
                Ok(_) => op_ok(grads_model(*old(g)), op) && grads_model(*final(g)) == op_apply(
                    grads_model(*old(g)),
                    op,
                ),
                Err(_) => !op_ok(grads_model(*old(g)), op) && grads_model(*final(g))
                    == grads_model(*old(g)),
            }
        }),
{
    let ghost m0 = grads_model(*g);
    let ghost op = OpView::SumAdjoint { inp_id, out_id, shape: shape@, axes: axes@ };
    let ghost sh = shape@;
    let ghost axs = axes@;
    if !crate::shapes::check_axes(&axes, shape.len()) {
        return Err(CpuError::ShapeMismatch);
    }
    let zero = match StridedArray::filled(crate::storage::clone_dims(&shape), Ratio::zero()) {
        Ok(a) => a,
        Err(_) => {
            return Err(CpuError::OutOfMemory);
        },
    };
    let reduced = crate::shapes::drop_axes_vec(&shape, &axes);
    let ghost red = reduced@;
    let zero_red = match StridedArray::filled(
        crate::storage::clone_dims(&reduced),
        Ratio::zero(),
    ) {
        Ok(a) => a,
        Err(_) => {
            return Err(CpuError::OutOfMemory);
        },
    };
    proof {
        lemma_canonical_alloc_ok(zero.sh(), zero.st());
        lemma_canonical_alloc_ok(zero_red.sh(), zero_red.st());
        lemma_numel_nonneg(sh);
        lemma_numel_nonneg(red);
    }
    if g.contains(inp_id) {
        if !crate::storage::dims_eq(g.get(inp_id).shape(), &shape) {
            return Err(CpuError::ShapeMismatch);
        }
    }
    if g.contains(out_id) {
        if !crate::storage::dims_eq(g.get(out_id).shape(), &reduced) {
            return Err(CpuError::ShapeMismatch);
        }
    }
    proof {
        assert(op_ok(m0, op));
    }
    // From here on the operation runs to completion.
    let ghost out0 = entry_or_zero(m0, out_id, red);
    let had_out = g.contains(out_id);
    let outvals = if had_out {
        proof {
            g.lemma_values_wf(out_id);
        }
        read_all(g.get(out_id))
    } else {
        read_all(&zero_red)
    };
    proof {
        assert(outvals@ == out0.elems);
    }
    let inp_arr = match g.remove(inp_id) {
        Some(a) => a,
        None => zero,
    };
    let ghost inp0 = entry_or_zero(m0, inp_id, sh);
    proof {
        assert(inp_arr.logical() == inp0.elems);
        assert(inp_arr.sh() == sh);
        assert(inp_arr.wf()) by {
            if m0.contains_key(inp_id) {
                old(g).lemma_values_wf(inp_id);
            }
        }
    }
    let numel = inp_arr.num_elements();
    let mut new_data: Vec<Ratio> = Vec::new();
    let mut k: usize = 0;
    while k < numel
        invariant
            k <= numel,
            numel as int == spec_numel(sh),
            inp_arr.wf(),
            inp_arr.sh() == sh,
            red == drop_axes(sh, axs),
            axes@ == axs,
            shape@ == sh,
            reduced@ == red,
            counts_fit(red),
            outvals@.len() == spec_numel(red),
            inp_arr.logical() == inp0.elems,
            outvals@ == out0.elems,
            new_data@ =~= Seq::new(
                k as nat,
                |t: int| inp0.elems[t].spec_add(out0.elems[dropped_rank(sh, axs, t)]),
            ),
        decreases numel - k,
    {
        proof {
            lemma_unrank(sh, k as int);
            lemma_drop_axes_wf(sh, unrank(sh, k as int), axs);
            lemma_rank_bounds(red, drop_axes(unrank(sh, k as int), axs));
        }
        let idx = crate::iterate::compute_index(&shape, k);
        let didx = crate::shapes::drop_axes_vec(&idx, &axes);
        let pos = crate::shapes::rank_index(&reduced, &didx);
        let cur = inp_arr.get(k);
        new_data.push(cur.add(outvals[pos]));
        proof {
            assert(new_data@ =~= Seq::new(
                k as nat + 1,
                |t: int| inp0.elems[t].spec_add(out0.elems[dropped_rank(sh, axs, t)]),
            ));
        }
        k += 1;
    }
    let strides = match crate::shapes::try_canonical_strides(&shape) {
        Some(st) => st,
        None => {
            proof {
                assert(false);
            }
            return Err(CpuError::OutOfMemory);
        },
    };
    proof {
        crate::shapes::lemma_canonical_unique(sh, strides@);
        assert forall|idx: Seq<usize>|
            crate::shapes::idx_wf(sh, idx) implies spec_dot(idx, strides@)
            < new_data@.len() by {
            lemma_rank_bounds(sh, idx);
            crate::shapes::lemma_canonical_offset_is_rank(sh, strides@, idx);
        }
    }
    let new_arr = match StridedArray::from_parts(new_data, shape, strides) {
        Some(a) => a,
        None => {
            proof {
                assert(false);
            }
            return Err(CpuError::OutOfMemory);
        },
    };
    if !had_out {
        g.insert(out_id, zero_red);
    }
    g.insert(inp_id, new_arr);
    proof {
        crate::storage::lemma_contiguous_logical(new_arr);
        assert(grads_model(*g) =~~= op_apply(m0, op));
    }
    Ok(())
}

/// Applies one [`BackwardOp::ReshapeAdjoint`]. No gradient is touched on
/// the error paths.
fn apply_reshape(
    g: &mut Gradients,
    inp_id: u64,
    out_id: u64,
    inp_shape: Vec<usize>,
    out_shape: Vec<usize>,
) -> (r: Result<(), CpuError>)
    requires
        old(g).wf(),
    ensures
        final(g).wf(),
        ({
            let op = OpView::ReshapeAdjoint {
                inp_id,
                out_id,
                inp_shape: inp_shape@,
                out_shape: out_shape@,
            };
            match r {
                Ok(_) => op_ok(grads_model(*old(g)), op) && grads_model(*final(g)) == op_apply(
                    grads_model(*old(g)),
                    op,
                ),
                Err(_) => !op_ok(grads_model(*old(g)), op) && grads_model(*final(g))
                    == grads_model(*old(g)),
            }
        }),
{
    let ghost m0 = grads_model(*g);
    let ghost op = OpView::ReshapeAdjoint {
        inp_id,
        out_id,
        inp_shape: inp_shape@,
        out_shape: out_shape@,
    };
    let ghost shi = inp_shape@;
    let ghost sho = out_shape@;
    let zero = match StridedArray::filled(crate::storage::clone_dims(&inp_shape), Ratio::zero()) {
        Ok(a) => a,
        Err(_) => {
            return Err(CpuError::OutOfMemory);
        },
    };
    let zero_out = match StridedArray::filled(
        crate::storage::clone_dims(&out_shape),
        Ratio::zero(),
    ) {
        Ok(a) => a,
        Err(_) => {
            return Err(CpuError::OutOfMemory);
        },
    };
    proof {
        lemma_canonical_alloc_ok(zero.sh(), zero.st());
        lemma_canonical_alloc_ok(zero_out.sh(), zero_out.st());
        lemma_numel_nonneg(shi);
        lemma_numel_nonneg(sho);
    }
    let numel = zero.num_elements();
    if zero_out.num_elements() != numel {
        return Err(CpuError::ShapeMismatch);
    }
    if g.contains(inp_id) {
        if !crate::storage::dims_eq(g.get(inp_id).shape(), &inp_shape) {
            return Err(CpuError::ShapeMismatch);
        }
    }
    if g.contains(out_id) {
        if !crate::storage::dims_eq(g.get(out_id).shape(), &out_shape) {
            return Err(CpuError::ShapeMismatch);
        }
    }
    proof {
        assert(op_ok(m0, op));
    }
    // From here on the operation runs to completion.
    let ghost out0 = entry_or_zero(m0, out_id, sho);
    let had_out = g.contains(out_id);
    let outvals = if had_out {
        proof {
            g.lemma_values_wf(out_id);
        }
        read_all(g.get(out_id))
    } else {
        read_all(&zero_out)
    };
    proof {
        assert(outvals@ == out0.elems);
    }
    let inp_arr = match g.remove(inp_id) {
        Some(a) => a,
        None => zero,
    };
    let ghost inp0 = entry_or_zero(m0, inp_id, shi);
    proof {
        assert(inp_arr.logical() == inp0.elems);
        assert(inp_arr.sh() == shi);
        assert(inp_arr.wf()) by {
            if m0.contains_key(inp_id) {
                old(g).lemma_values_wf(inp_id);
            }
        }
    }
    let mut new_data: Vec<Ratio> = Vec::new();
    let mut k: usize = 0;
    while k < numel
        invariant
            k <= numel,
            numel as int == spec_numel(shi),
            inp_arr.wf(),
            inp_arr.sh() == shi,
            outvals@.len() == numel,
            inp_arr.logical() == inp0.elems,
            outvals@ == out0.elems,
            new_data@ =~= Seq::new(
                k as nat,
                |t: int| inp0.elems[t].spec_add(out0.elems[t]),
            ),
        decreases numel - k,
    {
        let cur = inp_arr.get(k);
        new_data.push(cur.add(outvals[k]));
        proof {
            assert(new_data@ =~= Seq::new(
                k as nat + 1,
                |t: int| inp0.elems[t].spec_add(out0.elems[t]),
            ));
        }
        k += 1;
    }
    let strides = match crate::shapes::try_canonical_strides(&inp_shape) {
        Some(st) => st,
        None => {
            proof {
                assert(false);
            }
            return Err(CpuError::OutOfMemory);
        },
    };
    proof {
        crate::shapes::lemma_canonical_unique(shi, strides@);
        assert forall|idx: Seq<usize>|
            crate::shapes::idx_wf(shi, idx) implies spec_dot(idx, strides@)
            < new_data@.len() by {
            lemma_rank_bounds(shi, idx);
            crate::shapes::lemma_canonical_offset_is_rank(shi, strides@, idx);
        }
    }
    let new_arr = match StridedArray::from_parts(new_data, inp_shape, strides) {
        Some(a) => a,
        None => {
            proof {
                assert(false);
            }
            return Err(CpuError::OutOfMemory);
        },
    };
    if !had_out {
        g.insert(out_id, zero_out);
    }
    g.insert(inp_id, new_arr);
    proof {
        crate::storage::lemma_contiguous_logical(new_arr);
        assert(grads_model(*g) =~~= op_apply(m0, op));
    }
    Ok(())
}

/// Records gradient computations to run later, in reverse, together with
/// the gradient entries allocated ahead of the run.
#[derive(Debug)]
pub struct GradientTape {
    operations: Vec<BackwardOp>,
    gradients: Gradients,
}

impl GradientTape {
    /// The recorded operations, oldest first.
    pub closed spec fn ops(self) -> Seq<OpView> {
        self.operations@.map_values(|op: BackwardOp| op_view(op))
    }

    /// The gradients already allocated before execution.
    pub closed spec fn grads(self) -> Map<u64, GradVal> {
        grads_model(self.gradients)
    }

    pub closed spec fn wf(self) -> bool {
        self.gradients.wf()
    }

    /// Decides the tape invariant at runtime.
    pub fn check(&self) -> (r: bool)
        ensures
            r == self.wf(),
    {
        self.gradients.check()
    }

    /// A fresh tape: no operations, no gradients.
    pub fn new() -> (r: GradientTape)
        ensures
            r.wf(),
            r.ops() == Seq::<OpView>::empty(),
            r.grads() =~= Map::<u64, GradVal>::empty(),
    {
        let r = GradientTape { operations: Vec::new(), gradients: Gradients::new() };
        proof {
            assert(r.grads() =~= Map::<u64, GradVal>::empty());
            assert(r.ops() =~= Seq::<OpView>::empty());
        }
        r
    }

    /// Appends one deferred operation to the log.
    pub fn add_backward_op(&mut self, operation: BackwardOp)
        requires
            old(self).wf(),
        ensures
            final(self).wf(),
            final(self).ops() == old(self).ops().push(op_view(operation)),
            final(self).grads() == old(self).grads(),
    {
        self.operations.push(operation);
        proof {
            assert(self.operations@.map_values(|op: BackwardOp| op_view(op)) =~= old(
                self,
            ).operations@.map_values(|op: BackwardOp| op_view(op)).push(op_view(operation)));
        }
    }

    /// Installs a zero gradient of the given shape under `id` unless one is
    /// already recorded.
    pub fn try_alloc_for(&mut self, id: u64, shape: &Vec<usize>) -> (r: Result<(), CpuError>)
        requires
            old(self).wf(),
        ensures
            final(self).wf(),
            final(self).ops() == old(self).ops(),
            match r {
                Ok(_) => final(self).grads() == if old(self).grads().contains_key(id) {
                    old(self).grads()
                } else {
                    old(self).grads().insert(id, zero_val(shape@))
                },
                Err(_) => final(self).grads() == old(self).grads() && !alloc_ok(shape@),
            },
    {
        let ghost m0 = grads_model(self.gradients);
        let had = self.gradients.contains(id);
        let r = self.gradients.try_alloc_for(id, shape);
        proof {
            match r {
                Ok(_) => {
                    if had {
                        assert(grads_model(self.gradients) =~~= m0);
                    } else {
                        assert(grads_model(self.gradients) =~~= m0.insert(
                            id,
                            zero_val(shape@),
                        ));
                    }
                },
                Err(_) => {
                    assert(grads_model(self.gradients) =~~= m0);
                },
            }
        }
        r
    }

    /// Runs every recorded operation, most recently recorded first, against
    /// the accumulated gradient map, stopping at the first operation that
    /// fails and handing the populated map back otherwise. Taking `self` by
    /// value is what makes a second execution impossible.
    pub fn execute(self) -> (r: Result<Gradients, CpuError>)
        requires
            self.wf(),
        ensures
            r is Err ==> run_tape(self.grads(), self.ops()) is None,
            r is Ok ==> (r->Ok_0).wf(),
            r is Ok ==> run_tape(self.grads(), self.ops()) == Some(grads_model(r->Ok_0)),
    {
        let ghost m0 = self.grads();
        let ghost ops0 = self.ops();
        let mut this = self;
        proof {
            assert(this.grads() == m0);
        }
        loop
            invariant
                this.gradients.wf(),
                run_tape(m0, ops0) == run_tape(grads_model(this.gradients), this.ops()),
                m0 == self.grads(),
                ops0 == self.ops(),
            ensures
                this.gradients.wf(),
                this.ops().len() == 0,
                m0 == self.grads(),
                ops0 == self.ops(),
                run_tape(m0, ops0) == run_tape(grads_model(this.gradients), this.ops()),
            decreases this.operations@.len(),
        {
            let ghost prev_ops = this.ops();
            let ghost prev_m = grads_model(this.gradients);
            let op = match this.operations.pop() {
                Some(op) => op,
                None => {
                    break;
                },
            };
            proof {
                assert(prev_ops.len() > 0);
                assert(prev_ops.last() == op_view(op));
                assert(prev_ops.drop_last() =~= this.ops());
            }
            let step = match op {
                BackwardOp::Fill { id, shape, value } => apply_fill(
                    &mut this.gradients,
                    id,
                    shape,
                    value,
                ),
                BackwardOp::ChainRule { inp_id, out_id, shape, der } => apply_chain(
                    &mut this.gradients,
                    inp_id,
                    out_id,
                    shape,
                    der,
                ),
                BackwardOp::SumAdjoint { inp_id, out_id, shape, axes } => apply_sum_adjoint(
                    &mut this.gradients,
                    inp_id,
                    out_id,
                    shape,
                    axes,
                ),
                BackwardOp::ReshapeAdjoint { inp_id, out_id, inp_shape, out_shape } => apply_reshape(
                    &mut this.gradients,
                    inp_id,
                    out_id,
                    inp_shape,
                    out_shape,
                ),
            };
            match step {
                Ok(_) => {
                    proof {
                        assert(run_tape(prev_m, prev_ops) == run_tape(
                            grads_model(this.gradients),
                            this.ops(),
                        ));
                    }
                },
                Err(e) => {
                    proof {
                        assert(op_ok(prev_m, prev_ops.last()) == false);
                        assert(run_tape(prev_m, prev_ops) is None);
                        assert(run_tape(m0, ops0) is None);
                    }
                    return Err(e);
                },
            }
        }
        let mut out = Gradients::new();
        core::mem::swap(&mut out, &mut this.gradients);
        Ok(out)
    }

    /// Moves all of `other`'s operations onto the end of this tape's log,
    /// keeping each log's relative order, and folds `other`'s pre-allocated
    /// gradients in; `other` is left empty.
    pub fn append(&mut self, other: &mut GradientTape)
        requires
            old(self).wf(),
            old(other).wf(),
        ensures
            final(self).wf(),
            final(other).wf(),
            final(self).ops() == old(self).ops() + old(other).ops(),
            final(other).ops() == Seq::<OpView>::empty(),
            final(self).grads() =~~= old(self).grads().union_prefer_right(old(other).grads()),
            final(other).grads() =~~= Map::<u64, GradVal>::empty(),
    {
        self.operations.append(&mut other.operations);
        proof {
            assert(self.operations@.map_values(|op: BackwardOp| op_view(op)) =~= old(
                self,
            ).operations@.map_values(|op: BackwardOp| op_view(op)) + old(
                other,
            ).operations@.map_values(|op: BackwardOp| op_view(op)));
            assert(other.operations@.map_values(|op: BackwardOp| op_view(op)) =~= Seq::<
                OpView,
            >::empty());
        }
        let ghost self0 = self.gradients.view();
        let ghost other0 = other.gradients.view();
        loop
            invariant
                self.gradients.wf(),
                other.gradients.wf(),
                self.gradients.view().union_prefer_right(other.gradients.view())
                    =~= self0.union_prefer_right(other0),
                self.ops() == old(self).ops() + old(other).ops(),
                other.ops() == Seq::<OpView>::empty(),
            ensures
                self.gradients.wf(),
                other.gradients.wf(),
                self.gradients.view() =~= self0.union_prefer_right(other0),
                other.gradients.view() =~= Map::<u64, crate::storage::StridedArray<Ratio>>::empty(),
                self.ops() == old(self).ops() + old(other).ops(),
                other.ops() == Seq::<OpView>::empty(),
            decreases other.gradients.size(),
        {
            let pair = match other.gradients.pop_entry() {
                Some(pair) => pair,
                None => {
                    break;
                },
            };
            self.gradients.insert(pair.0, pair.1);
        }
        proof {
            assert(grads_model(self.gradients) =~~= grads_model(
                old(self).gradients,
            ).union_prefer_right(grads_model(old(other).gradients)));
            assert(grads_model(other.gradients) =~~= Map::<u64, GradVal>::empty());
        }
    }
}

/// Owns a [`GradientTape`]: recording is on. Operations handed to
/// [`Tape::add_backward_op`] land on the tape.
#[derive(Debug)]
pub struct OwnedTape(pub Box<GradientTape>);

/// Owns nothing: recording is off, and handing an operation to
/// [`Tape::add_backward_op`] drops it. The zero-cost way to run a forward
/// pass without gradient tracking.
#[derive(Debug, Clone, Copy)]
pub struct NoneTape;

/// What a tensor's tape carrier can do: accept deferred operations and
/// pre-allocate gradient entries. Whether those calls record anything is
/// fixed by the carrier's kind.
pub trait Tape: Sized {
    /// Whether this carrier records.
    spec fn owns_tape(&self) -> bool;

    /// Decides at runtime whether the carrier is in a valid state.
    fn check(&self) -> (r: bool)
        ensures
            r == self.tape_wf(),
    ;

    /// A fresh carrier of this kind with nothing recorded.
    fn empty() -> (r: Self)
        ensures
            r.tape_wf(),
            r.tape_ops() == Seq::<OpView>::empty(),
            r.tape_grads() == Map::<u64, GradVal>::empty(),
    ;

    /// The operations recorded so far (always empty for a carrier that
    /// does not record).
    spec fn tape_ops(&self) -> Seq<OpView>;

    /// The gradients pre-allocated so far.
    spec fn tape_grads(&self) -> Map<u64, GradVal>;

    spec fn tape_wf(&self) -> bool;

    /// Hands one deferred operation to the carrier, which records it when
    /// it owns a tape and drops it otherwise.
    fn add_backward_op(&mut self, operation: BackwardOp)
        requires
            old(self).tape_wf(),
        ensures
            final(self).tape_wf(),
            final(self).owns_tape() == old(self).owns_tape(),
            final(self).tape_grads() == old(self).tape_grads(),
            final(self).tape_ops() == if old(self).owns_tape() {
                old(self).tape_ops().push(op_view(operation))
            } else {
                old(self).tape_ops()
            },
    ;

    /// Pre-allocates a zero gradient for `id` when the carrier records.
    fn try_alloc_grad(&mut self, id: u64, shape: &Vec<usize>) -> (r: Result<(), CpuError>)
        requires
            old(self).tape_wf(),
        ensures
            final(self).tape_wf(),
            final(self).owns_tape() == old(self).owns_tape(),
            final(self).tape_ops() == old(self).tape_ops(),
            match r {
                Ok(_) => final(self).tape_grads() == if !old(self).owns_tape() || old(
                    self,
                ).tape_grads().contains_key(id) {
                    old(self).tape_grads()
                } else {
                    old(self).tape_grads().insert(id, zero_val(shape@))
                },
                Err(_) => final(self).tape_grads() == old(self).tape_grads() && !alloc_ok(
                    shape@,
                ),
            },
    ;
}

impl Tape for OwnedTape {
    open spec fn owns_tape(&self) -> bool {
        true
    }

    fn empty() -> (r: OwnedTape) {
        let r = OwnedTape(Box::new(GradientTape::new()));
        proof {
            assert(r.tape_grads() =~= Map::<u64, GradVal>::empty());
        }
        r
    }

    fn check(&self) -> (r: bool) {
        self.0.check()
    }

    open spec fn tape_ops(&self) -> Seq<OpView> {
        self.0.ops()
    }

    open spec fn tape_grads(&self) -> Map<u64, GradVal> {
        self.0.grads()
    }

    open spec fn tape_wf(&self) -> bool {
        self.0.wf()
    }

    fn add_backward_op(&mut self, operation: BackwardOp) {
        self.0.add_backward_op(operation);
    }

    fn try_alloc_grad(&mut self, id: u64, shape: &Vec<usize>) -> (r: Result<(), CpuError>) {
        self.0.try_alloc_for(id, shape)
    }
}

impl Tape for NoneTape {
    open spec fn owns_tape(&self) -> bool {
        false
    }

    fn empty() -> (r: NoneTape) {
        NoneTape
    }

    fn check(&self) -> (r: bool) {
        true
    }

    open spec fn tape_ops(&self) -> Seq<OpView> {
        Seq::empty()
    }

    open spec fn tape_grads(&self) -> Map<u64, GradVal> {
        Map::empty()
    }

    open spec fn tape_wf(&self) -> bool {
        true
    }

    fn add_backward_op(&mut self, operation: BackwardOp) {
    }

    fn try_alloc_grad(&mut self, id: u64, shape: &Vec<usize>) -> (r: Result<(), CpuError>) {
        Ok(())
    }
}

impl Default for NoneTape {
    /// The carrier that records nothing.
    fn default() -> (r: NoneTape)
        ensures
            !r.owns_tape(),
    {
        NoneTape
    }
}

impl Default for OwnedTape {
    /// A carrier around a fresh, empty tape.
    fn default() -> (r: OwnedTape)
        ensures
            r.tape_wf(),
            r.tape_ops() == Seq::<OpView>::empty(),
            r.tape_grads() =~= Map::<u64, GradVal>::empty(),
    {
        OwnedTape(Box::new(GradientTape::new()))
    }
}

/// How the tape carriers of two operands combine in a binary operation:
/// the merged carrier records exactly when either side did, and it carries
/// first the left log, then the right log, in order.
pub trait Merge<T: Tape>: Tape {
    /// Merges `other` into `self`.
    fn merge(self, other: T) -> (r: Self)
        requires
            self.tape_wf(),
            other.tape_wf(),
        ensures
            r.tape_wf(),
            r.owns_tape() == self.owns_tape(),
            r.tape_ops() == self.tape_ops() + other.tape_ops(),
            r.tape_grads() =~~= self.tape_grads().union_prefer_right(other.tape_grads()),
    ;
}

impl Merge<NoneTape> for NoneTape {
    fn merge(self, other: NoneTape) -> (r: NoneTape) {
        proof {
            assert(self.tape_ops() + other.tape_ops() =~= Seq::<OpView>::empty());
            assert(self.tape_grads().union_prefer_right(other.tape_grads()) =~~= Map::<
                u64,
                GradVal,
            >::empty());
        }
        self
    }
}

impl Merge<NoneTape> for OwnedTape {
    fn merge(self, other: NoneTape) -> (r: OwnedTape) {
        proof {
            assert(self.tape_ops() + other.tape_ops() =~= self.tape_ops());
            assert(self.tape_grads().union_prefer_right(other.tape_grads())
                =~~= self.tape_grads());
        }
        self
    }
}

impl Merge<OwnedTape> for OwnedTape {
    fn merge(self, other: OwnedTape) -> (r: OwnedTape) {
        let mut merged = self;
        let mut absorbed = other;
        merged.0.append(&mut absorbed.0);
        merged
    }
}

} // verus!
