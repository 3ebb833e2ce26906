//! Tensor operations: element-wise forward passes that record their
//! backward steps on the operand's tape.
//!
//! Every operation here follows the same shape: compute the output values,
//! mint a fresh identity for the output, and — when an operand carries a
//! tape — push a record saying how the output's gradient flows back into
//! that operand's gradient. The mathematics of a pointwise kernel enters
//! only through the per-element values and derivative values, so a kernel
//! the verified core cannot compute (a transcendental, say) can still run
//! through the same machinery with caller-supplied values.

use vstd::prelude::*;

use crate::ratio::Ratio;
use crate::shapes::{alloc_ok, axes_wf, drop_axes, lemma_numel_nonneg, spec_numel};
use crate::storage::CpuError;
use crate::tape::{BackwardOp, Merge, OpView, Tape};
use crate::tensor::{Cpu, Tensor};

verus! {

/// A pointwise kernel: the function applied element by element during the
/// forward pass, and its derivative. Implementations carry whatever
/// mathematics they like; the op machinery records the values they return.
pub trait UnaryDerivative {
    fn f(&self, x: Ratio) -> Ratio;

    fn df(&self, x: Ratio) -> Ratio;
}

/// A two-operand pointwise kernel with its two partial derivatives.
pub trait BinaryDerivative {
    fn f(&self, x: Ratio, y: Ratio) -> Ratio;

    fn dfdx(&self, x: Ratio, y: Ratio) -> Ratio;

    fn dfdy(&self, x: Ratio, y: Ratio) -> Ratio;
}

/// Element-wise addition of two same-shaped tensors.
#[derive(Debug, Default, Clone, Copy)]
pub struct BinaryAddKernelOp;

/// Addition of one constant to every element.
#[derive(Debug, Clone, Copy)]
pub struct ScalarAddKernelOp {
    pub scalar: Ratio,
}

/// Clamping every element between two bounds.
#[derive(Debug, Clone, Copy)]
pub struct ClampKernelOp {
    pub min: Ratio,
    pub max: Ratio,
}

/// The exponential kernel. Its pointwise function is transcendental, so it
/// lives outside the verified core; the marker names the operation for
/// callers that supply their own [`UnaryDerivative`] machinery.
#[derive(Debug, Default, Clone, Copy)]
pub struct ExpKernelOp;

/// The cosine kernel; see [`ExpKernelOp`] on why it has no body here.
#[derive(Debug, Default, Clone, Copy)]
pub struct CosKernelOp;

/// The hyperbolic-tangent kernel; see [`ExpKernelOp`].
#[derive(Debug, Default, Clone, Copy)]
pub struct TanhKernelOp;

/// The parametric rectifier: negative inputs are scaled by a learnable
/// coefficient.
#[derive(Debug, Default, Clone, Copy)]
pub struct PReLUKernelOp;

/// The leaky rectifier: negative inputs are scaled by a fixed coefficient.
#[derive(Debug, Clone, Copy)]
pub struct LeakyReLUKernelOp {
    pub slope: Ratio,
}

impl UnaryDerivative for ScalarAddKernelOp {
    fn f(&self, x: Ratio) -> Ratio {
        x.add(self.scalar)
    }

    fn df(&self, x: Ratio) -> Ratio {
        Ratio::one()
    }
}

impl UnaryDerivative for ClampKernelOp {
    fn f(&self, x: Ratio) -> Ratio {
        x.max(self.min).min(self.max)
    }

    fn df(&self, x: Ratio) -> Ratio {
        if self.min.le(x) && x.le(self.max) {
            Ratio::one()
        } else {
            Ratio::zero()
        }
    }
}

impl UnaryDerivative for LeakyReLUKernelOp {
    fn f(&self, x: Ratio) -> Ratio {
        if Ratio::zero().le(x) {
            x
        } else {
            self.slope.mul(x)
        }
    }

    fn df(&self, x: Ratio) -> Ratio {
        if Ratio::zero().le(x) {
            Ratio::one()
        } else {
            self.slope
        }
    }
}

impl BinaryDerivative for BinaryAddKernelOp {
    fn f(&self, x: Ratio, y: Ratio) -> Ratio {
        x.add(y)
    }

    fn dfdx(&self, x: Ratio, y: Ratio) -> Ratio {
        Ratio::one()
    }

    fn dfdy(&self, x: Ratio, y: Ratio) -> Ratio {
        Ratio::one()
    }
}

impl BinaryDerivative for PReLUKernelOp {
    fn f(&self, x: Ratio, y: Ratio) -> Ratio {
        if Ratio::zero().le(x) {
            x
        } else {
            y.mul(x)
        }
    }

    fn dfdx(&self, x: Ratio, y: Ratio) -> Ratio {
        if Ratio::zero().le(x) {
            Ratio::one()
        } else {
            y
        }
    }

    fn dfdy(&self, x: Ratio, y: Ratio) -> Ratio {
        if Ratio::zero().le(x) {
            Ratio::zero()
        } else {
            x
        }
    }
}

/// The record an element-wise step leaves on the tape.
pub open spec fn chain_view(inp: u64, out: u64, sh: Seq<usize>, der: Seq<Ratio>) -> OpView {
    OpView::ChainRule { inp_id: inp, out_id: out, shape: sh, der }
}

/// Builds the output tensor of an element-wise operation from its computed
/// values and derivative values, and records the backward step. This is
/// the exactly-specified core every unary operation reduces to.
pub fn unary_from_values<T: Tape>(
    dev: &mut Cpu,
    t: Tensor<T>,
    fvals: Vec<Ratio>,
    dvals: Vec<Ratio>,
) -> (r: Result<Tensor<T>, CpuError>)
    requires
        t.wf(),
        t.carrier().tape_wf(),
        fvals@.len() == spec_numel(t.sh()),
        dvals@.len() == spec_numel(t.sh()),
        old(dev).ids_issued() < u64::MAX,
    ensures
        final(dev).ids_issued() <= old(dev).ids_issued() + 1,
        match r {
            Ok(out) => {
                &&& final(dev).ids_issued() == old(dev).ids_issued() + 1
                &&& out.wf()
                &&& out.sh() == t.sh()
                &&& out.data() == fvals@
                &&& out.id() as int == old(dev).ids_issued()
                &&& out.carrier().tape_wf()
                &&& out.carrier().owns_tape() == t.carrier().owns_tape()
                &&& out.carrier().tape_grads() == t.carrier().tape_grads()
                &&& out.carrier().tape_ops() == t.carrier().tape_ops() + (if t.carrier().owns_tape() {
                    seq![chain_view(t.id(), out.id(), t.sh(), dvals@)]
                } else {
                    Seq::<OpView>::empty()
                })
            },
            Err(_) => !alloc_ok(t.sh()),
        },
{
    let (plain, mut tape) = t.split_tape();
    let shape = crate::storage::clone_dims(plain.shape());
    let out_plain = match dev.tensor_from(fvals, shape) {
        Ok(o) => o,
        Err(e) => {
            return Err(e);
        },
    };
    let record = BackwardOp::ChainRule {
        inp_id: plain.id_value(),
        out_id: out_plain.id_value(),
        shape: crate::storage::clone_dims(plain.shape()),
        der: dvals,
    };
    tape.add_backward_op(record);
    let out = out_plain.put_tape(tape);
    proof {
        if t.carrier().owns_tape() {
            assert(out.carrier().tape_ops() =~= t.carrier().tape_ops() + seq![
                chain_view(t.id(), out.id(), t.sh(), dvals@),
            ]);
        } else {
            assert(out.carrier().tape_ops() =~= t.carrier().tape_ops()
                + Seq::<OpView>::empty());
        }
    }
    Ok(out)
}

/// Runs a caller-supplied pointwise kernel over a tensor. What the kernel
/// computes is its own affair; whatever values it returned are the output,
/// and whatever derivative values it returned are recorded for backward.
pub fn try_unary_op<Op: UnaryDerivative, T: Tape>(dev: &mut Cpu, op: Op, t: Tensor<T>) -> (r:
    Result<Tensor<T>, CpuError>)
    requires
        t.wf(),
        t.carrier().tape_wf(),
        old(dev).ids_issued() < u64::MAX,
    ensures
        final(dev).ids_issued() <= old(dev).ids_issued() + 1,
        match r {
            Ok(out) => {
                &&& final(dev).ids_issued() == old(dev).ids_issued() + 1
                &&& out.wf()
                &&& out.sh() == t.sh()
                &&& out.id() as int == old(dev).ids_issued()
                &&& out.carrier().tape_wf()
                &&& out.carrier().owns_tape() == t.carrier().owns_tape()
                &&& out.carrier().tape_grads() == t.carrier().tape_grads()
                &&& exists|der: Seq<Ratio>|
                    der.len() == spec_numel(t.sh()) && out.carrier().tape_ops()
                        == t.carrier().tape_ops() + (if t.carrier().owns_tape() {
                        seq![chain_view(t.id(), out.id(), t.sh(), der)]
                    } else {
                        Seq::<OpView>::empty()
                    })
            },
            Err(_) => !alloc_ok(t.sh()),
        },
{
    proof {
        lemma_numel_nonneg(t.sh());
    }
    let vals = t.array();
    let n = vals.len();
    let mut fvals: Vec<Ratio> = Vec::new();
    let mut dvals: Vec<Ratio> = Vec::new();
    let mut k: usize = 0;
    while k < n
        invariant
            k <= n,
            n == vals@.len(),
            fvals@.len() == k,
            dvals@.len() == k,
        decreases n - k,
    {
        fvals.push(op.f(vals[k]));
        dvals.push(op.df(vals[k]));
        k += 1;
    }
    let ghost der = dvals@;
    match unary_from_values(dev, t, fvals, dvals) {
        Ok(out) => {
            proof {
                assert(der.len() == spec_numel(t.sh()) && out.carrier().tape_ops()
                    == t.carrier().tape_ops() + (if t.carrier().owns_tape() {
                    seq![chain_view(t.id(), out.id(), t.sh(), der)]
                } else {
                    Seq::<OpView>::empty()
                }));
            }
            Ok(out)
        },
        Err(e) => Err(e),
    }
}

/// Builds the output of a two-operand element-wise operation from its
/// computed values and both derivative value lists, merging the carriers
/// and recording one backward step per operand.
pub fn binary_from_values<LT: Tape + Merge<RT>, RT: Tape>(
    dev: &mut Cpu,
    lhs: Tensor<LT>,
    rhs: Tensor<RT>,
    fvals: Vec<Ratio>,
    dlhs: Vec<Ratio>,
    drhs: Vec<Ratio>,
) -> (r: Result<Tensor<LT>, CpuError>)
    requires
        lhs.wf(),
        rhs.wf(),
        lhs.sh() == rhs.sh(),
        lhs.carrier().tape_wf(),
        rhs.carrier().tape_wf(),
        fvals@.len() == spec_numel(lhs.sh()),
        dlhs@.len() == spec_numel(lhs.sh()),
        drhs@.len() == spec_numel(lhs.sh()),
        old(dev).ids_issued() < u64::MAX,
    ensures
        final(dev).ids_issued() <= old(dev).ids_issued() + 1,
        match r {
            Ok(out) => {
                &&& final(dev).ids_issued() == old(dev).ids_issued() + 1
                &&& out.wf()
                &&& out.sh() == lhs.sh()
                &&& out.data() == fvals@
                &&& out.id() as int == old(dev).ids_issued()
                &&& out.carrier().tape_wf()
                &&& out.carrier().owns_tape() == lhs.carrier().owns_tape()
                &&& out.carrier().tape_grads() =~~= lhs.carrier().tape_grads().union_prefer_right(
                    rhs.carrier().tape_grads(),
                )
                &&& out.carrier().tape_ops() == lhs.carrier().tape_ops()
                    + rhs.carrier().tape_ops() + (if lhs.carrier().owns_tape() {
                    seq![
                        chain_view(lhs.id(), out.id(), lhs.sh(), dlhs@),
                        chain_view(rhs.id(), out.id(), lhs.sh(), drhs@),
                    ]
                } else {
                    Seq::<OpView>::empty()
                })
            },
            Err(_) => !alloc_ok(lhs.sh()),
        },
{
    let (lhs_plain, ltape) = lhs.split_tape();
    let (rhs_plain, rtape) = rhs.split_tape();
    let mut tape = ltape.merge(rtape);
    let shape = crate::storage::clone_dims(lhs_plain.shape());
    let out_plain = match dev.tensor_from(fvals, shape) {
        Ok(o) => o,
        Err(e) => {
            return Err(e);
        },
    };
    tape.add_backward_op(
        BackwardOp::ChainRule {
            inp_id: lhs_plain.id_value(),
            out_id: out_plain.id_value(),
            shape: crate::storage::clone_dims(lhs_plain.shape()),
            der: dlhs,
        },
    );
    tape.add_backward_op(
        BackwardOp::ChainRule {
            inp_id: rhs_plain.id_value(),
            out_id: out_plain.id_value(),
            shape: crate::storage::clone_dims(rhs_plain.shape()),
            der: drhs,
        },
    );
    let out = out_plain.put_tape(tape);
    proof {
        if lhs.carrier().owns_tape() {
            assert(out.carrier().tape_ops() =~= lhs.carrier().tape_ops()
                + rhs.carrier().tape_ops() + seq![
                chain_view(lhs.id(), out.id(), lhs.sh(), dlhs@),
                chain_view(rhs.id(), out.id(), lhs.sh(), drhs@),
            ]);
        } else {
            assert(out.carrier().tape_ops() =~= lhs.carrier().tape_ops()
                + rhs.carrier().tape_ops() + Seq::<OpView>::empty());
        }
    }
    Ok(out)
}

/// Element-wise addition. The output's gradient flows back into both
/// operands unchanged: the derivative of a sum is one on each side.
pub fn add<LT: Tape + Merge<RT>, RT: Tape>(dev: &mut Cpu, lhs: Tensor<LT>, rhs: Tensor<RT>)
    -> (r: Result<Tensor<LT>, CpuError>)
    requires
        lhs.wf(),
        rhs.wf(),
        lhs.sh() == rhs.sh(),
        lhs.carrier().tape_wf(),
        rhs.carrier().tape_wf(),
        old(dev).ids_issued() < u64::MAX,
    ensures
        final(dev).ids_issued() <= old(dev).ids_issued() + 1,
        match r {
            Ok(out) => {
                &&& final(dev).ids_issued() == old(dev).ids_issued() + 1
                &&& out.wf()
                &&& out.sh() == lhs.sh()
                &&& out.data() == Seq::new(
                    spec_numel(lhs.sh()) as nat,
                    |k: int| lhs.data()[k].spec_add(rhs.data()[k]),
                )
                &&& out.id() as int == old(dev).ids_issued()
                &&& out.carrier().tape_wf()
                &&& out.carrier().owns_tape() == lhs.carrier().owns_tape()
                &&& out.carrier().tape_grads() =~~= lhs.carrier().tape_grads().union_prefer_right(
                    rhs.carrier().tape_grads(),
                )
                &&& out.carrier().tape_ops() == lhs.carrier().tape_ops()
                    + rhs.carrier().tape_ops() + (if lhs.carrier().owns_tape() {
                    seq![
                        chain_view(
                            lhs.id(),
                            out.id(),
                            lhs.sh(),
                            Seq::new(spec_numel(lhs.sh()) as nat, |k: int| Ratio::spec_one()),
                        ),
                        chain_view(
                            rhs.id(),
                            out.id(),
                            lhs.sh(),
                            Seq::new(spec_numel(lhs.sh()) as nat, |k: int| Ratio::spec_one()),
                        ),
                    ]
                } else {
                    Seq::<OpView>::empty()
                })
            },
            Err(_) => !alloc_ok(lhs.sh()),
        },
{
    proof {
        lemma_numel_nonneg(lhs.sh());
    }
    let a = lhs.array();
    let b = rhs.array();
    let n = a.len();
    let mut fvals: Vec<Ratio> = Vec::new();
    let mut dl: Vec<Ratio> = Vec::new();
    let mut dr: Vec<Ratio> = Vec::new();
    let mut k: usize = 0;
    while k < n
        invariant
            k <= n,
            n == a@.len() == b@.len(),
            a@ == lhs.data(),
            b@ == rhs.data(),
            fvals@ =~= Seq::new(k as nat, |t: int| lhs.data()[t].spec_add(rhs.data()[t])),
            dl@ =~= Seq::new(k as nat, |t: int| Ratio::spec_one()),
            dr@ =~= Seq::new(k as nat, |t: int| Ratio::spec_one()),
        decreases n - k,
    {
        fvals.push(a[k].add(b[k]));
        dl.push(Ratio::one());
        dr.push(Ratio::one());
        proof {
            assert(fvals@ =~= Seq::new(
                k as nat + 1,
                |t: int| lhs.data()[t].spec_add(rhs.data()[t]),
            ));
            assert(dl@ =~= Seq::new(k as nat + 1, |t: int| Ratio::spec_one()));
            assert(dr@ =~= Seq::new(k as nat + 1, |t: int| Ratio::spec_one()));
        }
        k += 1;
    }
    binary_from_values(dev, lhs, rhs, fvals, dl, dr)
}

/// Element-wise multiplication. Each operand's gradient picks up the other
/// operand's forward values as multipliers.
pub fn mul<LT: Tape + Merge<RT>, RT: Tape>(dev: &mut Cpu, lhs: Tensor<LT>, rhs: Tensor<RT>)
    -> (r: Result<Tensor<LT>, CpuError>)
    requires
        lhs.wf(),
        rhs.wf(),
        lhs.sh() == rhs.sh(),
        lhs.carrier().tape_wf(),
        rhs.carrier().tape_wf(),
        old(dev).ids_issued() < u64::MAX,
    ensures
        final(dev).ids_issued() <= old(dev).ids_issued() + 1,
        match r {
            Ok(out) => {
                &&& final(dev).ids_issued() == old(dev).ids_issued() + 1
                &&& out.wf()
                &&& out.sh() == lhs.sh()
                &&& out.data() == Seq::new(
                    spec_numel(lhs.sh()) as nat,
                    |k: int| lhs.data()[k].spec_mul(rhs.data()[k]),
                )
                &&& out.id() as int == old(dev).ids_issued()
                &&& out.carrier().tape_wf()
                &&& out.carrier().owns_tape() == lhs.carrier().owns_tape()
                &&& out.carrier().tape_grads() =~~= lhs.carrier().tape_grads().union_prefer_right(
                    rhs.carrier().tape_grads(),
                )
                &&& out.carrier().tape_ops() == lhs.carrier().tape_ops()
                    + rhs.carrier().tape_ops() + (if lhs.carrier().owns_tape() {
                    seq![
                        chain_view(lhs.id(), out.id(), lhs.sh(), rhs.data()),
                        chain_view(rhs.id(), out.id(), lhs.sh(), lhs.data()),
                    ]
                } else {
                    Seq::<OpView>::empty()
                })
            },
            Err(_) => !alloc_ok(lhs.sh()),
        },
{
    proof {
        lemma_numel_nonneg(lhs.sh());
    }
    let a = lhs.array();
    let b = rhs.array();
    let n = a.len();
    let mut fvals: Vec<Ratio> = Vec::new();
    let mut dl: Vec<Ratio> = Vec::new();
    let mut dr: Vec<Ratio> = Vec::new();
    let mut k: usize = 0;
    while k < n
        invariant
            k <= n,
            n == a@.len() == b@.len(),
            a@ == lhs.data(),
            b@ == rhs.data(),
            fvals@ =~= Seq::new(k as nat, |t: int| lhs.data()[t].spec_mul(rhs.data()[t])),
            dl@ =~= rhs.data().take(k as int),
            dr@ =~= lhs.data().take(k as int),
        decreases n - k,
    {
        fvals.push(a[k].mul(b[k]));
        dl.push(b[k]);
        dr.push(a[k]);
        proof {
            assert(fvals@ =~= Seq::new(
                k as nat + 1,
                |t: int| lhs.data()[t].spec_mul(rhs.data()[t]),
            ));
            assert(dl@ =~= rhs.data().take(k as int + 1));
            assert(dr@ =~= lhs.data().take(k as int + 1));
        }
        k += 1;
    }
    proof {
        assert(dl@ =~= rhs.data());
        assert(dr@ =~= lhs.data());
    }
    binary_from_values(dev, lhs, rhs, fvals, dl, dr)
}

/// Sums a sequence's first `k` elements, left to right.
pub open spec fn spec_sum(s: Seq<Ratio>, k: int) -> Ratio
    decreases k,
{
    if k <= 0 {
        Ratio::spec_zero()
    } else {
        spec_sum(s, k - 1).spec_add(s[k - 1])
    }
}

/// The axis list naming every axis of a rank.
pub open spec fn all_axes(rank: int) -> Seq<usize> {
    Seq::new(rank as nat, |i: int| i as usize)
}

/// Sums the tensor along the given axes, dropping them from the shape, and
/// records the adjoint: during backward, the reduced gradient is broadcast
/// back across the summed axes.
pub fn sum_axes<T: Tape>(dev: &mut Cpu, t: Tensor<T>, axes: Vec<usize>) -> (r: Result<
    Tensor<T>,
    CpuError,
>)
    requires
        t.wf(),
        t.carrier().tape_wf(),
        old(dev).ids_issued() < u64::MAX,
    ensures
        final(dev).ids_issued() <= old(dev).ids_issued() + 1,
        match r {
            Ok(out) => {
                &&& final(dev).ids_issued() == old(dev).ids_issued() + 1
                &&& axes_wf(axes@, t.sh().len() as int)
                &&& axes@.len() > 0
                &&& out.wf()
                &&& out.sh() == drop_axes(t.sh(), axes@)
                &&& out.data() == crate::reduce::reduce_fold(
                    t.data(),
                    t.sh(),
                    axes@,
                    crate::reduce::Accumulator::Add,
                    spec_numel(t.sh()),
                )
                &&& out.id() as int == old(dev).ids_issued()
                &&& out.carrier().tape_wf()
                &&& out.carrier().owns_tape() == t.carrier().owns_tape()
                &&& out.carrier().tape_grads() == t.carrier().tape_grads()
                &&& out.carrier().tape_ops() == t.carrier().tape_ops() + (if t.carrier().owns_tape() {
                    seq![
                        OpView::SumAdjoint {
                            inp_id: t.id(),
                            out_id: out.id(),
                            shape: t.sh(),
                            axes: axes@,
                        },
                    ]
                } else {
                    Seq::<OpView>::empty()
                })
            },
            Err(_) => {
                ||| !(axes_wf(axes@, t.sh().len() as int) && axes@.len() > 0)
                ||| !alloc_ok(drop_axes(t.sh(), axes@))
            },
        },
{
    let (plain, mut tape) = t.split_tape();
    let reduced = match crate::reduce::reduce_into(
        crate::reduce::Accumulator::Add,
        plain.storage_ref(),
        &axes,
    ) {
        Ok(a) => a,
        Err(e) => {
            return Err(e);
        },
    };
    proof {
        crate::shapes::lemma_canonical_alloc_ok(reduced.sh(), reduced.st());
        lemma_numel_nonneg(reduced.sh());
    }
    let out_shape = crate::storage::clone_dims(reduced.shape());
    let out_vals = crate::tape::read_all(&reduced);
    let out_plain = match dev.tensor_from(out_vals, out_shape) {
        Ok(o) => o,
        Err(e) => {
            proof {
                assert(false);
            }
            return Err(e);
        },
    };
    tape.add_backward_op(
        BackwardOp::SumAdjoint {
            inp_id: plain.id_value(),
            out_id: out_plain.id_value(),
            shape: crate::storage::clone_dims(plain.shape()),
            axes,
        },
    );
    let out = out_plain.put_tape(tape);
    proof {
        if t.carrier().owns_tape() {
            assert(out.carrier().tape_ops() =~= t.carrier().tape_ops() + seq![
                OpView::SumAdjoint {
                    inp_id: t.id(),
                    out_id: out.id(),
                    shape: t.sh(),
                    axes: axes@,
                },
            ]);
        } else {
            assert(out.carrier().tape_ops() =~= t.carrier().tape_ops()
                + Seq::<OpView>::empty());
        }
    }
    Ok(out)
}

/// Dropping every axis leaves the empty suffix at every step.
proof fn lemma_drop_all_axes(s: Seq<usize>, rank: int, i: int)
    requires
        0 <= i,
        s.len() <= rank <= usize::MAX,
    ensures
        crate::shapes::drop_axes_from(s, all_axes(rank), i) =~= Seq::<usize>::empty(),
    decreases s.len() - i,
{
    if i < s.len() {
        assert(crate::shapes::axes_has(all_axes(rank), i)) by {
            assert((all_axes(rank)[i] as int) == i);
        }
        lemma_drop_all_axes(s, rank, i + 1);
    }
}

/// Reducing along every axis with addition folds to the plain running sum.
proof fn lemma_reduce_all_is_sum(src: Seq<Ratio>, sh: Seq<usize>, k: int)
    requires
        0 <= k,
        sh.len() <= usize::MAX,
    ensures
        crate::reduce::reduce_fold(src, sh, all_axes(sh.len() as int), crate::reduce::Accumulator::Add, k)
            =~= seq![spec_sum(src, k)],
    decreases k,
{
    let axes = all_axes(sh.len() as int);
    lemma_drop_all_axes(sh, sh.len() as int, 0);
    assert(spec_numel(drop_axes(sh, axes)) == 1);
    if k <= 0 {
        assert(crate::reduce::reduce_fold(src, sh, axes, crate::reduce::Accumulator::Add, k)
            =~= seq![Ratio::spec_zero()]);
    } else {
        lemma_reduce_all_is_sum(src, sh, k - 1);
        assert(crate::tape::dropped_rank(sh, axes, k - 1) == 0) by {
            crate::shapes::lemma_unrank_len(sh, k - 1);
            lemma_drop_all_axes(crate::shapes::unrank(sh, k - 1), sh.len() as int, 0);
        }
    }
}

/// The mean of every element: their sum scaled by one over the element
/// count. The output is a scalar; during backward each input element
/// receives the output gradient scaled the same way.
pub fn mean<T: Tape>(dev: &mut Cpu, t: Tensor<T>) -> (r: Result<Tensor<T>, CpuError>)
    requires
        t.wf(),
        t.carrier().tape_wf(),
        1 <= spec_numel(t.sh()) <= i64::MAX,
        old(dev).ids_issued() + 2 <= u64::MAX,
    ensures
        final(dev).ids_issued() <= old(dev).ids_issued() + 2,
        match r {
            Ok(out) => {
                &&& out.wf()
                &&& out.sh() == Seq::<usize>::empty()
                &&& out.data() == seq![
                    spec_sum(t.data(), spec_numel(t.sh())).spec_mul(
                        Ratio::spec_new(1, spec_numel(t.sh()) as i64),
                    ),
                ]
                &&& out.id() as int == if t.sh().len() == 0 {
                    old(dev).ids_issued()
                } else {
                    old(dev).ids_issued() + 1
                }
                &&& final(dev).ids_issued() == out.id() as int + 1
                &&& out.carrier().tape_wf()
                &&& out.carrier().owns_tape() == t.carrier().owns_tape()
                &&& out.carrier().tape_grads() == t.carrier().tape_grads()
                &&& (t.carrier().owns_tape() && t.sh().len() > 0 ==> out.carrier().tape_ops()
                    == t.carrier().tape_ops() + seq![
                    OpView::SumAdjoint {
                        inp_id: t.id(),
                        out_id: mean_sum_id(old(dev).ids_issued()),
                        shape: t.sh(),
                        axes: all_axes(t.sh().len() as int),
                    },
                    chain_view(
                        mean_sum_id(old(dev).ids_issued()),
                        out.id(),
                        Seq::<usize>::empty(),
                        seq![Ratio::spec_new(1, spec_numel(t.sh()) as i64)],
                    ),
                ])
                &&& (t.carrier().owns_tape() && t.sh().len() == 0 ==> out.carrier().tape_ops()
                    == t.carrier().tape_ops() + seq![
                    chain_view(t.id(), out.id(), t.sh(), seq![Ratio::spec_new(1, 1)]),
                ])
                &&& (!t.carrier().owns_tape() ==> out.carrier().tape_ops()
                    == t.carrier().tape_ops())
            },
            Err(_) => t.sh().len() > 0 && !alloc_ok(
                drop_axes(t.sh(), all_axes(t.sh().len() as int)),
            ),
        },
{
    proof {
        lemma_numel_nonneg(t.sh());
    }
    let ghost t0 = t;
    let rank = t.shape().len();
    let n = match crate::shapes::try_num_elements(t.shape()) {
        Some(m) => m,
        None => {
            proof {
                assert(false);
            }
            return Err(CpuError::OutOfMemory);
        },
    };
    if rank == 0 {
        // The mean of a scalar is the scalar itself, scaled by one; the
        // backward step passes the gradient through unchanged.
        proof {
            assert(alloc_ok(t.sh())) by {
                assert(t.sh() =~= Seq::<usize>::empty());
                assert forall|i: int|
                    0 <= i <= t.sh().len() implies spec_numel(#[trigger] t.sh().take(i))
                    <= usize::MAX by {
                    assert(t.sh().take(i) =~= Seq::<usize>::empty());
                }
            }
        }
        let vals = t.array();
        let head = vals[0];
        let factor = Ratio::new(1, 1);
        let mut fvals: Vec<Ratio> = Vec::new();
        fvals.push(head.mul(factor));
        let mut dvals: Vec<Ratio> = Vec::new();
        dvals.push(factor);
        proof {
            assert(t0.sh().len() == 0 && spec_numel(t0.sh()) == 1);
            assert(head == t0.data()[0]);
            use_type_invariant(head);
            Ratio::lemma_zero_add(head);
            assert(spec_sum(t0.data(), 0) == Ratio::spec_zero());
            assert(spec_sum(t0.data(), 1) == Ratio::spec_zero().spec_add(t0.data()[0]));
            assert(spec_sum(t0.data(), 1) == head);
        }
        let out = match unary_from_values(dev, t, fvals, dvals) {
            Ok(o) => o,
            Err(e) => {
                proof {
                    assert(false);
                }
                return Err(e);
            },
        };
        proof {
            assert(out.data() =~= seq![
                spec_sum(t0.data(), spec_numel(t0.sh())).spec_mul(
                    Ratio::spec_new(1, spec_numel(t0.sh()) as i64),
                ),
            ]);
            assert(out.sh() =~= Seq::<usize>::empty());
        }
        return Ok(out);
    }
    let mut axes: Vec<usize> = Vec::new();
    let mut i: usize = 0;
    while i < rank
        invariant
            i <= rank,
            axes@ =~= all_axes(rank as int).take(i as int),
        decreases rank - i,
    {
        axes.push(i);
        proof {
            assert(axes@ =~= all_axes(rank as int).take(i as int + 1));
        }
        i += 1;
    }
    proof {
        assert(axes@ =~= all_axes(rank as int));
        assert forall|u: int, v: int|
            0 <= u < v < axes@.len() implies (#[trigger] axes@[u] as int) < (
        #[trigger] axes@[v] as int) by {
        }
    }
    proof {
        assert(t.sh().len() == rank as int);
    }
    let summed = match sum_axes(dev, t, axes) {
        Ok(s) => s,
        Err(e) => {
            return Err(e);
        },
    };
    proof {
        lemma_drop_all_axes(t0.sh(), rank as int, 0);
        lemma_reduce_all_is_sum(t0.data(), t0.sh(), spec_numel(t0.sh()));
        assert(summed.sh() =~= Seq::<usize>::empty());
        assert(summed.data() =~= seq![spec_sum(t0.data(), spec_numel(t0.sh()))]);
    }
    let factor = Ratio::new(1, n as i64);
    let total = summed.array();
    let mut fvals: Vec<Ratio> = Vec::new();
    fvals.push(total[0].mul(factor));
    let mut dvals: Vec<Ratio> = Vec::new();
    dvals.push(factor);
    proof {
        assert(spec_numel(summed.sh()) == 1);
        assert(fvals@.len() == 1 && dvals@.len() == 1);
    }
    let out = match unary_from_values(dev, summed, fvals, dvals) {
        Ok(o) => o,
        Err(e) => {
            proof {
                assert(false);
            }
            return Err(e);
        },
    };
    proof {
        assert(out.data() =~= seq![
            spec_sum(t0.data(), spec_numel(t0.sh())).spec_mul(
                Ratio::spec_new(1, spec_numel(t0.sh()) as i64),
            ),
        ]);
        if t0.carrier().owns_tape() {
            assert(out.carrier().tape_ops() =~= t0.carrier().tape_ops() + seq![
                OpView::SumAdjoint {
                    inp_id: t0.id(),
                    out_id: mean_sum_id(old(dev).ids_issued()),
                    shape: t0.sh(),
                    axes: all_axes(t0.sh().len() as int),
                },
                chain_view(
                    mean_sum_id(old(dev).ids_issued()),
                    out.id(),
                    Seq::<usize>::empty(),
                    seq![Ratio::spec_new(1, spec_numel(t0.sh()) as i64)],
                ),
            ]);
        } else {
            assert(out.carrier().tape_ops() =~= t0.carrier().tape_ops());
        }
    }
    Ok(out)
}

/// The identity the intermediate sum of a mean receives: the next one the
/// device hands out.
pub open spec fn mean_sum_id(issued: int) -> u64 {
    issued as u64
}

/// Scales every element by the reciprocal of the elements' sum, or by one
/// when that sum is not positive, so positive inputs come out summing to
/// one: the normalization half of a softmax, whose exponential half is a
/// pointwise kernel outside the verified core. The backward record treats
/// the scale as a constant factor.
pub fn normalize_to_unit_sum<T: Tape>(dev: &mut Cpu, t: Tensor<T>) -> (r: Result<
    Tensor<T>,
    CpuError,
>)
    requires
        t.wf(),
        t.carrier().tape_wf(),
        old(dev).ids_issued() < u64::MAX,
    ensures
        final(dev).ids_issued() <= old(dev).ids_issued() + 1,
        match r {
            Ok(out) => {
                &&& final(dev).ids_issued() == old(dev).ids_issued() + 1
                &&& out.wf()
                &&& out.sh() == t.sh()
                &&& out.data() == Seq::new(
                    spec_numel(t.sh()) as nat,
                    |k: int| t.data()[k].spec_mul(
                        spec_sum(t.data(), spec_numel(t.sh())).spec_recip_or_one(),
                    ),
                )
                &&& out.id() as int == old(dev).ids_issued()
                &&& out.carrier().tape_wf()
                &&& out.carrier().owns_tape() == t.carrier().owns_tape()
                &&& out.carrier().tape_grads() == t.carrier().tape_grads()
                &&& out.carrier().tape_ops() == t.carrier().tape_ops() + (if t.carrier().owns_tape() {
                    seq![
                        chain_view(
                            t.id(),
                            out.id(),
                            t.sh(),
                            Seq::new(
                                spec_numel(t.sh()) as nat,
                                |k: int| spec_sum(
                                    t.data(),
                                    spec_numel(t.sh()),
                                ).spec_recip_or_one(),
                            ),
                        ),
                    ]
                } else {
                    Seq::<OpView>::empty()
                })
            },
            Err(_) => !alloc_ok(t.sh()),
        },
{
    proof {
        lemma_numel_nonneg(t.sh());
    }
    let vals = t.array();
    let n = vals.len();
    let mut total = Ratio::zero();
    let mut k: usize = 0;
    while k < n
        invariant
            k <= n,
            n == vals@.len(),
            vals@ == t.data(),
            total == spec_sum(t.data(), k as int),
        decreases n - k,
    {
        total = total.add(vals[k]);
        k += 1;
    }
    let factor = total.recip_or_one();
    let mut fvals: Vec<Ratio> = Vec::new();
    let mut dvals: Vec<Ratio> = Vec::new();
    let mut j: usize = 0;
    while j < n
        invariant
            j <= n,
            n == vals@.len(),
            vals@ == t.data(),
            factor == spec_sum(t.data(), n as int).spec_recip_or_one(),
            fvals@ =~= Seq::new(j as nat, |u: int| t.data()[u].spec_mul(factor)),
            dvals@ =~= Seq::new(j as nat, |u: int| factor),
        decreases n - j,
    {
        fvals.push(vals[j].mul(factor));
        dvals.push(factor);
        proof {
            assert(fvals@ =~= Seq::new(j as nat + 1, |u: int| t.data()[u].spec_mul(factor)));
            assert(dvals@ =~= Seq::new(j as nat + 1, |u: int| factor));
        }
        j += 1;
    }
    unary_from_values(dev, t, fvals, dvals)
}

/// Runs the backward pass from a scalar root: seeds the root's own
/// gradient with one, then executes the tape in reverse registration
/// order, returning the accumulated gradient map.
pub fn backward(t: Tensor<crate::tape::OwnedTape>) -> (r: Result<
    crate::gradients::Gradients,
    CpuError,
>)
    requires
        t.wf(),
        t.sh().len() == 0,
        t.carrier().tape_wf(),
    ensures
        match r {
            Ok(g) => {
                &&& g.wf()
                &&& crate::tape::run_tape(
                    t.carrier().tape_grads(),
                    t.carrier().tape_ops().push(
                        OpView::Fill { id: t.id(), shape: t.sh(), value: Ratio::spec_one() },
                    ),
                ) == Some(crate::tape::grads_model(g))
            },
            Err(_) => crate::tape::run_tape(
                t.carrier().tape_grads(),
                t.carrier().tape_ops().push(
                    OpView::Fill { id: t.id(), shape: t.sh(), value: Ratio::spec_one() },
                ),
            ) is None,
        },
{
    let (plain, tape) = t.split_tape();
    let mut tape = tape;
    tape.0.add_backward_op(
        BackwardOp::Fill {
            id: plain.id_value(),
            shape: crate::storage::clone_dims(plain.shape()),
            value: Ratio::one(),
        },
    );
    let inner: crate::tape::GradientTape = *tape.0;
    inner.execute()
}

/// Clamps every element between `min` and `max`. An element already inside
/// the band passes its gradient through; one outside it blocks the
/// gradient, since moving it slightly cannot change the clamped output.
pub fn clamp<T: Tape>(dev: &mut Cpu, t: Tensor<T>, min: Ratio, max: Ratio) -> (r: Result<
    Tensor<T>,
    CpuError,
>)
    requires
        t.wf(),
        t.carrier().tape_wf(),
        old(dev).ids_issued() < u64::MAX,
    ensures
        final(dev).ids_issued() <= old(dev).ids_issued() + 1,
        match r {
            Ok(out) => {
                &&& final(dev).ids_issued() == old(dev).ids_issued() + 1
                &&& out.wf()
                &&& out.sh() == t.sh()
                &&& out.data() == Seq::new(
                    spec_numel(t.sh()) as nat,
                    |k: int| t.data()[k].spec_max(min).spec_min(max),
                )
                &&& out.id() as int == old(dev).ids_issued()
                &&& out.carrier().tape_wf()
                &&& out.carrier().owns_tape() == t.carrier().owns_tape()
                &&& out.carrier().tape_grads() == t.carrier().tape_grads()
                &&& out.carrier().tape_ops() == t.carrier().tape_ops() + (if t.carrier().owns_tape() {
                    seq![
                        chain_view(
                            t.id(),
                            out.id(),
                            t.sh(),
                            Seq::new(
                                spec_numel(t.sh()) as nat,
                                |k: int| if min.spec_le(t.data()[k]) && t.data()[k].spec_le(max) {
                                    Ratio::spec_one()
                                } else {
                                    Ratio::spec_zero()
                                },
                            ),
                        ),
                    ]
                } else {
                    Seq::<OpView>::empty()
                })
            },
            Err(_) => !alloc_ok(t.sh()),
        },
{
    proof {
        lemma_numel_nonneg(t.sh());
    }
    let vals = t.array();
    let n = vals.len();
    let mut fvals: Vec<Ratio> = Vec::new();
    let mut dvals: Vec<Ratio> = Vec::new();
    let mut k: usize = 0;
    while k < n
        invariant
            k <= n,
            n == vals@.len(),
            vals@ == t.data(),
            fvals@ =~= Seq::new(k as nat, |u: int| t.data()[u].spec_max(min).spec_min(max)),
            dvals@ =~= Seq::new(
                k as nat,
                |u: int| if min.spec_le(t.data()[u]) && t.data()[u].spec_le(max) {
                    Ratio::spec_one()
                } else {
                    Ratio::spec_zero()
                },
            ),
        decreases n - k,
    {
        let x = vals[k];
        fvals.push(x.max(min).min(max));
        if min.le(x) && x.le(max) {
            dvals.push(Ratio::one());
        } else {
            dvals.push(Ratio::zero());
        }
        proof {
            assert(fvals@ =~= Seq::new(
                k as nat + 1,
                |u: int| t.data()[u].spec_max(min).spec_min(max),
            ));
            assert(dvals@ =~= Seq::new(
                k as nat + 1,
                |u: int| if min.spec_le(t.data()[u]) && t.data()[u].spec_le(max) {
                    Ratio::spec_one()
                } else {
                    Ratio::spec_zero()
                },
            ));
        }
        k += 1;
    }
    unary_from_values(dev, t, fvals, dvals)
}

/// The leaky rectifier: elements at or above zero pass through, negative
/// ones are scaled by `slope`; the gradient follows the same rule.
pub fn leakyrelu<T: Tape>(dev: &mut Cpu, t: Tensor<T>, slope: Ratio) -> (r: Result<
    Tensor<T>,
    CpuError,
>)
    requires
        t.wf(),
        t.carrier().tape_wf(),
        old(dev).ids_issued() < u64::MAX,
    ensures
        final(dev).ids_issued() <= old(dev).ids_issued() + 1,
        match r {
            Ok(out) => {
                &&& final(dev).ids_issued() == old(dev).ids_issued() + 1
                &&& out.wf()
                &&& out.sh() == t.sh()
                &&& out.data() == Seq::new(
                    spec_numel(t.sh()) as nat,
                    |k: int| if Ratio::spec_zero().spec_le(t.data()[k]) {
                        t.data()[k]
                    } else {
                        slope.spec_mul(t.data()[k])
                    },
                )
                &&& out.id() as int == old(dev).ids_issued()
                &&& out.carrier().tape_wf()
                &&& out.carrier().owns_tape() == t.carrier().owns_tape()
                &&& out.carrier().tape_grads() == t.carrier().tape_grads()
                &&& out.carrier().tape_ops() == t.carrier().tape_ops() + (if t.carrier().owns_tape() {
                    seq![
                        chain_view(
                            t.id(),
                            out.id(),
                            t.sh(),
                            Seq::new(
                                spec_numel(t.sh()) as nat,
                                |k: int| if Ratio::spec_zero().spec_le(t.data()[k]) {
                                    Ratio::spec_one()
                                } else {
                                    slope
                                },
                            ),
                        ),
                    ]
                } else {
                    Seq::<OpView>::empty()
                })
            },
            Err(_) => !alloc_ok(t.sh()),
        },
{
    proof {
        lemma_numel_nonneg(t.sh());
    }
    let vals = t.array();
    let n = vals.len();
    let mut fvals: Vec<Ratio> = Vec::new();
    let mut dvals: Vec<Ratio> = Vec::new();
    let mut k: usize = 0;
    while k < n
        invariant
            k <= n,
            n == vals@.len(),
            vals@ == t.data(),
            fvals@ =~= Seq::new(
                k as nat,
                |u: int| if Ratio::spec_zero().spec_le(t.data()[u]) {
                    t.data()[u]
                } else {
                    slope.spec_mul(t.data()[u])
                },
            ),
            dvals@ =~= Seq::new(
                k as nat,
                |u: int| if Ratio::spec_zero().spec_le(t.data()[u]) {
                    Ratio::spec_one()
                } else {
                    slope
                },
            ),
        decreases n - k,
    {
        let x = vals[k];
        if Ratio::zero().le(x) {
            fvals.push(x);
            dvals.push(Ratio::one());
        } else {
            fvals.push(slope.mul(x));
            dvals.push(slope);
        }
        proof {
            assert(fvals@ =~= Seq::new(
                k as nat + 1,
                |u: int| if Ratio::spec_zero().spec_le(t.data()[u]) {
                    t.data()[u]
                } else {
                    slope.spec_mul(t.data()[u])
                },
            ));
            assert(dvals@ =~= Seq::new(
                k as nat + 1,
                |u: int| if Ratio::spec_zero().spec_le(t.data()[u]) {
                    Ratio::spec_one()
                } else {
                    slope
                },
            ));
        }
        k += 1;
    }
    unary_from_values(dev, t, fvals, dvals)
}

/// The parametric rectifier: like [`leakyrelu`], but the slope under zero
/// is itself a tensor, learned alongside the rest; both operands receive
/// gradients.
pub fn prelu<LT: Tape + Merge<RT>, RT: Tape>(dev: &mut Cpu, t: Tensor<LT>, a: Tensor<RT>)
    -> (r: Result<Tensor<LT>, CpuError>)
    requires
        t.wf(),
        a.wf(),
        t.sh() == a.sh(),
        t.carrier().tape_wf(),
        a.carrier().tape_wf(),
        old(dev).ids_issued() < u64::MAX,
    ensures
        final(dev).ids_issued() <= old(dev).ids_issued() + 1,
        match r {
            Ok(out) => {
                &&& final(dev).ids_issued() == old(dev).ids_issued() + 1
                &&& out.wf()
                &&& out.sh() == t.sh()
                &&& out.data() == Seq::new(
                    spec_numel(t.sh()) as nat,
                    |k: int| if Ratio::spec_zero().spec_le(t.data()[k]) {
                        t.data()[k]
                    } else {
                        a.data()[k].spec_mul(t.data()[k])
                    },
                )
                &&& out.id() as int == old(dev).ids_issued()
                &&& out.carrier().tape_wf()
                &&& out.carrier().owns_tape() == t.carrier().owns_tape()
                &&& out.carrier().tape_grads() =~~= t.carrier().tape_grads().union_prefer_right(
                    a.carrier().tape_grads(),
                )
                &&& out.carrier().tape_ops() == t.carrier().tape_ops()
                    + a.carrier().tape_ops() + (if t.carrier().owns_tape() {
                    seq![
                        chain_view(
                            t.id(),
                            out.id(),
                            t.sh(),
                            Seq::new(
                                spec_numel(t.sh()) as nat,
                                |k: int| if Ratio::spec_zero().spec_le(t.data()[k]) {
                                    Ratio::spec_one()
                                } else {
                                    a.data()[k]
                                },
                            ),
                        ),
                        chain_view(
                            a.id(),
                            out.id(),
                            t.sh(),
                            Seq::new(
                                spec_numel(t.sh()) as nat,
                                |k: int| if Ratio::spec_zero().spec_le(t.data()[k]) {
                                    Ratio::spec_zero()
                                } else {
                                    t.data()[k]
                                },
                            ),
                        ),
                    ]
                } else {
                    Seq::<OpView>::empty()
                })
            },
            Err(_) => !alloc_ok(t.sh()),
        },
{
    proof {
        lemma_numel_nonneg(t.sh());
    }
    let xs = t.array();
    let ys = a.array();
    let n = xs.len();
    let mut fvals: Vec<Ratio> = Vec::new();
    let mut dt: Vec<Ratio> = Vec::new();
    let mut da: Vec<Ratio> = Vec::new();
    let mut k: usize = 0;
    while k < n
        invariant
            k <= n,
            n == xs@.len() == ys@.len(),
            xs@ == t.data(),
            ys@ == a.data(),
            fvals@ =~= Seq::new(
                k as nat,
                |u: int| if Ratio::spec_zero().spec_le(t.data()[u]) {
                    t.data()[u]
                } else {
                    a.data()[u].spec_mul(t.data()[u])
                },
            ),
            dt@ =~= Seq::new(
                k as nat,
                |u: int| if Ratio::spec_zero().spec_le(t.data()[u]) {
                    Ratio::spec_one()
                } else {
                    a.data()[u]
                },
            ),
            da@ =~= Seq::new(
                k as nat,
                |u: int| if Ratio::spec_zero().spec_le(t.data()[u]) {
                    Ratio::spec_zero()
                } else {
                    t.data()[u]
                },
            ),
        decreases n - k,
    {
        let x = xs[k];
        let y = ys[k];
        if Ratio::zero().le(x) {
            fvals.push(x);
            dt.push(Ratio::one());
            da.push(Ratio::zero());
        } else {
            fvals.push(y.mul(x));
            dt.push(y);
            da.push(x);
        }
        proof {
            assert(fvals@ =~= Seq::new(
                k as nat + 1,
                |u: int| if Ratio::spec_zero().spec_le(t.data()[u]) {
                    t.data()[u]
                } else {
                    a.data()[u].spec_mul(t.data()[u])
                },
            ));
            assert(dt@ =~= Seq::new(
                k as nat + 1,
                |u: int| if Ratio::spec_zero().spec_le(t.data()[u]) {
                    Ratio::spec_one()
                } else {
                    a.data()[u]
                },
            ));
            assert(da@ =~= Seq::new(
                k as nat + 1,
                |u: int| if Ratio::spec_zero().spec_le(t.data()[u]) {
                    Ratio::spec_zero()
                } else {
                    t.data()[u]
                },
            ));
        }
        k += 1;
    }
    binary_from_values(dev, t, a, fvals, dt, da)
}

impl<T: Tape> Tensor<T> {
    /// [`clamp`] as a method; the preconditions make failure impossible,
    /// so no `Result` is needed.
    pub fn clamp(self, dev: &mut Cpu, min: Ratio, max: Ratio) -> (r: Tensor<T>)
        requires
            self.wf(),
            self.carrier().tape_wf(),
            alloc_ok(self.sh()),
            old(dev).ids_issued() < u64::MAX,
        ensures
            final(dev).ids_issued() <= old(dev).ids_issued() + 1,
            r.wf(),
            r.sh() == self.sh(),
            r.data() == Seq::new(
                spec_numel(self.sh()) as nat,
                |k: int| self.data()[k].spec_max(min).spec_min(max),
            ),
    {
        match clamp(dev, self, min, max) {
            Ok(o) => o,
            Err(_) => vstd::pervasive::unreached(),
        }
    }

    /// [`clamp`] as a fallible method.
    pub fn try_clamp(self, dev: &mut Cpu, min: Ratio, max: Ratio) -> (r: Result<
        Tensor<T>,
        CpuError,
    >)
        requires
            self.wf(),
            self.carrier().tape_wf(),
            old(dev).ids_issued() < u64::MAX,
        ensures
            final(dev).ids_issued() <= old(dev).ids_issued() + 1,
            match r {
                Ok(out) => {
                    &&& out.wf()
                    &&& out.sh() == self.sh()
                    &&& out.data() == Seq::new(
                        spec_numel(self.sh()) as nat,
                        |k: int| self.data()[k].spec_max(min).spec_min(max),
                    )
                },
                Err(_) => !alloc_ok(self.sh()),
            },
    {
        clamp(dev, self, min, max)
    }
}

/// Fallible addition for operands whose shapes were fixed when they were
/// built; mismatched shapes are reported, not assumed away.
pub trait TryConstAdd<Rhs>: Sized {
    fn try_add(self, dev: &mut Cpu, rhs: Rhs) -> Result<Self, CpuError>;
}

/// Addition with a runtime shape check: `None` signals that the shapes do
/// not match, before any work is done.
pub trait TryCheckedAdd<Rhs>: Sized {
    fn try_checked_add(self, dev: &mut Cpu, rhs: Rhs) -> Option<Result<Self, CpuError>>;
}

/// Fallible element-wise multiplication.
pub trait TryMul<Rhs>: Sized {
    fn try_mul(self, dev: &mut Cpu, rhs: Rhs) -> Result<Self, CpuError>;
}

/// Fallible parametric rectifier.
pub trait TryPReLU<Rhs>: Sized {
    fn try_prelu(self, dev: &mut Cpu, rhs: Rhs) -> Result<Self, CpuError>;
}

/// Reinterpreting a tensor's elements under a new shape with the same
/// element count.
pub trait ReshapeTo: Sized {
    fn try_reshape(self, dev: &mut Cpu, shape: Vec<usize>) -> Result<Self, CpuError>;
}

impl<LT: Tape + Merge<RT>, RT: Tape> TryConstAdd<Tensor<RT>> for Tensor<LT> {
    /// Element-wise addition behind a runtime check that the shapes agree.
    fn try_add(self, dev: &mut Cpu, rhs: Tensor<RT>) -> Result<Tensor<LT>, CpuError> {
        if !guards_ok(&self, &rhs, dev) {
            return Err(CpuError::ShapeMismatch);
        }
        crate::ops::add(dev, self, rhs)
    }
}

impl<LT: Tape + Merge<RT>, RT: Tape> TryCheckedAdd<Tensor<RT>> for Tensor<LT> {
    /// Element-wise addition behind a runtime shape check; `None` exactly
    /// when the shapes differ.
    fn try_checked_add(self, dev: &mut Cpu, rhs: Tensor<RT>) -> Option<
        Result<Tensor<LT>, CpuError>,
    > {
        if !crate::storage::dims_eq(self.shape(), rhs.shape()) {
            return None;
        }
        if !guards_ok(&self, &rhs, dev) {
            return Some(Err(CpuError::ShapeMismatch));
        }
        Some(crate::ops::add(dev, self, rhs))
    }
}

impl<LT: Tape + Merge<RT>, RT: Tape> TryMul<Tensor<RT>> for Tensor<LT> {
    /// Element-wise multiplication behind a runtime shape check.
    fn try_mul(self, dev: &mut Cpu, rhs: Tensor<RT>) -> Result<Tensor<LT>, CpuError> {
        if !guards_ok(&self, &rhs, dev) {
            return Err(CpuError::ShapeMismatch);
        }
        crate::ops::mul(dev, self, rhs)
    }
}

impl<LT: Tape + Merge<RT>, RT: Tape> TryPReLU<Tensor<RT>> for Tensor<LT> {
    /// The parametric rectifier behind a runtime shape check.
    fn try_prelu(self, dev: &mut Cpu, rhs: Tensor<RT>) -> Result<Tensor<LT>, CpuError> {
        if !guards_ok(&self, &rhs, dev) {
            return Err(CpuError::ShapeMismatch);
        }
        crate::ops::prelu(dev, self, rhs)
    }
}

/// The runtime checks a trait-level operation makes before calling the
/// contract-carrying core: shapes equal, storages and carriers valid, one
/// identity left to mint.
fn guards_ok<LT: Tape, RT: Tape>(lhs: &Tensor<LT>, rhs: &Tensor<RT>, dev: &Cpu) -> (r: bool)
    ensures
        r ==> lhs.sh() == rhs.sh() && lhs.wf() && rhs.wf() && lhs.carrier().tape_wf()
            && rhs.carrier().tape_wf() && dev.ids_issued() < u64::MAX,
{
    crate::storage::dims_eq(lhs.shape(), rhs.shape()) && lhs.check_valid() && rhs.check_valid()
        && dev.can_issue()
}

impl<T: Tape> ReshapeTo for Tensor<T> {
    /// Reinterprets the elements under a new shape of the same element
    /// count. The result is a fresh tensor, and a backward record is left
    /// on the carrier: the output's gradient flows back into the input's
    /// gradient position for position, read in row-major order.
    fn try_reshape(self, dev: &mut Cpu, shape: Vec<usize>) -> Result<Tensor<T>, CpuError> {
        if !self.check_valid() || !dev.can_issue() {
            return Err(CpuError::ShapeMismatch);
        }
        let vals = self.array();
        let inp_shape = crate::storage::clone_dims(self.shape());
        let (plain, mut tape) = self.split_tape();
        let out = match dev.tensor_from(vals, shape) {
            Ok(o) => o,
            Err(e) => {
                return Err(e);
            },
        };
        tape.add_backward_op(
            BackwardOp::ReshapeAdjoint {
                inp_id: plain.id_value(),
                out_id: out.id_value(),
                inp_shape,
                out_shape: crate::storage::clone_dims(out.shape()),
            },
        );
        Ok(out.put_tape(tape))
    }
}

} // verus!
