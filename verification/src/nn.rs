//! Building blocks around the autodiff core: configuration records for
//! common layer stacks, combinators that group modules, the options a
//! parameter tensor carries through a module walk, and the visitor traits
//! a module system implements to reach every parameter.
//!
//! The layers' numerical kernels are outside the verified core; what lives
//! here is the bookkeeping those layers are built from.

use vstd::prelude::*;

use crate::storage::CpuError;
use crate::tape::NoneTape;
use crate::tensor::{CanUpdateWithGradients, GradientProvider, Tensor, UnusedTensors};

verus! {

/// Carries a compile-time boolean for static assertions about const
/// generic parameters.
pub struct Assert<const C: bool>;

/// Implemented only by [`Assert`] over `true`; a bound on it is a
/// compile-time check.
pub trait ConstTrue {

}

impl ConstTrue for Assert<true> {

}

/// A fully-connected layer's dimensions.
#[derive(Debug, Clone, Copy, PartialEq, Eq, Structural)]
pub struct LinearConfig {
    pub inp: usize,
    pub out: usize,
}

impl LinearConfig {
    pub fn new(inp: usize, out: usize) -> (r: LinearConfig)
        ensures
            r == (LinearConfig { inp, out }),
    {
        LinearConfig { inp, out }
    }
}

/// The plain rectifier activation; it has no parameters.
#[derive(Debug, Clone, Copy, PartialEq, Eq, Structural)]
pub struct ReLU;

/// Softmax as a module marker. Its pointwise kernel is exponential, so it
/// lives outside the verified core.
#[derive(Debug, Clone, Copy, PartialEq, Eq, Structural)]
pub struct Softmax;

/// Wraps a module whose output is added back onto its input.
#[derive(Debug, Clone, Copy, PartialEq, Eq, Structural)]
pub struct ResidualAdd<T>(pub T);

/// Multi-head attention dimensions.
#[derive(Debug, Clone, Copy, PartialEq, Eq, Structural)]
pub struct MultiHeadAttentionConfig {
    pub embed_dim: usize,
    pub num_heads: usize,
    pub k_dim: usize,
    pub v_dim: usize,
}

impl MultiHeadAttentionConfig {
    pub fn new(embed_dim: usize, num_heads: usize, k_dim: usize, v_dim: usize) -> (r:
        MultiHeadAttentionConfig)
        ensures
            r == (MultiHeadAttentionConfig { embed_dim, num_heads, k_dim, v_dim }),
    {
        MultiHeadAttentionConfig { embed_dim, num_heads, k_dim, v_dim }
    }
}

/// Layer normalization over the last axis of the given width.
#[derive(Debug, Clone, Copy, PartialEq, Eq, Structural)]
pub struct LayerNorm1DConfig(pub usize);

/// Root-mean-square layer normalization over the last axis of the given
/// width.
#[derive(Debug, Clone, Copy, PartialEq, Eq, Structural)]
pub struct LayerRMSNorm1DConfig(pub usize);

/// The two-layer feed-forward block of a transformer.
#[derive(Debug, Clone, Copy, PartialEq, Eq, Structural)]
pub struct FeedForwardConfig {
    pub l1: LinearConfig,
    pub act1: ReLU,
    pub l2: LinearConfig,
}

/// One transformer encoder block: self-attention and feed-forward, each
/// behind a residual connection and a normalization.
#[derive(Debug, Clone, Copy, PartialEq, Eq, Structural)]
pub struct EncoderBlockConfig {
    pub self_attn: ResidualAdd<MultiHeadAttentionConfig>,
    pub norm1: LayerNorm1DConfig,
    pub ff: ResidualAdd<FeedForwardConfig>,
    pub norm2: LayerNorm1DConfig,
}

impl EncoderBlockConfig {
    /// The block built for a model width, head count and feed-forward
    /// width.
    pub open spec fn spec_of(model: usize, num_heads: usize, f: usize) -> EncoderBlockConfig {
        EncoderBlockConfig {
            self_attn: ResidualAdd(
                MultiHeadAttentionConfig { embed_dim: model, num_heads, k_dim: model, v_dim: model },
            ),
            norm1: LayerNorm1DConfig(model),
            ff: ResidualAdd(
                FeedForwardConfig {
                    l1: LinearConfig { inp: model, out: f },
                    act1: ReLU,
                    l2: LinearConfig { inp: f, out: model },
                },
            ),
            norm2: LayerNorm1DConfig(model),
        }
    }

    /// The block for a model width, head count and feed-forward width.
    pub fn new(model: usize, num_heads: usize, f: usize) -> (r: EncoderBlockConfig)
        ensures
            r == (EncoderBlockConfig {
                self_attn: ResidualAdd(
                    MultiHeadAttentionConfig {
                        embed_dim: model,
                        num_heads,
                        k_dim: model,
                        v_dim: model,
                    },
                ),
                norm1: LayerNorm1DConfig(model),
                ff: ResidualAdd(
                    FeedForwardConfig {
                        l1: LinearConfig { inp: model, out: f },
                        act1: ReLU,
                        l2: LinearConfig { inp: f, out: model },
                    },
                ),
                norm2: LayerNorm1DConfig(model),
            }),
    {
        EncoderBlockConfig {
            self_attn: ResidualAdd(MultiHeadAttentionConfig::new(model, num_heads, model, model)),
            norm1: LayerNorm1DConfig(model),
            ff: ResidualAdd(
                FeedForwardConfig {
                    l1: LinearConfig::new(model, f),
                    act1: ReLU,
                    l2: LinearConfig::new(f, model),
                },
            ),
            norm2: LayerNorm1DConfig(model),
        }
    }
}

/// One transformer decoder block: self-attention, cross-attention against
/// the encoder's output, and feed-forward, each normalized.
#[derive(Debug, Clone, Copy, PartialEq, Eq, Structural)]
pub struct DecoderBlockConfig {
    pub self_attn: ResidualAdd<MultiHeadAttentionConfig>,
    pub norm1: LayerNorm1DConfig,
    pub mh_attn: MultiHeadAttentionConfig,
    pub norm2: LayerNorm1DConfig,
    pub ff: ResidualAdd<FeedForwardConfig>,
    pub norm3: LayerNorm1DConfig,
}

impl DecoderBlockConfig {
    /// The block built for a model width, head count and feed-forward
    /// width.
    pub open spec fn spec_of(model: usize, num_heads: usize, f: usize) -> DecoderBlockConfig {
        DecoderBlockConfig {
            self_attn: ResidualAdd(
                MultiHeadAttentionConfig { embed_dim: model, num_heads, k_dim: model, v_dim: model },
            ),
            norm1: LayerNorm1DConfig(model),
            mh_attn: MultiHeadAttentionConfig {
                embed_dim: model,
                num_heads,
                k_dim: model,
                v_dim: model,
            },
            norm2: LayerNorm1DConfig(model),
            ff: ResidualAdd(
                FeedForwardConfig {
                    l1: LinearConfig { inp: model, out: f },
                    act1: ReLU,
                    l2: LinearConfig { inp: f, out: model },
                },
            ),
            norm3: LayerNorm1DConfig(model),
        }
    }

    /// The block for a model width, head count and feed-forward width.
    pub fn new(model: usize, num_heads: usize, f: usize) -> (r: DecoderBlockConfig)
        ensures
            r == (DecoderBlockConfig {
                self_attn: ResidualAdd(
                    MultiHeadAttentionConfig {
                        embed_dim: model,
                        num_heads,
                        k_dim: model,
                        v_dim: model,
                    },
                ),
                norm1: LayerNorm1DConfig(model),
                mh_attn: MultiHeadAttentionConfig {
                    embed_dim: model,
                    num_heads,
                    k_dim: model,
                    v_dim: model,
                },
                norm2: LayerNorm1DConfig(model),
                ff: ResidualAdd(
                    FeedForwardConfig {
                        l1: LinearConfig { inp: model, out: f },
                        act1: ReLU,
                        l2: LinearConfig { inp: f, out: model },
                    },
                ),
                norm3: LayerNorm1DConfig(model),
            }),
    {
        DecoderBlockConfig {
            self_attn: ResidualAdd(MultiHeadAttentionConfig::new(model, num_heads, model, model)),
            norm1: LayerNorm1DConfig(model),
            mh_attn: MultiHeadAttentionConfig::new(model, num_heads, model, model),
            norm2: LayerNorm1DConfig(model),
            ff: ResidualAdd(
                FeedForwardConfig {
                    l1: LinearConfig::new(model, f),
                    act1: ReLU,
                    l2: LinearConfig::new(f, model),
                },
            ),
            norm3: LayerNorm1DConfig(model),
        }
    }
}

/// A whole transformer: a stack of encoder blocks and a stack of decoder
/// blocks.
#[derive(Debug, Clone)]
pub struct TransformerConfig {
    pub encoder: Vec<EncoderBlockConfig>,
    pub decoder: Vec<DecoderBlockConfig>,
}

impl TransformerConfig {
    /// `num_encoder_layers` identical encoder blocks and
    /// `num_decoder_layers` identical decoder blocks of the given widths.
    pub fn new(
        model: usize,
        num_heads: usize,
        f: usize,
        num_encoder_layers: usize,
        num_decoder_layers: usize,
    ) -> (r: TransformerConfig)
        ensures
            r.encoder@.len() == num_encoder_layers,
            r.decoder@.len() == num_decoder_layers,
            forall|i: int|
                0 <= i < num_encoder_layers ==> r.encoder@[i] == EncoderBlockConfig::spec_of(
                    model,
                    num_heads,
                    f,
                ),
            forall|i: int|
                0 <= i < num_decoder_layers ==> r.decoder@[i] == DecoderBlockConfig::spec_of(
                    model,
                    num_heads,
                    f,
                ),
    {
        let mut encoder: Vec<EncoderBlockConfig> = Vec::new();
        let mut i: usize = 0;
        while i < num_encoder_layers
            invariant
                i <= num_encoder_layers,
                encoder@.len() == i,
                forall|t: int|
                    0 <= t < i ==> encoder@[t] == EncoderBlockConfig::spec_of(model, num_heads, f),
            decreases num_encoder_layers - i,
        {
            encoder.push(EncoderBlockConfig::new(model, num_heads, f));
            i += 1;
        }
        let mut decoder: Vec<DecoderBlockConfig> = Vec::new();
        let mut j: usize = 0;
        while j < num_decoder_layers
            invariant
                j <= num_decoder_layers,
                decoder@.len() == j,
                forall|t: int|
                    0 <= t < j ==> decoder@[t] == DecoderBlockConfig::spec_of(model, num_heads, f),
            decreases num_decoder_layers - j,
        {
            decoder.push(DecoderBlockConfig::new(model, num_heads, f));
            j += 1;
        }
        TransformerConfig { encoder, decoder }
    }
}

/// Groups modules whose outputs are added together, for networks with
/// several inputs.
#[derive(Debug, Clone)]
pub struct AddInto<T>(pub T);

/// Repeats one module kind `N` times in sequence.
#[derive(Debug, Clone)]
pub struct Repeated<T, const N: usize> {
    pub modules: Vec<T>,
}

impl<T, const N: usize> Repeated<T, N> {
    /// The module at one position of the stack.
    pub fn get(&self, index: usize) -> (r: &T)
        requires
            index < self.modules@.len(),
        ensures
            *r == self.modules@[index as int],
    {
        &self.modules[index]
    }
}

/// What becomes of a tensor when a module reset runs over it.
#[derive(Debug, Clone, Copy, PartialEq, Eq, Structural)]
pub enum ResetPolicy {
    /// Reset to all zeros.
    Zeros,
    /// Reset to all ones.
    Ones,
    /// Leave the values alone.
    Keep,
}

/// What a module walk is told about one parameter tensor: whether the
/// optimizer should update it, how a reset treats it, and the shape it is
/// built with.
#[derive(Debug, Clone, PartialEq, Eq)]
pub struct TensorOptions {
    pub do_gradient_update: bool,
    pub reset: ResetPolicy,
    pub shape: Vec<usize>,
}

impl TensorOptions {
    /// A parameter that is updated with gradients and resets to zero.
    pub fn reset_to_zeros() -> (r: TensorOptions)
        ensures
            r.do_gradient_update == true,
            r.reset == ResetPolicy::Zeros,
            r.shape@ == Seq::<usize>::empty(),
    {
        TensorOptions { do_gradient_update: true, reset: ResetPolicy::Zeros, shape: Vec::new() }
    }

    /// A parameter that is updated with gradients and resets to one.
    pub fn reset_to_ones() -> (r: TensorOptions)
        ensures
            r.do_gradient_update == true,
            r.reset == ResetPolicy::Ones,
            r.shape@ == Seq::<usize>::empty(),
    {
        TensorOptions { do_gradient_update: true, reset: ResetPolicy::Ones, shape: Vec::new() }
    }

    /// A parameter that is updated with gradients and resets as given.
    pub fn reset_with(reset: ResetPolicy) -> (r: TensorOptions)
        ensures
            r.do_gradient_update == true,
            r.reset == reset,
            r.shape@ == Seq::<usize>::empty(),
    {
        TensorOptions { do_gradient_update: true, reset, shape: Vec::new() }
    }

    /// A tensor that is deliberately left out of gradient updates.
    pub fn detached(reset: ResetPolicy) -> (r: TensorOptions)
        ensures
            r.do_gradient_update == false,
            r.reset == reset,
            r.shape@ == Seq::<usize>::empty(),
    {
        TensorOptions { do_gradient_update: false, reset, shape: Vec::new() }
    }

    /// The same options with the build shape filled in.
    pub fn with_shape(self, shape: Vec<usize>) -> (r: TensorOptions)
        ensures
            r.do_gradient_update == self.do_gradient_update,
            r.reset == self.reset,
            r.shape@ == shape@,
    {
        TensorOptions { do_gradient_update: self.do_gradient_update, reset: self.reset, shape }
    }
}

/// Visits parameter tensors read-only.
pub trait VisitTensorRef {
    fn visit(&mut self, opts: &TensorOptions, t: &Tensor<NoneTape>) -> Result<(), CpuError>;
}

/// Visits parameter tensors with the right to change them.
pub trait VisitTensorMut {
    fn visit(&mut self, opts: &TensorOptions, t: &mut Tensor<NoneTape>) -> Result<(), CpuError>;
}

/// Visits pairs of a parameter tensor to update and a companion tensor to
/// read, as a gradient step does.
pub trait VisitTensorMutRef {
    fn visit(&mut self, opts: &TensorOptions, t: &mut Tensor<NoneTape>, companion: &Tensor<
        NoneTape,
    >) -> Result<(), CpuError>;
}

/// One step of a module walk: a named parameter tensor with its options.
pub trait TensorVisitor {
    fn visit_tensor(&mut self, opts: &TensorOptions, t: &Tensor<NoneTape>) -> Result<
        (),
        CpuError,
    >;
}

/// A collection of parameter tensors: anything that can hand each of its
/// tensors to a visitor in a fixed order.
pub trait TensorCollection {
    fn iter_tensors<V: TensorVisitor>(&self, visitor: &mut V) -> Result<(), CpuError>;
}

/// An object that can walk a whole module tree; the module system calls it
/// for submodules and leaf tensors alike.
pub trait ModuleVisitor {
    fn enter_module(&mut self) -> Result<(), CpuError>;

    fn visit_leaf(&mut self, opts: &TensorOptions, t: &Tensor<NoneTape>) -> Result<
        (),
        CpuError,
    >;

    fn leave_module(&mut self) -> Result<(), CpuError>;
}

impl TensorCollection for Tensor<NoneTape> {
    /// A tensor is a collection of exactly itself.
    fn iter_tensors<V: TensorVisitor>(&self, visitor: &mut V) -> Result<(), CpuError> {
        let opts = TensorOptions::reset_with(ResetPolicy::Keep);
        visitor.visit_tensor(&opts, self)
    }
}

impl<T: CanUpdateWithGradients> CanUpdateWithGradients for AddInto<T> {
    /// Grouping modules adds no parameters of its own.
    fn update<G: GradientProvider>(&mut self, grads: &mut G, unused: &mut UnusedTensors)
        -> Result<(), CpuError> {
        self.0.update(grads, unused)
    }
}

impl<T: CanUpdateWithGradients, const N: usize> CanUpdateWithGradients for Repeated<T, N> {
    /// Updates every repetition, in stack order.
    fn update<G: GradientProvider>(&mut self, grads: &mut G, unused: &mut UnusedTensors)
        -> Result<(), CpuError> {
        let n = self.modules.len();
        let mut i: usize = 0;
        while i < n
            invariant
                i <= n,
                n == self.modules@.len(),
            decreases n - i,
        {
            let step = self.modules[i].update(grads, unused);
            match step {
                Ok(_) => {},
                Err(e) => {
                    return Err(e);
                },
            }
            i += 1;
        }
        Ok(())
    }
}

impl<A: CanUpdateWithGradients, B: CanUpdateWithGradients> CanUpdateWithGradients for (A, B) {
    /// A pair of modules updates left to right.
    fn update<G: GradientProvider>(&mut self, grads: &mut G, unused: &mut UnusedTensors)
        -> Result<(), CpuError> {
        let step = self.0.update(grads, unused);
        match step {
            Ok(_) => {},
            Err(e) => {
                return Err(e);
            },
        }
        self.1.update(grads, unused)
    }
}

impl<T: TensorCollection> TensorCollection for AddInto<T> {
    /// Grouping modules adds no tensors of its own.
    fn iter_tensors<V: TensorVisitor>(&self, visitor: &mut V) -> Result<(), CpuError> {
        self.0.iter_tensors(visitor)
    }
}

impl<T: TensorCollection, const N: usize> TensorCollection for Repeated<T, N> {
    /// Every repetition's tensors, in stack order.
    fn iter_tensors<V: TensorVisitor>(&self, visitor: &mut V) -> Result<(), CpuError> {
        let n = self.modules.len();
        let mut i: usize = 0;
        while i < n
            invariant
                i <= n,
                n == self.modules@.len(),
            decreases n - i,
        {
            let step = self.modules[i].iter_tensors(visitor);
            match step {
                Ok(_) => {},
                Err(e) => {
                    return Err(e);
                },
            }
            i += 1;
        }
        Ok(())
    }
}

} // verus!
