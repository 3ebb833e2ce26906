//! The configuration records and module combinators around the core.

use dfdx::nn::{
    AddInto, DecoderBlockConfig, EncoderBlockConfig, LayerRMSNorm1DConfig, LinearConfig,
    Repeated, ResetPolicy, TensorCollection, TensorOptions, TensorVisitor, TransformerConfig,
};
use dfdx::storage::CpuError;
use dfdx::tensor::{Cpu, Tensor};
use dfdx::tape::NoneTape;
use dfdx::Ratio;

#[test]
fn test_encoder_block_wires_the_widths() {
    let block = EncoderBlockConfig::new(8, 2, 16);
    assert_eq!(block.self_attn.0.embed_dim, 8);
    assert_eq!(block.self_attn.0.num_heads, 2);
    assert_eq!(block.self_attn.0.k_dim, 8);
    assert_eq!(block.self_attn.0.v_dim, 8);
    assert_eq!(block.norm1.0, 8);
    assert_eq!(block.ff.0.l1, LinearConfig { inp: 8, out: 16 });
    assert_eq!(block.ff.0.l2, LinearConfig { inp: 16, out: 8 });
    assert_eq!(block.norm2.0, 8);
}

#[test]
fn test_decoder_block_wires_the_widths() {
    let block = DecoderBlockConfig::new(4, 2, 12);
    assert_eq!(block.mh_attn.embed_dim, 4);
    assert_eq!(block.ff.0.l1, LinearConfig { inp: 4, out: 12 });
    assert_eq!(block.ff.0.l2, LinearConfig { inp: 12, out: 4 });
    assert_eq!(block.norm3.0, 4);
}

#[test]
fn test_transformer_stacks_the_blocks() {
    let t = TransformerConfig::new(8, 2, 16, 2, 3);
    assert_eq!(t.encoder.len(), 2);
    assert_eq!(t.decoder.len(), 3);
    assert_eq!(t.encoder[0], EncoderBlockConfig::new(8, 2, 16));
    assert_eq!(t.encoder[1], EncoderBlockConfig::new(8, 2, 16));
    assert_eq!(t.decoder[2], DecoderBlockConfig::new(8, 2, 16));
}

#[test]
fn test_rms_norm_config_carries_its_width() {
    let cfg = LayerRMSNorm1DConfig(5);
    assert_eq!(cfg.0, 5);
}

#[test]
fn test_tensor_options() {
    let zeroing = TensorOptions::reset_to_zeros();
    assert!(zeroing.do_gradient_update);
    assert_eq!(zeroing.reset, ResetPolicy::Zeros);
    let ones = TensorOptions::reset_to_ones();
    assert_eq!(ones.reset, ResetPolicy::Ones);
    let frozen = TensorOptions::detached(ResetPolicy::Keep);
    assert!(!frozen.do_gradient_update);
    let shaped = TensorOptions::reset_with(ResetPolicy::Zeros).with_shape(vec![2, 3]);
    assert_eq!(shaped.shape, vec![2, 3]);
    assert!(shaped.do_gradient_update);
}

struct CountingVisitor {
    seen: usize,
}

impl TensorVisitor for CountingVisitor {
    fn visit_tensor(
        &mut self,
        _opts: &TensorOptions,
        _t: &Tensor<NoneTape>,
    ) -> Result<(), CpuError> {
        self.seen += 1;
        Ok(())
    }
}

#[test]
fn test_walking_combinators_reaches_every_tensor() {
    let mut dev = Cpu::new();
    let a = dev.tensor_from(vec![Ratio::from_int(1)], vec![1]).unwrap();
    let b = dev.tensor_from(vec![Ratio::from_int(2)], vec![1]).unwrap();
    let c = dev.tensor_from(vec![Ratio::from_int(3)], vec![1]).unwrap();

    let mut v = CountingVisitor { seen: 0 };
    a.iter_tensors(&mut v).unwrap();
    assert_eq!(v.seen, 1);

    let grouped = AddInto(b);
    grouped.iter_tensors(&mut v).unwrap();
    assert_eq!(v.seen, 2);

    let stack: Repeated<Tensor<NoneTape>, 1> = Repeated { modules: vec![c] };
    stack.iter_tensors(&mut v).unwrap();
    assert_eq!(v.seen, 3);
    assert_eq!(stack.get(0).shape().clone(), vec![1]);
}
