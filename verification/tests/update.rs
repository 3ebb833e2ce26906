//! Gradient updates over module trees: parameters whose gradients were
//! never produced are reported, not silently skipped.

use dfdx::gradients::Gradients;
use dfdx::nn::{AddInto, Repeated};
use dfdx::storage::{CpuError, StridedArray};
use dfdx::tensor::{CanUpdateWithGradients, Cpu, GradientProvider, Tensor, UnusedTensors};
use dfdx::tape::NoneTape;
use dfdx::Ratio;

struct Linear {
    weight: Tensor<NoneTape>,
    bias: Tensor<NoneTape>,
}

impl Linear {
    fn build(dev: &mut Cpu, inp: usize, out: usize) -> Linear {
        Linear {
            weight: dev.zeros(vec![out, inp]).unwrap(),
            bias: dev.zeros(vec![out]).unwrap(),
        }
    }
}

impl CanUpdateWithGradients for Linear {
    fn update<G: GradientProvider>(
        &mut self,
        grads: &mut G,
        unused: &mut UnusedTensors,
    ) -> Result<(), CpuError> {
        self.weight.update(grads, unused)?;
        self.bias.update(grads, unused)
    }
}

struct SimpleUpdater(Gradients);

impl GradientProvider for SimpleUpdater {
    fn gradient(&mut self, id: u64) -> Option<StridedArray<Ratio>> {
        self.0.remove(id)
    }
}

fn alloc_like(g: &mut Gradients, t: &Tensor<NoneTape>) {
    g.try_alloc_for(t.id_value(), t.shape()).unwrap();
}

#[test]
fn test_missing_gradients() {
    let mut dev = Cpu::new();
    let mut model: AddInto<(Linear, Linear)> =
        AddInto((Linear::build(&mut dev, 5, 3), Linear::build(&mut dev, 5, 3)));
    let mut g = SimpleUpdater(Gradients::new());

    // No gradients present: every parameter is reported unused.
    let mut unused = UnusedTensors::default();
    model.update(&mut g, &mut unused).unwrap();
    assert_eq!(
        unused.ids,
        vec![
            model.0 .0.weight.id_value(),
            model.0 .0.bias.id_value(),
            model.0 .1.weight.id_value(),
            model.0 .1.bias.id_value(),
        ]
    );

    // Every gradient present: nothing is reported.
    alloc_like(&mut g.0, &model.0 .0.weight);
    alloc_like(&mut g.0, &model.0 .0.bias);
    alloc_like(&mut g.0, &model.0 .1.weight);
    alloc_like(&mut g.0, &model.0 .1.bias);

    let mut unused = UnusedTensors::default();
    model.update(&mut g, &mut unused).unwrap();
    assert!(unused.is_empty());
}

#[test]
fn test_repeated_missing_gradients() {
    let mut dev = Cpu::new();
    let mut model: Repeated<Linear, 3> = Repeated {
        modules: vec![
            Linear::build(&mut dev, 5, 5),
            Linear::build(&mut dev, 5, 5),
            Linear::build(&mut dev, 5, 5),
        ],
    };
    let mut g = SimpleUpdater(Gradients::new());

    // No gradients present.
    let mut unused = UnusedTensors::default();
    model.update(&mut g, &mut unused).unwrap();
    assert_eq!(
        unused.ids,
        vec![
            model.get(0).weight.id_value(),
            model.get(0).bias.id_value(),
            model.get(1).weight.id_value(),
            model.get(1).bias.id_value(),
            model.get(2).weight.id_value(),
            model.get(2).bias.id_value(),
        ]
    );

    // Weight gradients present, biases still missing.
    for i in 0..3 {
        alloc_like(&mut g.0, &model.get(i).weight);
    }
    let mut unused = UnusedTensors::default();
    model.update(&mut g, &mut unused).unwrap();
    assert_eq!(
        unused.ids,
        vec![
            model.get(0).bias.id_value(),
            model.get(1).bias.id_value(),
            model.get(2).bias.id_value(),
        ]
    );

    // All gradients present.
    for i in 0..3 {
        alloc_like(&mut g.0, &model.get(i).weight);
        alloc_like(&mut g.0, &model.get(i).bias);
    }
    let mut unused = UnusedTensors::default();
    model.update(&mut g, &mut unused).unwrap();
    assert!(unused.is_empty());
}

#[test]
fn test_apply_gradient_is_a_descent_step() {
    let mut dev = Cpu::new();
    let mut t = dev
        .tensor_from(vec![Ratio::from_int(5), Ratio::from_int(7)], vec![2])
        .unwrap();
    let grad = StridedArray::from_parts(
        vec![Ratio::new(1, 2), Ratio::from_int(2)],
        vec![2],
        vec![1],
    )
    .unwrap();
    t.apply_gradient(&grad).unwrap();
    assert_eq!(t.array(), vec![Ratio::new(9, 2), Ratio::from_int(5)]);

    // A gradient of the wrong shape is refused before anything changes.
    let bad = StridedArray::from_parts(vec![Ratio::zero()], vec![1], vec![1]).unwrap();
    assert!(matches!(t.apply_gradient(&bad), Err(CpuError::ShapeMismatch)));
    assert_eq!(t.array(), vec![Ratio::new(9, 2), Ratio::from_int(5)]);
}
