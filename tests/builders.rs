use novigrad::device::{Device, Init, TensorInfo};
use novigrad::error::Error;
use novigrad::instruction::{Category, Instruction, OpCode};
use novigrad::machine::{DeviceBackend, NeuralMachine, StreamExecutor};
use novigrad::models::PerceptronModel;
use novigrad::operators::{
    Concat, CrossEntropyLoss, Dropout, Embedding, Identity, Linear, Mask, MatMul, Reshape, ResidualSumOfSquares,
    ScaledDotProductAttention, Sigmoid, Softmax, SoftmaxCrossEntropyLoss,
};
use novigrad::optimizers::{Adam, GradientDescent};
use novigrad::shape::check_shapes;
use novigrad::tape::get_tape;

struct RecordingBackend {
    executed: Vec<OpCode>,
    allocated: usize,
}

impl DeviceBackend for RecordingBackend {
    fn allocate(&mut self, tensors: &Vec<TensorInfo>) -> Result<(), Error> {
        self.allocated = tensors.len();
        Ok(())
    }
    fn copy(&mut self, _source: usize, _destination: usize) -> Result<(), Error> {
        Ok(())
    }
    fn execute(&mut self, instruction: &Instruction) -> Result<(), Error> {
        self.executed.push(instruction.operator());
        Ok(())
    }
}

fn parameter_like(device: &mut Device, rows: usize, cols: usize) -> novigrad::device::TensorWithGrad {
    // A table of an embedding is a parameter node with the wanted shape.
    Embedding::new(device, rows, cols).table
}

#[test]
fn gemm_shape_rule() {
    assert!(check_shapes(OpCode::Gemm(false, false, false), &[(2, 3), (3, 4), (2, 4)], &[(2, 4)]));
    assert!(check_shapes(OpCode::Gemm(false, true, false), &[(2, 3), (4, 3), (2, 4)], &[(2, 4)]));
    assert!(check_shapes(OpCode::Gemm(true, false, true), &[(3, 2), (3, 4), (4, 2)], &[(4, 2)]));
    assert!(!check_shapes(OpCode::Gemm(false, false, false), &[(2, 3), (4, 3), (2, 4)], &[(2, 4)]));
    assert!(!check_shapes(OpCode::Gemm(false, false, false), &[(2, 3), (3, 4)], &[(2, 4)]));
}

#[test]
fn other_shape_rules() {
    assert!(check_shapes(OpCode::ScalarMul, &[(1, 1), (2, 5)], &[(2, 5)]));
    assert!(!check_shapes(OpCode::ScalarMul, &[(1, 2), (2, 5)], &[(2, 5)]));
    assert!(check_shapes(OpCode::Concat, &[(2, 3), (2, 3), (2, 3)], &[(2, 9)]));
    assert!(!check_shapes(OpCode::Concat, &[(2, 3), (2, 4)], &[(2, 7)]));
    assert!(check_shapes(OpCode::Unconcat, &[(2, 6)], &[(2, 3), (2, 3)]));
    assert!(check_shapes(OpCode::Reshape, &[(6, 4)], &[(1, 24)]));
    assert!(!check_shapes(OpCode::Reshape, &[(6, 4)], &[(1, 25)]));
    assert!(check_shapes(OpCode::SoftmaxCrossEntropyLoss, &[(1, 3), (1, 3)], &[(1, 1)]));
    assert!(check_shapes(OpCode::ClipNorm, &[(4, 4)], &[(4, 4)]));
}

#[test]
fn matmul_output_shape_and_instructions() {
    let mut device = Device::new();
    let a = parameter_like(&mut device, 2, 3);
    let b = parameter_like(&mut device, 3, 4);
    let before = device.tensors.len();
    let c = MatMul::new(false).forward(&mut device, a, b).unwrap();
    assert_eq!((c.rows, c.cols), (2, 4));
    assert_eq!(c.value, before + 1);
    assert_eq!(c.gradient, before + 2);
    let node = &device.nodes[c.node];
    assert_eq!(node.inputs, vec![a.node, b.node]);
    let ops: Vec<OpCode> = node.forward_instructions.iter().map(|i| i.operator()).collect();
    assert_eq!(ops, vec![OpCode::ScalarMul, OpCode::ScalarMul, OpCode::Gemm(false, false, false)]);
    let ops: Vec<OpCode> = node.gradient_instructions.iter().map(|i| i.operator()).collect();
    assert_eq!(ops, vec![OpCode::Gemm(true, false, false), OpCode::Gemm(false, true, false)]);
    assert_eq!(node.gradient_instructions[0].outputs(), &vec![b.gradient]);
    assert_eq!(node.gradient_instructions[1].outputs(), &vec![a.gradient]);
}

#[test]
fn matmul_with_transposed_right_side() {
    let mut device = Device::new();
    let a = parameter_like(&mut device, 2, 3);
    let b = parameter_like(&mut device, 5, 3);
    let c = MatMul::new(true).forward(&mut device, a, b).unwrap();
    assert_eq!((c.rows, c.cols), (2, 5));
    let node = &device.nodes[c.node];
    assert_eq!(node.forward_instructions[2].operator(), OpCode::Gemm(false, true, false));
    assert_eq!(node.gradient_instructions[0].operator(), OpCode::Gemm(true, false, true));
    assert_eq!(node.gradient_instructions[1].operator(), OpCode::Gemm(false, false, false));
}

#[test]
fn matmul_incompatible_shapes() {
    let mut device = Device::new();
    let a = parameter_like(&mut device, 2, 3);
    let b = parameter_like(&mut device, 4, 4);
    let tensors = device.tensors.len();
    let nodes = device.nodes.len();
    assert_eq!(MatMul::new(false).forward(&mut device, a, b).unwrap_err(), Error::IncompatibleTensorShapes);
    assert_eq!(device.tensors.len(), tensors);
    assert_eq!(device.nodes.len(), nodes);
}

#[test]
fn linear_registers_parameters_and_checks_shapes() {
    let mut device = Device::new();
    let linear = Linear::new(&mut device, 1, 2, 1);
    assert_eq!(device.parameters, vec![linear.weights.node, linear.biases.node]);
    assert_eq!(device.tensors[linear.weights.value].init, Init::XavierUniform);
    assert!(device.tensors[linear.weights.value].is_parameter);
    assert!(device.tensors[linear.weights.gradient].requires_grad);
    let x = parameter_like(&mut device, 1, 2);
    let y = linear.forward(&mut device, x).unwrap();
    assert_eq!((y.rows, y.cols), (1, 1));
    let bad = parameter_like(&mut device, 1, 3);
    assert_eq!(linear.forward(&mut device, bad).unwrap_err(), Error::IncompatibleTensorShapes);
}

#[test]
fn activations_keep_the_shape() {
    let mut device = Device::new();
    let x = parameter_like(&mut device, 3, 4);
    let s = Sigmoid::new().forward(&mut device, x);
    assert_eq!((s.rows, s.cols), (3, 4));
    assert_eq!(device.nodes[s.node].gradient_instructions[0].operator(), OpCode::SigmoidBackward);
    let p = Softmax::new(false).forward(&mut device, x);
    assert_eq!(device.nodes[p.node].gradient_instructions[0].operator(), OpCode::SoftmaxBackward);
    let q = Softmax::new(true).forward(&mut device, x);
    assert_eq!(device.nodes[q.node].gradient_instructions[0].operator(), OpCode::Add);
    let i = Identity::new().forward(&mut device, x);
    assert_eq!((i.rows, i.cols), (3, 4));
}

#[test]
fn gradient_of_softmax_cross_entropy_is_softmax_minus_expected() {
    let mut device = Device::new();
    let expected = parameter_like(&mut device, 1, 3);
    let logits = parameter_like(&mut device, 1, 3);
    let before = device.tensors.len();
    let loss = SoftmaxCrossEntropyLoss::new().forward(&mut device, expected, logits).unwrap();
    assert_eq!((loss.rows, loss.cols), (1, 1));
    let scratch = before + 3;
    assert_eq!((device.tensors[scratch].rows, device.tensors[scratch].cols), (1, 3));
    let node = &device.nodes[loss.node];
    assert_eq!(node.gradient_instructions.len(), 2);
    let softmax = &node.gradient_instructions[0];
    assert_eq!(softmax.operator(), OpCode::Softmax);
    assert_eq!(softmax.inputs(), &vec![logits.value]);
    assert_eq!(softmax.outputs(), &vec![scratch]);
    let sub = &node.gradient_instructions[1];
    assert_eq!(sub.operator(), OpCode::Sub);
    assert_eq!(sub.inputs(), &vec![scratch, expected.value]);
    assert_eq!(sub.outputs(), &vec![logits.gradient]);
    assert!(node.forward_instructions.iter().all(|i| i.category() == Category::Loss));
}

#[test]
fn losses_refuse_different_shapes() {
    let mut device = Device::new();
    let a = parameter_like(&mut device, 1, 3);
    let b = parameter_like(&mut device, 1, 4);
    assert_eq!(CrossEntropyLoss::new().forward(&mut device, a, b).unwrap_err(), Error::IncompatibleTensorShapes);
    assert_eq!(ResidualSumOfSquares::new().forward(&mut device, a, b).unwrap_err(), Error::IncompatibleTensorShapes);
    let c = parameter_like(&mut device, 1, 3);
    let rss = ResidualSumOfSquares::new().forward(&mut device, a, c).unwrap();
    assert_eq!(device.nodes[rss.node].gradient_instructions.len(), 3);
}

#[test]
fn reshape_and_mask() {
    let mut device = Device::new();
    let x = parameter_like(&mut device, 6, 4);
    let r = Reshape::new((6, 4), (1, 24)).forward(&mut device, x).unwrap();
    assert_eq!((r.rows, r.cols), (1, 24));
    assert_eq!(Reshape::new((6, 4), (1, 25)).forward(&mut device, x).unwrap_err(), Error::IncompatibleTensorShapes);
    let m = Mask::try_new(6, 4).unwrap().forward(&mut device, x).unwrap();
    assert_eq!((m.rows, m.cols), (6, 4));
    assert_eq!(Mask::try_new(4, 4).unwrap().forward(&mut device, x).unwrap_err(), Error::IncompatibleTensorShapes);
}

#[test]
fn dropout_probabilities() {
    let mut device = Device::new();
    assert_eq!(Dropout::try_new(&mut device, 2, 2, 1, 1).unwrap_err(), Error::UnsupportedOperation);
    let dropout = Dropout::try_new(&mut device, 2, 2, 1, 2).unwrap();
    assert_eq!(device.tensors[dropout.probabilities].init, Init::Constant(1, 2));
    assert_eq!(device.tensors[dropout.scale].init, Init::Constant(2, 1));
    let x = parameter_like(&mut device, 2, 2);
    let y = dropout.forward(&mut device, x).unwrap();
    let ops: Vec<OpCode> = device.nodes[y.node].forward_instructions.iter().map(|i| i.operator()).collect();
    assert_eq!(ops, vec![OpCode::ScalarMul, OpCode::ScalarMul, OpCode::Bernoulli, OpCode::Mul, OpCode::ScalarMul]);
}

#[test]
fn attention_block_shape() {
    let mut device = Device::new();
    let attention = ScaledDotProductAttention::try_new(&mut device, 4, 4).unwrap();
    assert_eq!(device.tensors[attention.scale.alpha].init, Init::InverseSqrt(4));
    let q = parameter_like(&mut device, 4, 4);
    let k = parameter_like(&mut device, 4, 4);
    let v = parameter_like(&mut device, 4, 4);
    let nodes = device.nodes.len();
    let out = attention.forward(&mut device, q, k, v).unwrap();
    assert_eq!((out.rows, out.cols), (4, 4));
    assert_eq!(device.nodes.len(), nodes + 5);
    let ops: Vec<OpCode> = (nodes..nodes + 5).map(|n| device.nodes[n].forward_instructions[2].operator()).collect();
    assert_eq!(
        ops,
        vec![OpCode::Gemm(false, true, false), OpCode::ScalarMul, OpCode::Mask, OpCode::Softmax, OpCode::Gemm(false, false, false)]
    );
    assert_eq!(device.nodes[nodes + 1].forward_instructions[2].inputs()[0], attention.scale.alpha);
    assert_eq!(device.nodes[nodes + 4].inputs, vec![nodes + 3, v.node]);
    let bad = parameter_like(&mut device, 4, 3);
    assert_eq!(attention.forward(&mut device, q, bad, v).unwrap_err(), Error::IncompatibleTensorShapes);
}

#[test]
fn tape_holds_what_the_root_reaches() {
    let mut device = Device::new();
    let a = parameter_like(&mut device, 2, 2);
    let unused = parameter_like(&mut device, 2, 2);
    let b = parameter_like(&mut device, 2, 2);
    let c = MatMul::new(false).forward(&mut device, a, b).unwrap();
    let d = Sigmoid::new().forward(&mut device, c);
    let tape = get_tape(&device, d.node);
    assert_eq!(tape, vec![a.node, b.node, c.node, d.node]);
    assert!(!tape.contains(&unused.node));
}

#[test]
fn gradient_descent_steps() {
    let mut device = Device::new();
    let linear = Linear::new(&mut device, 1, 2, 1);
    let steps = GradientDescent::new(1, 2).descend(&mut device).unwrap();
    assert_eq!(steps.len(), 8);
    assert!(steps.iter().all(|i| i.category() == Category::Optimization));
    assert_eq!(steps[3].outputs(), &vec![linear.weights.value]);
    assert_eq!(steps[7].outputs(), &vec![linear.biases.value]);
    assert_eq!(GradientDescent::new(1, 0).descend(&mut device).unwrap_err(), Error::UnsupportedOperation);
}

#[test]
fn perceptron_machine_phases() {
    let mut device = Device::new();
    let model = PerceptronModel::new(&mut device);
    let loss = ResidualSumOfSquares::new();
    let optimizer = GradientDescent::new(1, 2);
    let backend = RecordingBackend { executed: vec![], allocated: 0 };
    let mut machine = NeuralMachine::try_new(&mut device, &model, &loss, &optimizer, backend).unwrap();
    machine.executor.backend.allocate(&device.tensors).unwrap();
    assert_eq!(machine.executor.backend.allocated, device.tensors.len());
    assert_eq!(device.tensors[machine.example_input.value].init, Init::Constant(7, 10));
    assert_eq!(device.tensors[machine.example_output.value].init, Init::Constant(7, 10));
    let inference = machine.instructions(&Category::Inference);
    let ops: Vec<OpCode> = inference.iter().map(|i| i.operator()).collect();
    assert_eq!(ops, vec![OpCode::ScalarMul, OpCode::ScalarMul, OpCode::Add, OpCode::Gemm(false, true, false)]);
    assert_eq!(machine.instructions(&Category::Loss).len(), 3);
    let gradient = machine.instructions(&Category::Gradient);
    assert!(gradient.iter().all(|i| i.category() == Category::Gradient));
    assert!(gradient.iter().any(|i| i.operator() == OpCode::ClipNorm));
    assert_eq!(machine.instructions(&Category::Optimization).len(), 8);
    let output = machine.infer(machine.example_input.value).unwrap();
    assert_eq!(output, machine.machine_output);
    assert_eq!(machine.executor.backend.executed.len(), 4);
    let loss_value = machine.loss(machine.example_output.value).unwrap();
    assert_eq!((loss_value.rows, loss_value.cols), (1, 1));
    machine.compute_gradient().unwrap();
    machine.optimize().unwrap();
    assert_eq!(machine.executor.backend.executed.len(), 4 + 3 + gradient.len() + 8);
}

#[test]
fn building_twice_gives_the_same_opcodes() {
    let build = || {
        let mut device = Device::new();
        let model = PerceptronModel::new(&mut device);
        let loss = ResidualSumOfSquares::new();
        let optimizer = GradientDescent::new(1, 2);
        let backend = RecordingBackend { executed: vec![], allocated: 0 };
        let machine = NeuralMachine::try_new(&mut device, &model, &loss, &optimizer, backend).unwrap();
        let mut all = vec![];
        for c in [Category::Inference, Category::Loss, Category::Gradient, Category::Optimization] {
            for i in machine.instructions(&c) {
                all.push((i.operator(), i.inputs().clone(), i.outputs().clone(), i.category()));
            }
        }
        all
    };
    assert_eq!(build(), build());
}

#[test]
fn concat_places_inputs_side_by_side() {
    let mut device = Device::new();
    let a = parameter_like(&mut device, 2, 3);
    let b = parameter_like(&mut device, 2, 3);
    let before = device.tensors.len();
    let c = Concat::new().forward(&mut device, &vec![a, b]).unwrap();
    assert_eq!((c.rows, c.cols), (2, 6));
    let node = &device.nodes[c.node];
    assert_eq!(node.inputs, vec![a.node, b.node]);
    assert_eq!(node.forward_instructions[2].operator(), OpCode::Concat);
    assert_eq!(node.forward_instructions[2].inputs(), &vec![a.value, b.value]);
    assert_eq!(node.gradient_instructions[0].operator(), OpCode::Unconcat);
    assert_eq!(node.gradient_instructions[0].outputs(), &vec![before + 3, before + 4]);
    assert_eq!(node.gradient_instructions.len(), 3);
    assert_eq!(node.gradient_instructions[1].operator(), OpCode::Add);
    assert_eq!(node.gradient_instructions[1].inputs(), &vec![a.gradient, before + 3]);
    assert_eq!(node.gradient_instructions[2].outputs(), &vec![b.gradient]);
    let d = parameter_like(&mut device, 3, 3);
    assert_eq!(Concat::new().forward(&mut device, &vec![a, d]).unwrap_err(), Error::IncompatibleTensorShapes);
    assert_eq!(Concat::new().forward(&mut device, &vec![]).unwrap_err(), Error::IncompatibleTensorShapes);
}

#[test]
fn instruction_runs_on_a_backend() {
    let mut executor = StreamExecutor::new(RecordingBackend { executed: vec![], allocated: 0 });
    let instruction = Instruction::new(OpCode::Sub, &[1, 2], &[3], Category::Gradient);
    instruction.forward(&mut executor).unwrap();
    assert_eq!(executor.backend.executed, vec![OpCode::Sub]);
    assert_eq!(instruction.category(), Category::Gradient);
    assert_eq!(instruction.inputs(), &vec![1, 2]);
    assert_eq!(instruction.outputs(), &vec![3]);
}

#[test]
fn adam_steps_one_instruction_per_parameter() {
    assert_eq!(Adam::try_new((1, 1000), (9, 10), (999, 1000), (1, 0)).unwrap_err(), Error::UnsupportedOperation);
    let adam = Adam::try_new((1, 1000), (9, 10), (999, 1000), (1, 100_000_000)).unwrap();
    let mut device = Device::new();
    let linear = Linear::new(&mut device, 3, 2, 1);
    let before = device.tensors.len();
    let steps = adam.steps(&mut device);
    assert_eq!(steps.len(), 2);
    assert_eq!(device.tensors.len(), before + 4 + 6);
    assert_eq!(device.tensors[before + 1].init, Init::Constant(9, 10));
    assert_eq!(steps[0].operator(), OpCode::AdamStep);
    assert_eq!(steps[0].inputs()[0], linear.weights.value);
    assert_eq!(steps[0].inputs()[5], before);
    assert_eq!(steps[1].outputs()[0], linear.biases.value);
    assert!(check_shapes(
        OpCode::AdamStep,
        &[(3, 2), (3, 2), (3, 2), (3, 2), (1, 1), (1, 1), (1, 1), (1, 1), (1, 1)],
        &[(3, 2), (3, 2), (3, 2), (1, 1)]
    ));
    assert!(!check_shapes(
        OpCode::AdamStep,
        &[(3, 2), (3, 2), (3, 2), (3, 2), (1, 2), (1, 1), (1, 1), (1, 1), (1, 1)],
        &[(3, 2), (3, 2), (3, 2), (1, 1)]
    ));
}

#[test]
fn machine_refuses_mismatched_loss_and_bad_optimizer() {
    let mut device = Device::new();
    let model = PerceptronModel::new(&mut device);
    let backend = RecordingBackend { executed: vec![], allocated: 0 };
    let result = NeuralMachine::try_new(&mut device, &model, &ResidualSumOfSquares::new(), &GradientDescent::new(1, 0), backend);
    assert_eq!(result.err().unwrap(), Error::UnsupportedOperation);
}
