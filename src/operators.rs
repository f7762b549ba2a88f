//! Graph builders. Each one checks the shapes of its inputs, allocates an
//! output node with zeroed value and gradient, and records the instructions
//! that compute the output (after two clears) and those that carry the
//! output's gradient back into the gradients of the inputs that want one.
use vstd::prelude::*;

use crate::device::{Node, node_wf, push_instruction, shape_of, views, Device, Init, TensorInfo, TensorWithGrad, well_shaped};
use crate::error::Error;
use crate::instruction::{instr, Category, Instruction, InstructionView, OpCode};

verus! {

pub open spec fn zero_info() -> TensorInfo {
    TensorInfo { rows: 1, cols: 1, requires_grad: false, is_parameter: false, init: Init::Zeros }
}

/// The tensors an output node brings: a 1x1 zero, its value, and its gradient.
pub open spec fn output_tensors(rows: usize, cols: usize) -> Seq<TensorInfo> {
    seq![
        zero_info(),
        TensorInfo { rows, cols, requires_grad: false, is_parameter: false, init: Init::Zeros },
        TensorInfo { rows, cols, requires_grad: true, is_parameter: false, init: Init::Zeros },
    ]
}

/// `ScalarMul` by a zero: clears `t`.
pub open spec fn clear_view(zero: usize, t: usize) -> InstructionView {
    instr(OpCode::ScalarMul, seq![zero, t], seq![t], Category::Inference)
}

pub open spec fn inference(op: OpCode, inputs: Seq<usize>, outputs: Seq<usize>) -> InstructionView {
    instr(op, inputs, outputs, Category::Inference)
}

pub open spec fn loss(op: OpCode, inputs: Seq<usize>, outputs: Seq<usize>) -> InstructionView {
    instr(op, inputs, outputs, Category::Loss)
}

pub open spec fn gradient(op: OpCode, inputs: Seq<usize>, outputs: Seq<usize>) -> InstructionView {
    instr(op, inputs, outputs, Category::Gradient)
}

/// `new` is `old` with one more node `out` of shape `rows x cols`, over the
/// added tensors `added`, with these inputs and instructions.
pub open spec fn built(
    old: &Device,
    new: &Device,
    out: TensorWithGrad,
    added: Seq<TensorInfo>,
    rows: usize,
    cols: usize,
    inputs: Seq<usize>,
    forward: Seq<InstructionView>,
    backward: Seq<InstructionView>,
) -> bool {
    &&& new.wf()
    &&& new.extends(old)
    &&& new.valid(out)
    &&& new.tensors@ == old.tensors@ + added
    &&& new.nodes@.len() == old.nodes@.len() + 1
    &&& new.parameters@ == old.parameters@
    &&& out.node == old.nodes@.len()
    &&& out.rows == rows
    &&& out.cols == cols
    &&& new.nodes@[out.node as int].inputs@ == inputs
    &&& views(new.nodes@[out.node as int].forward_instructions@) == forward
    &&& views(new.nodes@[out.node as int].gradient_instructions@) == backward
}

/// Allocates a 1x1 zero, then the value and the gradient of a new node.
fn alloc_output(device: &mut Device, rows: usize, cols: usize) -> (r: (usize, usize, usize))
    requires
        old(device).wf(),
    ensures
        final(device).wf(),
        final(device).extends(old(device)),
        r.0 == old(device).tensors@.len(),
        r.1 == r.0 + 1,
        r.2 == r.0 + 2,
        final(device).tensors@ == old(device).tensors@ + output_tensors(rows, cols),
        final(device).nodes@ == old(device).nodes@,
        final(device).parameters@ == old(device).parameters@,
{
    let zero = device.tensor(1, 1, false, false, Init::Zeros);
    let value = device.tensor(rows, cols, false, false, Init::Zeros);
    let gradient = device.tensor(rows, cols, true, false, Init::Zeros);
    assert(device.tensors@ =~= old(device).tensors@ + output_tensors(rows, cols));
    (zero, value, gradient)
}

fn one(op: OpCode, a: usize, out: usize, category: Category) -> (r: Instruction)
    ensures
        r@ == instr(op, seq![a], seq![out], category),
{
    let r = Instruction::new(op, vec![a].as_slice(), vec![out].as_slice(), category);
    assert(r@.inputs =~= seq![a]);
    assert(r@.outputs =~= seq![out]);
    r
}

pub(crate) fn two_inputs(op: OpCode, a: usize, b: usize, out: usize, category: Category) -> (r: Instruction)
    ensures
        r@ == instr(op, seq![a, b], seq![out], category),
{
    let r = Instruction::new(op, vec![a, b].as_slice(), vec![out].as_slice(), category);
    assert(r@.inputs =~= seq![a, b]);
    assert(r@.outputs =~= seq![out]);
    r
}

fn three(op: OpCode, a: usize, b: usize, c: usize, out: usize, category: Category) -> (r: Instruction)
    ensures
        r@ == instr(op, seq![a, b, c], seq![out], category),
{
    let r = Instruction::new(op, vec![a, b, c].as_slice(), vec![out].as_slice(), category);
    assert(r@.inputs =~= seq![a, b, c]);
    assert(r@.outputs =~= seq![out]);
    r
}

/// The two clears of a new node's value and gradient.
fn clears(zero: usize, value: usize, gradient: usize) -> (r: Vec<Instruction>)
    ensures
        views(r@) == seq![clear_view(zero, value), clear_view(zero, gradient)],
{
    clears_in(zero, value, gradient, Category::Inference)
}

/// The two clears of a new node's value and gradient, in phase `category`.
fn clears_in(zero: usize, value: usize, gradient: usize, category: Category) -> (r: Vec<Instruction>)
    ensures
        views(r@) == seq![
            instr(OpCode::ScalarMul, seq![zero, value], seq![value], category),
            instr(OpCode::ScalarMul, seq![zero, gradient], seq![gradient], category),
        ],
{
    let mut r: Vec<Instruction> = Vec::new();
    push_instruction(&mut r, two_inputs(OpCode::ScalarMul, zero, value, value, category));
    push_instruction(&mut r, two_inputs(OpCode::ScalarMul, zero, gradient, gradient, category));
    assert(views(r@) =~= seq![
        instr(OpCode::ScalarMul, seq![zero, value], seq![value], category),
        instr(OpCode::ScalarMul, seq![zero, gradient], seq![gradient], category),
    ]);
    r
}

/// Adds the output node once its instructions are known to be well shaped.
fn finish(
    device: &mut Device,
    value: usize,
    gradient: usize,
    inputs: Vec<usize>,
    forward: Vec<Instruction>,
    backward: Vec<Instruction>,
    is_parameter: bool,
) -> (r: TensorWithGrad)
    requires
        old(device).wf(),
        value < old(device).tensors@.len(),
        gradient < old(device).tensors@.len(),
        value != gradient,
        shape_of(old(device).tensors@, value) == shape_of(old(device).tensors@, gradient),
        forall|q: int| 0 <= q < inputs@.len() ==> (#[trigger] inputs@[q]) < old(device).nodes@.len(),
        forall|q: int| 0 <= q < views(forward@).len() ==> well_shaped(old(device).tensors@, #[trigger] views(forward@)[q]),
        forall|q: int| 0 <= q < views(backward@).len() ==> well_shaped(old(device).tensors@, #[trigger] views(backward@)[q]),
    ensures
        final(device).wf(),
        final(device).extends(old(device)),
        final(device).valid(r),
        r.node == old(device).nodes@.len(),
        r.value == value,
        r.gradient == gradient,
        (r.rows, r.cols) == shape_of(old(device).tensors@, value),
        final(device).tensors@ == old(device).tensors@,
        final(device).nodes@.len() == old(device).nodes@.len() + 1,
        final(device).nodes@[r.node as int].inputs@ == inputs@,
        views(final(device).nodes@[r.node as int].forward_instructions@) == views(forward@),
        views(final(device).nodes@[r.node as int].gradient_instructions@) == views(backward@),
        final(device).parameters@ == if is_parameter {
            old(device).parameters@.push(r.node)
        } else {
            old(device).parameters@
        },
{
    proof {
        assert forall|q: int| 0 <= q < forward@.len() implies well_shaped(device.tensors@, (#[trigger] forward@[q])@) by {
            assert(views(forward@)[q] == forward@[q]@);
        }
        assert forall|q: int| 0 <= q < backward@.len() implies well_shaped(device.tensors@, (#[trigger] backward@[q])@) by {
            assert(views(backward@)[q] == backward@[q]@);
        }
    }
    device.add_node(value, gradient, inputs, forward, backward, is_parameter)
}

/// A parameter node: its value is updated by an optimizer, its gradient is wanted.
fn parameter(device: &mut Device, rows: usize, cols: usize, init: Init) -> (r: TensorWithGrad)
    requires
        old(device).wf(),
    ensures
        final(device).wf(),
        final(device).extends(old(device)),
        final(device).valid(r),
        r.rows == rows,
        r.cols == cols,
        r.node == old(device).nodes@.len(),
        final(device).tensors@ == old(device).tensors@ + parameter_tensors(rows, cols, init),
        final(device).nodes@.len() == old(device).nodes@.len() + 1,
        final(device).nodes@[r.node as int].inputs@.len() == 0,
        views(final(device).nodes@[r.node as int].forward_instructions@) == Seq::<InstructionView>::empty(),
        views(final(device).nodes@[r.node as int].gradient_instructions@) == Seq::<InstructionView>::empty(),
        final(device).parameters@ == old(device).parameters@.push(r.node),
{
    let value = device.tensor(rows, cols, false, true, init);
    let gradient = device.tensor(rows, cols, true, false, Init::Zeros);
    assert(device.tensors@ =~= old(device).tensors@ + parameter_tensors(rows, cols, init));
    let forward: Vec<Instruction> = Vec::new();
    let backward: Vec<Instruction> = Vec::new();
    assert(views(forward@) =~= Seq::<InstructionView>::empty());
    assert(views(backward@) =~= Seq::<InstructionView>::empty());
    let r = finish(device, value, gradient, Vec::new(), forward, backward, true);
    assert(device.nodes@[r.node as int].inputs@.len() == 0);
    r
}

pub open spec fn parameter_tensors(rows: usize, cols: usize, init: Init) -> Seq<TensorInfo> {
    seq![
        TensorInfo { rows, cols, requires_grad: false, is_parameter: true, init },
        TensorInfo { rows, cols, requires_grad: true, is_parameter: false, init: Init::Zeros },
    ]
}

pub open spec fn scratch_info(rows: usize, cols: usize) -> TensorInfo {
    TensorInfo { rows, cols, requires_grad: false, is_parameter: false, init: Init::Zeros }
}

/// The instructions that compute a unary node `v` from `x` with `op`, after the clears.
pub open spec fn unary_forward(op: OpCode, x: TensorWithGrad, z: usize, v: usize, g: usize) -> Seq<InstructionView> {
    seq![clear_view(z, v), clear_view(z, g), inference(op, seq![x.value], seq![v])]
}

/// The output of a unary builder whose output has the input's shape and whose
/// gradient instructions are `backward` when the input wants a gradient.
pub open spec fn unary_built(
    old: &Device,
    new: &Device,
    x: TensorWithGrad,
    out: TensorWithGrad,
    added: Seq<TensorInfo>,
    forward: Seq<InstructionView>,
    backward: Seq<InstructionView>,
) -> bool {
    let z = old.tensors@.len() as usize;
    &&& built(old, new, out, added, x.rows, x.cols, seq![x.node], forward,
        if old.wants_gradient(x) { backward } else { Seq::empty() })
    &&& out.value == z + 1
    &&& out.gradient == z + 2
}

/// The shapes of a matrix product `a * b`, or `a * b^T` when `transb` holds, fit.
pub open spec fn matmul_compatible(transb: bool, a: TensorWithGrad, b: TensorWithGrad) -> bool {
    if transb { a.cols == b.cols } else { a.cols == b.rows }
}

/// The gradient instructions of a matrix product `c = a * op(b)`.
pub open spec fn matmul_backward(transb: bool, a: TensorWithGrad, b: TensorWithGrad, g: usize, grad_a: bool, grad_b: bool) -> Seq<InstructionView> {
    (if grad_b {
        seq![gradient(OpCode::Gemm(true, false, transb), seq![a.value, g, b.gradient], seq![b.gradient])]
    } else {
        Seq::empty()
    }) + (if grad_a {
        seq![gradient(OpCode::Gemm(false, !transb, false), seq![g, b.value, a.gradient], seq![a.gradient])]
    } else {
        Seq::empty()
    })
}

/// Matrix product of two nodes, the second one transposed when `transb` holds.
#[derive(Clone, Copy, Debug)]
pub struct MatMul {
    pub transb: bool,
}

impl MatMul {
    pub fn new(transb: bool) -> (r: Self)
        ensures
            r.transb == transb,
    {
        MatMul { transb }
    }

    pub fn forward(&self, device: &mut Device, input_0: TensorWithGrad, input_1: TensorWithGrad) -> (r: Result<TensorWithGrad, Error>)
        requires
            old(device).wf(),
            old(device).valid(input_0),
            old(device).valid(input_1),
        ensures
            r is Ok <==> matmul_compatible(self.transb, input_0, input_1),
            r is Err ==> r == Err::<TensorWithGrad, Error>(Error::IncompatibleTensorShapes) && *final(device) == *old(device),
            r matches Ok(out) ==> {
                let z = old(device).tensors@.len() as usize;
                let cols = if self.transb { input_1.rows } else { input_1.cols };
                &&& built(old(device), final(device), out, output_tensors(input_0.rows, cols), input_0.rows, cols,
                    seq![input_0.node, input_1.node],
                    seq![
                        clear_view(z, out.value),
                        clear_view(z, out.gradient),
                        inference(OpCode::Gemm(false, self.transb, false), seq![input_0.value, input_1.value, out.value], seq![out.value]),
                    ],
                    matmul_backward(self.transb, input_0, input_1, out.gradient,
                        old(device).wants_gradient(input_0), old(device).wants_gradient(input_1)))
                &&& out.value == z + 1
                &&& out.gradient == z + 2
            },
    {
        let transb = self.transb;
        let compatible = if transb { input_0.cols == input_1.cols } else { input_0.cols == input_1.rows };
        if !compatible {
            return Err(Error::IncompatibleTensorShapes);
        }
        let rows = input_0.rows;
        let cols = if transb { input_1.rows } else { input_1.cols };
        proof {
            lemma_valid(device, input_0);
            lemma_valid(device, input_1);
        }
        let grad_a = device.tensors[input_0.gradient].requires_grad;
        let grad_b = device.tensors[input_1.gradient].requires_grad;
        let ghost d0 = *device;
        let (zero, value, gradient) = alloc_output(device, rows, cols);
        let mut forward = clears(zero, value, gradient);
        push_instruction(&mut forward, three(OpCode::Gemm(false, transb, false), input_0.value, input_1.value, value, value, Category::Inference));
        let mut backward: Vec<Instruction> = Vec::new();
        if grad_b {
            push_instruction(&mut backward, three(OpCode::Gemm(true, false, transb), input_0.value, gradient, input_1.gradient, input_1.gradient, Category::Gradient));
        }
        if grad_a {
            push_instruction(&mut backward, three(OpCode::Gemm(false, !transb, false), gradient, input_1.value, input_0.gradient, input_0.gradient, Category::Gradient));
        }
        let ghost t = device.tensors@;
        proof {
            assert(shape_of(t, input_0.value) == shape_of(d0.tensors@, input_0.value));
            assert(shape_of(t, input_1.value) == shape_of(d0.tensors@, input_1.value));
            assert(node_shapes(d0, input_0));
            assert(node_shapes(d0, input_1));
            assert(views(forward@) =~= seq![
                clear_view(zero, value),
                clear_view(zero, gradient),
                inference(OpCode::Gemm(false, transb, false), seq![input_0.value, input_1.value, value], seq![value]),
            ]);
            assert(views(backward@) =~= matmul_backward(transb, input_0, input_1, gradient, grad_a, grad_b));
            assert forall|q: int| 0 <= q < forward@.len() implies well_shaped(t, (#[trigger] forward@[q])@) by {
                assert(views(forward@)[q] == forward@[q]@);
            }
            assert forall|q: int| 0 <= q < backward@.len() implies well_shaped(t, (#[trigger] backward@[q])@) by {
                assert(views(backward@)[q] == backward@[q]@);
            }
        }
        let out = device.add_node(value, gradient, vec![input_0.node, input_1.node], forward, backward, false);
        assert(device.nodes@[out.node as int].inputs@ =~= seq![input_0.node, input_1.node]);
        Ok(out)
    }
}

/// Logistic function, element-wise.
#[derive(Clone, Copy, Debug)]
pub struct Sigmoid {}

impl Sigmoid {
    pub fn new() -> (r: Self) {
        Sigmoid {}
    }

    pub fn forward(&self, device: &mut Device, input: TensorWithGrad) -> (r: TensorWithGrad)
        requires
            old(device).wf(),
            old(device).valid(input),
        ensures
            ({
                let z = old(device).tensors@.len() as usize;
                unary_built(old(device), final(device), input, r, output_tensors(input.rows, input.cols),
                    unary_forward(OpCode::Sigmoid, input, z, r.value, r.gradient),
                    seq![gradient(OpCode::SigmoidBackward, seq![r.value, r.gradient, input.gradient], seq![input.gradient])])
            }),
    {
        activation(device, input, OpCode::Sigmoid, OpCode::SigmoidBackward)
    }
}

/// A unary node computed by `op`, whose gradient is carried back by `backward_op`
/// from the output value and gradient into the input gradient.
fn activation(device: &mut Device, input: TensorWithGrad, op: OpCode, backward_op: OpCode) -> (r: TensorWithGrad)
    requires
        old(device).wf(),
        old(device).valid(input),
        op == OpCode::Sigmoid || op == OpCode::Softmax,
        backward_op == OpCode::SigmoidBackward || backward_op == OpCode::SoftmaxBackward,
    ensures
        ({
            let z = old(device).tensors@.len() as usize;
            unary_built(old(device), final(device), input, r, output_tensors(input.rows, input.cols),
                unary_forward(op, input, z, r.value, r.gradient),
                seq![gradient(backward_op, seq![r.value, r.gradient, input.gradient], seq![input.gradient])])
        }),
{
    proof {
        lemma_valid(device, input);
    }
    let wants = device.tensors[input.gradient].requires_grad;
    let (zero, value, gradient_name) = alloc_output(device, input.rows, input.cols);
    let mut forward = clears(zero, value, gradient_name);
    push_instruction(&mut forward, one(op, input.value, value, Category::Inference));
    let mut backward: Vec<Instruction> = Vec::new();
    if wants {
        push_instruction(&mut backward, three(backward_op, value, gradient_name, input.gradient, input.gradient, Category::Gradient));
    }
    proof {
        assert(views(forward@) =~= unary_forward(op, input, zero, value, gradient_name));
        assert(views(backward@) =~= if wants {
            seq![gradient(backward_op, seq![value, gradient_name, input.gradient], seq![input.gradient])]
        } else {
            Seq::empty()
        });
    }
    let out = finish(device, value, gradient_name, vec![input.node], forward, backward, false);
    assert(device.nodes@[out.node as int].inputs@ =~= seq![input.node]);
    out
}

/// Row-wise softmax. When the next operator is a cross-entropy loss, whose
/// gradient already accounts for the softmax, the gradient passes through.
#[derive(Clone, Copy, Debug)]
pub struct Softmax {
    pub next_op_is_cross_entropy_loss: bool,
}

impl Softmax {
    pub fn new(next_op_is_cross_entropy_loss: bool) -> (r: Self)
        ensures
            r.next_op_is_cross_entropy_loss == next_op_is_cross_entropy_loss,
    {
        Softmax { next_op_is_cross_entropy_loss }
    }

    pub fn forward(&self, device: &mut Device, input: TensorWithGrad) -> (r: TensorWithGrad)
        requires
            old(device).wf(),
            old(device).valid(input),
        ensures
            ({
                let z = old(device).tensors@.len() as usize;
                unary_built(old(device), final(device), input, r, output_tensors(input.rows, input.cols),
                    unary_forward(OpCode::Softmax, input, z, r.value, r.gradient),
                    if self.next_op_is_cross_entropy_loss {
                        seq![gradient(OpCode::Add, seq![input.gradient, r.gradient], seq![input.gradient])]
                    } else {
                        seq![gradient(OpCode::SoftmaxBackward, seq![r.value, r.gradient, input.gradient], seq![input.gradient])]
                    })
            }),
    {
        if self.next_op_is_cross_entropy_loss {
            pass_through(device, input, OpCode::Softmax)
        } else {
            activation(device, input, OpCode::Softmax, OpCode::SoftmaxBackward)
        }
    }
}

/// A unary node computed by `op` whose gradient is added as it is to the input gradient.
fn pass_through(device: &mut Device, input: TensorWithGrad, op: OpCode) -> (r: TensorWithGrad)
    requires
        old(device).wf(),
        old(device).valid(input),
        op == OpCode::Softmax || op == OpCode::Sigmoid || op == OpCode::Mask || op == OpCode::ClipNorm,
    ensures
        ({
            let z = old(device).tensors@.len() as usize;
            unary_built(old(device), final(device), input, r, output_tensors(input.rows, input.cols),
                unary_forward(op, input, z, r.value, r.gradient),
                seq![gradient(OpCode::Add, seq![input.gradient, r.gradient], seq![input.gradient])])
        }),
{
    proof {
        lemma_valid(device, input);
    }
    let wants = device.tensors[input.gradient].requires_grad;
    let (zero, value, gradient_name) = alloc_output(device, input.rows, input.cols);
    let mut forward = clears(zero, value, gradient_name);
    push_instruction(&mut forward, one(op, input.value, value, Category::Inference));
    let mut backward: Vec<Instruction> = Vec::new();
    if wants {
        push_instruction(&mut backward, two_inputs(OpCode::Add, input.gradient, gradient_name, input.gradient, Category::Gradient));
    }
    proof {
        assert(views(forward@) =~= unary_forward(op, input, zero, value, gradient_name));
        assert(views(backward@) =~= if wants {
            seq![gradient(OpCode::Add, seq![input.gradient, gradient_name], seq![input.gradient])]
        } else {
            Seq::empty()
        });
    }
    let out = finish(device, value, gradient_name, vec![input.node], forward, backward, false);
    assert(device.nodes@[out.node as int].inputs@ =~= seq![input.node]);
    out
}

/// A dense layer `Y = X * W^T + B`, with `W` of shape `out x in` and `B` of shape `rows x out`.
#[derive(Clone, Copy, Debug)]
pub struct Linear {
    pub weights: TensorWithGrad,
    pub biases: TensorWithGrad,
}

/// The gradient instructions of a dense layer.
pub open spec fn linear_backward(x: TensorWithGrad, w: TensorWithGrad, b: TensorWithGrad, g: usize, grad_x: bool, grad_w: bool, grad_b: bool) -> Seq<InstructionView> {
    (if grad_w {
        seq![gradient(OpCode::Gemm(true, false, true), seq![x.value, g, w.gradient], seq![w.gradient])]
    } else {
        Seq::empty()
    }) + (if grad_b {
        seq![gradient(OpCode::Add, seq![b.gradient, g], seq![b.gradient])]
    } else {
        Seq::empty()
    }) + (if grad_x {
        seq![gradient(OpCode::Gemm(false, false, false), seq![g, w.value, x.gradient], seq![x.gradient])]
    } else {
        Seq::empty()
    })
}

impl Linear {
    /// Registers the weights (Xavier-initialised) and the zeroed biases as parameters.
    pub fn new(device: &mut Device, weights_rows: usize, weights_cols: usize, bias_rows: usize) -> (r: Self)
        requires
            old(device).wf(),
        ensures
            final(device).wf(),
            final(device).extends(old(device)),
            final(device).valid(r.weights),
            final(device).valid(r.biases),
            (r.weights.rows, r.weights.cols) == (weights_rows, weights_cols),
            (r.biases.rows, r.biases.cols) == (bias_rows, weights_rows),
            final(device).tensors@ == old(device).tensors@ + parameter_tensors(weights_rows, weights_cols, Init::XavierUniform)
                + parameter_tensors(bias_rows, weights_rows, Init::Zeros),
            final(device).parameters@ == old(device).parameters@.push(r.weights.node).push(r.biases.node),
    {
        let weights = parameter(device, weights_rows, weights_cols, Init::XavierUniform);
        let ghost d1 = *device;
        let biases = parameter(device, bias_rows, weights_rows, Init::Zeros);
        proof {
            lemma_valid_extends(&d1, device, weights);
        }
        Linear { weights, biases }
    }

    pub fn forward(&self, device: &mut Device, input: TensorWithGrad) -> (r: Result<TensorWithGrad, Error>)
        requires
            old(device).wf(),
            old(device).valid(input),
            old(device).valid(self.weights),
            old(device).valid(self.biases),
        ensures
            r is Ok <==> (input.cols == self.weights.cols && input.rows == self.biases.rows
                && self.biases.cols == self.weights.rows),
            r is Err ==> r == Err::<TensorWithGrad, Error>(Error::IncompatibleTensorShapes) && *final(device) == *old(device),
            r matches Ok(out) ==> {
                let z = old(device).tensors@.len() as usize;
                let (w, b) = (self.weights, self.biases);
                &&& built(old(device), final(device), out, output_tensors(input.rows, w.rows), input.rows, w.rows,
                    seq![input.node, w.node, b.node],
                    seq![
                        clear_view(z, out.value),
                        clear_view(z, out.gradient),
                        inference(OpCode::Add, seq![out.value, b.value], seq![out.value]),
                        inference(OpCode::Gemm(false, true, false), seq![input.value, w.value, out.value], seq![out.value]),
                    ],
                    linear_backward(input, w, b, out.gradient, old(device).wants_gradient(input),
                        old(device).wants_gradient(w), old(device).wants_gradient(b)))
                &&& out.value == z + 1
                &&& out.gradient == z + 2
            },
    {
        let w = self.weights;
        let b = self.biases;
        if input.cols != w.cols || input.rows != b.rows || b.cols != w.rows {
            return Err(Error::IncompatibleTensorShapes);
        }
        proof {
            lemma_valid(device, input);
            lemma_valid(device, w);
            lemma_valid(device, b);
        }
        let grad_x = device.tensors[input.gradient].requires_grad;
        let grad_w = device.tensors[w.gradient].requires_grad;
        let grad_b = device.tensors[b.gradient].requires_grad;
        let ghost d0 = *device;
        let (zero, value, g) = alloc_output(device, input.rows, w.rows);
        let mut forward = clears(zero, value, g);
        push_instruction(&mut forward, two_inputs(OpCode::Add, value, b.value, value, Category::Inference));
        push_instruction(&mut forward, three(OpCode::Gemm(false, true, false), input.value, w.value, value, value, Category::Inference));
        let mut backward: Vec<Instruction> = Vec::new();
        if grad_w {
            push_instruction(&mut backward, three(OpCode::Gemm(true, false, true), input.value, g, w.gradient, w.gradient, Category::Gradient));
        }
        if grad_b {
            push_instruction(&mut backward, two_inputs(OpCode::Add, b.gradient, g, b.gradient, Category::Gradient));
        }
        if grad_x {
            push_instruction(&mut backward, three(OpCode::Gemm(false, false, false), g, w.value, input.gradient, input.gradient, Category::Gradient));
        }
        proof {
            assert(views(forward@) =~= seq![
                clear_view(zero, value),
                clear_view(zero, g),
                inference(OpCode::Add, seq![value, b.value], seq![value]),
                inference(OpCode::Gemm(false, true, false), seq![input.value, w.value, value], seq![value]),
            ]);
            assert(views(backward@) =~= linear_backward(input, w, b, g, grad_x, grad_w, grad_b));
        }
        let out = finish(device, value, g, vec![input.node, w.node, b.node], forward, backward, false);
        assert(device.nodes@[out.node as int].inputs@ =~= seq![input.node, w.node, b.node]);
        Ok(out)
    }
}

/// An embedding table `num_embeddings x embedding_dim`: a one-hot input row
/// picks a row of the table.
#[derive(Clone, Copy, Debug)]
pub struct Embedding {
    pub table: TensorWithGrad,
}

impl Embedding {
    /// Registers the table, uniformly initialised in `[0, 1)`, as a parameter.
    pub fn new(device: &mut Device, num_embeddings: usize, embedding_dim: usize) -> (r: Self)
        requires
            old(device).wf(),
        ensures
            final(device).wf(),
            final(device).extends(old(device)),
            final(device).valid(r.table),
            (r.table.rows, r.table.cols) == (num_embeddings, embedding_dim),
            final(device).tensors@ == old(device).tensors@ + parameter_tensors(num_embeddings, embedding_dim, Init::UniformUnit),
            final(device).parameters@ == old(device).parameters@.push(r.table.node),
    {
        Embedding { table: parameter(device, num_embeddings, embedding_dim, Init::UniformUnit) }
    }

    pub fn forward(&self, device: &mut Device, input: TensorWithGrad) -> (r: Result<TensorWithGrad, Error>)
        requires
            old(device).wf(),
            old(device).valid(input),
            old(device).valid(self.table),
        ensures
            r is Ok <==> input.cols == self.table.rows,
            r is Err ==> r == Err::<TensorWithGrad, Error>(Error::IncompatibleTensorShapes) && *final(device) == *old(device),
            r matches Ok(out) ==> {
                let z = old(device).tensors@.len() as usize;
                let t = self.table;
                &&& built(old(device), final(device), out, output_tensors(input.rows, t.cols), input.rows, t.cols,
                    seq![input.node, t.node],
                    seq![
                        clear_view(z, out.value),
                        clear_view(z, out.gradient),
                        inference(OpCode::Gemm(false, false, false), seq![input.value, t.value, out.value], seq![out.value]),
                    ],
                    if old(device).wants_gradient(t) {
                        seq![gradient(OpCode::Gemm(true, false, false), seq![input.value, out.gradient, t.gradient], seq![t.gradient])]
                    } else {
                        Seq::empty()
                    })
                &&& out.value == z + 1
                &&& out.gradient == z + 2
            },
    {
        let t = self.table;
        if input.cols != t.rows {
            return Err(Error::IncompatibleTensorShapes);
        }
        proof {
            lemma_valid(device, input);
            lemma_valid(device, t);
        }
        let grad_t = device.tensors[t.gradient].requires_grad;
        let (zero, value, g) = alloc_output(device, input.rows, t.cols);
        let mut forward = clears(zero, value, g);
        push_instruction(&mut forward, three(OpCode::Gemm(false, false, false), input.value, t.value, value, value, Category::Inference));
        let mut backward: Vec<Instruction> = Vec::new();
        if grad_t {
            push_instruction(&mut backward, three(OpCode::Gemm(true, false, false), input.value, g, t.gradient, t.gradient, Category::Gradient));
        }
        proof {
            assert(views(forward@) =~= seq![
                clear_view(zero, value),
                clear_view(zero, g),
                inference(OpCode::Gemm(false, false, false), seq![input.value, t.value, value], seq![value]),
            ]);
            assert(views(backward@) =~= if grad_t {
                seq![gradient(OpCode::Gemm(true, false, false), seq![input.value, g, t.gradient], seq![t.gradient])]
            } else {
                Seq::empty()
            });
        }
        let out = finish(device, value, g, vec![input.node, t.node], forward, backward, false);
        assert(device.nodes@[out.node as int].inputs@ =~= seq![input.node, t.node]);
        Ok(out)
    }
}

/// Copies its input; the gradient is added back as it is.
#[derive(Clone, Copy, Debug)]
pub struct Identity {}

impl Identity {
    pub fn new() -> (r: Self) {
        Identity {}
    }

    pub fn forward(&self, device: &mut Device, input: TensorWithGrad) -> (r: TensorWithGrad)
        requires
            old(device).wf(),
            old(device).valid(input),
        ensures
            ({
                let z = old(device).tensors@.len() as usize;
                unary_built(old(device), final(device), input, r, output_tensors(input.rows, input.cols),
                    seq![
                        clear_view(z, r.value),
                        clear_view(z, r.gradient),
                        inference(OpCode::Add, seq![r.value, input.value], seq![r.value]),
                    ],
                    seq![gradient(OpCode::Add, seq![input.gradient, r.gradient], seq![input.gradient])])
            }),
    {
        proof {
            lemma_valid(device, input);
        }
        let wants = device.tensors[input.gradient].requires_grad;
        let (zero, value, g) = alloc_output(device, input.rows, input.cols);
        let mut forward = clears(zero, value, g);
        push_instruction(&mut forward, two_inputs(OpCode::Add, value, input.value, value, Category::Inference));
        let mut backward: Vec<Instruction> = Vec::new();
        if wants {
            push_instruction(&mut backward, two_inputs(OpCode::Add, input.gradient, g, input.gradient, Category::Gradient));
        }
        proof {
            assert(views(forward@) =~= seq![
                clear_view(zero, value),
                clear_view(zero, g),
                inference(OpCode::Add, seq![value, input.value], seq![value]),
            ]);
            assert(views(backward@) =~= if wants {
                seq![gradient(OpCode::Add, seq![input.gradient, g], seq![input.gradient])]
            } else {
                Seq::empty()
            });
        }
        let out = finish(device, value, g, vec![input.node], forward, backward, false);
        assert(device.nodes@[out.node as int].inputs@ =~= seq![input.node]);
        out
    }
}

/// The instructions of a loss node `v` over `(expected, actual)`, in the loss phase.
pub open spec fn loss_forward(op: OpCode, e: TensorWithGrad, a: TensorWithGrad, z: usize, v: usize, g: usize) -> Seq<InstructionView> {
    seq![
        loss(OpCode::ScalarMul, seq![z, v], seq![v]),
        loss(OpCode::ScalarMul, seq![z, g], seq![g]),
        loss(op, seq![e.value, a.value], seq![v]),
    ]
}

/// A 1x1 loss node over `(expected, actual)`, whose gradient with respect to
/// `actual` is `actual - expected`, written by one `Sub`.
fn difference_loss(device: &mut Device, expected: TensorWithGrad, actual: TensorWithGrad, op: OpCode) -> (r: Result<TensorWithGrad, Error>)
    requires
        old(device).wf(),
        old(device).valid(expected),
        old(device).valid(actual),
        op == OpCode::CrossEntropyLoss,
    ensures
        r is Ok <==> (expected.rows == actual.rows && expected.cols == actual.cols),
        r is Err ==> r == Err::<TensorWithGrad, Error>(Error::IncompatibleTensorShapes) && *final(device) == *old(device),
        r matches Ok(out) ==> {
            let z = old(device).tensors@.len() as usize;
            &&& built(old(device), final(device), out, output_tensors(1, 1), 1, 1, seq![expected.node, actual.node],
                loss_forward(op, expected, actual, z, out.value, out.gradient),
                if old(device).wants_gradient(actual) {
                    seq![gradient(OpCode::Sub, seq![actual.value, expected.value], seq![actual.gradient])]
                } else {
                    Seq::empty()
                })
            &&& out.value == z + 1
            &&& out.gradient == z + 2
        },
{
    if expected.rows != actual.rows || expected.cols != actual.cols {
        return Err(Error::IncompatibleTensorShapes);
    }
    proof {
        lemma_valid(device, expected);
        lemma_valid(device, actual);
    }
    let wants = device.tensors[actual.gradient].requires_grad;
    let (zero, value, g) = alloc_output(device, 1, 1);
    let mut forward = clears_in(zero, value, g, Category::Loss);
    push_instruction(&mut forward, two_inputs(op, expected.value, actual.value, value, Category::Loss));
    let mut backward: Vec<Instruction> = Vec::new();
    if wants {
        push_instruction(&mut backward, two_inputs(OpCode::Sub, actual.value, expected.value, actual.gradient, Category::Gradient));
    }
    proof {
        assert(views(forward@) =~= loss_forward(op, expected, actual, zero, value, g));
        assert(views(backward@) =~= if wants {
            seq![gradient(OpCode::Sub, seq![actual.value, expected.value], seq![actual.gradient])]
        } else {
            Seq::empty()
        });
    }
    let out = finish(device, value, g, vec![expected.node, actual.node], forward, backward, false);
    assert(device.nodes@[out.node as int].inputs@ =~= seq![expected.node, actual.node]);
    Ok(out)
}

/// Cross-entropy of `actual` (probabilities) against `expected`.
#[derive(Clone, Copy, Debug)]
pub struct CrossEntropyLoss {}

impl CrossEntropyLoss {
    pub fn new() -> (r: Self) {
        CrossEntropyLoss {}
    }

    pub fn forward(&self, device: &mut Device, expected: TensorWithGrad, actual: TensorWithGrad) -> (r: Result<TensorWithGrad, Error>)
        requires
            old(device).wf(),
            old(device).valid(expected),
            old(device).valid(actual),
        ensures
            r is Ok <==> (expected.rows == actual.rows && expected.cols == actual.cols),
            r is Err ==> r == Err::<TensorWithGrad, Error>(Error::IncompatibleTensorShapes) && *final(device) == *old(device),
            r matches Ok(out) ==> {
                let z = old(device).tensors@.len() as usize;
                &&& built(old(device), final(device), out, output_tensors(1, 1), 1, 1, seq![expected.node, actual.node],
                    loss_forward(OpCode::CrossEntropyLoss, expected, actual, z, out.value, out.gradient),
                    if old(device).wants_gradient(actual) {
                        seq![gradient(OpCode::Sub, seq![actual.value, expected.value], seq![actual.gradient])]
                    } else {
                        Seq::empty()
                    })
                &&& out.value == z + 1
                &&& out.gradient == z + 2
            },
    {
        difference_loss(device, expected, actual, OpCode::CrossEntropyLoss)
    }
}

/// Cross-entropy of the softmax of `actual` (logits) against `expected`, in one kernel.
#[derive(Clone, Copy, Debug)]
pub struct SoftmaxCrossEntropyLoss {}

impl SoftmaxCrossEntropyLoss {
    pub fn new() -> (r: Self) {
        SoftmaxCrossEntropyLoss {}
    }

    /// The gradient with respect to the logits is `softmax(actual) - expected`:
    /// the softmax is written into a scratch tensor, then one `Sub` writes the
    /// gradient of `actual`.
    pub fn forward(&self, device: &mut Device, expected: TensorWithGrad, actual: TensorWithGrad) -> (r: Result<TensorWithGrad, Error>)
        requires
            old(device).wf(),
            old(device).valid(expected),
            old(device).valid(actual),
        ensures
            r is Ok <==> (expected.rows == actual.rows && expected.cols == actual.cols),
            r is Err ==> r == Err::<TensorWithGrad, Error>(Error::IncompatibleTensorShapes) && *final(device) == *old(device),
            r matches Ok(out) ==> {
                let z = old(device).tensors@.len() as usize;
                let tmp = (z + 3) as usize;
                &&& built(old(device), final(device), out, output_tensors(1, 1).push(scratch_info(actual.rows, actual.cols)),
                    1, 1, seq![expected.node, actual.node],
                    loss_forward(OpCode::SoftmaxCrossEntropyLoss, expected, actual, z, out.value, out.gradient),
                    if old(device).wants_gradient(actual) {
                        seq![
                            gradient(OpCode::Softmax, seq![actual.value], seq![tmp]),
                            gradient(OpCode::Sub, seq![tmp, expected.value], seq![actual.gradient]),
                        ]
                    } else {
                        Seq::empty()
                    })
                &&& out.value == z + 1
                &&& out.gradient == z + 2
            },
    {
        if expected.rows != actual.rows || expected.cols != actual.cols {
            return Err(Error::IncompatibleTensorShapes);
        }
        proof {
            lemma_valid(device, expected);
            lemma_valid(device, actual);
        }
        let wants = device.tensors[actual.gradient].requires_grad;
        let ghost d0 = *device;
        let (zero, value, g) = alloc_output(device, 1, 1);
        let tmp = device.tensor(actual.rows, actual.cols, false, false, Init::Zeros);
        assert(device.tensors@ =~= d0.tensors@ + output_tensors(1, 1).push(scratch_info(actual.rows, actual.cols)));
        let mut forward = clears_in(zero, value, g, Category::Loss);
        push_instruction(&mut forward, two_inputs(OpCode::SoftmaxCrossEntropyLoss, expected.value, actual.value, value, Category::Loss));
        let mut backward: Vec<Instruction> = Vec::new();
        if wants {
            push_instruction(&mut backward, one(OpCode::Softmax, actual.value, tmp, Category::Gradient));
            push_instruction(&mut backward, two_inputs(OpCode::Sub, tmp, expected.value, actual.gradient, Category::Gradient));
        }
        proof {
            assert(views(forward@) =~= loss_forward(OpCode::SoftmaxCrossEntropyLoss, expected, actual, zero, value, g));
            assert(views(backward@) =~= if wants {
                seq![
                    gradient(OpCode::Softmax, seq![actual.value], seq![tmp]),
                    gradient(OpCode::Sub, seq![tmp, expected.value], seq![actual.gradient]),
                ]
            } else {
                Seq::empty()
            });
        }
        let out = finish(device, value, g, vec![expected.node, actual.node], forward, backward, false);
        assert(device.nodes@[out.node as int].inputs@ =~= seq![expected.node, actual.node]);
        Ok(out)
    }
}

/// The sum of squared differences between `expected` and `actual`.
#[derive(Clone, Copy, Debug)]
pub struct ResidualSumOfSquares {}

impl ResidualSumOfSquares {
    pub fn new() -> (r: Self) {
        ResidualSumOfSquares {}
    }

    /// The gradient `2 * (actual - expected)` is formed in a scratch tensor
    /// and added twice into the gradient of `actual`.
    pub fn forward(&self, device: &mut Device, expected: TensorWithGrad, actual: TensorWithGrad) -> (r: Result<TensorWithGrad, Error>)
        requires
            old(device).wf(),
            old(device).valid(expected),
            old(device).valid(actual),
        ensures
            r is Ok <==> (expected.rows == actual.rows && expected.cols == actual.cols),
            r is Err ==> r == Err::<TensorWithGrad, Error>(Error::IncompatibleTensorShapes) && *final(device) == *old(device),
            r matches Ok(out) ==> {
                let z = old(device).tensors@.len() as usize;
                let tmp = (z + 3) as usize;
                &&& built(old(device), final(device), out, output_tensors(1, 1).push(scratch_info(actual.rows, actual.cols)),
                    1, 1, seq![expected.node, actual.node],
                    loss_forward(OpCode::ResidualSumOfSquares, expected, actual, z, out.value, out.gradient),
                    if old(device).wants_gradient(actual) {
                        seq![
                            gradient(OpCode::Sub, seq![actual.value, expected.value], seq![tmp]),
                            gradient(OpCode::Add, seq![actual.gradient, tmp], seq![actual.gradient]),
                            gradient(OpCode::Add, seq![actual.gradient, tmp], seq![actual.gradient]),
                        ]
                    } else {
                        Seq::empty()
                    })
                &&& out.value == z + 1
                &&& out.gradient == z + 2
            },
    {
        if expected.rows != actual.rows || expected.cols != actual.cols {
            return Err(Error::IncompatibleTensorShapes);
        }
        proof {
            lemma_valid(device, expected);
            lemma_valid(device, actual);
        }
        let wants = device.tensors[actual.gradient].requires_grad;
        let ghost d0 = *device;
        let (zero, value, g) = alloc_output(device, 1, 1);
        let tmp = device.tensor(actual.rows, actual.cols, false, false, Init::Zeros);
        assert(device.tensors@ =~= d0.tensors@ + output_tensors(1, 1).push(scratch_info(actual.rows, actual.cols)));
        let mut forward = clears_in(zero, value, g, Category::Loss);
        push_instruction(&mut forward, two_inputs(OpCode::ResidualSumOfSquares, expected.value, actual.value, value, Category::Loss));
        let mut backward: Vec<Instruction> = Vec::new();
        if wants {
            push_instruction(&mut backward, two_inputs(OpCode::Sub, actual.value, expected.value, tmp, Category::Gradient));
            push_instruction(&mut backward, two_inputs(OpCode::Add, actual.gradient, tmp, actual.gradient, Category::Gradient));
            push_instruction(&mut backward, two_inputs(OpCode::Add, actual.gradient, tmp, actual.gradient, Category::Gradient));
        }
        proof {
            assert(views(forward@) =~= loss_forward(OpCode::ResidualSumOfSquares, expected, actual, zero, value, g));
            assert(views(backward@) =~= if wants {
                seq![
                    gradient(OpCode::Sub, seq![actual.value, expected.value], seq![tmp]),
                    gradient(OpCode::Add, seq![actual.gradient, tmp], seq![actual.gradient]),
                    gradient(OpCode::Add, seq![actual.gradient, tmp], seq![actual.gradient]),
                ]
            } else {
                Seq::empty()
            });
        }
        let out = finish(device, value, g, vec![expected.node, actual.node], forward, backward, false);
        assert(device.nodes@[out.node as int].inputs@ =~= seq![expected.node, actual.node]);
        Ok(out)
    }
}

/// A unary node `v` of shape `rows x cols` over `x`: after the clears,
/// `forward` computes it; if `x` wants a gradient, `step` writes the
/// gradient's contribution into the scratch tensor `tmp`, which is then
/// added to the gradient of `x`.
pub open spec fn scratch_built(
    old: &Device,
    new: &Device,
    x: TensorWithGrad,
    out: TensorWithGrad,
    rows: usize,
    cols: usize,
    forward: Seq<InstructionView>,
    step: Seq<InstructionView>,
) -> bool {
    let z = old.tensors@.len() as usize;
    let tmp = (z + 3) as usize;
    &&& built(old, new, out, output_tensors(rows, cols).push(scratch_info(x.rows, x.cols)), rows, cols, seq![x.node],
        seq![clear_view(z, out.value), clear_view(z, out.gradient)] + forward,
        if old.wants_gradient(x) {
            step.push(gradient(OpCode::Add, seq![x.gradient, tmp], seq![x.gradient]))
        } else {
            Seq::empty()
        })
    &&& out.value == z + 1
    &&& out.gradient == z + 2
}

/// Multiplies its input by a 1x1 constant.
#[derive(Clone, Copy, Debug)]
pub struct Scale {
    pub alpha: usize,
}

impl Scale {
    /// Allocates the 1x1 constant.
    pub fn new(device: &mut Device, alpha: Init) -> (r: Self)
        requires
            old(device).wf(),
        ensures
            final(device).wf(),
            final(device).extends(old(device)),
            r.alpha == old(device).tensors@.len(),
            final(device).tensors@ == old(device).tensors@.push(
                TensorInfo { rows: 1, cols: 1, requires_grad: false, is_parameter: false, init: alpha }),
            final(device).nodes@ == old(device).nodes@,
            final(device).parameters@ == old(device).parameters@,
    {
        Scale { alpha: device.tensor(1, 1, false, false, alpha) }
    }

    pub open spec fn valid_on(&self, device: &Device) -> bool {
        self.alpha < device.tensors@.len() && shape_of(device.tensors@, self.alpha) == (1usize, 1usize)
    }

    pub fn forward(&self, device: &mut Device, input: TensorWithGrad) -> (r: TensorWithGrad)
        requires
            old(device).wf(),
            old(device).valid(input),
            self.valid_on(old(device)),
        ensures
            ({
                let tmp = (old(device).tensors@.len() + 3) as usize;
                scratch_built(old(device), final(device), input, r, input.rows, input.cols,
                    seq![inference(OpCode::ScalarMul, seq![self.alpha, input.value], seq![r.value])],
                    seq![gradient(OpCode::ScalarMul, seq![self.alpha, r.gradient], seq![tmp])])
            }),
    {
        proof {
            lemma_valid(device, input);
        }
        let wants = device.tensors[input.gradient].requires_grad;
        let ghost d0 = *device;
        let (zero, value, g) = alloc_output(device, input.rows, input.cols);
        let tmp = device.tensor(input.rows, input.cols, false, false, Init::Zeros);
        assert(device.tensors@ =~= d0.tensors@ + output_tensors(input.rows, input.cols).push(scratch_info(input.rows, input.cols)));
        let mut forward = clears(zero, value, g);
        push_instruction(&mut forward, two_inputs(OpCode::ScalarMul, self.alpha, input.value, value, Category::Inference));
        let mut backward: Vec<Instruction> = Vec::new();
        if wants {
            push_instruction(&mut backward, two_inputs(OpCode::ScalarMul, self.alpha, g, tmp, Category::Gradient));
            push_instruction(&mut backward, two_inputs(OpCode::Add, input.gradient, tmp, input.gradient, Category::Gradient));
        }
        proof {
            assert(views(forward@) =~= seq![clear_view(zero, value), clear_view(zero, g)]
                + seq![inference(OpCode::ScalarMul, seq![self.alpha, input.value], seq![value])]);
            assert(views(backward@) =~= if wants {
                seq![gradient(OpCode::ScalarMul, seq![self.alpha, g], seq![tmp])].push(
                    gradient(OpCode::Add, seq![input.gradient, tmp], seq![input.gradient]))
            } else {
                Seq::empty()
            });
        }
        let out = finish(device, value, g, vec![input.node], forward, backward, false);
        assert(device.nodes@[out.node as int].inputs@ =~= seq![input.node]);
        out
    }
}

/// Sets the entries at or above the diagonal of a `rows x cols` input to zero.
#[derive(Clone, Copy, Debug)]
pub struct Mask {
    pub rows: usize,
    pub cols: usize,
}

impl Mask {
    pub fn try_new(rows: usize, cols: usize) -> (r: Result<Self, Error>)
        ensures
            r == Ok::<Mask, Error>(Mask { rows, cols }),
    {
        Ok(Mask { rows, cols })
    }

    pub fn forward(&self, device: &mut Device, input: TensorWithGrad) -> (r: Result<TensorWithGrad, Error>)
        requires
            old(device).wf(),
            old(device).valid(input),
        ensures
            r is Ok <==> (input.rows == self.rows && input.cols == self.cols),
            r is Err ==> r == Err::<TensorWithGrad, Error>(Error::IncompatibleTensorShapes) && *final(device) == *old(device),
            r matches Ok(out) ==> {
                let tmp = (old(device).tensors@.len() + 3) as usize;
                scratch_built(old(device), final(device), input, out, input.rows, input.cols,
                    seq![inference(OpCode::Mask, seq![input.value], seq![out.value])],
                    seq![gradient(OpCode::Mask, seq![out.gradient], seq![tmp])])
            },
    {
        if input.rows != self.rows || input.cols != self.cols {
            return Err(Error::IncompatibleTensorShapes);
        }
        proof {
            lemma_valid(device, input);
        }
        let wants = device.tensors[input.gradient].requires_grad;
        let ghost d0 = *device;
        let (zero, value, g) = alloc_output(device, input.rows, input.cols);
        let tmp = device.tensor(input.rows, input.cols, false, false, Init::Zeros);
        assert(device.tensors@ =~= d0.tensors@ + output_tensors(input.rows, input.cols).push(scratch_info(input.rows, input.cols)));
        let mut forward = clears(zero, value, g);
        push_instruction(&mut forward, one(OpCode::Mask, input.value, value, Category::Inference));
        let mut backward: Vec<Instruction> = Vec::new();
        if wants {
            push_instruction(&mut backward, one(OpCode::Mask, g, tmp, Category::Gradient));
            push_instruction(&mut backward, two_inputs(OpCode::Add, input.gradient, tmp, input.gradient, Category::Gradient));
        }
        proof {
            assert(views(forward@) =~= seq![clear_view(zero, value), clear_view(zero, g)]
                + seq![inference(OpCode::Mask, seq![input.value], seq![value])]);
            assert(views(backward@) =~= if wants {
                seq![gradient(OpCode::Mask, seq![g], seq![tmp])].push(
                    gradient(OpCode::Add, seq![input.gradient, tmp], seq![input.gradient]))
            } else {
                Seq::empty()
            });
        }
        let out = finish(device, value, g, vec![input.node], forward, backward, false);
        assert(device.nodes@[out.node as int].inputs@ =~= seq![input.node]);
        Ok(out)
    }
}

/// Copies a `input_size` input into an `output_size` output with as many elements.
#[derive(Clone, Copy, Debug)]
pub struct Reshape {
    pub input_size: (usize, usize),
    pub output_size: (usize, usize),
}

impl Reshape {
    pub fn new(input_size: (usize, usize), output_size: (usize, usize)) -> (r: Self)
        ensures
            r.input_size == input_size,
            r.output_size == output_size,
    {
        Reshape { input_size, output_size }
    }

    pub fn forward(&self, device: &mut Device, input: TensorWithGrad) -> (r: Result<TensorWithGrad, Error>)
        requires
            old(device).wf(),
            old(device).valid(input),
        ensures
            r is Ok <==> ((input.rows, input.cols) == self.input_size
                && self.input_size.0 * self.input_size.1 == self.output_size.0 * self.output_size.1),
            r is Err ==> r == Err::<TensorWithGrad, Error>(Error::IncompatibleTensorShapes) && *final(device) == *old(device),
            r matches Ok(out) ==> {
                let tmp = (old(device).tensors@.len() + 3) as usize;
                scratch_built(old(device), final(device), input, out, self.output_size.0, self.output_size.1,
                    seq![inference(OpCode::Reshape, seq![input.value], seq![out.value])],
                    seq![gradient(OpCode::Reshape, seq![out.gradient], seq![tmp])])
            },
    {
        let (rows, cols) = self.output_size;
        proof {
            lemma_mul_fits(input.rows, input.cols);
            lemma_mul_fits(rows, cols);
        }
        if input.rows != self.input_size.0 || input.cols != self.input_size.1
            || (input.rows as u128) * (input.cols as u128) != (rows as u128) * (cols as u128) {
            proof {
                lemma_mul_fits(input.rows, input.cols);
                lemma_mul_fits(rows, cols);
            }
            return Err(Error::IncompatibleTensorShapes);
        }
        proof {
            lemma_mul_fits(input.rows, input.cols);
            lemma_mul_fits(rows, cols);
            lemma_valid(device, input);
        }
        let wants = device.tensors[input.gradient].requires_grad;
        let ghost d0 = *device;
        let (zero, value, g) = alloc_output(device, rows, cols);
        let tmp = device.tensor(input.rows, input.cols, false, false, Init::Zeros);
        assert(device.tensors@ =~= d0.tensors@ + output_tensors(rows, cols).push(scratch_info(input.rows, input.cols)));
        let mut forward = clears(zero, value, g);
        push_instruction(&mut forward, one(OpCode::Reshape, input.value, value, Category::Inference));
        let mut backward: Vec<Instruction> = Vec::new();
        if wants {
            push_instruction(&mut backward, one(OpCode::Reshape, g, tmp, Category::Gradient));
            push_instruction(&mut backward, two_inputs(OpCode::Add, input.gradient, tmp, input.gradient, Category::Gradient));
        }
        proof {
            assert(views(forward@) =~= seq![clear_view(zero, value), clear_view(zero, g)]
                + seq![inference(OpCode::Reshape, seq![input.value], seq![value])]);
            assert(views(backward@) =~= if wants {
                seq![gradient(OpCode::Reshape, seq![g], seq![tmp])].push(
                    gradient(OpCode::Add, seq![input.gradient, tmp], seq![input.gradient]))
            } else {
                Seq::empty()
            });
        }
        let out = finish(device, value, g, vec![input.node], forward, backward, false);
        assert(device.nodes@[out.node as int].inputs@ =~= seq![input.node]);
        Ok(out)
    }
}

proof fn lemma_mul_fits(a: usize, b: usize)
    ensures
        (a as u128) * (b as u128) == a * b,
        a * b <= u128::MAX,
{
    assert(a * b <= usize::MAX * usize::MAX) by (nonlinear_arith)
        requires
            a <= usize::MAX,
            b <= usize::MAX,
    ;
}

/// The five nodes from `n` on, over tensors from `z` on, are the attention
/// block: `S = Q * K^T`, `S' = alpha * S`, `M = mask(S')`, `P = softmax(M)`,
/// `O = P * V`, each node with its clears and its one kernel.
pub open spec fn attention_nodes(nodes: Seq<Node>, n: int, z: usize, q: TensorWithGrad, k: TensorWithGrad, v: TensorWithGrad, alpha: usize) -> bool {
    let s = (z + 1) as usize;
    let scaled = (z + 4) as usize;
    let masked = (z + 8) as usize;
    let p = (z + 12) as usize;
    let o = (z + 15) as usize;
    &&& nodes[n].inputs@ == seq![q.node, k.node]
    &&& views(nodes[n].forward_instructions@) == seq![clear_view(z, s), clear_view(z, (z + 2) as usize),
        inference(OpCode::Gemm(false, true, false), seq![q.value, k.value, s], seq![s])]
    &&& nodes[n + 1].inputs@ == seq![n as usize]
    &&& views(nodes[n + 1].forward_instructions@) == seq![clear_view((z + 3) as usize, scaled), clear_view((z + 3) as usize, (z + 5) as usize),
        inference(OpCode::ScalarMul, seq![alpha, s], seq![scaled])]
    &&& nodes[n + 2].inputs@ == seq![(n + 1) as usize]
    &&& views(nodes[n + 2].forward_instructions@) == seq![clear_view((z + 7) as usize, masked), clear_view((z + 7) as usize, (z + 9) as usize),
        inference(OpCode::Mask, seq![scaled], seq![masked])]
    &&& nodes[n + 3].inputs@ == seq![(n + 2) as usize]
    &&& views(nodes[n + 3].forward_instructions@) == seq![clear_view((z + 11) as usize, p), clear_view((z + 11) as usize, (z + 13) as usize),
        inference(OpCode::Softmax, seq![masked], seq![p])]
    &&& nodes[n + 4].inputs@ == seq![(n + 3) as usize, v.node]
    &&& views(nodes[n + 4].forward_instructions@) == seq![clear_view((z + 14) as usize, o), clear_view((z + 14) as usize, (z + 16) as usize),
        inference(OpCode::Gemm(false, false, false), seq![p, v.value, o], seq![o])]
}

/// Causal scaled dot-product attention `softmax(mask(Q * K^T / sqrt(d_k))) * V`,
/// composed from other builders.
#[derive(Clone, Copy, Debug)]
pub struct ScaledDotProductAttention {
    pub qk_matmul: MatMul,
    pub scale: Scale,
    pub mask: Mask,
    pub softmax: Softmax,
    pub matmul: MatMul,
}

impl ScaledDotProductAttention {
    /// An attention block over `rows` positions with keys of width `cols`.
    pub fn try_new(device: &mut Device, rows: usize, cols: usize) -> (r: Result<Self, Error>)
        requires
            old(device).wf(),
        ensures
            final(device).wf(),
            final(device).extends(old(device)),
            final(device).nodes@ == old(device).nodes@,
            final(device).tensors@ == old(device).tensors@.push(
                TensorInfo { rows: 1, cols: 1, requires_grad: false, is_parameter: false, init: Init::InverseSqrt(cols as u64) }),
            r matches Ok(a) && a.well_formed(final(device)) && a.mask == (Mask { rows, cols: rows }),
    {
        let qk_matmul = MatMul::new(true);
        let scale = Scale::new(device, Init::InverseSqrt(cols as u64));
        let mask = Mask { rows, cols: rows };
        let softmax = Softmax::new(false);
        let matmul = MatMul::new(false);
        Ok(ScaledDotProductAttention { qk_matmul, scale, mask, softmax, matmul })
    }

    pub open spec fn well_formed(&self, device: &Device) -> bool {
        &&& self.qk_matmul.transb
        &&& !self.matmul.transb
        &&& !self.softmax.next_op_is_cross_entropy_loss
        &&& self.scale.valid_on(device)
    }

    pub fn forward(&self, device: &mut Device, q: TensorWithGrad, k: TensorWithGrad, v: TensorWithGrad) -> (r: Result<TensorWithGrad, Error>)
        requires
            old(device).wf(),
            old(device).valid(q),
            old(device).valid(k),
            old(device).valid(v),
            self.well_formed(old(device)),
        ensures
            r is Ok <==> (q.cols == k.cols && q.rows == self.mask.rows && k.rows == self.mask.cols && k.rows == v.rows),
            r is Err ==> r == Err::<TensorWithGrad, Error>(Error::IncompatibleTensorShapes) && *final(device) == *old(device),
            r matches Ok(out) ==> {
                &&& final(device).wf()
                &&& final(device).extends(old(device))
                &&& final(device).valid(out)
                &&& final(device).parameters@ == old(device).parameters@
                &&& final(device).nodes@.len() == old(device).nodes@.len() + 5
                &&& out.node == old(device).nodes@.len() + 4
                &&& out.value == old(device).tensors@.len() + 15
                &&& out.rows == q.rows
                &&& out.cols == v.cols
                &&& attention_nodes(final(device).nodes@, old(device).nodes@.len() as int, old(device).tensors@.len() as usize,
                    q, k, v, self.scale.alpha)
            },
    {
        if q.cols != k.cols || q.rows != self.mask.rows || k.rows != self.mask.cols || k.rows != v.rows {
            return Err(Error::IncompatibleTensorShapes);
        }
        let ghost d0 = *device;
        let tensors_before = device.tensors.len();
        let scores = match self.qk_matmul.forward(device, q, k) {
            Ok(t) => t,
            Err(e) => return Err(e),
        };
        let ghost d1 = *device;
        let scaled = self.scale.forward(device, scores);
        let ghost d2 = *device;
        let masked = match self.mask.forward(device, scaled) {
            Ok(t) => t,
            Err(e) => return Err(e),
        };
        let ghost d3 = *device;
        let probabilities = self.softmax.forward(device, masked);
        let ghost d4 = *device;
        proof {
            lemma_valid_extends(&d0, &d1, v);
            lemma_valid_extends(&d1, &d2, v);
            lemma_valid_extends(&d2, &d3, v);
            lemma_valid_extends(&d3, &d4, v);
        }
        let out = self.matmul.forward(device, probabilities, v);
        let tensors_after = device.tensors.len();
        proof {
            let n = d0.nodes@.len() as int;
            let z = d0.tensors@.len();
            let nodes = device.nodes@;
            assert(d1.tensors@.len() == z + 3);
            assert(d2.tensors@.len() == z + 7);
            assert(d3.tensors@.len() == z + 11);
            assert(d4.tensors@.len() == z + 14);
            assert(d1.nodes@.len() == n + 1);
            assert(d2.nodes@.len() == n + 2);
            assert(d3.nodes@.len() == n + 3);
            assert(d4.nodes@.len() == n + 4);
            assert(z == tensors_before);
            assert(scores.node == n && scores.value == z + 1);
            assert(scaled.node == n + 1 && scaled.value == z + 4);
            assert(masked.node == n + 2 && masked.value == z + 8);
            assert(probabilities.node == n + 3 && probabilities.value == z + 12);
            assert(nodes[n] == d1.nodes@[n]);
            assert(nodes[n + 1] == d2.nodes@[n + 1]);
            assert(nodes[n + 2] == d3.nodes@[n + 2]);
            assert(nodes[n + 3] == d4.nodes@[n + 3]);
            let zu = z as usize;
            assert(views(nodes[n + 1].forward_instructions@) =~= seq![clear_view((zu + 3) as usize, (zu + 4) as usize),
                clear_view((zu + 3) as usize, (zu + 5) as usize),
                inference(OpCode::ScalarMul, seq![self.scale.alpha, (zu + 1) as usize], seq![(zu + 4) as usize])]);
            assert(views(nodes[n + 2].forward_instructions@) =~= seq![clear_view((zu + 7) as usize, (zu + 8) as usize),
                clear_view((zu + 7) as usize, (zu + 9) as usize),
                inference(OpCode::Mask, seq![(zu + 4) as usize], seq![(zu + 8) as usize])]);
            if out is Ok {
                assert(attention_nodes(nodes, n, zu, q, k, v, self.scale.alpha));
            }
        }
        out
    }
}

/// Inverted dropout: each entry is kept with probability `1 - p` and the
/// kept entries are scaled by `1 / (1 - p)`. The keep-mask is sampled once
/// per forward run and reused by the backward product.
#[derive(Clone, Copy, Debug)]
pub struct Dropout {
    pub rows: usize,
    pub cols: usize,
    pub probabilities: usize,
    pub mask: usize,
    pub scale: usize,
}

/// The tensors a dropout allocates for `p = numerator / denominator`.
pub open spec fn dropout_tensors(rows: usize, cols: usize, numerator: u32, denominator: u32) -> Seq<TensorInfo> {
    seq![
        TensorInfo { rows, cols, requires_grad: false, is_parameter: false,
            init: Init::Constant((denominator - numerator) as i64, denominator as u64) },
        TensorInfo { rows, cols, requires_grad: false, is_parameter: false, init: Init::Zeros },
        TensorInfo { rows: 1, cols: 1, requires_grad: false, is_parameter: false,
            init: Init::Constant(denominator as i64, (denominator - numerator) as u64) },
    ]
}

impl Dropout {
    /// A dropout of probability `numerator / denominator`, which must be below 1.
    pub fn try_new(device: &mut Device, rows: usize, cols: usize, numerator: u32, denominator: u32) -> (r: Result<Self, Error>)
        requires
            old(device).wf(),
        ensures
            r is Ok <==> numerator < denominator,
            r is Err ==> r == Err::<Dropout, Error>(Error::UnsupportedOperation) && *final(device) == *old(device),
            r matches Ok(d) ==> {
                let z = old(device).tensors@.len() as usize;
                &&& final(device).wf()
                &&& final(device).extends(old(device))
                &&& final(device).nodes@ == old(device).nodes@
                &&& final(device).tensors@ == old(device).tensors@ + dropout_tensors(rows, cols, numerator, denominator)
                &&& d == (Dropout { rows, cols, probabilities: z, mask: (z + 1) as usize, scale: (z + 2) as usize })
            },
    {
        if numerator >= denominator {
            return Err(Error::UnsupportedOperation);
        }
        let keep = (denominator - numerator) as i64;
        let probabilities = device.tensor(rows, cols, false, false, Init::Constant(keep, denominator as u64));
        let mask = device.tensor(rows, cols, false, false, Init::Zeros);
        let scale = device.tensor(1, 1, false, false, Init::Constant(denominator as i64, (denominator - numerator) as u64));
        assert(device.tensors@ =~= old(device).tensors@ + dropout_tensors(rows, cols, numerator, denominator));
        Ok(Dropout { rows, cols, probabilities, mask, scale })
    }

    pub open spec fn valid_on(&self, device: &Device) -> bool {
        &&& self.probabilities < device.tensors@.len()
        &&& self.mask < device.tensors@.len()
        &&& self.scale < device.tensors@.len()
        &&& shape_of(device.tensors@, self.probabilities) == (self.rows, self.cols)
        &&& shape_of(device.tensors@, self.mask) == (self.rows, self.cols)
        &&& shape_of(device.tensors@, self.scale) == (1usize, 1usize)
    }

    pub fn forward(&self, device: &mut Device, input: TensorWithGrad) -> (r: Result<TensorWithGrad, Error>)
        requires
            old(device).wf(),
            old(device).valid(input),
            self.valid_on(old(device)),
        ensures
            r is Ok <==> (input.rows == self.rows && input.cols == self.cols),
            r is Err ==> r == Err::<TensorWithGrad, Error>(Error::IncompatibleTensorShapes) && *final(device) == *old(device),
            r matches Ok(out) ==> {
                let tmp = (old(device).tensors@.len() + 3) as usize;
                scratch_built(old(device), final(device), input, out, input.rows, input.cols,
                    seq![
                        inference(OpCode::Bernoulli, seq![self.probabilities], seq![self.mask]),
                        inference(OpCode::Mul, seq![input.value, self.mask], seq![out.value]),
                        inference(OpCode::ScalarMul, seq![self.scale, out.value], seq![out.value]),
                    ],
                    seq![
                        gradient(OpCode::Mul, seq![out.gradient, self.mask], seq![tmp]),
                        gradient(OpCode::ScalarMul, seq![self.scale, tmp], seq![tmp]),
                    ])
            },
    {
        if input.rows != self.rows || input.cols != self.cols {
            return Err(Error::IncompatibleTensorShapes);
        }
        proof {
            lemma_valid(device, input);
        }
        let wants = device.tensors[input.gradient].requires_grad;
        let ghost d0 = *device;
        let (zero, value, g) = alloc_output(device, input.rows, input.cols);
        let tmp = device.tensor(input.rows, input.cols, false, false, Init::Zeros);
        assert(device.tensors@ =~= d0.tensors@ + output_tensors(input.rows, input.cols).push(scratch_info(input.rows, input.cols)));
        let mut forward = clears(zero, value, g);
        push_instruction(&mut forward, one(OpCode::Bernoulli, self.probabilities, self.mask, Category::Inference));
        push_instruction(&mut forward, two_inputs(OpCode::Mul, input.value, self.mask, value, Category::Inference));
        push_instruction(&mut forward, two_inputs(OpCode::ScalarMul, self.scale, value, value, Category::Inference));
        let mut backward: Vec<Instruction> = Vec::new();
        if wants {
            push_instruction(&mut backward, two_inputs(OpCode::Mul, g, self.mask, tmp, Category::Gradient));
            push_instruction(&mut backward, two_inputs(OpCode::ScalarMul, self.scale, tmp, tmp, Category::Gradient));
            push_instruction(&mut backward, two_inputs(OpCode::Add, input.gradient, tmp, input.gradient, Category::Gradient));
        }
        proof {
            assert(views(forward@) =~= seq![clear_view(zero, value), clear_view(zero, g)] + seq![
                inference(OpCode::Bernoulli, seq![self.probabilities], seq![self.mask]),
                inference(OpCode::Mul, seq![input.value, self.mask], seq![value]),
                inference(OpCode::ScalarMul, seq![self.scale, value], seq![value]),
            ]);
            assert(views(backward@) =~= if wants {
                seq![
                    gradient(OpCode::Mul, seq![g, self.mask], seq![tmp]),
                    gradient(OpCode::ScalarMul, seq![self.scale, tmp], seq![tmp]),
                ].push(gradient(OpCode::Add, seq![input.gradient, tmp], seq![input.gradient]))
            } else {
                Seq::empty()
            });
        }
        let out = finish(device, value, g, vec![input.node], forward, backward, false);
        assert(device.nodes@[out.node as int].inputs@ =~= seq![input.node]);
        Ok(out)
    }
}

pub open spec fn node_ids(ts: Seq<TensorWithGrad>) -> Seq<usize> {
    ts.map_values(|t: TensorWithGrad| t.node)
}

pub open spec fn value_names(ts: Seq<TensorWithGrad>) -> Seq<usize> {
    ts.map_values(|t: TensorWithGrad| t.value)
}

pub open spec fn gradient_names(ts: Seq<TensorWithGrad>) -> Seq<usize> {
    ts.map_values(|t: TensorWithGrad| t.gradient)
}

/// The inputs of a concatenation: at least one, all of the first one's shape,
/// side by side no wider than a size can count.
pub open spec fn concat_compatible(ts: Seq<TensorWithGrad>) -> bool {
    &&& ts.len() >= 1
    &&& forall|k: int| 0 <= k < ts.len() ==> (#[trigger] ts[k]).rows == ts[0].rows && ts[k].cols == ts[0].cols
    &&& ts[0].cols * ts.len() <= usize::MAX
}

/// The scratch tensors of a concatenation's gradient, one per input.
pub open spec fn concat_scratch(rows: usize, cols: usize, n: int) -> Seq<TensorInfo> {
    Seq::new(n as nat, |j: int| scratch_info(rows, cols))
}

/// The names of those scratch tensors, after the zero, value and gradient at `z`.
pub open spec fn scratch_names(z: usize, n: int) -> Seq<usize> {
    Seq::new(n as nat, |j: int| (z + 3 + j) as usize)
}

/// Adds scratch tensor `s` to the gradient of `t`.
pub open spec fn concat_add(t: TensorWithGrad, s: usize) -> InstructionView {
    gradient(OpCode::Add, seq![t.gradient, s], seq![t.gradient])
}

/// For each of the first `k` inputs that wants a gradient, in order, the
/// addition of its part of the split gradient (the scratch tensor `first + j`).
pub open spec fn concat_adds(d: &Device, ts: Seq<TensorWithGrad>, first: int, k: int) -> Seq<InstructionView>
    decreases k,
{
    if k <= 0 {
        Seq::empty()
    } else {
        let prev = concat_adds(d, ts, first, k - 1);
        if d.wants_gradient(ts[k - 1]) {
            prev.push(concat_add(ts[k - 1], (first + k - 1) as usize))
        } else {
            prev
        }
    }
}

proof fn lemma_concat_adds(d: &Device, ts: Seq<TensorWithGrad>, first: int, k: int)
    ensures
        forall|q: int| 0 <= q < concat_adds(d, ts, first, k).len() ==> exists|m: int| 0 <= m < k
            && #[trigger] concat_adds(d, ts, first, k)[q] == concat_add(ts[m], (first + m) as usize),
    decreases k,
{
    if k > 0 {
        lemma_concat_adds(d, ts, first, k - 1);
        let prev = concat_adds(d, ts, first, k - 1);
        let cur = concat_adds(d, ts, first, k);
        assert forall|q: int| 0 <= q < cur.len() implies exists|m: int| 0 <= m < k
            && #[trigger] cur[q] == concat_add(ts[m], (first + m) as usize) by {
            if q < prev.len() {
                assert(cur[q] == prev[q]);
                let m = choose|m: int| 0 <= m < k - 1 && #[trigger] prev[q] == concat_add(ts[m], (first + m) as usize);
            } else {
                assert(cur[q] == concat_add(ts[k - 1], (first + k - 1) as usize));
            }
        }
    }
}

/// Places equally sized inputs side by side; the gradient is split into
/// scratch tensors and added to the gradient of each input that wants one.
#[derive(Clone, Copy, Debug)]
pub struct Concat {}

impl Concat {
    pub fn new() -> (r: Self) {
        Concat {}
    }

    pub fn forward(&self, device: &mut Device, inputs: &Vec<TensorWithGrad>) -> (r: Result<TensorWithGrad, Error>)
        requires
            old(device).wf(),
            forall|k: int| 0 <= k < inputs@.len() ==> old(device).valid(#[trigger] inputs@[k]),
        ensures
            r is Ok <==> concat_compatible(inputs@),
            r is Err ==> r == Err::<TensorWithGrad, Error>(Error::IncompatibleTensorShapes) && *final(device) == *old(device),
            r matches Ok(out) ==> {
                let z = old(device).tensors@.len() as usize;
                let rows = inputs@[0].rows;
                let cols = (inputs@[0].cols * inputs@.len()) as usize;
                &&& built(old(device), final(device), out,
                    output_tensors(rows, cols) + concat_scratch(rows, inputs@[0].cols, inputs@.len() as int), rows, cols, node_ids(inputs@),
                    seq![
                        clear_view(z, out.value),
                        clear_view(z, out.gradient),
                        inference(OpCode::Concat, value_names(inputs@), seq![out.value]),
                    ],
                    seq![gradient(OpCode::Unconcat, seq![out.gradient], scratch_names(z, inputs@.len() as int))]
                        + concat_adds(old(device), inputs@, z + 3, inputs@.len() as int))
                &&& out.value == z + 1
                &&& out.gradient == z + 2
            },
    {
        let n = inputs.len();
        if n == 0 {
            return Err(Error::IncompatibleTensorShapes);
        }
        let rows = inputs[0].rows;
        let cols = inputs[0].cols;
        let mut k: usize = 0;
        while k < n
            invariant
                k <= n,
                n == inputs@.len(),
                rows == inputs@[0].rows,
                cols == inputs@[0].cols,
                forall|m: int| 0 <= m < k ==> (#[trigger] inputs@[m]).rows == rows && inputs@[m].cols == cols,
            decreases n - k,
        {
            if inputs[k].rows != rows || inputs[k].cols != cols {
                return Err(Error::IncompatibleTensorShapes);
            }
            k += 1;
        }
        proof {
            lemma_mul_fits(cols, n);
        }
        if (cols as u128) * (n as u128) > usize::MAX as u128 {
            return Err(Error::IncompatibleTensorShapes);
        }
        let width = cols * n;
        proof {
            assert forall|k: int| 0 <= k < n implies node_shapes(*device, #[trigger] inputs@[k]) by {
                lemma_valid(device, inputs@[k]);
            }
        }
        let ghost d0 = *device;
        let (zero, value, g) = alloc_output(device, rows, width);
        let ghost base = device.tensors@;
        let mut scratch: Vec<usize> = Vec::new();
        let mut k: usize = 0;
        while k < n
            invariant
                k <= n,
                n == inputs@.len(),
                device.wf(),
                device.nodes@ == d0.nodes@,
                device.parameters@ == d0.parameters@,
                zero == d0.tensors@.len(),
                base == d0.tensors@ + output_tensors(rows, width),
                device.tensors@ == base + concat_scratch(rows, cols, k as int),
                scratch@ == scratch_names(zero, k as int),
            decreases n - k,
        {
            let t = device.tensor(rows, cols, false, false, Init::Zeros);
            scratch.push(t);
            k += 1;
            assert(device.tensors@ =~= base + concat_scratch(rows, cols, k as int));
            assert(scratch@ =~= scratch_names(zero, k as int));
        }
        let mut nodes: Vec<usize> = Vec::new();
        let mut values: Vec<usize> = Vec::new();
        let mut gradients: Vec<usize> = Vec::new();
        let mut k: usize = 0;
        while k < n
            invariant
                k <= n,
                n == inputs@.len(),
                nodes@ == node_ids(inputs@.subrange(0, k as int)),
                values@ == value_names(inputs@.subrange(0, k as int)),
                gradients@ == gradient_names(inputs@.subrange(0, k as int)),
            decreases n - k,
        {
            nodes.push(inputs[k].node);
            values.push(inputs[k].value);
            gradients.push(inputs[k].gradient);
            k += 1;
            assert(nodes@ =~= node_ids(inputs@.subrange(0, k as int)));
            assert(values@ =~= value_names(inputs@.subrange(0, k as int)));
            assert(gradients@ =~= gradient_names(inputs@.subrange(0, k as int)));
        }
        assert(inputs@.subrange(0, n as int) =~= inputs@);
        assert(values@ == value_names(inputs@));
        assert(gradients@ == gradient_names(inputs@));
        let ghost t = device.tensors@;
        let n_tensors = device.tensors.len();
        assert(t =~= d0.tensors@ + (output_tensors(rows, width) + concat_scratch(rows, cols, n as int)));
        let mut forward = clears(zero, value, g);
        let single_value = vec![value];
        assert(single_value@ =~= seq![value]);
        push_instruction(&mut forward, Instruction::new(OpCode::Concat, values.as_slice(), single_value.as_slice(), Category::Inference));
        let mut backward: Vec<Instruction> = Vec::new();
        let single_gradient = vec![g];
        assert(single_gradient@ =~= seq![g]);
        push_instruction(&mut backward, Instruction::new(OpCode::Unconcat, single_gradient.as_slice(), scratch.as_slice(), Category::Gradient));
        let ghost split = gradient(OpCode::Unconcat, seq![g], scratch_names(zero, n as int));
        assert(views(backward@) =~= seq![split] + concat_adds(&d0, inputs@, zero + 3, 0));
        let mut k: usize = 0;
        while k < n
            invariant
                k <= n,
                n == inputs@.len(),
                n == scratch@.len(),
                scratch@ == scratch_names(zero, n as int),
                device.tensors@ == t,
                zero == d0.tensors@.len(),
                t == d0.tensors@ + output_tensors(rows, width) + concat_scratch(rows, cols, n as int),
                forall|m: int| 0 <= m < n ==> node_shapes(d0, #[trigger] inputs@[m]),
                views(backward@) == seq![split] + concat_adds(&d0, inputs@, zero + 3, k as int),
            decreases n - k,
        {
            let x = inputs[k];
            assert(node_shapes(d0, inputs@[k as int]));
            assert(t[x.gradient as int] == d0.tensors@[x.gradient as int]);
            if device.tensors[x.gradient].requires_grad {
                push_instruction(&mut backward, two_inputs(OpCode::Add, x.gradient, scratch[k], x.gradient, Category::Gradient));
            }
            k += 1;
            assert(views(backward@) =~= seq![split] + concat_adds(&d0, inputs@, zero + 3, k as int));
        }
        proof {
            assert(views(forward@) =~= seq![
                clear_view(zero, value),
                clear_view(zero, g),
                inference(OpCode::Concat, value_names(inputs@), seq![value]),
            ]);
            let ins = crate::device::shapes_of(t, value_names(inputs@));
            assert forall|k: int| 0 <= k < ins.len() implies #[trigger] ins[k] == ins[0] by {
                assert(shape_of(t, inputs@[k].value) == shape_of(d0.tensors@, inputs@[k].value));
                assert(shape_of(t, inputs@[0].value) == shape_of(d0.tensors@, inputs@[0].value));
            }
            assert(crate::device::shapes_of(t, seq![value]) =~= seq![(rows, width)]);
            assert(crate::device::shapes_of(t, seq![g]) =~= seq![(rows, width)]);
            assert(crate::device::names_in(t, value_names(inputs@)));
            let outs = crate::device::shapes_of(t, scratch_names(zero, n as int));
            assert forall|k: int| 0 <= k < outs.len() implies #[trigger] outs[k] == (rows, cols) by {
                assert(zero + 3 + k < n_tensors);
                assert(scratch_names(zero, n as int)[k] == zero + 3 + k);
                assert(t[zero + 3 + k] == scratch_info(rows, cols));
            }
            assert(crate::device::names_in(t, scratch_names(zero, n as int)));
            assert(well_shaped(t, split));
            lemma_concat_adds(&d0, inputs@, zero + 3, n as int);
            let b = views(backward@);
            assert forall|q: int| 0 <= q < b.len() implies well_shaped(t, #[trigger] b[q]) by {
                if q > 0 {
                    let adds = concat_adds(&d0, inputs@, zero + 3, n as int);
                    assert(b[q] == adds[q - 1]);
                    let m = choose|m: int| 0 <= m < n && #[trigger] adds[q - 1] == concat_add(inputs@[m], (zero + 3 + m) as usize);
                    assert(node_shapes(d0, inputs@[m]));
                    assert(zero + 3 + m < n_tensors);
                    assert(t[zero + 3 + m] == scratch_info(rows, cols));
                    assert(shape_of(t, inputs@[m].gradient) == shape_of(d0.tensors@, inputs@[m].gradient));
                    assert(crate::device::shapes_of(t, seq![inputs@[m].gradient, (zero + 3 + m) as usize]) =~=
                        seq![(rows, cols), (rows, cols)]);
                    assert(crate::device::shapes_of(t, seq![inputs@[m].gradient]) =~= seq![(rows, cols)]);
                }
            }
        }
        let out = finish(device, value, g, nodes, forward, backward, false);
        Ok(out)
    }
}

/// The value and gradient of a valid node both have the node's shape.
pub open spec fn node_shapes(d: Device, t: TensorWithGrad) -> bool {
    &&& t.value < d.tensors@.len()
    &&& t.gradient < d.tensors@.len()
    &&& shape_of(d.tensors@, t.gradient) == (t.rows, t.cols)
}

/// A node stays valid as the device grows.
pub proof fn lemma_valid_extends(old: &Device, new: &Device, t: TensorWithGrad)
    requires
        old.wf(),
        old.valid(t),
        new.extends(old),
    ensures
        new.valid(t),
{
    lemma_valid(old, t);
}

pub proof fn lemma_valid(d: &Device, t: TensorWithGrad)
    requires
        d.wf(),
        d.valid(t),
    ensures
        node_shapes(*d, t),
{
    assert(node_wf(d.tensors@, d.nodes@, t.node as int));
}

} // verus!
