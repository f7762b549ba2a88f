use vstd::prelude::*;

verus! {

/// The phase an instruction belongs to. Each phase is a program of its own.
#[derive(Clone, Copy, Debug, PartialEq, Eq, Structural)]
pub enum Category {
    Inference,
    Loss,
    Gradient,
    Optimization,
}

/// The closed set of kernels an instruction can run.
#[derive(Clone, Copy, Debug, PartialEq, Eq, Structural)]
pub enum OpCode {
    /// `C <- op(A) * op(B) + C`, with the transposition flags of A, B and C.
    Gemm(bool, bool, bool),
    /// Inputs `(alpha, x)`: the output becomes a copy of `x` scaled by the 1x1 `alpha`.
    ScalarMul,
    /// Inputs `(alpha, x)`: the output becomes a copy of `x` plus the 1x1 `alpha`.
    ScalarAdd,
    Add,
    Sub,
    Mul,
    Div,
    Sqrt,
    Sigmoid,
    /// Inputs `(y, dy, dx)`: adds `y * (1 - y) * dy` to `dx`.
    SigmoidBackward,
    /// Row-wise softmax, with the row maximum subtracted first.
    Softmax,
    /// Inputs `(y, dy, dx)`: adds the softmax Jacobian `y * (1 - y) * dy` to `dx`.
    SoftmaxBackward,
    /// Inputs `(expected, actual)`: `-sum(expected * ln(actual + 1e-8))` into a 1x1 output.
    CrossEntropyLoss,
    /// Inputs `(expected, logits)`: the cross-entropy of the softmax of the logits.
    SoftmaxCrossEntropyLoss,
    /// Inputs `(expected, actual)`: `sum((expected - actual)^2)` into a 1x1 output.
    ResidualSumOfSquares,
    /// Places equally sized inputs side by side.
    Concat,
    /// Splits its input into equally sized outputs: the inverse of `Concat`.
    Unconcat,
    /// Samples a 0 or 1 for each keep-probability of the input.
    Bernoulli,
    /// Scales a tensor in place so that its L2 norm is at most 1.
    ClipNorm,
    /// Copies its input with the entries at or above the diagonal set to zero.
    Mask,
    /// Copies the values into a tensor with another shape and as many elements.
    Reshape,
    /// Inputs `(theta, grad, m, v, t, rate, beta1, beta2, epsilon)`, outputs
    /// `(theta, m, v, t)`: one Adam update of `theta`, its moments and its step count.
    AdamStep,
}

/// An instruction as a value: its opcode, the names of the tensors it reads
/// and writes, and its phase.
pub struct InstructionView {
    pub opcode: OpCode,
    pub inputs: Seq<usize>,
    pub outputs: Seq<usize>,
    pub category: Category,
}

pub open spec fn instr(opcode: OpCode, inputs: Seq<usize>, outputs: Seq<usize>, category: Category) -> InstructionView {
    InstructionView { opcode, inputs, outputs, category }
}

/// One opcode applied to tensors referenced by name. The same tensor may be
/// both an input and an output (an update in place).
#[derive(Clone, Debug)]
pub struct Instruction {
    pub opcode: OpCode,
    pub inputs: Vec<usize>,
    pub outputs: Vec<usize>,
    pub category: Category,
}

/// A vector holding the names of a slice, in order.
pub fn copy_names(names: &[usize]) -> (r: Vec<usize>)
    ensures
        r@ == names@,
{
    let mut r: Vec<usize> = Vec::new();
    let mut i: usize = 0;
    while i < names.len()
        invariant
            i <= names@.len(),
            r@ == names@.subrange(0, i as int),
        decreases names@.len() - i,
    {
        r.push(names[i]);
        i += 1;
        assert(r@ =~= names@.subrange(0, i as int));
    }
    assert(r@ =~= names@);
    r
}

impl View for Instruction {
    type V = InstructionView;

    open spec fn view(&self) -> InstructionView {
        instr(self.opcode, self.inputs@, self.outputs@, self.category)
    }
}

impl Instruction {
    pub fn new(opcode: OpCode, inputs: &[usize], outputs: &[usize], category: Category) -> (r: Self)
        ensures
            r@ == instr(opcode, inputs@, outputs@, category),
    {
        Instruction { opcode, inputs: copy_names(inputs), outputs: copy_names(outputs), category }
    }

    pub fn category(&self) -> (r: Category)
        ensures
            r == self@.category,
    {
        self.category
    }

    pub fn operator(&self) -> (r: OpCode)
        ensures
            r == self@.opcode,
    {
        self.opcode
    }

    pub fn inputs(&self) -> (r: &Vec<usize>)
        ensures
            r@ == self@.inputs,
    {
        &self.inputs
    }

    pub fn outputs(&self) -> (r: &Vec<usize>)
        ensures
            r@ == self@.outputs,
    {
        &self.outputs
    }

    /// Hands the instruction, once, to the executor's backend, and returns
    /// what the backend returned.
    pub fn forward<B: crate::machine::DeviceBackend>(&self, executor: &mut crate::machine::StreamExecutor<B>) -> (r: Result<(), crate::error::Error>)
        ensures
            final(executor).handled == old(executor).handled,
            final(executor).calls@ == old(executor).calls@.push((crate::machine::Call::Execute(self@), r)),
    {
        executor.execute(self)
    }

    /// A copy whose view is the same.
    pub fn duplicate(&self) -> (r: Self)
        ensures
            r@ == self@,
    {
        Instruction {
            opcode: self.opcode,
            inputs: self.inputs.clone(),
            outputs: self.outputs.clone(),
            category: self.category,
        }
    }
}

} // verus!
