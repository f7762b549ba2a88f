//! Optimizers, written as instructions of the optimization phase over the
//! parameter registry.
use vstd::prelude::*;

use crate::device::{
    lemma_well_shaped_extends, node_wf, push_instruction, shape_of, views, well_shaped, Device,
    Init, Node, TensorInfo,
};
use crate::error::Error;
use crate::instruction::{instr, Category, Instruction, InstructionView, OpCode};
use crate::machine::OptimizerTrait;

verus! {

pub open spec fn optimization(op: OpCode, inputs: Seq<usize>, outputs: Seq<usize>) -> InstructionView {
    instr(op, inputs, outputs, Category::Optimization)
}

/// The update of one parameter node `n` through the scratch tensor `s`:
/// `s <- 0; s <- s + grad; s <- rate * s; value <- value + s`.
pub open spec fn descent_step(n: Node, zero: usize, rate: usize, s: usize) -> Seq<InstructionView> {
    seq![
        optimization(OpCode::ScalarMul, seq![zero, s], seq![s]),
        optimization(OpCode::Add, seq![s, n.gradient], seq![s]),
        optimization(OpCode::ScalarMul, seq![rate, s], seq![s]),
        optimization(OpCode::Add, seq![n.value, s], seq![n.value]),
    ]
}

/// The steps of the first `k` parameters; the scratch tensor of parameter `j` is `first + j`.
pub open spec fn descent_steps(nodes: Seq<Node>, parameters: Seq<usize>, zero: usize, rate: usize, first: int, k: int) -> Seq<InstructionView>
    decreases k,
{
    if k <= 0 {
        Seq::empty()
    } else {
        descent_steps(nodes, parameters, zero, rate, first, k - 1)
            + descent_step(nodes[parameters[k - 1] as int], zero, rate, (first + k - 1) as usize)
    }
}

/// The scratch tensors of the first `k` parameters, each shaped as its parameter.
pub open spec fn descent_scratch(tensors: Seq<TensorInfo>, nodes: Seq<Node>, parameters: Seq<usize>, k: int) -> Seq<TensorInfo> {
    Seq::new(k as nat, |j: int| {
        let v = nodes[parameters[j] as int].value;
        TensorInfo { rows: tensors[v as int].rows, cols: tensors[v as int].cols, requires_grad: false, is_parameter: false, init: Init::Zeros }
    })
}

/// Plain gradient descent with learning rate `numerator / denominator`.
#[derive(Clone, Copy, Debug)]
pub struct GradientDescent {
    pub numerator: u32,
    pub denominator: u32,
}

impl GradientDescent {
    pub fn new(numerator: u32, denominator: u32) -> (r: Self)
        ensures
            r == (GradientDescent { numerator, denominator }),
    {
        GradientDescent { numerator, denominator }
    }

    /// The instructions that update every parameter. A zero denominator is refused.
    pub fn descend(&self, device: &mut Device) -> (r: Result<Vec<Instruction>, Error>)
        requires
            old(device).wf(),
        ensures
            final(device).wf(),
            final(device).extends(old(device)),
            final(device).nodes@ == old(device).nodes@,
            final(device).parameters@ == old(device).parameters@,
            r is Err <==> self.denominator == 0,
            r is Err ==> r == Err::<Vec<Instruction>, Error>(Error::UnsupportedOperation) && *final(device) == *old(device),
            r matches Ok(v) ==> {
                let z = old(device).tensors@.len();
                let n = old(device).parameters@.len();
                &&& views(v@) == descent_steps(old(device).nodes@, old(device).parameters@, z as usize, (z + 1) as usize, (z + 2) as int, n as int)
                &&& final(device).tensors@ == old(device).tensors@ + seq![
                    TensorInfo { rows: 1, cols: 1, requires_grad: false, is_parameter: false, init: Init::Zeros },
                    TensorInfo { rows: 1, cols: 1, requires_grad: false, is_parameter: false,
                        init: Init::Constant((0 - self.numerator) as i64, self.denominator as u64) },
                ] + descent_scratch(old(device).tensors@, old(device).nodes@, old(device).parameters@, n as int)
                &&& forall|q: int| 0 <= q < v@.len() ==> {
                    &&& (#[trigger] v@[q])@.category == Category::Optimization
                    &&& well_shaped(final(device).tensors@, v@[q]@)
                }
            },
    {
        if self.denominator == 0 {
            return Err(Error::UnsupportedOperation);
        }
        let ghost d0 = *device;
        let zero = device.tensor(1, 1, false, false, Init::Zeros);
        let rate = device.tensor(1, 1, false, false, Init::Constant(-(self.numerator as i64), self.denominator as u64));
        let ghost base = device.tensors@;
        let n = device.parameters.len();
        let mut instructions: Vec<Instruction> = Vec::new();
        let mut k: usize = 0;
        while k < n
            invariant
                k <= n,
                n == d0.parameters@.len(),
                device.wf(),
                device.nodes@ == d0.nodes@,
                device.parameters@ == d0.parameters@,
                d0.wf(),
                zero == d0.tensors@.len(),
                rate == zero + 1,
                base == d0.tensors@ + seq![
                    TensorInfo { rows: 1, cols: 1, requires_grad: false, is_parameter: false, init: Init::Zeros },
                    TensorInfo { rows: 1, cols: 1, requires_grad: false, is_parameter: false,
                        init: Init::Constant((0 - self.numerator) as i64, self.denominator as u64) },
                ],
                device.tensors@ == base + descent_scratch(d0.tensors@, d0.nodes@, d0.parameters@, k as int),
                views(instructions@) == descent_steps(d0.nodes@, d0.parameters@, zero, rate, (zero + 2) as int, k as int),
                forall|q: int| 0 <= q < instructions@.len() ==> {
                    &&& (#[trigger] instructions@[q])@.category == Category::Optimization
                    &&& well_shaped(device.tensors@, instructions@[q]@)
                },
            decreases n - k,
        {
            let p = device.parameters[k];
            assert(node_wf(device.tensors@, device.nodes@, p as int));
            let value = device.nodes[p].value;
            let gradient = device.nodes[p].gradient;
            let rows = device.tensors[value].rows;
            let cols = device.tensors[value].cols;
            let ghost t0 = device.tensors@;
            let ghost before = instructions@;
            let scratch = device.tensor(rows, cols, false, false, Init::Zeros);
            assert(node_wf(d0.tensors@, d0.nodes@, p as int));
            assert(value < d0.tensors@.len());
            assert(t0[value as int] == d0.tensors@[value as int]);
            assert(descent_scratch(d0.tensors@, d0.nodes@, d0.parameters@, k + 1) =~= descent_scratch(d0.tensors@, d0.nodes@,
                d0.parameters@, k as int).push(TensorInfo { rows, cols, requires_grad: false, is_parameter: false, init: Init::Zeros }));
            assert(device.tensors@ =~= base + descent_scratch(d0.tensors@, d0.nodes@, d0.parameters@, k + 1));
            assert(scratch == zero + 2 + k);
            let mut step: Vec<Instruction> = Vec::new();
            push_instruction(&mut step, crate::operators::two_inputs(OpCode::ScalarMul, zero, scratch, scratch, Category::Optimization));
            push_instruction(&mut step, crate::operators::two_inputs(OpCode::Add, scratch, gradient, scratch, Category::Optimization));
            push_instruction(&mut step, crate::operators::two_inputs(OpCode::ScalarMul, rate, scratch, scratch, Category::Optimization));
            push_instruction(&mut step, crate::operators::two_inputs(OpCode::Add, value, scratch, value, Category::Optimization));
            let ghost step_views = views(step@);
            assert(step_views =~= descent_step(d0.nodes@[p as int], zero, rate, scratch));
            crate::program::append_instructions(&mut instructions, &step);
            proof {
                assert(views(instructions@) == views(before) + step_views);
                assert(views(before).len() == before.len());
                assert forall|q: int| 0 <= q < instructions@.len() implies {
                    &&& (#[trigger] instructions@[q])@.category == Category::Optimization
                    &&& well_shaped(device.tensors@, instructions@[q]@)
                } by {
                    assert(views(instructions@)[q] == instructions@[q]@);
                    if q < before.len() {
                        assert(views(before)[q] == before[q]@);
                        lemma_well_shaped_extends(t0, device.tensors@, before[q]@);
                    } else {
                        let j = q - before.len();
                        assert(instructions@[q]@ == step_views[j]);
                        assert(shape_of(device.tensors@, value) == shape_of(device.tensors@, gradient));
                    }
                }
            }
            k += 1;
        }
        Ok(instructions)
    }
}

impl OptimizerTrait for GradientDescent {
    open spec fn accepts(&self) -> bool {
        self.denominator != 0
    }

    open spec fn program(&self, nodes: Seq<Node>, parameters: Seq<usize>, first: nat) -> Seq<InstructionView> {
        descent_steps(nodes, parameters, first as usize, (first + 1) as usize, (first + 2) as int, parameters.len() as int)
    }

    open spec fn tensors_added(&self, n: nat) -> nat {
        n + 2
    }

    fn optimize(&self, device: &mut Device) -> (r: Result<Vec<Instruction>, Error>) {
        let _count = device.tensors.len();
        self.descend(device)
    }
}

/// The Adam update of parameter node `n`, with the hyperparameters at
/// `h..h + 4` (rate, beta1, beta2, epsilon) and its state at `s..s + 3`
/// (first moment, second moment, step count).
pub open spec fn adam_step(n: Node, h: usize, s: usize) -> InstructionView {
    optimization(OpCode::AdamStep,
        seq![n.value, n.gradient, s, (s + 1) as usize, (s + 2) as usize, h, (h + 1) as usize, (h + 2) as usize, (h + 3) as usize],
        seq![n.value, s, (s + 1) as usize, (s + 2) as usize])
}

/// The updates of the first `k` parameters; the state of parameter `j` starts at `first + 3 * j`.
pub open spec fn adam_steps(nodes: Seq<Node>, parameters: Seq<usize>, h: usize, first: int, k: int) -> Seq<InstructionView>
    decreases k,
{
    if k <= 0 {
        Seq::empty()
    } else {
        adam_steps(nodes, parameters, h, first, k - 1).push(adam_step(nodes[parameters[k - 1] as int], h, (first + 3 * (k - 1)) as usize))
    }
}

/// The state tensors of the first `k` parameters: two moments shaped as the parameter, and a 1x1 step count.
pub open spec fn adam_state(tensors: Seq<TensorInfo>, nodes: Seq<Node>, parameters: Seq<usize>, k: int) -> Seq<TensorInfo>
    decreases k,
{
    if k <= 0 {
        Seq::empty()
    } else {
        let v = nodes[parameters[k - 1] as int].value;
        let moment = TensorInfo { rows: tensors[v as int].rows, cols: tensors[v as int].cols, requires_grad: false, is_parameter: false, init: Init::Zeros };
        adam_state(tensors, nodes, parameters, k - 1) + seq![
            moment,
            moment,
            TensorInfo { rows: 1, cols: 1, requires_grad: false, is_parameter: false, init: Init::Zeros },
        ]
    }
}

pub open spec fn constant_info(value: (u32, u32)) -> TensorInfo {
    TensorInfo { rows: 1, cols: 1, requires_grad: false, is_parameter: false, init: Init::Constant(value.0 as i64, value.1 as u64) }
}

proof fn lemma_adam_state_len(tensors: Seq<TensorInfo>, nodes: Seq<Node>, parameters: Seq<usize>, k: int)
    requires
        k >= 0,
    ensures
        adam_state(tensors, nodes, parameters, k).len() == 3 * k,
    decreases k,
{
    if k > 0 {
        lemma_adam_state_len(tensors, nodes, parameters, k - 1);
    }
}

/// Adam, each hyperparameter written as `(numerator, denominator)`.
#[derive(Clone, Copy, Debug)]
pub struct Adam {
    pub learning_rate: (u32, u32),
    pub beta1: (u32, u32),
    pub beta2: (u32, u32),
    pub epsilon: (u32, u32),
}

impl Adam {
    /// Refuses a hyperparameter with a zero denominator.
    pub fn try_new(learning_rate: (u32, u32), beta1: (u32, u32), beta2: (u32, u32), epsilon: (u32, u32)) -> (r: Result<Self, Error>)
        ensures
            r is Ok <==> (learning_rate.1 != 0 && beta1.1 != 0 && beta2.1 != 0 && epsilon.1 != 0),
            r is Err ==> r == Err::<Adam, Error>(Error::UnsupportedOperation),
            r matches Ok(a) ==> a == (Adam { learning_rate, beta1, beta2, epsilon }),
    {
        if learning_rate.1 == 0 || beta1.1 == 0 || beta2.1 == 0 || epsilon.1 == 0 {
            return Err(Error::UnsupportedOperation);
        }
        Ok(Adam { learning_rate, beta1, beta2, epsilon })
    }

    /// One `AdamStep` per parameter, over four hyperparameter constants and
    /// the state tensors it allocates.
    pub fn steps(&self, device: &mut Device) -> (r: Vec<Instruction>)
        requires
            old(device).wf(),
        ensures
            final(device).wf(),
            final(device).extends(old(device)),
            final(device).nodes@ == old(device).nodes@,
            final(device).parameters@ == old(device).parameters@,
            ({
                let z = old(device).tensors@.len();
                let n = old(device).parameters@.len();
                &&& views(r@) == adam_steps(old(device).nodes@, old(device).parameters@, z as usize, (z + 4) as int, n as int)
                &&& final(device).tensors@ == old(device).tensors@ + seq![
                    constant_info(self.learning_rate),
                    constant_info(self.beta1),
                    constant_info(self.beta2),
                    constant_info(self.epsilon),
                ] + adam_state(old(device).tensors@, old(device).nodes@, old(device).parameters@, n as int)
            }),
            forall|q: int| 0 <= q < r@.len() ==> {
                &&& (#[trigger] r@[q])@.category == Category::Optimization
                &&& well_shaped(final(device).tensors@, r@[q]@)
            },
    {
        let ghost d0 = *device;
        let rate = device.tensor(1, 1, false, false, Init::Constant(self.learning_rate.0 as i64, self.learning_rate.1 as u64));
        device.tensor(1, 1, false, false, Init::Constant(self.beta1.0 as i64, self.beta1.1 as u64));
        device.tensor(1, 1, false, false, Init::Constant(self.beta2.0 as i64, self.beta2.1 as u64));
        device.tensor(1, 1, false, false, Init::Constant(self.epsilon.0 as i64, self.epsilon.1 as u64));
        let ghost base = device.tensors@;
        assert(base =~= d0.tensors@ + seq![
            constant_info(self.learning_rate),
            constant_info(self.beta1),
            constant_info(self.beta2),
            constant_info(self.epsilon),
        ]);
        let n = device.parameters.len();
        let mut instructions: Vec<Instruction> = Vec::new();
        let mut k: usize = 0;
        while k < n
            invariant
                k <= n,
                n == d0.parameters@.len(),
                device.wf(),
                d0.wf(),
                device.nodes@ == d0.nodes@,
                device.parameters@ == d0.parameters@,
                rate == d0.tensors@.len(),
                base.len() == rate + 4,
                base == d0.tensors@ + seq![
                    constant_info(self.learning_rate),
                    constant_info(self.beta1),
                    constant_info(self.beta2),
                    constant_info(self.epsilon),
                ],
                device.tensors@ == base + adam_state(d0.tensors@, d0.nodes@, d0.parameters@, k as int),
                views(instructions@) == adam_steps(d0.nodes@, d0.parameters@, rate, (rate + 4) as int, k as int),
                forall|q: int| 0 <= q < instructions@.len() ==> {
                    &&& (#[trigger] instructions@[q])@.category == Category::Optimization
                    &&& well_shaped(device.tensors@, instructions@[q]@)
                },
            decreases n - k,
        {
            proof {
                lemma_adam_state_len(d0.tensors@, d0.nodes@, d0.parameters@, k as int);
            }
            let p = device.parameters[k];
            assert(node_wf(device.tensors@, device.nodes@, p as int));
            assert(node_wf(d0.tensors@, d0.nodes@, p as int));
            let value = device.nodes[p].value;
            let gradient = device.nodes[p].gradient;
            let rows = device.tensors[value].rows;
            let cols = device.tensors[value].cols;
            assert(device.tensors@[value as int] == d0.tensors@[value as int]);
            let ghost t0 = device.tensors@;
            let ghost before = instructions@;
            let m = device.tensor(rows, cols, false, false, Init::Zeros);
            let v = device.tensor(rows, cols, false, false, Init::Zeros);
            let t = device.tensor(1, 1, false, false, Init::Zeros);
            assert(m == rate + 4 + 3 * k);
            assert(device.tensors@ =~= base + adam_state(d0.tensors@, d0.nodes@, d0.parameters@, k + 1));
            let inputs = vec![value, gradient, m, v, t, rate, rate + 1, rate + 2, rate + 3];
            let outputs = vec![value, m, v, t];
            let step = Instruction::new(OpCode::AdamStep, inputs.as_slice(), outputs.as_slice(), Category::Optimization);
            assert(step@ == adam_step(d0.nodes@[p as int], rate, m)) by {
                assert(inputs@ =~= seq![value, gradient, m, (m + 1) as usize, (m + 2) as usize, rate, (rate + 1) as usize, (rate + 2) as usize, (rate + 3) as usize]);
                assert(outputs@ =~= seq![value, m, (m + 1) as usize, (m + 2) as usize]);
            }
            proof {
                let tt = device.tensors@;
                let ins = crate::device::shapes_of(tt, step@.inputs);
                let outs = crate::device::shapes_of(tt, step@.outputs);
                assert(crate::shape::all_equal(ins.subrange(4, 9), (1usize, 1usize))) by {
                    assert forall|q: int| 0 <= q < 5 implies ins.subrange(4, 9)[q] == (1usize, 1usize) by {
                        assert(ins.subrange(4, 9)[q] == ins[q + 4]);
                    }
                }
                assert(shape_of(tt, value) == shape_of(tt, gradient));
                assert(crate::shape::shape_rule(OpCode::AdamStep, ins, outs));
                assert(well_shaped(tt, step@));
            }
            push_instruction(&mut instructions, step);
            proof {
                assert forall|q: int| 0 <= q < instructions@.len() implies {
                    &&& (#[trigger] instructions@[q])@.category == Category::Optimization
                    &&& well_shaped(device.tensors@, instructions@[q]@)
                } by {
                    if q < before.len() {
                        assert(instructions@[q] == before[q]);
                        lemma_well_shaped_extends(t0, device.tensors@, before[q]@);
                    }
                }
            }
            k += 1;
        }
        instructions
    }
}

impl OptimizerTrait for Adam {
    open spec fn accepts(&self) -> bool {
        true
    }

    open spec fn program(&self, nodes: Seq<Node>, parameters: Seq<usize>, first: nat) -> Seq<InstructionView> {
        adam_steps(nodes, parameters, first as usize, (first + 4) as int, parameters.len() as int)
    }

    open spec fn tensors_added(&self, n: nat) -> nat {
        3 * n + 4
    }

    fn optimize(&self, device: &mut Device) -> (r: Result<Vec<Instruction>, Error>) {
        let _count = device.tensors.len();
        let r = self.steps(device);
        proof {
            lemma_adam_state_len(old(device).tensors@, old(device).nodes@, old(device).parameters@, old(device).parameters@.len() as int);
        }
        Ok(r)
    }
}

} // verus!
