//! The neural machine: builds the program of a model, a loss and an
//! optimizer once, plans its four phases into streams, and runs a phase at
//! a time on a backend.
use vstd::prelude::*;

use crate::device::{node_wf, views, well_shaped, Device, Init, Node, TensorInfo, TensorWithGrad};
use crate::error::Error;
use crate::instruction::{Category, Instruction, InstructionView};
use crate::program::{
    append_clipped, append_instructions, forward_program, lemma_clipped_well_shaped,
    lemma_concat_well_shaped, of_category, reverse_gradients, select_category, views_well_shaped,
};
use crate::scheduler::{flatten, StreamEventHandler};
use crate::streams::{
    is_schedule, make_simple_instructions, make_streams, reset_streams, same_plan, schedule_of, streams_wf,
    verify_machine_inputs, Stream, StreamState,
};
use crate::tape::{get_tape, is_tape};
use crate::ordering::planned_with_dependencies;
use crate::planner::SimpleInstruction;

verus! {

/// A call handed to a backend.
pub enum Call {
    Copy(usize, usize),
    Execute(InstructionView),
}

/// A call handed to a backend, with what the backend returned.
pub type Logged = (Call, Result<(), Error>);

/// The calls that run the instructions at `indices` of `instructions`, in
/// that order, each returning `Ok`.
pub open spec fn runs(instructions: Seq<Instruction>, indices: Seq<usize>) -> Seq<Logged> {
    indices.map_values(|i: usize| (Call::Execute(instructions[i as int]@), Ok::<(), Error>(())))
}

/// A run of `indices` that stopped at position `j`: the calls before it
/// returned `Ok`, the call at `j` returned `e`.
pub open spec fn stopped_at(instructions: Seq<Instruction>, indices: Seq<usize>, j: int, e: Result<(), Error>) -> Seq<Logged> {
    runs(instructions, indices.subrange(0, j)) + seq![(Call::Execute(instructions[indices[j] as int]@), e)]
}

/// A run of `indices` either ran them all, or stopped at one of them with `r`.
pub open spec fn ran_or_stopped(instructions: Seq<Instruction>, indices: Seq<usize>, r: Result<(), Error>, log: Seq<Logged>) -> bool {
    &&& r is Ok ==> log == runs(instructions, indices)
    &&& r is Err ==> exists|j: int| 0 <= j < indices.len() && log == #[trigger] stopped_at(instructions, indices, j, r)
}

pub proof fn lemma_runs_concat(instructions: Seq<Instruction>, a: Seq<usize>, b: Seq<usize>)
    ensures
        runs(instructions, a + b) == runs(instructions, a) + runs(instructions, b),
{
    assert(runs(instructions, a + b) =~= runs(instructions, a) + runs(instructions, b));
}

/// The kernels that run instructions on tensor values. The values live with
/// the backend; the program refers to tensors by name.
pub trait DeviceBackend {
    /// Creates the tensors, filled as their `init` says.
    fn allocate(&mut self, tensors: &Vec<TensorInfo>) -> Result<(), Error>;

    /// Copies the values of tensor `source` into tensor `destination`.
    fn copy(&mut self, source: usize, destination: usize) -> Result<(), Error>;

    /// Runs one instruction.
    fn execute(&mut self, instruction: &Instruction) -> Result<(), Error>;
}

/// A model: a unary builder from an input of shape `input_shape` to an output
/// of shape `output_shape`.
pub trait UnaryModel {
    spec fn input_shape(&self) -> (usize, usize);

    spec fn output_shape(&self) -> (usize, usize);

    /// The model's parameters are nodes of `device`.
    spec fn ready(&self, device: &Device) -> bool;

    fn input_size(&self) -> (r: (usize, usize))
        ensures
            r == self.input_shape(),
    ;

    fn output_size(&self) -> (r: (usize, usize))
        ensures
            r == self.output_shape(),
    ;

    /// A model that is ready on a device stays ready as the device grows.
    proof fn lemma_ready_extends(&self, old: &Device, new: &Device)
        requires
            old.wf(),
            self.ready(old),
            new.extends(old),
        ensures
            self.ready(new),
    ;

    fn forward(&self, device: &mut Device, input: TensorWithGrad) -> (r: Result<TensorWithGrad, Error>)
        requires
            old(device).wf(),
            old(device).valid(input),
            self.ready(old(device)),
            (input.rows, input.cols) == self.input_shape(),
        ensures
            final(device).wf(),
            final(device).extends(old(device)),
            r is Ok,
            r matches Ok(out) ==> final(device).valid(out) && (out.rows, out.cols) == self.output_shape(),
    ;
}

/// A loss: a binary builder from `(expected, actual)` to a 1x1 node.
pub trait LossOperator {
    /// Whether the loss takes an expected and an actual tensor of these shapes.
    spec fn accepts(&self, expected: (usize, usize), actual: (usize, usize)) -> bool;

    fn forward(&self, device: &mut Device, expected: TensorWithGrad, actual: TensorWithGrad) -> (r: Result<TensorWithGrad, Error>)
        requires
            old(device).wf(),
            old(device).valid(expected),
            old(device).valid(actual),
        ensures
            final(device).wf(),
            final(device).extends(old(device)),
            r is Ok <==> self.accepts((expected.rows, expected.cols), (actual.rows, actual.cols)),
            r is Err ==> r == Err::<TensorWithGrad, Error>(Error::IncompatibleTensorShapes),
            r matches Ok(out) ==> final(device).valid(out),
            r matches Ok(out) ==> out.node == old(device).nodes@.len() && final(device).nodes@.len() == old(device).nodes@.len() + 1,
    ;
}

/// An optimizer: the instructions, all in the optimization phase, that
/// update the parameters of the registry from their gradients.
pub trait OptimizerTrait {
    /// Whether the optimizer's settings can be written as instructions.
    spec fn accepts(&self) -> bool;

    /// The instructions written for a graph with these nodes and parameters,
    /// when the first tensor the optimizer allocates is named `first`.
    spec fn program(&self, nodes: Seq<Node>, parameters: Seq<usize>, first: nat) -> Seq<InstructionView>;

    /// How many tensors the optimizer allocates for `n` parameters.
    spec fn tensors_added(&self, n: nat) -> nat;

    fn optimize(&self, device: &mut Device) -> (r: Result<Vec<Instruction>, Error>)
        requires
            old(device).wf(),
        ensures
            r is Ok <==> self.accepts(),
            r is Err ==> r == Err::<Vec<Instruction>, Error>(Error::UnsupportedOperation),
            final(device).wf(),
            final(device).extends(old(device)),
            final(device).nodes@ == old(device).nodes@,
            final(device).parameters@ == old(device).parameters@,
            r is Ok ==> final(device).tensors@.len() == old(device).tensors@.len() + self.tensors_added(old(device).parameters@.len()),
            r matches Ok(v) ==> views(v@) == self.program(old(device).nodes@, old(device).parameters@, old(device).tensors@.len()),
            r matches Ok(v) ==> forall|q: int| 0 <= q < v@.len() ==> {
                &&& (#[trigger] v@[q])@.category == Category::Optimization
                &&& well_shaped(final(device).tensors@, v@[q]@)
            },
    ;
}

impl LossOperator for crate::operators::CrossEntropyLoss {
    open spec fn accepts(&self, expected: (usize, usize), actual: (usize, usize)) -> bool {
        expected == actual
    }

    fn forward(&self, device: &mut Device, expected: TensorWithGrad, actual: TensorWithGrad) -> (r: Result<TensorWithGrad, Error>) {
        crate::operators::CrossEntropyLoss::forward(self, device, expected, actual)
    }
}

impl LossOperator for crate::operators::SoftmaxCrossEntropyLoss {
    open spec fn accepts(&self, expected: (usize, usize), actual: (usize, usize)) -> bool {
        expected == actual
    }

    fn forward(&self, device: &mut Device, expected: TensorWithGrad, actual: TensorWithGrad) -> (r: Result<TensorWithGrad, Error>) {
        crate::operators::SoftmaxCrossEntropyLoss::forward(self, device, expected, actual)
    }
}

impl LossOperator for crate::operators::ResidualSumOfSquares {
    open spec fn accepts(&self, expected: (usize, usize), actual: (usize, usize)) -> bool {
        expected == actual
    }

    fn forward(&self, device: &mut Device, expected: TensorWithGrad, actual: TensorWithGrad) -> (r: Result<TensorWithGrad, Error>) {
        crate::operators::ResidualSumOfSquares::forward(self, device, expected, actual)
    }
}

/// Runs instructions on a backend. `calls` records, in order, each call
/// handed to the backend with what it returned; `handled` records the
/// streams run to the end.
pub struct StreamExecutor<B: DeviceBackend> {
    pub backend: B,
    pub calls: Ghost<Seq<Logged>>,
    pub handled: Ghost<Seq<(usize, usize)>>,
}

/// Some index of `members` does not name an instruction of `instructions`.
pub open spec fn out_of_range(instructions: Seq<Instruction>, members: Seq<usize>) -> bool {
    exists|k: int| 0 <= k < members.len() && members[k] >= instructions.len()
}

impl<B: DeviceBackend> StreamExecutor<B> {
    pub fn new(backend: B) -> (r: Self)
        ensures
            r.backend == backend,
            r.calls@ == Seq::<Logged>::empty(),
            r.handled@ == Seq::<(usize, usize)>::empty(),
    {
        StreamExecutor { backend, calls: Ghost(Seq::empty()), handled: Ghost(Seq::empty()) }
    }

    /// Copies tensor `source` into tensor `destination` on the backend.
    pub fn copy(&mut self, source: usize, destination: usize) -> (r: Result<(), Error>)
        ensures
            final(self).handled == old(self).handled,
            final(self).calls@ == old(self).calls@.push((Call::Copy(source, destination), r)),
    {
        let r = self.backend.copy(source, destination);
        self.calls = Ghost(self.calls@.push((Call::Copy(source, destination), r)));
        r
    }

    /// Runs one instruction on the backend.
    pub fn execute(&mut self, instruction: &Instruction) -> (r: Result<(), Error>)
        ensures
            final(self).handled == old(self).handled,
            final(self).calls@ == old(self).calls@.push((Call::Execute(instruction@), r)),
    {
        let r = self.backend.execute(instruction);
        self.calls = Ghost(self.calls@.push((Call::Execute(instruction@), r)));
        r
    }

    /// Runs the instructions at `members`, in order. An index that names no
    /// instruction is refused before anything runs; a backend error stops the run.
    pub fn run_members(&mut self, instructions: &Vec<Instruction>, members: &Vec<usize>) -> (r: Result<(), Error>)
        ensures
            final(self).handled == old(self).handled,
            out_of_range(instructions@, members@) ==> r == Err::<(), Error>(Error::UnsupportedOperation)
                && final(self).calls@ == old(self).calls@,
            members@.len() == 0 ==> r is Ok && final(self).calls@ == old(self).calls@,
            !out_of_range(instructions@, members@) ==> exists|log: Seq<Logged>| final(self).calls@ == old(self).calls@ + log
                && #[trigger] ran_or_stopped(instructions@, members@, r, log),
            r is Ok ==> final(self).calls@ == old(self).calls@ + runs(instructions@, members@),
    {
        let mut k: usize = 0;
        while k < members.len()
            invariant
                k <= members@.len(),
                forall|m: int| 0 <= m < k ==> (#[trigger] members@[m]) < instructions@.len(),
            decreases members@.len() - k,
        {
            if members[k] >= instructions.len() {
                return Err(Error::UnsupportedOperation);
            }
            k += 1;
        }
        let ghost base = self.calls@;
        let mut k: usize = 0;
        while k < members.len()
            invariant
                k <= members@.len(),
                forall|m: int| 0 <= m < members@.len() ==> (#[trigger] members@[m]) < instructions@.len(),
                self.calls@ == base + runs(instructions@, members@.subrange(0, k as int)),
                self.handled == old(self).handled,
                base == old(self).calls@,
            decreases members@.len() - k,
        {
            let outcome = self.execute(&instructions[members[k]]);
            match outcome {
                Ok(u) => {
                    assert(u == ());
                },
                Err(_) => {},
            }
            if outcome.is_err() {
                proof {
                    let log = stopped_at(instructions@, members@, k as int, outcome);
                    assert(self.calls@ =~= old(self).calls@ + log);
                    assert(ran_or_stopped(instructions@, members@, outcome, log));
                }
                return outcome;
            }
            assert(runs(instructions@, members@.subrange(0, k + 1)) =~= runs(instructions@, members@.subrange(0, k as int)).push(
                (Call::Execute(instructions@[members@[k as int] as int]@), Ok::<(), Error>(()))));
            k += 1;
        }
        assert(members@.subrange(0, k as int) =~= members@);
        assert(ran_or_stopped(instructions@, members@, Ok(()), runs(instructions@, members@)));
        Ok(())
    }
}

impl<B: DeviceBackend> StreamEventHandler for StreamExecutor<B> {
    open spec fn handled(&self) -> Seq<(usize, usize)> {
        self.handled@
    }

    fn on_execute(
        &mut self,
        streams: &Vec<Stream>,
        instructions: &Vec<Instruction>,
        stream: usize,
        execution_unit: usize,
    ) -> (r: Result<(), Error>)
        ensures
            r is Ok ==> final(self).calls@ == old(self).calls@ + runs(instructions@, streams@[stream as int].instructions@),
            out_of_range(instructions@, streams@[stream as int].instructions@) ==> r == Err::<(), Error>(Error::UnsupportedOperation),
    {
        let r = self.run_members(instructions, &streams[stream].instructions);
        if r.is_ok() {
            self.handled = Ghost(self.handled@.push((stream, execution_unit)));
        }
        r
    }
}

/// Every instruction index of the streams names one of `instructions`.
pub open spec fn members_in_range(instructions: Seq<Instruction>, streams: Seq<Stream>) -> bool {
    forall|s: int, k: int| 0 <= s < streams.len() && 0 <= k < streams[s].instructions@.len() ==>
        (#[trigger] streams[s].instructions@[k]) < instructions.len()
}

/// The run of the first `m` streams of `order` is a prefix of the run of them all.
pub proof fn lemma_flatten_prefix(streams: Seq<Stream>, order: Seq<usize>, m: int)
    requires
        0 <= m <= order.len(),
    ensures
        flatten(streams, order.subrange(0, m)).len() <= flatten(streams, order).len(),
        flatten(streams, order).subrange(0, flatten(streams, order.subrange(0, m)).len() as int) == flatten(streams, order.subrange(0, m)),
    decreases order.len(),
{
    if m == order.len() {
        assert(order.subrange(0, m) =~= order);
        assert(flatten(streams, order).subrange(0, flatten(streams, order).len() as int) =~= flatten(streams, order));
    } else {
        let d = order.drop_last();
        lemma_flatten_prefix(streams, d, m);
        assert(d.subrange(0, m) =~= order.subrange(0, m));
        let l = flatten(streams, order.subrange(0, m)).len() as int;
        assert(flatten(streams, order) == flatten(streams, d) + streams[order.last() as int].instructions@);
        assert(flatten(streams, order).subrange(0, l) =~= flatten(streams, d).subrange(0, l));
    }
}

/// Runs the streams on the executor's backend in the order that the state
/// machine joins them, then puts them back in the `Unreached` state. A
/// stream with an index that names no instruction, or a backend error, stops
/// the run and is returned.
pub fn run_on_executor<B: DeviceBackend>(
    streams: &mut Vec<Stream>,
    instructions: &Vec<Instruction>,
    execution_units_len: usize,
    executor: &mut StreamExecutor<B>,
) -> (r: Result<(), Error>)
    requires
        streams_wf(old(streams)@),
        forall|s: int| 0 <= s < old(streams)@.len() ==> (#[trigger] old(streams)@[s]).state == StreamState::Unreached,
    ensures
        final(streams)@.len() == old(streams)@.len(),
        forall|s: int| 0 <= s < final(streams)@.len() ==> {
            &&& same_plan(#[trigger] final(streams)@[s], old(streams)@[s])
            &&& final(streams)@[s].state == StreamState::Unreached
        },
        old(streams)@.len() == 0 ==> r is Ok && final(executor).calls@ == old(executor).calls@,
        r is Ok ==> final(executor).calls@ == old(executor).calls@
            + runs(instructions@, flatten(old(streams)@, schedule_of(old(streams)@, execution_units_len))),
        members_in_range(instructions@, old(streams)@) ==> exists|log: Seq<Logged>| final(executor).calls@ == old(executor).calls@ + log
            && #[trigger] ran_or_stopped(instructions@, flatten(old(streams)@, schedule_of(old(streams)@, execution_units_len)), r, log),
        final(executor).handled == old(executor).handled,
{
    let ghost plan = streams@;
    let ghost all = flatten(plan, schedule_of(plan, execution_units_len));
    let order = crate::streams::execute_streams(streams, execution_units_len);
    let ghost base = executor.calls@;
    let mut result: Result<(), Error> = Ok(());
    let mut k: usize = 0;
    while k < order.len() && result.is_ok()
        invariant
            k <= order@.len(),
            streams@.len() == plan.len(),
            forall|s: int| 0 <= s < streams@.len() ==> same_plan(#[trigger] streams@[s], plan[s]),
            is_schedule(plan, order@),
            order@ == schedule_of(plan, execution_units_len),
            order@.len() == 0 ==> result is Ok,
            result is Ok ==> executor.calls@ == base + runs(instructions@, flatten(plan, order@.subrange(0, k as int))),
            result is Err && members_in_range(instructions@, plan) ==> exists|j: int| 0 <= j < all.len()
                && executor.calls@ == base + #[trigger] stopped_at(instructions@, all, j, result),
            all == flatten(plan, order@),
            base == old(executor).calls@,
            executor.handled == old(executor).handled,
        decreases order@.len() - k + if result is Ok { 1int } else { 0int },
    {
        let stream = order[k];
        assert(same_plan(streams@[stream as int], plan[stream as int]));
        let ghost before = executor.calls@;
        let outcome = executor.run_members(instructions, &streams[stream].instructions);
        if outcome.is_err() {
            proof {
                if members_in_range(instructions@, plan) {
                    let members = plan[stream as int].instructions@;
                    assert(!out_of_range(instructions@, members)) by {
                        if out_of_range(instructions@, members) {
                            let q = choose|q: int| 0 <= q < members.len() && members[q] >= instructions@.len();
                            assert(plan[stream as int].instructions@[q] < instructions@.len());
                        }
                    }
                    let log2 = choose|log2: Seq<Logged>| executor.calls@ == before + log2 && #[trigger] ran_or_stopped(instructions@, members, outcome, log2);
                    let kk = choose|kk: int| 0 <= kk < members.len() && log2 == #[trigger] stopped_at(instructions@, members, kk, outcome);
                    let prefix = flatten(plan, order@.subrange(0, k as int));
                    let next = order@.subrange(0, k + 1);
                    assert(next.drop_last() =~= order@.subrange(0, k as int));
                    assert(flatten(plan, next) == prefix + members);
                    lemma_flatten_prefix(plan, order@, k + 1);
                    let j = prefix.len() + kk;
                    assert(all.subrange(0, j) =~= prefix + members.subrange(0, kk));
                    let both = prefix + members;
                    assert(all.subrange(0, both.len() as int)[j] == all[j]);
                    assert(both[j] == members[kk]);
                    assert(all[j] == members[kk]);
                    lemma_runs_concat(instructions@, prefix, members.subrange(0, kk));
                    assert(executor.calls@ =~= base + stopped_at(instructions@, all, j, outcome));
                }
            }
            result = outcome;
        } else {
            proof {
                let next = order@.subrange(0, k + 1);
                assert(next.drop_last() =~= order@.subrange(0, k as int));
                assert(next.last() == stream);
                assert(flatten(plan, next) == flatten(plan, order@.subrange(0, k as int)) + plan[stream as int].instructions@);
                lemma_runs_concat(instructions@, flatten(plan, order@.subrange(0, k as int)), plan[stream as int].instructions@);
                assert(executor.calls@ =~= base + runs(instructions@, flatten(plan, next)));
            }
            k += 1;
        }
    }
    if result.is_ok() {
        assert(order@.subrange(0, k as int) =~= order@);
        assert(ran_or_stopped(instructions@, all, result, runs(instructions@, all)));
    } else {
        proof {
            if members_in_range(instructions@, plan) {
                let j = choose|j: int| 0 <= j < all.len() && executor.calls@ == base + #[trigger] stopped_at(instructions@, all, j, result);
                assert(ran_or_stopped(instructions@, all, result, stopped_at(instructions@, all, j, result)));
            }
        }
    }
    proof {
        if plan.len() == 0 {
            assert(order@.len() == 0) by {
                if order@.len() > 0 {
                    assert(order@[0] < plan.len());
                }
            }
            assert(order@.subrange(0, 0) =~= Seq::<usize>::empty());
            assert(runs(instructions@, Seq::<usize>::empty()) =~= Seq::<Logged>::empty());
        }
    }
    reset_streams(streams);
    result
}

/// The whole program: the forward instructions of the tape, then its
/// clipped gradient instructions in reverse order, then the optimizer's.
pub open spec fn assembled(nodes: Seq<Node>, tape: Seq<usize>, optimizer: Seq<InstructionView>) -> Seq<InstructionView> {
    forward_program(nodes, tape) + reverse_gradients(nodes, tape, 0) + optimizer
}

/// Streams that can run: well formed and all `Unreached`.
pub open spec fn ready_streams(streams: Seq<Stream>) -> bool {
    &&& streams_wf(streams)
    &&& forall|s: int| 0 <= s < streams.len() ==> (#[trigger] streams[s]).state == StreamState::Unreached
}

/// A prepared program and the backend it runs on.
pub struct NeuralMachine<B: DeviceBackend> {
    pub example_input: TensorWithGrad,
    pub example_output: TensorWithGrad,
    pub machine_output: TensorWithGrad,
    pub loss: TensorWithGrad,
    pub inference_instructions: Vec<Instruction>,
    pub inference_streams: Vec<Stream>,
    pub loss_instructions: Vec<Instruction>,
    pub loss_streams: Vec<Stream>,
    pub gradient_instructions: Vec<Instruction>,
    pub gradient_streams: Vec<Stream>,
    pub optimization_instructions: Vec<Instruction>,
    pub optimization_streams: Vec<Stream>,
    pub max_concurrent_streams: usize,
    pub executor: StreamExecutor<B>,
}

/// A machine input's value: filled with `7 / 10` until data is copied in.
pub open spec fn machine_input_info(rows: usize, cols: usize) -> TensorInfo {
    TensorInfo { rows, cols, requires_grad: false, is_parameter: false, init: Init::Constant(7, 10) }
}

/// The optimizer's instructions on device `d`, which holds the tensors the
/// optimizer allocated last.
pub open spec fn optimizer_program<O: OptimizerTrait>(optimizer: &O, d: &Device) -> Seq<InstructionView> {
    optimizer.program(d.nodes@, d.parameters@, (d.tensors@.len() - optimizer.tensors_added(d.parameters@.len())) as nat)
}

/// Some instruction of `program` writes `a` or `b`.
pub open spec fn writes_machine_input(program: Seq<InstructionView>, a: usize, b: usize) -> bool {
    exists|q: int| 0 <= q < program.len() && ((#[trigger] program[q]).outputs.contains(a) || program[q].outputs.contains(b))
}

/// `prog` holds the names each instruction of `instructions` reads and writes.
pub open spec fn simple_of(prog: Seq<SimpleInstruction>, instructions: Seq<Instruction>) -> bool {
    &&& prog.len() == instructions.len()
    &&& forall|i: int| 0 <= i < prog.len() ==> {
        &&& (#[trigger] prog[i]).0@ == instructions[i]@.inputs
        &&& prog[i].1@ == instructions[i]@.outputs
    }
}

/// The streams of a phase: ready to run, planned from its instructions,
/// naming only its instructions, which all have the phase's category.
pub open spec fn phase_ready(instructions: Seq<Instruction>, streams: Seq<Stream>, c: Category) -> bool {
    &&& ready_streams(streams)
    &&& exists|prog: Seq<SimpleInstruction>| simple_of(prog, instructions) && #[trigger] planned_with_dependencies(prog, streams)
    &&& forall|s: int, k: int| 0 <= s < streams.len() && 0 <= k < streams[s].instructions@.len() ==>
        (#[trigger] streams[s].instructions@[k]) < instructions.len()
    &&& forall|i: int| 0 <= i < instructions.len() ==> (#[trigger] instructions[i])@.category == c
}

/// The streams keep their ids, dependencies and instructions.
pub open spec fn same_streams(a: Seq<Stream>, b: Seq<Stream>) -> bool {
    &&& a.len() == b.len()
    &&& forall|s: int| 0 <= s < a.len() ==> same_plan(#[trigger] a[s], b[s])
}

/// What running a phase hands to the backend: its instructions, stream
/// after stream, in the order the state machine joins the streams.
pub open spec fn phase_runs(instructions: Seq<Instruction>, streams: Seq<Stream>, max: usize) -> Seq<Logged> {
    runs(instructions, flatten(streams, schedule_of(streams, max)))
}

proof fn lemma_phase_ready_same_plan(instructions: Seq<Instruction>, a: Seq<Stream>, b: Seq<Stream>, c: Category)
    requires
        phase_ready(instructions, a, c),
        b.len() == a.len(),
        forall|s: int| 0 <= s < b.len() ==> {
            &&& same_plan(#[trigger] b[s], a[s])
            &&& b[s].state == StreamState::Unreached
        },
    ensures
        phase_ready(instructions, b, c),
{
    let prog = choose|prog: Seq<SimpleInstruction>| simple_of(prog, instructions) && #[trigger] planned_with_dependencies(prog, a);
    assert forall|s: int| 0 <= s < b.len() implies (#[trigger] b[s]).dependencies@ == crate::streams::stream_dependencies(prog, b, s) by {
        assert(same_plan(b[s], a[s]));
    }
    assert(planned_with_dependencies(prog, b));
    assert forall|s: int, k: int| 0 <= s < b.len() && 0 <= k < b[s].instructions@.len() implies
        (#[trigger] b[s].instructions@[k]) < instructions.len() by {
        assert(same_plan(b[s], a[s]));
        assert(a[s].instructions@[k] < instructions.len());
    }
    assert forall|s: int| 0 <= s < b.len() implies (#[trigger] b[s]).id == s by {
        assert(same_plan(b[s], a[s]));
    }
    assert forall|s: int, q: int| 0 <= s < b.len() && 0 <= q < b[s].dependencies@.len() implies
        (#[trigger] b[s].dependencies@[q]) < s by {
        assert(same_plan(b[s], a[s]));
        assert(a[s].dependencies@[q] < s);
    }
}

/// Every instruction of a phase's list is an instruction of the program.
proof fn lemma_of_category_in(s: Seq<InstructionView>, c: Category, k: int)
    requires
        0 <= k < of_category(s, c).len(),
    ensures
        s.contains(of_category(s, c)[k]),
        of_category(s, c)[k].category == c,
    decreases s.len(),
{
    let prev = of_category(s.drop_last(), c);
    if k < prev.len() {
        lemma_of_category_in(s.drop_last(), c, k);
        let q = choose|q: int| 0 <= q < s.drop_last().len() && s.drop_last()[q] == prev[k];
        assert(s[q] == prev[k]);
        if s.last().category == c {
            assert(of_category(s, c)[k] == prev[k]);
        }
    } else {
        assert(of_category(s, c)[k] == s.last());
        assert(s[s.len() - 1] == s.last());
    }
}

proof fn lemma_phase_ready(program: Seq<InstructionView>, c: Category, instructions: Seq<Instruction>, s: Seq<Stream>, prog: Seq<SimpleInstruction>)
    requires
        views(instructions) == of_category(program, c),
        ready_streams(s),
        simple_of(prog, instructions),
        planned_with_dependencies(prog, s),
        forall|t: int, k: int| 0 <= t < s.len() && 0 <= k < s[t].instructions@.len() ==>
            (#[trigger] s[t].instructions@[k]) < instructions.len(),
    ensures
        phase_ready(instructions, s, c),
{
    lemma_phase_category(program, c, instructions);
}

proof fn lemma_phase_writes(program: Seq<InstructionView>, c: Category, list: Seq<Instruction>, mi: Seq<usize>)
    requires
        views(list) == of_category(program, c),
        mi.len() == 2,
        !(forall|m: int, i: int| 0 <= m < mi.len() && 0 <= i < list.len() ==>
            !(#[trigger] list[i])@.outputs.contains(#[trigger] mi[m])),
    ensures
        writes_machine_input(program, mi[0], mi[1]),
{
    let (m, i) = choose|m: int, i: int| 0 <= m < mi.len() && 0 <= i < list.len() && (#[trigger] list[i])@.outputs.contains(#[trigger] mi[m]);
    assert(views(list)[i] == list[i]@);
    lemma_of_category_in(program, c, i);
    let q = choose|q: int| 0 <= q < program.len() && program[q] == of_category(program, c)[i];
    assert(program[q].outputs.contains(mi[0]) || program[q].outputs.contains(mi[1]));
}

proof fn lemma_phase_category(program: Seq<InstructionView>, c: Category, list: Seq<Instruction>)
    requires
        views(list) == of_category(program, c),
    ensures
        forall|i: int| 0 <= i < list.len() ==> (#[trigger] list[i])@.category == c,
{
    assert forall|i: int| 0 <= i < list.len() implies (#[trigger] list[i])@.category == c by {
        assert(views(list)[i] == list[i]@);
        lemma_of_category_in(program, c, i);
    }
}

/// A machine input: a node with no inputs, filled with `0.7` until data is copied in.
fn machine_input(device: &mut Device, rows: usize, cols: usize) -> (r: TensorWithGrad)
    requires
        old(device).wf(),
    ensures
        final(device).wf(),
        final(device).extends(old(device)),
        final(device).valid(r),
        r.rows == rows,
        r.cols == cols,
        r.value == old(device).tensors@.len(),
        final(device).tensors@ == old(device).tensors@.push(machine_input_info(rows, cols)).push(
            TensorInfo { rows, cols, requires_grad: false, is_parameter: false, init: Init::Zeros }),
        final(device).parameters@ == old(device).parameters@,
{
    let value = device.tensor(rows, cols, false, false, Init::Constant(7, 10));
    let gradient = device.tensor(rows, cols, false, false, Init::Zeros);
    let forward: Vec<Instruction> = Vec::new();
    let backward: Vec<Instruction> = Vec::new();
    device.add_node(value, gradient, Vec::new(), forward, backward, false)
}

/// An instruction of a program is among the instructions of its phase.
proof fn lemma_of_category_contains(s: Seq<InstructionView>, c: Category, q: int)
    requires
        0 <= q < s.len(),
        s[q].category == c,
    ensures
        of_category(s, c).contains(s[q]),
    decreases s.len(),
{
    let prev = of_category(s.drop_last(), c);
    if q == s.len() - 1 {
        assert(of_category(s, c)[prev.len() as int] == s[q]);
    } else {
        lemma_of_category_contains(s.drop_last(), c, q);
        assert(s.drop_last()[q] == s[q]);
        let k = choose|k: int| 0 <= k < prev.len() && prev[k] == s[q];
        if s.last().category == c {
            assert(of_category(s, c)[k] == s[q]);
        }
    }
}

/// Building is deterministic: on one graph, with one list of optimizer
/// instructions, the program assembled from the loss's tape is the same
/// whichever tape satisfies the tape's contract, since a root has one tape.
pub proof fn lemma_build_is_deterministic(device: &Device, root: int, t1: Seq<usize>, t2: Seq<usize>, opt: Seq<InstructionView>)
    requires
        device.wf(),
        0 <= root < device.nodes@.len(),
        is_tape(device.nodes@, root, t1),
        is_tape(device.nodes@, root, t2),
    ensures
        assembled(device.nodes@, t1, opt) == assembled(device.nodes@, t2, opt),
{
    crate::tape::lemma_tape_unique(device, root, t1, t2);
}

/// The forward instructions of tape nodes are well shaped.
proof fn lemma_forward_program_well_shaped(d: &Device, tape: Seq<usize>)
    requires
        d.wf(),
        forall|p: int| 0 <= p < tape.len() ==> (#[trigger] tape[p]) < d.nodes@.len(),
    ensures
        views_well_shaped(d.tensors@, forward_program(d.nodes@, tape)),
    decreases tape.len(),
{
    if tape.len() > 0 {
        let prefix = tape.drop_last();
        assert forall|p: int| 0 <= p < prefix.len() implies (#[trigger] prefix[p]) < d.nodes@.len() by {
            assert(prefix[p] == tape[p]);
        }
        lemma_forward_program_well_shaped(d, prefix);
        let k = tape.last() as int;
        assert(tape[tape.len() - 1] < d.nodes@.len());
        assert(node_wf(d.tensors@, d.nodes@, k));
        lemma_list_well_shaped(d.tensors@, d.nodes@[k].forward_instructions@);
        lemma_concat_well_shaped(d.tensors@, forward_program(d.nodes@, prefix), views(d.nodes@[k].forward_instructions@));
    }
}

/// The clipped gradient instructions of tape nodes are well shaped.
proof fn lemma_reverse_gradients_well_shaped(d: &Device, tape: Seq<usize>, p: int)
    requires
        d.wf(),
        forall|p: int| 0 <= p < tape.len() ==> (#[trigger] tape[p]) < d.nodes@.len(),
    ensures
        views_well_shaped(d.tensors@, reverse_gradients(d.nodes@, tape, p)),
    decreases tape.len() - p,
{
    if 0 <= p < tape.len() {
        lemma_reverse_gradients_well_shaped(d, tape, p + 1);
        let k = tape[p] as int;
        assert(node_wf(d.tensors@, d.nodes@, k));
        lemma_list_well_shaped(d.tensors@, d.nodes@[k].gradient_instructions@);
        lemma_clipped_well_shaped(d.tensors@, views(d.nodes@[k].gradient_instructions@));
        lemma_concat_well_shaped(d.tensors@, reverse_gradients(d.nodes@, tape, p + 1),
            crate::program::clipped(views(d.nodes@[k].gradient_instructions@)));
    }
}

proof fn lemma_list_well_shaped(t: Seq<TensorInfo>, list: Seq<Instruction>)
    requires
        crate::device::all_well_shaped(t, list),
    ensures
        views_well_shaped(t, views(list)),
{
    assert forall|q: int| 0 <= q < views(list).len() implies well_shaped(t, #[trigger] views(list)[q]) by {
        assert(views(list)[q] == list[q]@);
    }
}

impl<B: DeviceBackend> NeuralMachine<B> {
    /// Every phase has streams that can run, planned from its instructions.
    pub open spec fn inv(&self) -> bool {
        &&& phase_ready(self.inference_instructions@, self.inference_streams@, Category::Inference)
        &&& phase_ready(self.loss_instructions@, self.loss_streams@, Category::Loss)
        &&& phase_ready(self.gradient_instructions@, self.gradient_streams@, Category::Gradient)
        &&& phase_ready(self.optimization_instructions@, self.optimization_streams@, Category::Optimization)
    }

    pub open spec fn phase_instructions(&self, c: Category) -> Seq<Instruction> {
        match c {
            Category::Inference => self.inference_instructions@,
            Category::Loss => self.loss_instructions@,
            Category::Gradient => self.gradient_instructions@,
            Category::Optimization => self.optimization_instructions@,
        }
    }

    pub open spec fn phase_streams(&self, c: Category) -> Seq<Stream> {
        match c {
            Category::Inference => self.inference_streams@,
            Category::Loss => self.loss_streams@,
            Category::Gradient => self.gradient_streams@,
            Category::Optimization => self.optimization_streams@,
        }
    }

    /// The instruction indices of phase `c` in the order they run.
    pub open spec fn phase_flat(&self, c: Category) -> Seq<usize> {
        flatten(self.phase_streams(c), schedule_of(self.phase_streams(c), self.max_concurrent_streams))
    }

    /// What running phase `c` hands to the backend.
    pub open spec fn runs_of(&self, c: Category) -> Seq<Logged> {
        phase_runs(self.phase_instructions(c), self.phase_streams(c), self.max_concurrent_streams)
    }

    /// The instructions and handles, which running a phase leaves as they are.
    pub open spec fn same_program(&self, other: &Self) -> bool {
        &&& self.example_input == other.example_input
        &&& self.example_output == other.example_output
        &&& self.machine_output == other.machine_output
        &&& self.loss == other.loss
        &&& self.inference_instructions@ == other.inference_instructions@
        &&& self.loss_instructions@ == other.loss_instructions@
        &&& self.gradient_instructions@ == other.gradient_instructions@
        &&& self.optimization_instructions@ == other.optimization_instructions@
        &&& self.max_concurrent_streams == other.max_concurrent_streams
        &&& forall|c: Category| #[trigger] same_streams(self.phase_streams(c), other.phase_streams(c))
    }

    /// Builds the program of `model`, `loss_operator` and `optimizer` on
    /// `device` and plans its phases. The program is the forward instructions
    /// of the loss's tape, then its gradient instructions in reverse tape
    /// order with a clip-norm after each, then the optimizer's instructions;
    /// each phase holds that program's instructions of its category, in order.
    pub fn try_new<M: UnaryModel, L: LossOperator, O: OptimizerTrait>(
        device: &mut Device,
        model: &M,
        loss_operator: &L,
        optimizer: &O,
        backend: B,
    ) -> (r: Result<Self, Error>)
        requires
            old(device).wf(),
            model.ready(old(device)),
        ensures
            final(device).wf(),
            final(device).extends(old(device)),
            !loss_operator.accepts(model.output_shape(), model.output_shape())
                ==> r == Err::<Self, Error>(Error::IncompatibleTensorShapes),
            loss_operator.accepts(model.output_shape(), model.output_shape()) && !optimizer.accepts()
                ==> r == Err::<Self, Error>(Error::UnsupportedOperation),
            loss_operator.accepts(model.output_shape(), model.output_shape()) && optimizer.accepts()
                ==> exists|tape: Seq<usize>| {
                    let program = #[trigger] assembled(final(device).nodes@, tape, optimizer_program(optimizer, final(device)));
                    &&& is_tape(final(device).nodes@, final(device).nodes@.len() - 1, tape)
                    &&& views_well_shaped(final(device).tensors@, program)
                    &&& (r is Ok <==> !writes_machine_input(program, old(device).tensors@.len() as usize,
                        (old(device).tensors@.len() + 2) as usize))
                    &&& (r is Err ==> r == Err::<Self, Error>(Error::MachineInputWritten))
                    &&& (r matches Ok(m) ==> {
                        &&& m.loss.node == final(device).nodes@.len() - 1
                        &&& views(m.inference_instructions@) == of_category(program, Category::Inference)
                        &&& views(m.loss_instructions@) == of_category(program, Category::Loss)
                        &&& views(m.gradient_instructions@) == of_category(program, Category::Gradient)
                        &&& views(m.optimization_instructions@) == of_category(program, Category::Optimization)
                    })
                },
            r matches Ok(m) ==> {
                &&& m.inv()
                &&& m.max_concurrent_streams == 1
                &&& m.executor.backend == backend
                &&& m.executor.calls@ == Seq::<Logged>::empty()
                &&& m.example_input.value == old(device).tensors@.len()
                &&& final(device).tensors@[m.example_input.value as int] == machine_input_info(m.example_input.rows, m.example_input.cols)
                &&& m.example_output.value == old(device).tensors@.len() + 2
                &&& final(device).tensors@[m.example_output.value as int] == machine_input_info(m.example_output.rows, m.example_output.cols)
                &&& final(device).valid(m.example_input)
                &&& (m.example_input.rows, m.example_input.cols) == model.input_shape()
                &&& final(device).valid(m.example_output)
                &&& (m.example_output.rows, m.example_output.cols) == model.output_shape()
                &&& final(device).valid(m.machine_output)
                &&& final(device).valid(m.loss)
            },
    {
        let (input_rows, input_cols) = model.input_size();
        let (output_rows, output_cols) = model.output_size();
        let ghost d0 = *device;
        let ghost z = d0.tensors@.len();
        let example_input = machine_input(device, input_rows, input_cols);
        let ghost d1 = *device;
        let example_output = machine_input(device, output_rows, output_cols);
        let ghost d2 = *device;
        proof {
            model.lemma_ready_extends(&d0, &d2);
            crate::operators::lemma_valid_extends(&d1, &d2, example_input);
        }
        let machine_output = match model.forward(device, example_input) {
            Ok(t) => t,
            Err(e) => return Err(e),
        };
        let ghost d3 = *device;
        proof {
            crate::operators::lemma_valid_extends(&d2, &d3, example_output);
        }
        let loss = match loss_operator.forward(device, example_output, machine_output) {
            Ok(t) => t,
            Err(e) => return Err(e),
        };
        let ghost d4 = *device;
        proof {
            crate::operators::lemma_valid_extends(&d3, &d4, machine_output);
            crate::operators::lemma_valid_extends(&d2, &d4, example_input);
            crate::operators::lemma_valid_extends(&d3, &d4, example_output);
        }
        let tape = get_tape(device, loss.node);
        let ghost nodes = device.nodes@;
        proof {
            assert forall|p: int| 0 <= p < tape@.len() implies (#[trigger] tape@[p]) < nodes.len() by {
                assert(tape@[p] <= tape@.last()) by {
                    if p < tape@.len() - 1 {
                        assert(tape@[p] < tape@[tape@.len() - 1]);
                    }
                }
            }
        }
        let mut all: Vec<Instruction> = Vec::new();
        let mut p: usize = 0;
        while p < tape.len()
            invariant
                p <= tape@.len(),
                nodes == device.nodes@,
                forall|p: int| 0 <= p < tape@.len() ==> (#[trigger] tape@[p]) < nodes.len(),
                views(all@) == forward_program(nodes, tape@.subrange(0, p as int)),
            decreases tape@.len() - p,
        {
            append_instructions(&mut all, &device.nodes[tape[p]].forward_instructions);
            assert(tape@.subrange(0, p + 1).drop_last() =~= tape@.subrange(0, p as int));
            p += 1;
        }
        assert(tape@.subrange(0, p as int) =~= tape@);
        let ghost forward_views = views(all@);
        let mut p: usize = tape.len();
        while p > 0
            invariant
                p <= tape@.len(),
                nodes == device.nodes@,
                forall|p: int| 0 <= p < tape@.len() ==> (#[trigger] tape@[p]) < nodes.len(),
                views(all@) == forward_views + reverse_gradients(nodes, tape@, p as int),
            decreases p,
        {
            p -= 1;
            append_clipped(&mut all, &device.nodes[tape[p]].gradient_instructions);
            assert(views(all@) =~= forward_views + reverse_gradients(nodes, tape@, p as int));
        }
        let ghost d5 = *device;
        let optimizer_instructions = match optimizer.optimize(device) {
            Ok(v) => v,
            Err(e) => return Err(e),
        };
        let ghost opt = views(optimizer_instructions@);
        append_instructions(&mut all, &optimizer_instructions);
        let ghost program = assembled(nodes, tape@, opt);
        proof {
            assert(device.nodes@ == nodes);
            assert(device.tensors@.len() == d5.tensors@.len() + optimizer.tensors_added(d5.parameters@.len()));
            assert(opt == optimizer_program(optimizer, device));
            assert(loss.node == device.nodes@.len() - 1);
            assert(program == assembled(device.nodes@, tape@, optimizer_program(optimizer, device)));
        }
        proof {
            assert(views(all@) == program);
            crate::operators::lemma_valid_extends(&d4, device, machine_output);
            crate::operators::lemma_valid_extends(&d4, device, loss);
            crate::operators::lemma_valid_extends(&d4, device, example_input);
            crate::operators::lemma_valid_extends(&d4, device, example_output);
            lemma_forward_program_well_shaped(device, tape@);
            lemma_reverse_gradients_well_shaped(device, tape@, 0);
            assert(views_well_shaped(device.tensors@, opt)) by {
                assert forall|q: int| 0 <= q < opt.len() implies well_shaped(device.tensors@, #[trigger] opt[q]) by {
                    assert(opt[q] == optimizer_instructions@[q]@);
                }
            }
            lemma_concat_well_shaped(device.tensors@, forward_program(nodes, tape@), reverse_gradients(nodes, tape@, 0));
            lemma_concat_well_shaped(device.tensors@, forward_program(nodes, tape@) + reverse_gradients(nodes, tape@, 0), opt);
            assert forall|q: int| 0 <= q < opt.len() implies (#[trigger] opt[q]).category == Category::Optimization by {
                assert(opt[q] == optimizer_instructions@[q]@);
            }
        }
        let machine_inputs = vec![example_input.value, example_output.value];
        proof {
            assert(example_input.value == z);
            assert(example_output.value == z + 2);
            assert(device.tensors@[z as int] == d1.tensors@[z as int]);
        }
        let inference_instructions = select_category(&all, Category::Inference);
        let inference_streams = match Self::assign_streams(&machine_inputs, &inference_instructions) {
            Ok((s, prog)) => {
                proof {
                    lemma_phase_ready(program, Category::Inference, inference_instructions@, s@, prog@);
                }
                s
            },
            Err(e) => {
                proof {
                    lemma_phase_writes(program, Category::Inference, inference_instructions@, machine_inputs@);
                    assert(device.nodes@ == nodes);
                    assert(is_tape(device.nodes@, loss.node as int, tape@));
                    assert(writes_machine_input(assembled(device.nodes@, tape@, opt), z as usize, (z + 2) as usize));
                }
                return Err(e);
            },
        };
        let loss_instructions = select_category(&all, Category::Loss);
        let loss_streams = match Self::assign_streams(&machine_inputs, &loss_instructions) {
            Ok((s, prog)) => {
                proof {
                    lemma_phase_ready(program, Category::Loss, loss_instructions@, s@, prog@);
                }
                s
            },
            Err(e) => {
                proof {
                    lemma_phase_writes(program, Category::Loss, loss_instructions@, machine_inputs@);
                    assert(device.nodes@ == nodes);
                    assert(is_tape(device.nodes@, loss.node as int, tape@));
                    assert(writes_machine_input(assembled(device.nodes@, tape@, opt), z as usize, (z + 2) as usize));
                }
                return Err(e);
            },
        };
        let gradient_instructions = select_category(&all, Category::Gradient);
        let gradient_streams = match Self::assign_streams(&machine_inputs, &gradient_instructions) {
            Ok((s, prog)) => {
                proof {
                    lemma_phase_ready(program, Category::Gradient, gradient_instructions@, s@, prog@);
                }
                s
            },
            Err(e) => {
                proof {
                    lemma_phase_writes(program, Category::Gradient, gradient_instructions@, machine_inputs@);
                    assert(device.nodes@ == nodes);
                    assert(is_tape(device.nodes@, loss.node as int, tape@));
                    assert(writes_machine_input(assembled(device.nodes@, tape@, opt), z as usize, (z + 2) as usize));
                }
                return Err(e);
            },
        };
        let optimization_instructions = select_category(&all, Category::Optimization);
        let optimization_streams = match Self::assign_streams(&machine_inputs, &optimization_instructions) {
            Ok((s, prog)) => {
                proof {
                    lemma_phase_ready(program, Category::Optimization, optimization_instructions@, s@, prog@);
                }
                s
            },
            Err(e) => {
                proof {
                    lemma_phase_writes(program, Category::Optimization, optimization_instructions@, machine_inputs@);
                    assert(device.nodes@ == nodes);
                    assert(is_tape(device.nodes@, loss.node as int, tape@));
                    assert(writes_machine_input(assembled(device.nodes@, tape@, opt), z as usize, (z + 2) as usize));
                }
                return Err(e);
            },
        };
        proof {
            lemma_phase_category(program, Category::Inference, inference_instructions@);
            lemma_phase_category(program, Category::Loss, loss_instructions@);
            lemma_phase_category(program, Category::Gradient, gradient_instructions@);
            lemma_phase_category(program, Category::Optimization, optimization_instructions@);
        }
        let executor = StreamExecutor::new(backend);
        let machine = NeuralMachine {
            example_input,
            example_output,
            machine_output,
            loss,
            inference_instructions,
            inference_streams,
            loss_instructions,
            loss_streams,
            gradient_instructions,
            gradient_streams,
            optimization_instructions,
            optimization_streams,
            max_concurrent_streams: 1,
            executor,
        };
        assert(is_tape(device.nodes@, loss.node as int, tape@));
        assert(device.tensors@[z as int] == machine_input_info(example_input.rows, example_input.cols));
        assert(device.tensors@[(z + 2) as int] == machine_input_info(example_output.rows, example_output.cols));
        proof {
            assert forall|q: int| 0 <= q < program.len() implies {
                &&& !(#[trigger] program[q]).outputs.contains(example_input.value)
                &&& !program[q].outputs.contains(example_output.value)
            } by {
                let c = program[q].category;
                lemma_of_category_contains(program, c, q);
                let phase = of_category(program, c);
                let k = choose|k: int| 0 <= k < phase.len() && phase[k] == program[q];
                let list = match c {
                    Category::Inference => machine.inference_instructions@,
                    Category::Loss => machine.loss_instructions@,
                    Category::Gradient => machine.gradient_instructions@,
                    Category::Optimization => machine.optimization_instructions@,
                };
                assert(views(list) == phase);
                assert(list[k]@ == phase[k]);
                assert(machine_inputs@[0] == example_input.value);
                assert(machine_inputs@[1] == example_output.value);
                assert(!list[k]@.outputs.contains(machine_inputs@[0]));
                assert(!list[k]@.outputs.contains(machine_inputs@[1]));
            }
        }
        proof {
            if writes_machine_input(program, z as usize, (z + 2) as usize) {
                let q = choose|q: int| 0 <= q < program.len() && ((#[trigger] program[q]).outputs.contains(z as usize)
                    || program[q].outputs.contains((z + 2) as usize));
                assert(false);
            }
        }
        Ok(machine)
    }

    /// Plans the streams of one phase, once no instruction writes a machine input.
    fn assign_streams(machine_inputs: &Vec<usize>, instructions: &Vec<Instruction>) -> (r: Result<(Vec<Stream>, Ghost<Seq<SimpleInstruction>>), Error>)
        ensures
            r is Ok <==> forall|m: int, i: int| 0 <= m < machine_inputs@.len() && 0 <= i < instructions@.len() ==>
                !(#[trigger] instructions@[i])@.outputs.contains(#[trigger] machine_inputs@[m]),
            r is Err ==> r == Err::<(Vec<Stream>, Ghost<Seq<SimpleInstruction>>), Error>(Error::MachineInputWritten),
            r matches Ok((s, prog)) ==> {
                &&& ready_streams(s@)
                &&& simple_of(prog@, instructions@)
                &&& planned_with_dependencies(prog@, s@)
                &&& forall|t: int, k: int| 0 <= t < s@.len() && 0 <= k < s@[t].instructions@.len() ==>
                    (#[trigger] s@[t].instructions@[k]) < instructions@.len()
            },
    {
        let simple = make_simple_instructions(instructions);
        if !verify_machine_inputs(machine_inputs.as_slice(), simple.as_slice()) {
            assert(exists|m: int, i: int| 0 <= m < machine_inputs@.len() && 0 <= i < simple@.len() &&
                (#[trigger] simple@[i]).1@.contains(#[trigger] machine_inputs@[m]));
            return Err(Error::MachineInputWritten);
        }
        assert forall|m: int, i: int| 0 <= m < machine_inputs@.len() && 0 <= i < instructions@.len() implies
            !(#[trigger] instructions@[i])@.outputs.contains(#[trigger] machine_inputs@[m]) by {
            assert(simple@[i].1@ == instructions@[i]@.outputs);
        }
        let streams = make_streams(simple.as_slice());
        let n = simple.len();
        proof {
            crate::streams::lemma_assigned_streams(simple@, simple@.len());
            assert(simple_of(simple@, instructions@));
            assert forall|t: int, k: int| 0 <= t < streams@.len() && 0 <= k < streams@[t].instructions@.len() implies
                (#[trigger] streams@[t].instructions@[k]) < instructions@.len() by {
                crate::streams::lemma_stream_members(simple@, simple@.len(), t, simple@.len() as int);
            }
        }
        Ok((streams, Ghost(simple@)))
    }

    /// A copy of the instructions of one phase.
    pub fn instructions(&self, category: &Category) -> (r: Vec<Instruction>)
        ensures
            views(r@) == views(match category {
                Category::Inference => self.inference_instructions@,
                Category::Loss => self.loss_instructions@,
                Category::Gradient => self.gradient_instructions@,
                Category::Optimization => self.optimization_instructions@,
            }),
            self.inv() ==> forall|i: int| 0 <= i < r@.len() ==> (#[trigger] r@[i])@.category == *category,
    {
        let mut r: Vec<Instruction> = Vec::new();
        match category {
            Category::Inference => append_instructions(&mut r, &self.inference_instructions),
            Category::Loss => append_instructions(&mut r, &self.loss_instructions),
            Category::Gradient => append_instructions(&mut r, &self.gradient_instructions),
            Category::Optimization => append_instructions(&mut r, &self.optimization_instructions),
        }
        assert(views(r@) =~= views(match category {
            Category::Inference => self.inference_instructions@,
            Category::Loss => self.loss_instructions@,
            Category::Gradient => self.gradient_instructions@,
            Category::Optimization => self.optimization_instructions@,
        }));
        proof {
            assert forall|i: int| self.inv() && 0 <= i < r@.len() implies (#[trigger] r@[i])@.category == *category by {
                assert(views(r@)[i] == r@[i]@);
                let list = match *category {
                    Category::Inference => self.inference_instructions@,
                    Category::Loss => self.loss_instructions@,
                    Category::Gradient => self.gradient_instructions@,
                    Category::Optimization => self.optimization_instructions@,
                };
                assert(views(list)[i] == list[i]@);
            }
        }
        r
    }

    /// Runs the streams of one phase on the backend, in the order the state
    /// machine joins them, then puts them back in the `Unreached` state. A
    /// kernel error stops the run and is returned; nothing is rolled back.
    fn forward_with_streams(&mut self, category: &Category) -> (r: Result<(), Error>)
        requires
            old(self).inv(),
        ensures
            final(self).inv(),
            final(self).same_program(old(self)),
            final(self).executor.handled == old(self).executor.handled,
            old(self).phase_streams(*category).len() == 0 ==> r is Ok && final(self).executor.calls@ == old(self).executor.calls@,
            r is Ok ==> final(self).executor.calls@ == old(self).executor.calls@ + old(self).runs_of(*category),
            r is Err ==> exists|j: int| 0 <= j < old(self).phase_flat(*category).len() && final(self).executor.calls@
                == old(self).executor.calls@ + #[trigger] stopped_at(old(self).phase_instructions(*category), old(self).phase_flat(*category), j, r),
    {
        let units = self.max_concurrent_streams;
        let ghost before = *self;
        let r = match category {
            Category::Inference => run_on_executor(&mut self.inference_streams, &self.inference_instructions, units, &mut self.executor),
            Category::Loss => run_on_executor(&mut self.loss_streams, &self.loss_instructions, units, &mut self.executor),
            Category::Gradient => run_on_executor(&mut self.gradient_streams, &self.gradient_instructions, units, &mut self.executor),
            Category::Optimization => run_on_executor(&mut self.optimization_streams, &self.optimization_instructions, units, &mut self.executor),
        };
        proof {
            lemma_phase_ready_same_plan(before.inference_instructions@, before.inference_streams@, self.inference_streams@, Category::Inference);
            lemma_phase_ready_same_plan(before.loss_instructions@, before.loss_streams@, self.loss_streams@, Category::Loss);
            lemma_phase_ready_same_plan(before.gradient_instructions@, before.gradient_streams@, self.gradient_streams@, Category::Gradient);
            lemma_phase_ready_same_plan(before.optimization_instructions@, before.optimization_streams@, self.optimization_streams@,
                Category::Optimization);
            assert forall|c: Category| #[trigger] same_streams(self.phase_streams(c), before.phase_streams(c)) by {
                assert(self.phase_streams(c).len() == before.phase_streams(c).len());
            }
            assert(members_in_range(before.phase_instructions(*category), before.phase_streams(*category)));
            if r is Err {
                let log = choose|log: Seq<Logged>| self.executor.calls@ == before.executor.calls@ + log
                    && #[trigger] ran_or_stopped(before.phase_instructions(*category), before.phase_flat(*category), r, log);
                let j = choose|j: int| 0 <= j < before.phase_flat(*category).len()
                    && log == #[trigger] stopped_at(before.phase_instructions(*category), before.phase_flat(*category), j, r);
            }
        }
        r
    }

    fn forward(&mut self, category: &Category) -> (r: Result<(), Error>)
        requires
            old(self).inv(),
        ensures
            final(self).inv(),
            final(self).same_program(old(self)),
            final(self).executor.handled == old(self).executor.handled,
            old(self).phase_streams(*category).len() == 0 ==> r is Ok && final(self).executor.calls@ == old(self).executor.calls@,
            r is Ok ==> final(self).executor.calls@ == old(self).executor.calls@ + old(self).runs_of(*category),
            r is Err ==> exists|j: int| 0 <= j < old(self).phase_flat(*category).len() && final(self).executor.calls@
                == old(self).executor.calls@ + #[trigger] stopped_at(old(self).phase_instructions(*category), old(self).phase_flat(*category), j, r),
    {
        self.forward_with_streams(category)
    }

    proof fn lemma_same_program_trans(a: &Self, b: &Self, c: &Self)
        requires
            a.same_program(b),
            b.same_program(c),
        ensures
            a.same_program(c),
    {
        assert forall|k: Category| #[trigger] same_streams(a.phase_streams(k), c.phase_streams(k)) by {
            assert(same_streams(a.phase_streams(k), b.phase_streams(k)));
            assert(same_streams(b.phase_streams(k), c.phase_streams(k)));
        }
    }

    /// Copies `input` into the machine input and runs the inference phase;
    /// returns the machine output.
    pub fn infer(&mut self, input: usize) -> (r: Result<TensorWithGrad, Error>)
        requires
            old(self).inv(),
        ensures
            final(self).inv(),
            final(self).same_program(old(self)),
            r is Ok ==> r == Ok::<TensorWithGrad, Error>(old(self).machine_output)
                && final(self).executor.calls@ == old(self).executor.calls@.push((Call::Copy(input, old(self).example_input.value), Ok::<(), Error>(())))
                    + old(self).runs_of(Category::Inference),
            r matches Err(e) ==> final(self).executor.calls@ == old(self).executor.calls@.push(
                (Call::Copy(input, old(self).example_input.value), Err::<(), Error>(e))) || exists|j: int|
                0 <= j < flatten(old(self).inference_streams@, schedule_of(old(self).inference_streams@, old(self).max_concurrent_streams)).len()
                && final(self).executor.calls@ == old(self).executor.calls@.push((Call::Copy(input, old(self).example_input.value), Ok::<(), Error>(())))
                    + #[trigger] stopped_at(old(self).inference_instructions@, flatten(old(self).inference_streams@,
                    schedule_of(old(self).inference_streams@, old(self).max_concurrent_streams)), j, Err::<(), Error>(e)),
    {
        let ghost start = *self;
        let copied = self.executor.copy(input, self.example_input.value);
        if copied.is_err() {
            return Err(copied.unwrap_err());
        }
        match copied {
            Ok(u) => {
                assert(u == ());
            },
            Err(_) => {},
        }
        let ghost mid = *self;
        let ran = self.forward(&Category::Inference);
        proof {
            Self::lemma_same_program_trans(self, &mid, &start);
        }
        if ran.is_err() {
            return Err(ran.unwrap_err());
        }
        Ok(self.machine_output)
    }

    /// Copies `expected_output` into the expected machine output and runs the
    /// loss phase; returns the 1x1 loss.
    pub fn loss(&mut self, expected_output: usize) -> (r: Result<TensorWithGrad, Error>)
        requires
            old(self).inv(),
        ensures
            final(self).inv(),
            final(self).same_program(old(self)),
            r is Ok ==> r == Ok::<TensorWithGrad, Error>(old(self).loss)
                && final(self).executor.calls@ == old(self).executor.calls@.push((Call::Copy(expected_output, old(self).example_output.value), Ok::<(), Error>(())))
                    + old(self).runs_of(Category::Loss),
            r matches Err(e) ==> final(self).executor.calls@ == old(self).executor.calls@.push(
                (Call::Copy(expected_output, old(self).example_output.value), Err::<(), Error>(e))) || exists|j: int|
                0 <= j < flatten(old(self).loss_streams@, schedule_of(old(self).loss_streams@, old(self).max_concurrent_streams)).len()
                && final(self).executor.calls@ == old(self).executor.calls@.push((Call::Copy(expected_output, old(self).example_output.value), Ok::<(), Error>(())))
                    + #[trigger] stopped_at(old(self).loss_instructions@, flatten(old(self).loss_streams@,
                    schedule_of(old(self).loss_streams@, old(self).max_concurrent_streams)), j, Err::<(), Error>(e)),
    {
        let ghost start = *self;
        let copied = self.executor.copy(expected_output, self.example_output.value);
        if copied.is_err() {
            return Err(copied.unwrap_err());
        }
        match copied {
            Ok(u) => {
                assert(u == ());
            },
            Err(_) => {},
        }
        let ghost mid = *self;
        let ran = self.forward(&Category::Loss);
        proof {
            Self::lemma_same_program_trans(self, &mid, &start);
        }
        if ran.is_err() {
            return Err(ran.unwrap_err());
        }
        Ok(self.loss)
    }

    /// Runs the gradient phase.
    pub fn compute_gradient(&mut self) -> (r: Result<(), Error>)
        requires
            old(self).inv(),
        ensures
            final(self).inv(),
            final(self).same_program(old(self)),
            old(self).gradient_streams@.len() == 0 ==> r is Ok && final(self).executor.calls@ == old(self).executor.calls@,
            r is Ok ==> final(self).executor.calls@ == old(self).executor.calls@ + old(self).runs_of(Category::Gradient),
            r is Err ==> exists|j: int| 0 <= j < old(self).phase_flat(Category::Gradient).len() && final(self).executor.calls@
                == old(self).executor.calls@ + #[trigger] stopped_at(old(self).phase_instructions(Category::Gradient),
                old(self).phase_flat(Category::Gradient), j, r),
    {
        self.forward(&Category::Gradient)
    }

    /// Runs the optimization phase.
    pub fn optimize(&mut self) -> (r: Result<(), Error>)
        requires
            old(self).inv(),
        ensures
            final(self).inv(),
            final(self).same_program(old(self)),
            old(self).optimization_streams@.len() == 0 ==> r is Ok && final(self).executor.calls@ == old(self).executor.calls@,
            r is Ok ==> final(self).executor.calls@ == old(self).executor.calls@ + old(self).runs_of(Category::Optimization),
            r is Err ==> exists|j: int| 0 <= j < old(self).phase_flat(Category::Optimization).len() && final(self).executor.calls@
                == old(self).executor.calls@ + #[trigger] stopped_at(old(self).phase_instructions(Category::Optimization),
                old(self).phase_flat(Category::Optimization), j, r),
    {
        self.forward(&Category::Optimization)
    }
}

} // verus!
