//! The scheduler: runs the streams of a program in an order that the spawn
//! and join state machine allows, handing each stream to an event handler.
use vstd::prelude::*;

use crate::error::Error;
use crate::instruction::Instruction;
use crate::machine::{run_on_executor, runs, DeviceBackend, StreamExecutor};
use crate::planner::SimpleInstruction;
use crate::streams::{
    assigned_streams, is_schedule, schedule_of, lemma_assigned_streams,
    lemma_stream_members, opened_streams, reset_streams, same_plan, stream_members, streams_wf,
    Stream, StreamState,
};
use crate::transaction::{execution_transactions, Transaction};

verus! {

/// The messages of a scheduler that runs on worker threads.
#[derive(Clone, Copy, Debug, PartialEq, Eq, Structural)]
pub enum Command {
    Execute,
    Stop,
    WorkUnitDispatch(usize),
    WorkUnitCompletion(usize),
    ExecutionCompletion,
}

/// What is done with a stream when the scheduler runs it.
pub trait StreamEventHandler {
    /// The streams handled so far, in order, each with its execution unit.
    spec fn handled(&self) -> Seq<(usize, usize)>;

    fn on_execute(
        &mut self,
        streams: &Vec<Stream>,
        instructions: &Vec<Instruction>,
        stream: usize,
        execution_unit: usize,
    ) -> (r: Result<(), Error>)
        requires
            stream < streams@.len(),
        ensures
            r is Ok ==> final(self).handled() == old(self).handled().push((stream, execution_unit)),
    ;
}

/// The instructions of the streams of `order`, stream after stream.
pub open spec fn flatten(streams: Seq<Stream>, order: Seq<usize>) -> Seq<usize>
    decreases order.len(),
{
    if order.len() == 0 {
        Seq::empty()
    } else {
        flatten(streams, order.drop_last()) + streams[order.last() as int].instructions@
    }
}

/// Records the index of each instruction it runs.
pub struct InstructionEmitter {
    pub executed_instructions: Vec<usize>,
    pub handled: Ghost<Seq<(usize, usize)>>,
}

impl InstructionEmitter {
    pub fn new() -> (r: Self)
        ensures
            r.executed_instructions@.len() == 0,
    {
        InstructionEmitter { executed_instructions: Vec::new(), handled: Ghost(Seq::empty()) }
    }
}

impl StreamEventHandler for InstructionEmitter {
    open spec fn handled(&self) -> Seq<(usize, usize)> {
        self.handled@
    }

    fn on_execute(
        &mut self,
        streams: &Vec<Stream>,
        instructions: &Vec<Instruction>,
        stream: usize,
        execution_unit: usize,
    ) -> (r: Result<(), Error>)
        ensures
            r is Ok,
            final(self).executed_instructions@ == old(self).executed_instructions@ + streams@[stream as int].instructions@,
    {
        let members = &streams[stream].instructions;
        let ghost base = self.executed_instructions@;
        let mut k: usize = 0;
        while k < members.len()
            invariant
                k <= members@.len(),
                self.executed_instructions@ == base + members@.subrange(0, k as int),
                self.handled == old(self).handled,
            decreases members@.len() - k,
        {
            self.executed_instructions.push(members[k]);
            k += 1;
            assert(self.executed_instructions@ =~= base + members@.subrange(0, k as int));
        }
        assert(members@.subrange(0, k as int) =~= members@);
        self.handled = Ghost(self.handled@.push((stream, execution_unit)));
        Ok(())
    }
}

/// Records the operand transactions of each instruction it runs.
pub struct TransactionEmitter {
    pub simple_instructions: Vec<SimpleInstruction>,
    pub actual_transactions: Vec<Transaction>,
    pub handled: Ghost<Seq<(usize, usize)>>,
}

impl TransactionEmitter {
    pub fn new(simple_instructions: &Vec<SimpleInstruction>) -> (r: Self)
        ensures
            r.actual_transactions@.len() == 0,
    {
        TransactionEmitter {
            simple_instructions: simple_instructions.clone(),
            actual_transactions: Vec::new(),
            handled: Ghost(Seq::empty()),
        }
    }
}

impl StreamEventHandler for TransactionEmitter {
    open spec fn handled(&self) -> Seq<(usize, usize)> {
        self.handled@
    }

    fn on_execute(
        &mut self,
        streams: &Vec<Stream>,
        instructions: &Vec<Instruction>,
        stream: usize,
        execution_unit: usize,
    ) -> (r: Result<(), Error>)
        ensures
            r is Ok <==> forall|k: int| 0 <= k < streams@[stream as int].instructions@.len() ==>
                (#[trigger] streams@[stream as int].instructions@[k]) < old(self).simple_instructions@.len(),
            r is Err ==> r == Err::<(), Error>(Error::UnsupportedOperation) && final(self).actual_transactions@ == old(self).actual_transactions@,
            final(self).simple_instructions@ == old(self).simple_instructions@,
            r is Ok ==> final(self).actual_transactions@ == old(self).actual_transactions@
                + execution_transactions(old(self).simple_instructions@, streams@[stream as int].instructions@),
    {
        let members = &streams[stream].instructions;
        let mut k: usize = 0;
        while k < members.len()
            invariant
                k <= members@.len(),
                members@ == streams@[stream as int].instructions@,
                self.simple_instructions@ == old(self).simple_instructions@,
                self.actual_transactions@ == old(self).actual_transactions@,
                forall|m: int| 0 <= m < k ==> (#[trigger] members@[m]) < self.simple_instructions@.len(),
            decreases members@.len() - k,
        {
            if members[k] >= self.simple_instructions.len() {
                assert(!(streams@[stream as int].instructions@[k as int] < old(self).simple_instructions@.len()));
                return Err(Error::UnsupportedOperation);
            }
            k += 1;
        }
        let mut t = crate::transaction::get_execution_transactions(self.simple_instructions.as_slice(), members.as_slice());
        self.actual_transactions.append(&mut t);
        self.handled = Ghost(self.handled@.push((stream, execution_unit)));
        Ok(())
    }
}

/// Hands each stream to `handler`, once, in the order the state machine
/// joins them (each after its dependencies), on execution units taken in
/// turn, then puts the streams back in the `Unreached` state. The first
/// error of the handler stops the run and is returned.
pub fn run_scheduler<Handler: StreamEventHandler>(
    streams: &mut Vec<Stream>,
    instructions: &Vec<Instruction>,
    execution_units_len: usize,
    handler: &mut Handler,
) -> (r: Result<(), Error>)
    requires
        streams_wf(old(streams)@),
        forall|s: int| 0 <= s < old(streams)@.len() ==> (#[trigger] old(streams)@[s]).state == StreamState::Unreached,
    ensures
        final(streams)@.len() == old(streams)@.len(),
        forall|s: int| 0 <= s < final(streams)@.len() ==> {
            &&& same_plan(#[trigger] final(streams)@[s], old(streams)@[s])
            &&& final(streams)@[s].state == StreamState::Unreached
        },
        old(streams)@.len() == 0 ==> r is Ok,
        r is Ok ==> final(handler).handled() == old(handler).handled() + with_units(schedule_of(old(streams)@, execution_units_len), execution_units_len),
        is_schedule(old(streams)@, schedule_of(old(streams)@, execution_units_len)),
{
    let ghost plan = streams@;
    let order = crate::streams::execute_streams(streams, execution_units_len);
    let ghost base = handler.handled();
    let mut result: Result<(), Error> = Ok(());
    let mut k: usize = 0;
    while k < order.len() && result.is_ok()
        invariant
            k <= order@.len(),
            streams@.len() == plan.len(),
            forall|s: int| 0 <= s < streams@.len() ==> same_plan(#[trigger] streams@[s], plan[s]),
            is_schedule(plan, order@),
            order@ == schedule_of(plan, execution_units_len),
            order@.len() == 0 ==> result is Ok,
            result is Ok ==> handler.handled() == base + with_units(order@.subrange(0, k as int), execution_units_len),
            base == old(handler).handled(),
        decreases order@.len() - k + if result is Ok { 1int } else { 0int },
    {
        let unit = if execution_units_len > 0 { k % execution_units_len } else { 0 };
        let stream = order[k];
        let outcome = handler.on_execute(streams, instructions, stream, unit);
        if outcome.is_err() {
            result = outcome;
        } else {
            assert(with_units(order@.subrange(0, k + 1), execution_units_len) =~= with_units(order@.subrange(0, k as int),
                execution_units_len).push((stream, unit)));
            k += 1;
        }
    }
    if result.is_ok() {
        assert(order@.subrange(0, k as int) =~= order@);
    }
    proof {
        if plan.len() == 0 {
            assert(order@.len() == 0) by {
                if order@.len() > 0 {
                    assert(order@[0] < plan.len());
                }
            }
        }
    }
    reset_streams(streams);
    result
}

/// Each stream of `order` with the execution unit it runs on: units are
/// taken in turn, and unit 0 serves all when there are none.
pub open spec fn with_units(order: Seq<usize>, units: usize) -> Seq<(usize, usize)> {
    Seq::new(order.len(), |k: int| (order[k], if units > 0 { (k % units as int) as usize } else { 0usize }))
}

/// Runs the instructions of the streams on the executor's backend, in the
/// order the state machine joins the streams.
pub fn execute_streams<B: DeviceBackend>(
    streams: &mut Vec<Stream>,
    instructions: &Vec<Instruction>,
    execution_units_len: usize,
    executor: &mut StreamExecutor<B>,
) -> (r: Result<(), Error>)
    requires
        streams_wf(old(streams)@),
        forall|s: int| 0 <= s < old(streams)@.len() ==> (#[trigger] old(streams)@[s]).state == StreamState::Unreached,
    ensures
        final(streams)@.len() == old(streams)@.len(),
        forall|s: int| 0 <= s < final(streams)@.len() ==> {
            &&& same_plan(#[trigger] final(streams)@[s], old(streams)@[s])
            &&& final(streams)@[s].state == StreamState::Unreached
        },
        old(streams)@.len() == 0 ==> r is Ok,
        r is Ok ==> final(executor).calls@ == old(executor).calls@
            + runs(instructions@, flatten(old(streams)@, schedule_of(old(streams)@, execution_units_len))),
{
    run_on_executor(streams, instructions, execution_units_len, executor)
}

/// Runs the streams and collects the instructions in the order they run.
pub fn execute_and_collect(streams: &mut Vec<Stream>, execution_units_len: usize) -> (r: Vec<usize>)
    requires
        streams_wf(old(streams)@),
        forall|s: int| 0 <= s < old(streams)@.len() ==> (#[trigger] old(streams)@[s]).state == StreamState::Unreached,
    ensures
        final(streams)@.len() == old(streams)@.len(),
        forall|s: int| 0 <= s < final(streams)@.len() ==> {
            &&& same_plan(#[trigger] final(streams)@[s], old(streams)@[s])
            &&& final(streams)@[s].state == StreamState::Unreached
        },
        is_schedule(old(streams)@, schedule_of(old(streams)@, execution_units_len)),
        r@ == flatten(old(streams)@, schedule_of(old(streams)@, execution_units_len)),
{
    let ghost plan = streams@;
    let order = crate::streams::execute_streams(streams, execution_units_len);
    let mut r: Vec<usize> = Vec::new();
    let mut k: usize = 0;
    while k < order.len()
        invariant
            k <= order@.len(),
            streams@.len() == plan.len(),
            forall|s: int| 0 <= s < streams@.len() ==> same_plan(#[trigger] streams@[s], plan[s]),
            is_schedule(plan, order@),
            r@ == flatten(plan, order@.subrange(0, k as int)),
        decreases order@.len() - k,
    {
        let stream = order[k];
        assert(same_plan(streams@[stream as int], plan[stream as int]));
        let members = &streams[stream].instructions;
        let ghost r0 = r@;
        let mut q: usize = 0;
        while q < members.len()
            invariant
                q <= members@.len(),
                r@ == r0 + members@.subrange(0, q as int),
            decreases members@.len() - q,
        {
            r.push(members[q]);
            q += 1;
            assert(r@ =~= r0 + members@.subrange(0, q as int));
        }
        assert(members@.subrange(0, q as int) =~= members@);
        assert(order@.subrange(0, k + 1).drop_last() =~= order@.subrange(0, k as int));
        k += 1;
    }
    assert(order@.subrange(0, k as int) =~= order@);
    reset_streams(streams);
    r
}

/// Runs the streams and collects the instructions in the order they run.
pub fn simulate_execution_and_collect_instructions(
    streams: &mut Vec<Stream>,
    instructions: &Vec<Instruction>,
    execution_units_len: usize,
) -> (r: Vec<usize>)
    requires
        streams_wf(old(streams)@),
        forall|s: int| 0 <= s < old(streams)@.len() ==> (#[trigger] old(streams)@[s]).state == StreamState::Unreached,
    ensures
        final(streams)@.len() == old(streams)@.len(),
        forall|s: int| 0 <= s < final(streams)@.len() ==> {
            &&& same_plan(#[trigger] final(streams)@[s], old(streams)@[s])
            &&& final(streams)@[s].state == StreamState::Unreached
        },
        is_schedule(old(streams)@, schedule_of(old(streams)@, execution_units_len)),
        r@ == flatten(old(streams)@, schedule_of(old(streams)@, execution_units_len)),
{
    execute_and_collect(streams, execution_units_len)
}

/// The streams were planned from `prog`: stream `s` holds, in order, the
/// instructions that the planner assigned to it.
pub open spec fn planned_from(prog: Seq<SimpleInstruction>, streams: Seq<Stream>) -> bool {
    &&& streams.len() == opened_streams(prog, prog.len())
    &&& forall|s: int| 0 <= s < streams.len() ==>
        (#[trigger] streams[s]).instructions@ == stream_members(prog, prog.len(), s, prog.len() as int)
}

/// Runs the streams and collects the operand transactions in the order the
/// instructions run.
pub fn simulate_execution_and_collect_transactions(
    streams: &mut Vec<Stream>,
    instructions: &Vec<Instruction>,
    simple_instructions: &Vec<SimpleInstruction>,
    execution_units_len: usize,
) -> (r: Vec<Transaction>)
    requires
        streams_wf(old(streams)@),
        planned_from(simple_instructions@, old(streams)@),
        forall|s: int| 0 <= s < old(streams)@.len() ==> (#[trigger] old(streams)@[s]).state == StreamState::Unreached,
    ensures
        final(streams)@.len() == old(streams)@.len(),
        forall|s: int| 0 <= s < final(streams)@.len() ==> {
            &&& same_plan(#[trigger] final(streams)@[s], old(streams)@[s])
            &&& final(streams)@[s].state == StreamState::Unreached
        },
        is_schedule(old(streams)@, schedule_of(old(streams)@, execution_units_len)),
        r@ == execution_transactions(simple_instructions@, flatten(old(streams)@, schedule_of(old(streams)@, execution_units_len))),
{
    let ghost plan = streams@;
    let n = simple_instructions.len();
    let executed = execute_and_collect(streams, execution_units_len);
    proof {
        lemma_schedule_runs_each_instruction_once(simple_instructions@, plan, schedule_of(plan, execution_units_len));
    }
    crate::transaction::get_execution_transactions(simple_instructions.as_slice(), executed.as_slice())
}

/// `x` runs in the flattened order exactly when it belongs to one of the streams of `order`.
pub proof fn lemma_flatten_contains(streams: Seq<Stream>, order: Seq<usize>, x: usize)
    requires
        forall|p: int| 0 <= p < order.len() ==> (#[trigger] order[p]) < streams.len(),
    ensures
        flatten(streams, order).contains(x) <==> exists|p: int| 0 <= p < order.len()
            && (#[trigger] streams[order[p] as int]).instructions@.contains(x),
    decreases order.len(),
{
    if order.len() > 0 {
        let prefix = order.drop_last();
        let last = streams[order.last() as int].instructions@;
        lemma_flatten_contains(streams, prefix, x);
        let f = flatten(streams, order);
        let f0 = flatten(streams, prefix);
        assert(f == f0 + last);
        if f.contains(x) {
            let k = choose|k: int| 0 <= k < f.len() && f[k] == x;
            if k < f0.len() {
                assert(f0[k] == x);
                let p = choose|p: int| 0 <= p < prefix.len() && (#[trigger] streams[prefix[p] as int]).instructions@.contains(x);
                assert(order[p] == prefix[p]);
            } else {
                assert(last[k - f0.len()] == x);
                assert(streams[order[order.len() - 1] as int].instructions@.contains(x));
            }
        }
        if exists|p: int| 0 <= p < order.len() && (#[trigger] streams[order[p] as int]).instructions@.contains(x) {
            let p = choose|p: int| 0 <= p < order.len() && (#[trigger] streams[order[p] as int]).instructions@.contains(x);
            if p < order.len() - 1 {
                assert(prefix[p] == order[p]);
                assert(f0.contains(x));
                let k = choose|k: int| 0 <= k < f0.len() && f0[k] == x;
                assert(f[k] == x);
            } else {
                let k = choose|k: int| 0 <= k < last.len() && last[k] == x;
                assert(f[f0.len() + k] == x);
            }
        }
    }
}

/// Every instruction in the flattened order belongs to the stream it is assigned to.
proof fn lemma_flatten_members(prog: Seq<SimpleInstruction>, streams: Seq<Stream>, order: Seq<usize>)
    requires
        prog.len() <= usize::MAX,
        planned_from(prog, streams),
        forall|p: int| 0 <= p < order.len() ==> (#[trigger] order[p]) < streams.len(),
        forall|p: int, q: int| 0 <= p < q < order.len() ==> order[p] != order[q],
    ensures
        forall|k: int| 0 <= k < flatten(streams, order).len() ==> {
            let x = #[trigger] flatten(streams, order)[k];
            &&& x < prog.len()
            &&& order.contains(assigned_streams(prog, prog.len())[x as int] as usize)
        },
        forall|a: int, b: int| 0 <= a < b < flatten(streams, order).len() ==>
            flatten(streams, order)[a] != flatten(streams, order)[b],
    decreases order.len(),
{
    if order.len() > 0 {
        let n = prog.len();
        let prefix = order.drop_last();
        let s = order.last();
        let last = streams[s as int].instructions@;
        lemma_flatten_members(prog, streams, prefix);
        lemma_stream_members(prog, n, s as int, n as int);
        lemma_assigned_streams(prog, n);
        let f = flatten(streams, order);
        let f0 = flatten(streams, prefix);
        assert(f == f0 + last);
        assert forall|k: int| 0 <= k < f.len() implies {
            let x = #[trigger] f[k];
            &&& x < prog.len()
            &&& order.contains(assigned_streams(prog, prog.len())[x as int] as usize)
        } by {
            if k < f0.len() {
                assert(f[k] == f0[k]);
                let p = choose|p: int| 0 <= p < prefix.len() && prefix[p] == assigned_streams(prog, n)[f0[k] as int] as usize;
                assert(order[p] == prefix[p]);
            } else {
                assert(f[k] == last[k - f0.len()]);
                assert(order[order.len() - 1] == s);
            }
        }
        assert forall|a: int, b: int| 0 <= a < b < f.len() implies f[a] != f[b] by {
            if b < f0.len() {
                assert(f[a] == f0[a] && f[b] == f0[b]);
            } else if a >= f0.len() {
                assert(f[a] == last[a - f0.len()] && f[b] == last[b - f0.len()]);
            } else {
                let x = f0[a];
                assert(f[a] == x);
                assert(f[b] == last[b - f0.len()]);
                assert(assigned_streams(prog, n)[f[b] as int] == s);
                let p = choose|p: int| 0 <= p < prefix.len() && prefix[p] == assigned_streams(prog, n)[x as int] as usize;
                assert(prefix[p] == order[p]);
                assert(order[p] != s);
            }
        }
    }
}

/// Running the streams planned from a program, in any schedule, runs each
/// instruction of the program exactly once.
pub proof fn lemma_schedule_runs_each_instruction_once(prog: Seq<SimpleInstruction>, streams: Seq<Stream>, order: Seq<usize>)
    requires
        prog.len() <= usize::MAX,
        planned_from(prog, streams),
        is_schedule(streams, order),
    ensures
        forall|k: int| 0 <= k < flatten(streams, order).len() ==> #[trigger] flatten(streams, order)[k] < prog.len(),
        forall|a: int, b: int| 0 <= a < b < flatten(streams, order).len() ==>
            flatten(streams, order)[a] != flatten(streams, order)[b],
        forall|i: usize| i < prog.len() ==> #[trigger] flatten(streams, order).contains(i),
{
    let n = prog.len();
    lemma_flatten_members(prog, streams, order);
    lemma_assigned_streams(prog, n);
    assert forall|i: usize| i < prog.len() implies #[trigger] flatten(streams, order).contains(i) by {
        let s = assigned_streams(prog, n)[i as int];
        lemma_stream_members(prog, n, s, n as int);
        assert(order.contains(s as usize));
        assert(0 <= s < streams.len());
        assert(stream_members(prog, n, s, n as int).contains(i as int as usize));
        assert(streams[s].instructions@ == stream_members(prog, n, s, n as int));
        let p = choose|p: int| 0 <= p < order.len() && order[p] == s as usize;
        assert(streams[order[p] as int].instructions@.contains(i));
        lemma_flatten_contains(streams, order, i);
    }
}

} // verus!
