//! Streams: in-order runs of instructions that one execution unit runs at a
//! time, with the earlier streams each one waits for.
use vstd::prelude::*;

use crate::instruction::{copy_names, Instruction};
use crate::planner::{
    contains_name, dependencies_of, instruction_dependencies, lemma_dependency_list,
    strictly_increasing, SimpleInstruction,
};

verus! {

/// Where a stream stands during one execution.
#[derive(Clone, Copy, Debug, PartialEq, Eq, Structural)]
pub enum StreamState {
    Unreached,
    Spawned,
    Joined,
}

impl StreamState {
    pub fn name(&self) -> (r: String)
        ensures
            r@ == state_name(*self),
    {
        match self {
            StreamState::Unreached => "Unreached".to_string(),
            StreamState::Spawned => "Spawned".to_string(),
            StreamState::Joined => "Joined".to_string(),
        }
    }
}

pub open spec fn state_name(s: StreamState) -> Seq<char> {
    match s {
        StreamState::Unreached => "Unreached"@,
        StreamState::Spawned => "Spawned"@,
        StreamState::Joined => "Joined"@,
    }
}

/// A stream: the indices of its instructions, run in order, and the ids of
/// the earlier streams that must be joined before it is spawned.
pub struct Stream {
    pub id: usize,
    pub state: StreamState,
    pub dependencies: Vec<usize>,
    pub instructions: Vec<usize>,
}

/// The stream of each of the first `n` instructions. An instruction with
/// exactly one dependency joins the stream of that dependency; any other
/// opens a new stream.
pub open spec fn assigned_streams(prog: Seq<SimpleInstruction>, n: nat) -> Seq<int>
    decreases n,
{
    if n == 0 {
        Seq::empty()
    } else {
        let prev = assigned_streams(prog, (n - 1) as nat);
        let d = instruction_dependencies(prog, n - 1);
        if d.len() == 1 {
            prev.push(prev[d[0] as int])
        } else {
            prev.push(opened_streams(prog, (n - 1) as nat) as int)
        }
    }
}

/// How many streams the first `n` instructions open.
pub open spec fn opened_streams(prog: Seq<SimpleInstruction>, n: nat) -> nat
    decreases n,
{
    if n == 0 {
        0
    } else {
        opened_streams(prog, (n - 1) as nat) + if instruction_dependencies(prog, n - 1).len() == 1 {
            0nat
        } else {
            1nat
        }
    }
}

/// The instructions below `m` that the first `n` instructions assign to stream `s`, in order.
pub open spec fn stream_members(prog: Seq<SimpleInstruction>, n: nat, s: int, m: int) -> Seq<usize>
    decreases m,
{
    if m <= 0 {
        Seq::empty()
    } else {
        let prev = stream_members(prog, n, s, m - 1);
        if assigned_streams(prog, n)[m - 1] == s {
            prev.push((m - 1) as usize)
        } else {
            prev
        }
    }
}

/// Stream `t` holds one of the dependencies of instruction `f`.
pub open spec fn holds_dependency_of(prog: Seq<SimpleInstruction>, t: int, f: int) -> bool {
    exists|q: int| 0 <= q < instruction_dependencies(prog, f).len()
        && #[trigger] assigned_streams(prog, prog.len())[instruction_dependencies(prog, f)[q] as int] == t
}

/// The streams below `m` that hold a dependency of instruction `f`, in increasing order.
pub open spec fn stream_dependency_list(prog: Seq<SimpleInstruction>, f: int, m: int) -> Seq<usize>
    decreases m,
{
    if m <= 0 {
        Seq::empty()
    } else {
        let prev = stream_dependency_list(prog, f, m - 1);
        if holds_dependency_of(prog, m - 1, f) {
            prev.push((m - 1) as usize)
        } else {
            prev
        }
    }
}

/// The dependencies of stream `s`: the earlier streams that hold a
/// dependency of its first instruction. Every other instruction of a stream
/// has a single dependency, inside its own stream.
pub open spec fn stream_dependencies(prog: Seq<SimpleInstruction>, streams: Seq<Stream>, s: int) -> Seq<usize> {
    stream_dependency_list(prog, streams[s].instructions@[0] as int, s)
}

pub proof fn lemma_stream_dependency_list(prog: Seq<SimpleInstruction>, f: int, m: int)
    requires
        0 <= m <= usize::MAX,
    ensures
        forall|q: int| 0 <= q < stream_dependency_list(prog, f, m).len() ==> #[trigger] stream_dependency_list(prog, f, m)[q] < m,
        strictly_increasing(stream_dependency_list(prog, f, m)),
    decreases m,
{
    if m > 0 {
        lemma_stream_dependency_list(prog, f, m - 1);
        let prev = stream_dependency_list(prog, f, m - 1);
        let cur = stream_dependency_list(prog, f, m);
        assert forall|q: int| 0 <= q < cur.len() implies #[trigger] cur[q] < m by {
            if q < prev.len() {
                assert(cur[q] == prev[q]);
            }
        }
        assert forall|a: int, b: int| 0 <= a < b < cur.len() implies cur[a] < cur[b] by {
            if b < prev.len() {
                assert(cur[a] == prev[a] && cur[b] == prev[b]);
            } else {
                assert(cur[a] == prev[a]);
            }
        }
    }
}

/// Some instruction among the first `n` is assigned to stream `s`.
pub open spec fn has_member(prog: Seq<SimpleInstruction>, n: nat, s: int) -> bool {
    exists|q: int| 0 <= q < n && #[trigger] assigned_streams(prog, n)[q] == s
}

pub proof fn lemma_assigned_streams(prog: Seq<SimpleInstruction>, n: nat)
    requires
        n <= prog.len(),
        prog.len() <= usize::MAX,
    ensures
        assigned_streams(prog, n).len() == n,
        opened_streams(prog, n) <= n,
        forall|q: int| 0 <= q < n ==> 0 <= #[trigger] assigned_streams(prog, n)[q] < opened_streams(prog, n),
        forall|s: int| 0 <= s < opened_streams(prog, n) ==> #[trigger] has_member(prog, n, s),
    decreases n,
{
    if n > 0 {
        let m = (n - 1) as nat;
        lemma_assigned_streams(prog, m);
        lemma_dependency_list(prog, m as int, m as int);
        let prev = assigned_streams(prog, m);
        let cur = assigned_streams(prog, n);
        let d = instruction_dependencies(prog, m as int);
        assert forall|q: int| 0 <= q < n implies 0 <= #[trigger] cur[q] < opened_streams(prog, n) by {
            if q < m {
                assert(cur[q] == prev[q]);
            } else if d.len() == 1 {
                assert(d[0] < m);
            }
        }
        assert forall|s: int| 0 <= s < opened_streams(prog, n) implies #[trigger] has_member(prog, n, s) by {
            if s < opened_streams(prog, m) {
                assert(has_member(prog, m, s));
                let q = choose|q: int| 0 <= q < m && #[trigger] prev[q] == s;
                assert(cur[q] == s);
            } else {
                assert(cur[m as int] == s);
            }
        }
    }
}

pub proof fn lemma_stream_members(prog: Seq<SimpleInstruction>, n: nat, s: int, m: int)
    requires
        0 <= m <= n,
        n <= prog.len(),
        prog.len() <= usize::MAX,
    ensures
        forall|q: int| 0 <= q < stream_members(prog, n, s, m).len() ==> {
            let x = #[trigger] stream_members(prog, n, s, m)[q];
            &&& x < m
            &&& assigned_streams(prog, n)[x as int] == s
        },
        forall|q: int| 0 <= q < m && assigned_streams(prog, n)[q] == s ==> #[trigger] stream_members(prog, n, s, m).contains(q as usize),
        forall|a: int, b: int| 0 <= a < b < stream_members(prog, n, s, m).len() ==>
            stream_members(prog, n, s, m)[a] < stream_members(prog, n, s, m)[b],
    decreases m,
{
    lemma_assigned_streams(prog, n);
    if m > 0 {
        lemma_stream_members(prog, n, s, m - 1);
        let prev = stream_members(prog, n, s, m - 1);
        let cur = stream_members(prog, n, s, m);
        assert forall|q: int| 0 <= q < cur.len() implies {
            let x = #[trigger] cur[q];
            &&& x < m
            &&& assigned_streams(prog, n)[x as int] == s
        } by {
            if q < prev.len() {
                assert(cur[q] == prev[q]);
            }
        }
        assert forall|q: int| 0 <= q < m && assigned_streams(prog, n)[q] == s implies #[trigger] cur.contains(q as usize) by {
            if q < m - 1 {
                assert(prev.contains(q as usize));
                let k = choose|k: int| 0 <= k < prev.len() && prev[k] == q as usize;
                assert(cur[k] == q as usize);
            } else {
                assert(cur[cur.len() - 1] == q as usize);
            }
        }
        assert forall|a: int, b: int| 0 <= a < b < cur.len() implies cur[a] < cur[b] by {
            if b < prev.len() {
                assert(cur[a] == prev[a] && cur[b] == prev[b]);
            } else {
                assert(cur[a] == prev[a]);
            }
        }
    }
}

/// The dependencies of every instruction of the program.
pub fn get_instruction_instruction_dependencies(instructions: &[SimpleInstruction]) -> (r: Vec<Vec<usize>>)
    ensures
        r@.len() == instructions@.len(),
        forall|i: int| 0 <= i < r@.len() ==> (#[trigger] r@[i])@ == instruction_dependencies(instructions@, i),
{
    let n = instructions.len();
    let mut r: Vec<Vec<usize>> = Vec::new();
    let mut i: usize = 0;
    while i < n
        invariant
            i <= n,
            n == instructions@.len(),
            r@.len() == i,
            forall|k: int| 0 <= k < i ==> (#[trigger] r@[k])@ == instruction_dependencies(instructions@, k),
        decreases n - i,
    {
        let d = dependencies_of(instructions, i);
        r.push(d);
        i += 1;
    }
    r
}

/// The instructions of each stream, from the dependencies of each instruction.
fn make_instruction_streams(prog: &[SimpleInstruction], dependencies: &Vec<Vec<usize>>) -> (r: (Vec<usize>, Vec<Vec<usize>>))
    requires
        dependencies@.len() == prog@.len(),
        forall|i: int| 0 <= i < dependencies@.len() ==> (#[trigger] dependencies@[i])@ == instruction_dependencies(prog@, i),
    ensures
        r.0@.len() == prog@.len(),
        forall|q: int| 0 <= q < prog@.len() ==> r.0@[q] as int == #[trigger] assigned_streams(prog@, prog@.len())[q],
        r.1@.len() == opened_streams(prog@, prog@.len()),
        forall|s: int| 0 <= s < r.1@.len() ==> (#[trigger] r.1@[s])@ == stream_members(prog@, prog@.len(), s, prog@.len() as int),
{
    let n = prog.len();
    let mut assignment: Vec<usize> = Vec::new();
    let mut next_stream: usize = 0;
    let mut i: usize = 0;
    while i < n
        invariant
            i <= n,
            n == prog@.len(),
            dependencies@.len() == n,
            forall|i: int| 0 <= i < dependencies@.len() ==> (#[trigger] dependencies@[i])@ == instruction_dependencies(prog@, i),
            assignment@.len() == i,
            next_stream == opened_streams(prog@, i as nat),
            forall|q: int| 0 <= q < i ==> assignment@[q] as int == #[trigger] assigned_streams(prog@, i as nat)[q],
        decreases n - i,
    {
        proof {
            lemma_assigned_streams(prog@, i as nat);
            lemma_assigned_streams(prog@, (i + 1) as nat);
            lemma_dependency_list(prog@, i as int, i as int);
        }
        let ghost prev = assigned_streams(prog@, i as nat);
        if dependencies[i].len() == 1 {
            let d = dependencies[i][0];
            let stream = assignment[d];
            assignment.push(stream);
        } else {
            assignment.push(next_stream);
            next_stream += 1;
        }
        assert forall|q: int| 0 <= q < i + 1 implies assignment@[q] as int == #[trigger] assigned_streams(prog@, (i + 1) as nat)[q] by {
            if q < i {
                assert(assigned_streams(prog@, (i + 1) as nat)[q] == prev[q]);
            }
        }
        i += 1;
    }
    proof {
        lemma_assigned_streams(prog@, n as nat);
    }
    let mut streams: Vec<Vec<usize>> = Vec::new();
    let mut s: usize = 0;
    while s < next_stream
        invariant
            s <= next_stream,
            n == prog@.len(),
            next_stream == opened_streams(prog@, n as nat),
            assignment@.len() == n,
            forall|q: int| 0 <= q < n ==> assignment@[q] as int == #[trigger] assigned_streams(prog@, n as nat)[q],
            streams@.len() == s,
            forall|k: int| 0 <= k < s ==> (#[trigger] streams@[k])@ == stream_members(prog@, n as nat, k, n as int),
        decreases next_stream - s,
    {
        let mut members: Vec<usize> = Vec::new();
        let mut q: usize = 0;
        while q < n
            invariant
                q <= n,
                n == prog@.len(),
                assignment@.len() == n,
                forall|q: int| 0 <= q < n ==> assignment@[q] as int == #[trigger] assigned_streams(prog@, n as nat)[q],
                members@ == stream_members(prog@, n as nat, s as int, q as int),
            decreases n - q,
        {
            if assignment[q] == s {
                members.push(q);
            }
            q += 1;
        }
        streams.push(members);
        s += 1;
    }
    (assignment, streams)
}

/// Groups the instructions into streams by a dependency analysis.
pub fn make_streams(instructions: &[SimpleInstruction]) -> (r: Vec<Stream>)
    ensures
        r@.len() == opened_streams(instructions@, instructions@.len()),
        forall|s: int| 0 <= s < r@.len() ==> {
            &&& (#[trigger] r@[s]).id == s
            &&& r@[s].state == StreamState::Unreached
            &&& r@[s].instructions@ == stream_members(instructions@, instructions@.len(), s, instructions@.len() as int)
            &&& r@[s].instructions@.len() > 0
            &&& r@[s].dependencies@ == stream_dependencies(instructions@, r@, s)
        },
        streams_wf(r@),
        crate::ordering::planned_with_dependencies(instructions@, r@),
{
    let n = instructions.len();
    let dependencies = get_instruction_instruction_dependencies(instructions);
    let (assignment, lists) = make_instruction_streams(instructions, &dependencies);
    let ghost prog = instructions@;
    let mut streams: Vec<Stream> = Vec::new();
    let mut s: usize = 0;
    while s < lists.len()
        invariant
            s <= lists@.len(),
            n == prog.len(),
            prog == instructions@,
            dependencies@.len() == n,
            forall|i: int| 0 <= i < n ==> (#[trigger] dependencies@[i])@ == instruction_dependencies(prog, i),
            assignment@.len() == n,
            forall|q: int| 0 <= q < n ==> assignment@[q] as int == #[trigger] assigned_streams(prog, n as nat)[q],
            lists@.len() == opened_streams(prog, n as nat),
            forall|s: int| 0 <= s < lists@.len() ==> (#[trigger] lists@[s])@ == stream_members(prog, n as nat, s, n as int),
            streams@.len() == s,
            forall|k: int| 0 <= k < s ==> {
                &&& (#[trigger] streams@[k]).id == k
                &&& streams@[k].state == StreamState::Unreached
                &&& streams@[k].instructions@ == lists@[k]@
                &&& lists@[k]@.len() > 0
                &&& streams@[k].dependencies@ == stream_dependency_list(prog, lists@[k]@[0] as int, k)
            },
        decreases lists@.len() - s,
    {
        proof {
            lemma_assigned_streams(prog, n as nat);
            lemma_stream_members(prog, n as nat, s as int, n as int);
            assert(has_member(prog, n as nat, s as int));
            let q = choose|q: int| 0 <= q < n && #[trigger] assigned_streams(prog, n as nat)[q] == s;
            assert(stream_members(prog, n as nat, s as int, n as int).contains(q as usize));
        }
        let members = &lists[s];
        let first = members[0];
        assert(stream_members(prog, n as nat, s as int, n as int)[0] < n);
        let first_dependencies = &dependencies[first];
        proof {
            lemma_dependency_list(prog, first as int, first as int);
        }
        let mut stream_dependencies: Vec<usize> = Vec::new();
        let mut t: usize = 0;
        while t < s
            invariant
                t <= s,
                first < n,
                n == prog.len(),
                assignment@.len() == n,
                forall|q: int| 0 <= q < n ==> assignment@[q] as int == #[trigger] assigned_streams(prog, n as nat)[q],
                first_dependencies@ == instruction_dependencies(prog, first as int),
                forall|q: int| 0 <= q < first_dependencies@.len() ==> (#[trigger] first_dependencies@[q]) < first,
                stream_dependencies@ == stream_dependency_list(prog, first as int, t as int),
            decreases s - t,
        {
            let mut found = false;
            let mut q: usize = 0;
            while q < first_dependencies.len()
                invariant
                    q <= first_dependencies@.len(),
                    first < n,
                    assignment@.len() == n,
                    forall|q: int| 0 <= q < n ==> assignment@[q] as int == #[trigger] assigned_streams(prog, n as nat)[q],
                    forall|q: int| 0 <= q < first_dependencies@.len() ==> (#[trigger] first_dependencies@[q]) < first,
                    found <==> exists|k: int| 0 <= k < q && #[trigger] assigned_streams(prog, n as nat)[first_dependencies@[k] as int] == t,
                decreases first_dependencies@.len() - q,
            {
                let d = first_dependencies[q];
                assert(d < n);
                assert(assignment@[d as int] as int == assigned_streams(prog, n as nat)[d as int]);
                if assignment[d] == t {
                    found = true;
                }
                q += 1;
            }
            if found {
                stream_dependencies.push(t);
            }
            t += 1;
        }
        streams.push(Stream {
            id: s,
            state: StreamState::Unreached,
            dependencies: stream_dependencies,
            instructions: copy_names(members.as_slice()),
        });
        s += 1;
    }
    assert forall|t: int, q: int| 0 <= t < streams@.len() && 0 <= q < streams@[t].dependencies@.len() implies
        (#[trigger] streams@[t].dependencies@[q]) < t by {
        lemma_stream_dependency_list(prog, lists@[t]@[0] as int, t);
    }
    streams
}

/// Stream ids are their positions, and each stream depends on earlier streams only.
pub open spec fn streams_wf(streams: Seq<Stream>) -> bool {
    &&& forall|s: int| 0 <= s < streams.len() ==> (#[trigger] streams[s]).id == s
    &&& forall|s: int, q: int| 0 <= s < streams.len() && 0 <= q < streams[s].dependencies@.len() ==>
        (#[trigger] streams[s].dependencies@[q]) < s
}

/// The part of a stream that an execution leaves unchanged.
pub open spec fn same_plan(a: Stream, b: Stream) -> bool {
    &&& a.id == b.id
    &&& a.dependencies@ == b.dependencies@
    &&& a.instructions@ == b.instructions@
}

/// An order in which streams complete is a schedule of `streams` when it
/// holds every stream exactly once and each stream comes after all of its
/// dependencies.
pub open spec fn is_schedule(streams: Seq<Stream>, order: Seq<usize>) -> bool {
    &&& forall|p: int| 0 <= p < order.len() ==> (#[trigger] order[p]) < streams.len()
    &&& forall|p: int, q: int| 0 <= p < q < order.len() ==> order[p] != order[q]
    &&& forall|s: usize| s < streams.len() ==> #[trigger] order.contains(s)
    &&& forall|p: int, q: int| 0 <= p < order.len() && 0 <= q < streams[order[p] as int].dependencies@.len() ==>
        order.subrange(0, p).contains(#[trigger] streams[order[p] as int].dependencies@[q])
}

/// Every stream that has left `Unreached` has all of its dependencies joined.
pub open spec fn deps_joined(streams: Seq<Stream>) -> bool {
    forall|s: int, q: int| 0 <= s < streams.len() && streams[s].state != StreamState::Unreached
        && 0 <= q < streams[s].dependencies@.len() ==>
        streams[#[trigger] streams[s].dependencies@[q] as int].state == StreamState::Joined
}

/// What holds between steps of an execution: `active` is the spawned
/// streams in increasing order, `order` the joined ones in the order they
/// were joined, each after its dependencies.
pub open spec fn execution_inv(streams: Seq<Stream>, plan: Seq<Stream>, active: Seq<usize>, order: Seq<usize>) -> bool {
    &&& streams.len() == plan.len()
    &&& streams_wf(plan)
    &&& forall|s: int| 0 <= s < streams.len() ==> same_plan(#[trigger] streams[s], plan[s])
    &&& forall|a: int, b: int| 0 <= a < b < active.len() ==> active[a] < active[b]
    &&& forall|p: int| 0 <= p < active.len() ==> (#[trigger] active[p]) < streams.len()
    &&& forall|s: usize| s < streams.len() ==> (#[trigger] active.contains(s) <==> streams[s as int].state == StreamState::Spawned)
    &&& forall|p: int| 0 <= p < order.len() ==> (#[trigger] order[p]) < streams.len()
    &&& forall|p: int, q: int| 0 <= p < q < order.len() ==> order[p] != order[q]
    &&& forall|s: usize| s < streams.len() ==> (#[trigger] order.contains(s) <==> streams[s as int].state == StreamState::Joined)
    &&& deps_joined(streams)
    &&& forall|p: int, q: int| 0 <= p < order.len() && 0 <= q < streams[order[p] as int].dependencies@.len() ==>
        order.subrange(0, p).contains(#[trigger] streams[order[p] as int].dependencies@[q])
}

/// The state of an execution: the state of each stream, the spawned
/// streams in the order they were spawned, and the joined ones in the order
/// they were joined.
pub struct Schedule {
    pub states: Seq<StreamState>,
    pub active: Seq<usize>,
    pub order: Seq<usize>,
}

/// The position of the first `x` in `s` (the length of `s` when there is none).
pub open spec fn first_index(s: Seq<usize>, x: usize) -> int
    decreases s.len(),
{
    if s.len() == 0 {
        0
    } else if s[0] == x {
        0
    } else {
        1 + first_index(s.subrange(1, s.len() as int), x)
    }
}

/// Joining stream `s`.
pub open spec fn join_spec(st: Schedule, s: usize) -> Schedule {
    Schedule {
        states: st.states.update(s as int, StreamState::Joined),
        active: st.active.remove(first_index(st.active, s)),
        order: st.order.push(s),
    }
}

/// Joining the spawned ones among the first `j` dependencies `deps`.
pub open spec fn join_dependencies_spec(deps: Seq<usize>, st: Schedule, j: int) -> Schedule
    decreases j,
{
    if j <= 0 {
        st
    } else {
        let prev = join_dependencies_spec(deps, st, j - 1);
        if prev.states[deps[j - 1] as int] == StreamState::Spawned {
            join_spec(prev, deps[j - 1])
        } else {
            prev
        }
    }
}

/// Reaching stream `i`: its spawned dependencies are joined, then the
/// oldest active stream when `max` are active, then `i` is spawned.
pub open spec fn spawn_spec(streams: Seq<Stream>, max: usize, st: Schedule, i: int) -> Schedule {
    let deps = streams[i].dependencies@;
    let a = join_dependencies_spec(deps, st, deps.len() as int);
    let b = if a.active.len() == max && a.active.len() > 0 {
        join_spec(a, a.active[0])
    } else {
        a
    };
    Schedule { states: b.states.update(i, StreamState::Spawned), active: b.active.push(i as usize), order: b.order }
}

/// The execution after streams `0..i` are reached, in increasing id order.
pub open spec fn spawn_all_spec(streams: Seq<Stream>, max: usize, i: int) -> Schedule
    decreases i,
{
    if i <= 0 {
        Schedule { states: Seq::new(streams.len(), |s: int| StreamState::Unreached), active: Seq::empty(), order: Seq::empty() }
    } else {
        spawn_spec(streams, max, spawn_all_spec(streams, max, i - 1), i - 1)
    }
}

/// Joining, in increasing id order, the streams below `k` that are still spawned.
pub open spec fn join_rest_spec(st: Schedule, k: int) -> Schedule
    decreases k,
{
    if k <= 0 {
        st
    } else {
        let prev = join_rest_spec(st, k - 1);
        if prev.states[k - 1] == StreamState::Spawned {
            join_spec(prev, (k - 1) as usize)
        } else {
            prev
        }
    }
}

/// The order in which the state machine joins the streams, at most `max`
/// of them active at once (no cap when `max` is zero).
pub open spec fn schedule_of(streams: Seq<Stream>, max: usize) -> Seq<usize> {
    join_rest_spec(spawn_all_spec(streams, max, streams.len() as int), streams.len() as int).order
}

/// The streams, `active` and `order` are the execution `st`.
pub open spec fn is_state(streams: Seq<Stream>, active: Seq<usize>, order: Seq<usize>, st: Schedule) -> bool {
    &&& st.states.len() == streams.len()
    &&& forall|s: int| 0 <= s < streams.len() ==> (#[trigger] streams[s]).state == st.states[s]
    &&& active == st.active
    &&& order == st.order
}

proof fn lemma_join_is_state(s0: Seq<Stream>, next_streams: Seq<Stream>, a0: Seq<usize>, a1: Seq<usize>, o0: Seq<usize>, o1: Seq<usize>, st: Schedule, x: usize)
    requires
        is_state(s0, a0, o0, st),
        x < s0.len(),
        next_streams == s0.update(x as int, Stream { state: StreamState::Joined, ..s0[x as int] }),
        a1 == a0.remove(first_index(a0, x)),
        o1 == o0.push(x),
    ensures
        is_state(next_streams, a1, o1, join_spec(st, x)),
{
    assert forall|s: int| 0 <= s < next_streams.len() implies (#[trigger] next_streams[s]).state == join_spec(st, x).states[s] by {
        if s != x {
            assert(next_streams[s] == s0[s]);
        }
    }
}

proof fn lemma_first_index(s: Seq<usize>, x: usize, k: int)
    requires
        0 <= k < s.len(),
        s[k] == x,
        forall|p: int| 0 <= p < k ==> s[p] != x,
    ensures
        first_index(s, x) == k,
    decreases k,
{
    if k > 0 {
        let rest = s.subrange(1, s.len() as int);
        assert forall|p: int| 0 <= p < k - 1 implies rest[p] != x by {
            assert(rest[p] == s[p + 1]);
        }
        lemma_first_index(rest, x, k - 1);
    }
}

/// Marks a spawned stream as joined: it leaves `active` and is appended to `order`.
fn join_stream(stream: usize, streams: &mut Vec<Stream>, active: &mut Vec<usize>, order: &mut Vec<usize>, Ghost(plan): Ghost<Seq<Stream>>)
    requires
        execution_inv(old(streams)@, plan, old(active)@, old(order)@),
        stream < old(streams)@.len(),
        old(streams)@[stream as int].state == StreamState::Spawned,
    ensures
        execution_inv(final(streams)@, plan, final(active)@, final(order)@),
        final(order)@ == old(order)@.push(stream),
        final(streams)@ == old(streams)@.update(stream as int, Stream { state: StreamState::Joined, ..old(streams)@[stream as int] }),
        forall|x: usize| final(active)@.contains(x) <==> (old(active)@.contains(x) && x != stream),
        forall|p: int| 0 <= p < final(active)@.len() ==> old(active)@.contains(#[trigger] final(active)@[p]),
        final(active)@.len() + 1 == old(active)@.len(),
        final(active)@ == old(active)@.remove(first_index(old(active)@, stream)),
{
    let ghost s0 = streams@;
    let ghost a0 = active@;
    let ghost o0 = order@;
    assert(active@.contains(stream));
    let mut k: usize = 0;
    while k < active.len() && active[k] != stream
        invariant
            k <= active@.len(),
            active@ == a0,
            a0.contains(stream),
            forall|p: int| 0 <= p < k ==> a0[p] != stream,
        decreases active@.len() - k,
    {
        k += 1;
    }
    assert(k < active@.len()) by {
        if k == active@.len() {
            let p = choose|p: int| 0 <= p < a0.len() && a0[p] == stream;
        }
    }
    active.remove(k);
    assert(active@ == a0.remove(k as int));
    proof {
        lemma_first_index(a0, stream, k as int);
    }
    streams[stream].state = StreamState::Joined;
    order.push(stream);
    proof {
        assert forall|x: usize| active@.contains(x) <==> (a0.contains(x) && x != stream) by {
            if active@.contains(x) {
                let p = choose|p: int| 0 <= p < active@.len() && active@[p] == x;
                if p < k {
                    assert(a0[p] == x);
                } else {
                    assert(a0[p + 1] == x);
                    assert(a0[k as int] == stream);
                }
            }
            if a0.contains(x) && x != stream {
                let p = choose|p: int| 0 <= p < a0.len() && a0[p] == x;
                if p < k {
                    assert(active@[p] == x);
                } else {
                    assert(p != k);
                    assert(active@[p - 1] == x);
                }
            }
        }
        assert forall|y: usize| y < streams@.len() implies (#[trigger] order@.contains(y) <==> streams@[y as int].state == StreamState::Joined) by {
            lemma_push_contains_usize(o0, stream, y);
        }
        assert forall|y: usize| y < streams@.len() implies (#[trigger] active@.contains(y) <==> streams@[y as int].state == StreamState::Spawned) by {
            if y != stream {
                assert(streams@[y as int] == s0[y as int]);
                assert(a0.contains(y) <==> s0[y as int].state == StreamState::Spawned);
            }
        }
        assert forall|p: int| 0 <= p < active@.len() implies a0.contains(#[trigger] active@[p]) by {
            if p < k {
                assert(a0[p] == active@[p]);
            } else {
                assert(a0[p + 1] == active@[p]);
            }
        }
        assert forall|a: int, b: int| 0 <= a < b < active@.len() implies active@[a] < active@[b] by {
            if b < k {
            } else if a < k {
                assert(active@[b] == a0[b + 1]);
            } else {
                assert(active@[a] == a0[a + 1]);
                assert(active@[b] == a0[b + 1]);
            }
        }
        assert(forall|t: int| 0 <= t < streams@.len() ==> same_plan(#[trigger] streams@[t], plan[t]));
        assert(deps_joined(streams@));
        assert forall|p: int, q: int| 0 <= p < order@.len() && 0 <= q < streams@[order@[p] as int].dependencies@.len() implies
            order@.subrange(0, p).contains(#[trigger] streams@[order@[p] as int].dependencies@[q]) by {
            if p < o0.len() {
                assert(order@.subrange(0, p) == o0.subrange(0, p));
                assert(order@[p] == o0[p]);
            } else {
                let d = streams@[stream as int].dependencies@[q];
                assert(s0[stream as int].dependencies@[q] == d);
                assert(s0[d as int].state == StreamState::Joined);
                assert(o0.contains(d));
                assert(order@.subrange(0, p) == o0);
            }
        }
        assert forall|p: int, q: int| 0 <= p < q < order@.len() implies order@[p] != order@[q] by {
            if q == o0.len() {
                assert(!o0.contains(stream));
                assert(order@[p] == o0[p]);
            }
        }
    }
}

proof fn lemma_push_contains_usize(s: Seq<usize>, x: usize, y: usize)
    ensures
        s.push(x).contains(y) <==> (s.contains(y) || y == x),
{
    if s.push(x).contains(y) {
        let q = choose|q: int| 0 <= q < s.len() + 1 && s.push(x)[q] == y;
        if q < s.len() {
            assert(s[q] == y);
        }
    }
    if s.contains(y) {
        let q = choose|q: int| 0 <= q < s.len() && s[q] == y;
        assert(s.push(x)[q] == y);
    }
    if y == x {
        assert(s.push(x)[s.len() as int] == y);
    }
}

/// Runs the spawn and join state machine over `streams`, with at most
/// `max_concurrent_streams` streams spawned at once (none when it is zero:
/// then no cap applies), and returns the order in which the streams are
/// joined. Each stream is spawned after all of its dependencies are joined.
pub fn execute_streams(streams: &mut Vec<Stream>, max_concurrent_streams: usize) -> (order: Vec<usize>)
    requires
        streams_wf(old(streams)@),
        forall|s: int| 0 <= s < old(streams)@.len() ==> (#[trigger] old(streams)@[s]).state == StreamState::Unreached,
    ensures
        final(streams)@.len() == old(streams)@.len(),
        forall|s: int| 0 <= s < final(streams)@.len() ==> {
            &&& same_plan(#[trigger] final(streams)@[s], old(streams)@[s])
            &&& final(streams)@[s].state == StreamState::Joined
        },
        is_schedule(old(streams)@, order@),
        order@ == schedule_of(old(streams)@, max_concurrent_streams),
        max_concurrent_streams > 0 ==> forall|i: int| 0 <= i <= old(streams)@.len() ==>
            (#[trigger] spawn_all_spec(old(streams)@, max_concurrent_streams, i)).active.len() <= max_concurrent_streams,
{
    let ghost plan = streams@;
    let ghost max = max_concurrent_streams;
    assert(is_state(streams@, Seq::<usize>::empty(), Seq::<usize>::empty(), spawn_all_spec(plan, max, 0)));
    let n = streams.len();
    let mut active: Vec<usize> = Vec::new();
    let mut order: Vec<usize> = Vec::new();
    let mut i: usize = 0;
    while i < n
        invariant
            n == streams@.len(),
            i <= n,
            execution_inv(streams@, plan, active@, order@),
            forall|s: int| 0 <= s < n ==> (s < i <==> (#[trigger] streams@[s]).state != StreamState::Unreached),
            forall|p: int| 0 <= p < active@.len() ==> (#[trigger] active@[p]) < i,
            max == max_concurrent_streams,
            is_state(streams@, active@, order@, spawn_all_spec(plan, max, i as int)),
            max > 0 ==> forall|k: int| 0 <= k <= i ==> (#[trigger] spawn_all_spec(plan, max, k)).active.len() <= max,
        decreases n - i,
    {
        let ghost start_len = active@.len();
        let ghost st_i = spawn_all_spec(plan, max, i as int);
        let ghost deps = plan[i as int].dependencies@;
        let n_deps = streams[i].dependencies.len();
        let mut j: usize = 0;
        while j < n_deps
            invariant
                n == streams@.len(),
                i < n,
                j <= n_deps,
                n_deps == streams@[i as int].dependencies@.len(),
                execution_inv(streams@, plan, active@, order@),
                forall|s: int| 0 <= s < n ==> (s < i <==> (#[trigger] streams@[s]).state != StreamState::Unreached),
                forall|p: int| 0 <= p < active@.len() ==> (#[trigger] active@[p]) < i,
                forall|q: int| 0 <= q < j ==> streams@[#[trigger] streams@[i as int].dependencies@[q] as int].state == StreamState::Joined,
                deps == plan[i as int].dependencies@,
                st_i == spawn_all_spec(plan, max, i as int),
                active@.len() <= start_len,
                is_state(streams@, active@, order@, join_dependencies_spec(deps, st_i, j as int)),
            decreases n_deps - j,
        {
            let dependency = streams[i].dependencies[j];
            assert(same_plan(streams@[i as int], plan[i as int]));
            assert(dependency < i);
            let ghost s0 = streams@;
            let ghost a0 = active@;
            let ghost o0 = order@;
            if streams[dependency].state == StreamState::Spawned {
                join_stream(dependency, streams, &mut active, &mut order, Ghost(plan));
                proof {
                    lemma_join_is_state(s0, streams@, a0, active@, o0, order@, join_dependencies_spec(deps, st_i, j as int), dependency);
                }
            }
            j += 1;
        }
        let ghost after_deps = join_dependencies_spec(deps, st_i, n_deps as int);
        if active.len() == max_concurrent_streams && active.len() > 0 {
            let oldest = active[0];
            assert(active@.contains(oldest));
            let ghost s0 = streams@;
            let ghost a0 = active@;
            let ghost o0 = order@;
            join_stream(oldest, streams, &mut active, &mut order, Ghost(plan));
            proof {
                lemma_join_is_state(s0, streams@, a0, active@, o0, order@, after_deps, oldest);
            }
        }
        let ghost before_spawn = if after_deps.active.len() == max && after_deps.active.len() > 0 {
            join_spec(after_deps, after_deps.active[0])
        } else {
            after_deps
        };
        assert(is_state(streams@, active@, order@, before_spawn));
        let ghost a0 = active@;
        let ghost s0 = streams@;
        assert(forall|p: int| 0 <= p < a0.len() ==> (#[trigger] a0[p]) < i) by {
            assert forall|p: int| 0 <= p < a0.len() implies (#[trigger] a0[p]) < i by {
                assert(a0.contains(a0[p]));
            }
        }
        streams[i].state = StreamState::Spawned;
        active.push(i);
        proof {
            assert forall|x: usize| x < streams@.len() implies (#[trigger] active@.contains(x) <==> streams@[x as int].state == StreamState::Spawned) by {
                lemma_push_contains_usize(a0, i, x);
            }
            assert forall|s: int, q: int| 0 <= s < streams@.len() && streams@[s].state != StreamState::Unreached
                && 0 <= q < streams@[s].dependencies@.len() implies
                streams@[#[trigger] streams@[s].dependencies@[q] as int].state == StreamState::Joined by {
                assert(same_plan(streams@[s], plan[s]));
                assert(streams@[s].dependencies@[q] < s);
                if s != i {
                    assert(s0[s].dependencies@[q] == streams@[s].dependencies@[q]);
                }
            }
            assert forall|p: int, q: int| 0 <= p < order@.len() && 0 <= q < streams@[order@[p] as int].dependencies@.len() implies
                order@.subrange(0, p).contains(#[trigger] streams@[order@[p] as int].dependencies@[q]) by {
                assert(order@.contains(order@[p]));
                assert(s0[order@[p] as int].state == StreamState::Joined);
                assert(order@[p] != i);
                assert(s0[order@[p] as int].dependencies@[q] == streams@[order@[p] as int].dependencies@[q]);
            }
            assert(forall|s: int| 0 <= s < streams@.len() ==> same_plan(#[trigger] streams@[s], plan[s]));
            let next = spawn_all_spec(plan, max, i + 1);
            assert(next == spawn_spec(plan, max, st_i, i as int));
            if max > 0 {
                assert(a0.len() < max);
                assert forall|k: int| 0 <= k <= i + 1 implies (#[trigger] spawn_all_spec(plan, max, k)).active.len() <= max by {
                    if k == i + 1 {
                        assert(spawn_all_spec(plan, max, k).active == active@);
                    }
                }
            }
            assert forall|s: int| 0 <= s < streams@.len() implies (#[trigger] streams@[s]).state == next.states[s] by {
                if s != i {
                    assert(streams@[s] == s0[s]);
                }
            }
            assert(is_state(streams@, active@, order@, next));
        }
        i += 1;
    }
    let mut k: usize = 0;
    while k < n
        invariant
            n == streams@.len(),
            k <= n,
            execution_inv(streams@, plan, active@, order@),
            forall|s: int| 0 <= s < n ==> (#[trigger] streams@[s]).state != StreamState::Unreached,
            forall|s: int| 0 <= s < k ==> (#[trigger] streams@[s]).state == StreamState::Joined,
            is_state(streams@, active@, order@, join_rest_spec(spawn_all_spec(plan, max, n as int), k as int)),
        decreases n - k,
    {
        let ghost s0 = streams@;
        let ghost a0 = active@;
        let ghost o0 = order@;
        if streams[k].state == StreamState::Spawned {
            join_stream(k, streams, &mut active, &mut order, Ghost(plan));
            proof {
                lemma_join_is_state(s0, streams@, a0, active@, o0, order@,
                    join_rest_spec(spawn_all_spec(plan, max, n as int), k as int), k);
            }
        }
        k += 1;
    }
    proof {
        assert forall|s: usize| s < plan.len() implies #[trigger] order@.contains(s) by {
            assert(streams@[s as int].state == StreamState::Joined);
        }
        assert forall|p: int, q: int| 0 <= p < order@.len() && 0 <= q < plan[order@[p] as int].dependencies@.len() implies
            order@.subrange(0, p).contains(#[trigger] plan[order@[p] as int].dependencies@[q]) by {
            assert(same_plan(streams@[order@[p] as int], plan[order@[p] as int]));
            assert(streams@[order@[p] as int].dependencies@[q] == plan[order@[p] as int].dependencies@[q]);
        }
    }
    order
}

/// Whether no instruction writes to one of the machine inputs.
pub fn verify_machine_inputs(machine_inputs: &[usize], instructions: &[SimpleInstruction]) -> (r: bool)
    ensures
        r == forall|m: int, i: int| 0 <= m < machine_inputs@.len() && 0 <= i < instructions@.len() ==>
            !(#[trigger] instructions@[i]).1@.contains(#[trigger] machine_inputs@[m]),
{
    let mut m: usize = 0;
    while m < machine_inputs.len()
        invariant
            m <= machine_inputs@.len(),
            forall|a: int, i: int| 0 <= a < m && 0 <= i < instructions@.len() ==>
                !(#[trigger] instructions@[i]).1@.contains(#[trigger] machine_inputs@[a]),
        decreases machine_inputs@.len() - m,
    {
        let mut i: usize = 0;
        while i < instructions.len()
            invariant
                m < machine_inputs@.len(),
                i <= instructions@.len(),
                forall|a: int, k: int| 0 <= a < m && 0 <= k < instructions@.len() ==>
                    !(#[trigger] instructions@[k]).1@.contains(#[trigger] machine_inputs@[a]),
                forall|k: int| 0 <= k < i ==> !(#[trigger] instructions@[k]).1@.contains(machine_inputs@[m as int]),
            decreases instructions@.len() - i,
        {
            if contains_name(instructions[i].1.as_slice(), machine_inputs[m]) {
                return false;
            }
            i += 1;
        }
        m += 1;
    }
    true
}

/// Puts every stream back in the `Unreached` state.
pub fn reset_streams(streams: &mut Vec<Stream>)
    ensures
        final(streams)@.len() == old(streams)@.len(),
        forall|s: int| 0 <= s < final(streams)@.len() ==> {
            &&& (#[trigger] final(streams)@[s]).state == StreamState::Unreached
            &&& final(streams)@[s].id == old(streams)@[s].id
            &&& final(streams)@[s].dependencies == old(streams)@[s].dependencies
            &&& final(streams)@[s].instructions == old(streams)@[s].instructions
        },
{
    let mut i: usize = 0;
    while i < streams.len()
        invariant
            i <= streams@.len(),
            streams@.len() == old(streams)@.len(),
            forall|s: int| 0 <= s < streams@.len() ==> {
                &&& (s < i ==> (#[trigger] streams@[s]).state == StreamState::Unreached)
                &&& (s >= i ==> streams@[s].state == old(streams)@[s].state)
                &&& streams@[s].id == old(streams)@[s].id
                &&& streams@[s].dependencies == old(streams)@[s].dependencies
                &&& streams@[s].instructions == old(streams)@[s].instructions
            },
        decreases streams@.len() - i,
    {
        streams[i].state = StreamState::Unreached;
        i += 1;
    }
}

/// The names each instruction reads and writes.
pub fn make_simple_instructions(instructions: &Vec<Instruction>) -> (r: Vec<SimpleInstruction>)
    ensures
        r@.len() == instructions@.len(),
        forall|i: int| 0 <= i < r@.len() ==> {
            &&& (#[trigger] r@[i]).0@ == instructions@[i]@.inputs
            &&& r@[i].1@ == instructions@[i]@.outputs
        },
{
    let mut r: Vec<SimpleInstruction> = Vec::new();
    let mut i: usize = 0;
    while i < instructions.len()
        invariant
            i <= instructions@.len(),
            r@.len() == i,
            forall|k: int| 0 <= k < i ==> {
                &&& (#[trigger] r@[k]).0@ == instructions@[k]@.inputs
                &&& r@[k].1@ == instructions@[k]@.outputs
            },
        decreases instructions@.len() - i,
    {
        let instruction = &instructions[i];
        r.push((copy_names(instruction.inputs.as_slice()), copy_names(instruction.outputs.as_slice())));
        i += 1;
    }
    r
}

} // verus!
