//! The scheduler's correctness property: whatever schedule the state machine
//! picks, two accesses to one operand of which at least one is a write run
//! in program order.
use vstd::prelude::*;

use crate::planner::{
    conflict_on, instruction_dependencies, is_dependency, lemma_dependency_list, no_write_between,
    writes, SimpleInstruction,
};
use crate::scheduler::{flatten, lemma_schedule_runs_each_instruction_once, planned_from};
use crate::streams::{
    assigned_streams, holds_dependency_of, is_schedule, lemma_assigned_streams, lemma_stream_members,
    opened_streams, stream_dependencies, stream_dependency_list, stream_members, Stream,
};

verus! {

/// `x` runs before `y` in the sequence `f`.
pub open spec fn runs_before(f: Seq<usize>, x: usize, y: usize) -> bool {
    exists|px: int, py: int| 0 <= px < py < f.len() && f[px] == x && f[py] == y
}

/// The streams were planned from `prog`, with their instructions and their dependencies.
pub open spec fn planned_with_dependencies(prog: Seq<SimpleInstruction>, streams: Seq<Stream>) -> bool {
    &&& planned_from(prog, streams)
    &&& forall|s: int| 0 <= s < streams.len() ==> (#[trigger] streams[s]).dependencies@ == stream_dependencies(prog, streams, s)
}

proof fn lemma_assigned_prefix(prog: Seq<SimpleInstruction>, m: nat, n: nat)
    requires
        m <= n <= prog.len(),
        prog.len() <= usize::MAX,
    ensures
        forall|x: int| 0 <= x < m ==> #[trigger] assigned_streams(prog, n)[x] == assigned_streams(prog, m)[x],
        opened_streams(prog, m) <= opened_streams(prog, n),
    decreases n - m,
{
    if m < n {
        lemma_assigned_prefix(prog, m, (n - 1) as nat);
        lemma_assigned_streams(prog, (n - 1) as nat);
        assert forall|x: int| 0 <= x < m implies #[trigger] assigned_streams(prog, n)[x] == assigned_streams(prog, m)[x] by {
            assert(assigned_streams(prog, n)[x] == assigned_streams(prog, (n - 1) as nat)[x]);
        }
    }
}

/// An instruction lies in a stream opened no later than itself.
proof fn lemma_assigned_below_opened(prog: Seq<SimpleInstruction>, x: int)
    requires
        0 <= x < prog.len(),
        prog.len() <= usize::MAX,
    ensures
        assigned_streams(prog, prog.len())[x] < opened_streams(prog, (x + 1) as nat),
{
    lemma_assigned_prefix(prog, (x + 1) as nat, prog.len());
    lemma_assigned_streams(prog, (x + 1) as nat);
}

/// An instruction without exactly one dependency opens its stream and is its first instruction.
proof fn lemma_opener(prog: Seq<SimpleInstruction>, streams: Seq<Stream>, v: int)
    requires
        0 <= v < prog.len(),
        prog.len() <= usize::MAX,
        planned_from(prog, streams),
        instruction_dependencies(prog, v).len() != 1,
    ensures
        assigned_streams(prog, prog.len())[v] == opened_streams(prog, v as nat),
        streams[assigned_streams(prog, prog.len())[v]].instructions@[0] == v,
{
    let n = prog.len();
    lemma_assigned_prefix(prog, (v + 1) as nat, n);
    lemma_assigned_streams(prog, n);
    let s = assigned_streams(prog, n)[v];
    lemma_assigned_streams(prog, v as nat);
    assert(assigned_streams(prog, (v + 1) as nat) == assigned_streams(prog, v as nat).push(opened_streams(prog, v as nat) as int));
    assert(assigned_streams(prog, (v + 1) as nat)[v] == opened_streams(prog, v as nat));
    lemma_stream_members(prog, n, s, n as int);
    let members = stream_members(prog, n, s, n as int);
    assert(members.contains(v as usize));
    let k = choose|k: int| 0 <= k < members.len() && members[k] == v as usize;
    let first = members[0];
    assert(assigned_streams(prog, n)[first as int] == s);
    if first < v {
        lemma_assigned_below_opened(prog, first as int);
        lemma_assigned_prefix(prog, (first + 1) as nat, v as nat);
    }
    if k > 0 {
        assert(members[0] < members[k]);
    }
}

proof fn lemma_stream_dependency_list_contains(prog: Seq<SimpleInstruction>, f: int, m: int, t: int)
    requires
        0 <= t < m <= usize::MAX,
        holds_dependency_of(prog, t, f),
    ensures
        stream_dependency_list(prog, f, m).contains(t as usize),
    decreases m,
{
    let prev = stream_dependency_list(prog, f, m - 1);
    let cur = stream_dependency_list(prog, f, m);
    if t == m - 1 {
        assert(cur[cur.len() - 1] == t as usize);
    } else {
        lemma_stream_dependency_list_contains(prog, f, m - 1, t);
        let k = choose|k: int| 0 <= k < prev.len() && prev[k] == t as usize;
        if holds_dependency_of(prog, m - 1, f) {
            assert(cur[k] == t as usize);
        }
    }
}

/// Two instructions of one stream run in their stream's order.
proof fn lemma_flatten_same_stream(streams: Seq<Stream>, order: Seq<usize>, p: int, ix: int, iy: int)
    requires
        0 <= p < order.len(),
        forall|q: int| 0 <= q < order.len() ==> (#[trigger] order[q]) < streams.len(),
        0 <= ix < iy < streams[order[p] as int].instructions@.len(),
    ensures
        runs_before(flatten(streams, order), streams[order[p] as int].instructions@[ix], streams[order[p] as int].instructions@[iy]),
    decreases order.len(),
{
    let prefix = order.drop_last();
    let f0 = flatten(streams, prefix);
    let f = flatten(streams, order);
    let members = streams[order[p] as int].instructions@;
    if p == order.len() - 1 {
        assert(f == f0 + members);
        assert(f[f0.len() + ix] == members[ix]);
        assert(f[f0.len() + iy] == members[iy]);
    } else {
        assert(prefix[p] == order[p]);
        lemma_flatten_same_stream(streams, prefix, p, ix, iy);
        let (px, py) = choose|px: int, py: int| 0 <= px < py < f0.len() && f0[px] == members[ix] && f0[py] == members[iy];
        assert(f == f0 + streams[order.last() as int].instructions@);
        assert(f[px] == f0[px] && f[py] == f0[py]);
    }
}

/// The instructions of a stream run before those of any stream later in the order.
proof fn lemma_flatten_streams_in_order(streams: Seq<Stream>, order: Seq<usize>, pa: int, pb: int, ix: int, iy: int)
    requires
        0 <= pa < pb < order.len(),
        forall|q: int| 0 <= q < order.len() ==> (#[trigger] order[q]) < streams.len(),
        0 <= ix < streams[order[pa] as int].instructions@.len(),
        0 <= iy < streams[order[pb] as int].instructions@.len(),
    ensures
        runs_before(flatten(streams, order), streams[order[pa] as int].instructions@[ix], streams[order[pb] as int].instructions@[iy]),
    decreases order.len(),
{
    let prefix = order.drop_last();
    let f0 = flatten(streams, prefix);
    let f = flatten(streams, order);
    let x = streams[order[pa] as int].instructions@[ix];
    let y = streams[order[pb] as int].instructions@[iy];
    assert(f == f0 + streams[order.last() as int].instructions@);
    assert(prefix[pa] == order[pa]);
    assert forall|q: int| 0 <= q < prefix.len() implies (#[trigger] prefix[q]) < streams.len() by {
        assert(prefix[q] == order[q]);
    }
    if pb == order.len() - 1 {
        crate::scheduler::lemma_flatten_contains(streams, prefix, x);
        assert(streams[prefix[pa] as int].instructions@.contains(x));
        assert(f0.contains(x));
        let px = choose|px: int| 0 <= px < f0.len() && f0[px] == x;
        assert(f[px] == x);
        assert(f[f0.len() + iy] == y);
    } else {
        assert(prefix[pb] == order[pb]);
        lemma_flatten_streams_in_order(streams, prefix, pa, pb, ix, iy);
        let (px, py) = choose|px: int, py: int| 0 <= px < py < f0.len() && f0[px] == x && f0[py] == y;
        assert(f[px] == f0[px] && f[py] == f0[py]);
    }
}

/// Where `u` is a dependency of `v`, `u` runs before `v`.
proof fn lemma_dependency_runs_before(prog: Seq<SimpleInstruction>, streams: Seq<Stream>, order: Seq<usize>, u: int, v: int)
    requires
        prog.len() <= usize::MAX,
        planned_with_dependencies(prog, streams),
        is_schedule(streams, order),
        0 <= v < prog.len(),
        is_dependency(prog, v, u),
    ensures
        runs_before(flatten(streams, order), u as usize, v as usize),
{
    let n = prog.len();
    lemma_assigned_streams(prog, n);
    lemma_dependency_list(prog, v, v);
    let deps = instruction_dependencies(prog, v);
    assert(deps.contains(u as usize));
    let su = assigned_streams(prog, n)[u];
    let sv = assigned_streams(prog, n)[v];
    lemma_stream_members(prog, n, su, n as int);
    lemma_stream_members(prog, n, sv, n as int);
    let mu = stream_members(prog, n, su, n as int);
    let mv = stream_members(prog, n, sv, n as int);
    assert(mu.contains(u as usize));
    assert(mv.contains(v as usize));
    let iu = choose|k: int| 0 <= k < mu.len() && mu[k] == u as usize;
    let iv = choose|k: int| 0 <= k < mv.len() && mv[k] == v as usize;
    assert(streams[su].instructions@ == mu);
    assert(streams[sv].instructions@ == mv);
    assert(order.contains(su as usize));
    assert(order.contains(sv as usize));
    let psu = choose|p: int| 0 <= p < order.len() && order[p] == su as usize;
    let psv = choose|p: int| 0 <= p < order.len() && order[p] == sv as usize;
    if su == sv {
        assert(psu == psv) by {
            if psu != psv {
                if psu < psv {
                    assert(order[psu] != order[psv]);
                } else {
                    assert(order[psv] != order[psu]);
                }
            }
        }
        if iv <= iu {
            if iv < iu {
                assert(mv[iv] < mv[iu]);
            }
        }
        lemma_flatten_same_stream(streams, order, psu, iu, iv);
    } else {
        if deps.len() == 1 {
            let k = choose|k: int| 0 <= k < deps.len() && deps[k] == u as usize;
            assert(k == 0);
            let d = deps[0];
            let m = v as nat;
            lemma_assigned_prefix(prog, (v + 1) as nat, n);
            lemma_assigned_streams(prog, m);
            assert(d < v);
            let prev = assigned_streams(prog, m);
            assert(assigned_streams(prog, (v + 1) as nat) == prev.push(prev[d as int]));
            assert(assigned_streams(prog, (v + 1) as nat)[v] == assigned_streams(prog, m)[d as int]);
            lemma_assigned_prefix(prog, m, (v + 1) as nat);
            lemma_assigned_prefix(prog, m, n);
        }
        lemma_opener(prog, streams, v);
        assert(mv[0] == v);
        lemma_assigned_below_opened(prog, u);
        lemma_assigned_prefix(prog, (u + 1) as nat, v as nat);
        assert(su < sv);
        let q = choose|q: int| 0 <= q < deps.len() && deps[q] == u as usize;
        assert(holds_dependency_of(prog, su, v));
        lemma_stream_dependency_list_contains(prog, v, sv, su);
        let sdeps = streams[sv].dependencies@;
        assert(sdeps == stream_dependency_list(prog, v, sv));
        let qd = choose|qd: int| 0 <= qd < sdeps.len() && sdeps[qd] == su as usize;
        assert(order.subrange(0, psv).contains(streams[order[psv] as int].dependencies@[qd]));
        let pd = choose|pd: int| 0 <= pd < psv && order.subrange(0, psv)[pd] == su as usize;
        assert(order[pd] == su as usize);
        lemma_flatten_streams_in_order(streams, order, pd, psv, iu, iv);
    }
}

/// `x` runs before `y` and `y` before `z`, each running once: `x` runs before `z`.
proof fn lemma_runs_before_transitive(f: Seq<usize>, x: usize, y: usize, z: usize)
    requires
        runs_before(f, x, y),
        runs_before(f, y, z),
        forall|a: int, b: int| 0 <= a < b < f.len() ==> f[a] != f[b],
    ensures
        runs_before(f, x, z),
{
    let (px, py) = choose|px: int, py: int| 0 <= px < py < f.len() && f[px] == x && f[py] == y;
    let (qy, qz) = choose|qy: int, qz: int| 0 <= qy < qz < f.len() && f[qy] == y && f[qz] == z;
    if py != qy {
        if py < qy {
            assert(f[py] != f[qy]);
        } else {
            assert(f[qy] != f[py]);
        }
    }
}

/// Between `a` and `b` there is a last instruction that writes `o`, if any writes it.
proof fn lemma_last_write_between(prog: Seq<SimpleInstruction>, a: int, b: int, o: usize)
    requires
        !no_write_between(prog, a, b, o),
    ensures
        exists|w: int| a < w < b && writes(prog, w, o) && no_write_between(prog, w, b, o),
    decreases b - a,
{
    if writes(prog, b - 1, o) && a < b - 1 {
        assert(no_write_between(prog, b - 1, b, o));
    } else {
        assert(!no_write_between(prog, a, b - 1, o));
        lemma_last_write_between(prog, a, b - 1, o);
        let w = choose|w: int| a < w < b - 1 && writes(prog, w, o) && no_write_between(prog, w, b - 1, o);
        assert(no_write_between(prog, w, b, o));
    }
}

/// Running the streams planned from a program, in any schedule, keeps every
/// pair of conflicting accesses in program order: where instruction `a`
/// comes before `b`, both access `o` and one of them writes it, `a` runs
/// before `b`. This covers read after write, write after write and write
/// after read.
pub proof fn lemma_schedule_keeps_conflicts_in_order(
    prog: Seq<SimpleInstruction>,
    streams: Seq<Stream>,
    order: Seq<usize>,
    a: int,
    b: int,
    o: usize,
)
    requires
        prog.len() <= usize::MAX,
        planned_with_dependencies(prog, streams),
        is_schedule(streams, order),
        0 <= a < b < prog.len(),
        conflict_on(prog, b, a, o),
    ensures
        runs_before(flatten(streams, order), a as usize, b as usize),
    decreases b,
{
    lemma_schedule_runs_each_instruction_once(prog, streams, order);
    if no_write_between(prog, a, b, o) {
        assert(is_dependency(prog, b, a));
        lemma_dependency_runs_before(prog, streams, order, a, b);
    } else {
        lemma_last_write_between(prog, a, b, o);
        let w = choose|w: int| a < w < b && writes(prog, w, o) && no_write_between(prog, w, b, o);
        assert(conflict_on(prog, b, w, o));
        assert(is_dependency(prog, b, w));
        lemma_dependency_runs_before(prog, streams, order, w, b);
        assert(conflict_on(prog, w, a, o));
        lemma_schedule_keeps_conflicts_in_order(prog, streams, order, a, w, o);
        lemma_runs_before_transitive(flatten(streams, order), a as usize, w as usize, b as usize);
    }
}

} // verus!
