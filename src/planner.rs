//! The instruction dependency analysis: for each instruction, the earlier
//! instructions it must follow so that every read and write of an operand
//! keeps its program order.
use vstd::prelude::*;

verus! {

/// The names an instruction reads and the names it writes.
pub type SimpleInstruction = (Vec<usize>, Vec<usize>);

pub open spec fn reads(prog: Seq<SimpleInstruction>, k: int, o: usize) -> bool {
    prog[k].0@.contains(o)
}

pub open spec fn writes(prog: Seq<SimpleInstruction>, k: int, o: usize) -> bool {
    prog[k].1@.contains(o)
}

/// No instruction strictly between `j` and `i` writes `o`.
pub open spec fn no_write_between(prog: Seq<SimpleInstruction>, j: int, i: int, o: usize) -> bool {
    forall|k: int| j < k < i ==> !writes(prog, k, o)
}

/// Instructions `j` and `i` access `o` and one of them writes it.
pub open spec fn conflict_on(prog: Seq<SimpleInstruction>, i: int, j: int, o: usize) -> bool {
    ||| writes(prog, j, o) && (reads(prog, i, o) || writes(prog, i, o))
    ||| reads(prog, j, o) && writes(prog, i, o)
}

/// `j` is a dependency of `i`: an earlier instruction with a conflicting
/// access to some operand that no instruction between them writes. This is
/// the last writer of each operand of `i` (read after write, write after
/// write) and, for each operand that `i` writes, every reader since that
/// writer (write after read).
pub open spec fn is_dependency(prog: Seq<SimpleInstruction>, i: int, j: int) -> bool {
    &&& 0 <= j < i
    &&& exists|o: usize| #[trigger] conflict_on(prog, i, j, o) && no_write_between(prog, j, i, o)
}

/// The dependencies of `i` below `m`, in increasing order.
pub open spec fn dependency_list(prog: Seq<SimpleInstruction>, i: int, m: int) -> Seq<usize>
    decreases m,
{
    if m <= 0 {
        Seq::empty()
    } else {
        let prev = dependency_list(prog, i, m - 1);
        if is_dependency(prog, i, m - 1) {
            prev.push((m - 1) as usize)
        } else {
            prev
        }
    }
}

/// The dependencies of instruction `i`, in increasing order.
pub open spec fn instruction_dependencies(prog: Seq<SimpleInstruction>, i: int) -> Seq<usize> {
    dependency_list(prog, i, i)
}

pub open spec fn strictly_increasing(s: Seq<usize>) -> bool {
    forall|a: int, b: int| 0 <= a < b < s.len() ==> s[a] < s[b]
}

/// Every element of the list lies below `m` and `i` and is a dependency; the list increases.
pub proof fn lemma_dependency_list(prog: Seq<SimpleInstruction>, i: int, m: int)
    requires
        0 <= i <= usize::MAX,
    ensures
        forall|q: int| 0 <= q < dependency_list(prog, i, m).len() ==> {
            let j = #[trigger] dependency_list(prog, i, m)[q];
            &&& j < m
            &&& j < i
            &&& is_dependency(prog, i, j as int)
        },
        forall|j: int| 0 <= j < m && is_dependency(prog, i, j) ==> #[trigger] dependency_list(prog, i, m).contains(j as usize),
        strictly_increasing(dependency_list(prog, i, m)),
    decreases m,
{
    if m > 0 {
        lemma_dependency_list(prog, i, m - 1);
        let prev = dependency_list(prog, i, m - 1);
        let cur = dependency_list(prog, i, m);
        if is_dependency(prog, i, m - 1) {
            assert(cur == prev.push((m - 1) as usize));
            assert forall|q: int| 0 <= q < cur.len() implies {
                let j = #[trigger] cur[q];
                &&& j < m
                &&& j < i
                &&& is_dependency(prog, i, j as int)
            } by {
                if q < prev.len() {
                    assert(cur[q] == prev[q]);
                }
            }
            assert forall|a: int, b: int| 0 <= a < b < cur.len() implies cur[a] < cur[b] by {
                if b < prev.len() {
                    assert(cur[a] == prev[a] && cur[b] == prev[b]);
                } else {
                    assert(cur[a] == prev[a]);
                }
            }
            assert forall|j: int| 0 <= j < m && is_dependency(prog, i, j) implies #[trigger] cur.contains(j as usize) by {
                if j < m - 1 {
                    assert(prev.contains(j as usize));
                    let k = choose|k: int| 0 <= k < prev.len() && prev[k] == j as usize;
                    assert(cur[k] == j as usize);
                } else {
                    assert(cur[cur.len() - 1] == j as usize);
                }
            }
        } else {
            assert forall|j: int| 0 <= j < m && is_dependency(prog, i, j) implies #[trigger] cur.contains(j as usize) by {
                assert(prev.contains(j as usize));
            }
        }
    }
}

proof fn lemma_push_contains(s: Seq<usize>, x: usize, y: usize)
    ensures
        s.push(x).contains(y) <==> (s.contains(y) || y == x),
{
    if s.push(x).contains(y) {
        let q = choose|q: int| 0 <= q < s.len() + 1 && s.push(x)[q] == y;
        if q < s.len() {
            assert(s[q] == y);
        }
    }
    if s.contains(y) {
        let q = choose|q: int| 0 <= q < s.len() && s[q] == y;
        assert(s.push(x)[q] == y);
    }
    if y == x {
        assert(s.push(x)[s.len() as int] == y);
    }
}

/// Whether `o` is among `names`.
pub fn contains_name(names: &[usize], o: usize) -> (r: bool)
    ensures
        r == names@.contains(o),
{
    let mut k: usize = 0;
    while k < names.len()
        invariant
            k <= names@.len(),
            forall|m: int| 0 <= m < k ==> names@[m] != o,
        decreases names@.len() - k,
    {
        if names[k] == o {
            assert(names@[k as int] == o);
            return true;
        }
        k += 1;
    }
    false
}

/// Instruction `j` must come before `i` on account of `o`, which `i` reads,
/// or writes when `i_writes` holds.
pub open spec fn operand_dependency(prog: Seq<SimpleInstruction>, i: int, o: usize, i_writes: bool, j: int) -> bool {
    &&& 0 <= j < i
    &&& no_write_between(prog, j, i, o)
    &&& (writes(prog, j, o) || (i_writes && reads(prog, j, o)))
}

/// Adds to `found` the dependencies of `i` on account of `o`: its last
/// writer before `i` and, when `i_writes` holds, the readers since then.
fn collect_operand_dependencies(prog: &[SimpleInstruction], i: usize, o: usize, i_writes: bool, found: &mut Vec<usize>)
    requires
        i <= prog@.len(),
    ensures
        forall|j: usize| final(found)@.contains(j) <==> (old(found)@.contains(j) || operand_dependency(prog@, i as int, o, i_writes, j as int)),
{
    let ghost f0 = found@;
    let mut k: usize = i;
    let mut stopped = false;
    while k > 0 && !stopped
        invariant
            k <= i,
            i <= prog@.len(),
            !stopped ==> forall|m: int| k <= m < i ==> !writes(prog@, m, o),
            !stopped ==> forall|j: usize| found@.contains(j) <==> (f0.contains(j) || (k <= j < i && operand_dependency(prog@, i as int, o, i_writes, j as int))),
            stopped ==> forall|j: usize| found@.contains(j) <==> (f0.contains(j) || operand_dependency(prog@, i as int, o, i_writes, j as int)),
        decreases k + if stopped { 0int } else { 1int },
    {
        let ghost before = found@;
        let j = k - 1;
        if contains_name(prog[j].1.as_slice(), o) {
            found.push(j);
            proof {
                assert(no_write_between(prog@, j as int, i as int, o));
                assert(operand_dependency(prog@, i as int, o, i_writes, j as int));
                assert forall|x: usize| found@.contains(x) <==> (f0.contains(x) || operand_dependency(prog@, i as int, o, i_writes, x as int)) by {
                    lemma_push_contains(before, j, x);
                    assert(before.contains(x) <==> (f0.contains(x) || (k <= x < i && operand_dependency(prog@, i as int, o, i_writes, x as int))));
                    if x < j && operand_dependency(prog@, i as int, o, i_writes, x as int) {
                        assert(writes(prog@, j as int, o));
                        assert(x < j < i);
                    }
                }
            }
            stopped = true;
        } else {
            let reader = i_writes && contains_name(prog[j].0.as_slice(), o);
            if reader {
                found.push(j);
            }
            proof {
                assert(reader <==> (i_writes && reads(prog@, j as int, o)));
                assert(found@ == if reader { before.push(j) } else { before });
                assert(!writes(prog@, j as int, o));
                assert(no_write_between(prog@, j as int, i as int, o));
                assert forall|x: usize| found@.contains(x) <==> (f0.contains(x) || (j <= x < i && operand_dependency(prog@, i as int, o, i_writes, x as int))) by {
                    lemma_push_contains(before, j, x);
                    assert(before.contains(x) <==> (f0.contains(x) || (k <= x < i && operand_dependency(prog@, i as int, o, i_writes, x as int))));
                    if x == j {
                        assert(operand_dependency(prog@, i as int, o, i_writes, x as int) <==> reader);
                    }
                }
            }
            k -= 1;
        }
    }
}

/// `j` is a dependency of `i` on account of one of the first `k` names of `names`.
pub open spec fn covered(prog: Seq<SimpleInstruction>, i: int, names: Seq<usize>, i_writes: bool, k: int, j: usize) -> bool {
    exists|m: int| 0 <= m < k && #[trigger] operand_dependency(prog, i, names[m], i_writes, j as int)
}

/// Adds to `found` the dependencies of `i` on account of each name of `names`.
fn collect_dependencies(prog: &[SimpleInstruction], i: usize, names: &Vec<usize>, i_writes: bool, found: &mut Vec<usize>)
    requires
        i <= prog@.len(),
    ensures
        forall|j: usize| final(found)@.contains(j) <==> (old(found)@.contains(j) || covered(prog@, i as int, names@, i_writes, names@.len() as int, j)),
{
    let ghost f0 = found@;
    let mut k: usize = 0;
    while k < names.len()
        invariant
            k <= names@.len(),
            i <= prog@.len(),
            forall|j: usize| #[trigger] found@.contains(j) <==> (f0.contains(j) || covered(prog@, i as int, names@, i_writes, k as int, j)),
        decreases names@.len() - k,
    {
        let ghost before = found@;
        collect_operand_dependencies(prog, i, names[k], i_writes, found);
        assert forall|j: usize| #[trigger] found@.contains(j) <==> (f0.contains(j) || covered(prog@, i as int, names@, i_writes, k + 1, j)) by {
            assert(before.contains(j) <==> (f0.contains(j) || covered(prog@, i as int, names@, i_writes, k as int, j)));
            if covered(prog@, i as int, names@, i_writes, k + 1, j) {
                let m = choose|m: int| 0 <= m < k + 1 && #[trigger] operand_dependency(prog@, i as int, names@[m], i_writes, j as int);
                if m < k {
                    assert(covered(prog@, i as int, names@, i_writes, k as int, j));
                }
            }
            if covered(prog@, i as int, names@, i_writes, k as int, j) {
                let m = choose|m: int| 0 <= m < k && #[trigger] operand_dependency(prog@, i as int, names@[m], i_writes, j as int);
                assert(covered(prog@, i as int, names@, i_writes, k + 1, j));
            }
            if found@.contains(j) && !before.contains(j) {
                assert(operand_dependency(prog@, i as int, names@[k as int], i_writes, j as int));
                assert(covered(prog@, i as int, names@, i_writes, k + 1, j));
            }
        }
        k += 1;
    }
}

/// The dependencies of instruction `i`, in increasing order.
pub fn dependencies_of(prog: &[SimpleInstruction], i: usize) -> (r: Vec<usize>)
    requires
        i < prog@.len(),
    ensures
        r@ == instruction_dependencies(prog@, i as int),
{
    let mut found: Vec<usize> = Vec::new();
    collect_dependencies(prog, i, &prog[i].0, false, &mut found);
    collect_dependencies(prog, i, &prog[i].1, true, &mut found);
    proof {
        assert forall|j: usize| found@.contains(j) <==> is_dependency(prog@, i as int, j as int) by {
            let ins = prog@[i as int].0@;
            let outs = prog@[i as int].1@;
            if covered(prog@, i as int, ins, false, ins.len() as int, j) {
                let m = choose|m: int| 0 <= m < ins.len() && #[trigger] operand_dependency(prog@, i as int, ins[m], false, j as int);
                assert(ins.contains(ins[m]));
                assert(conflict_on(prog@, i as int, j as int, ins[m]));
            }
            if covered(prog@, i as int, outs, true, outs.len() as int, j) {
                let m = choose|m: int| 0 <= m < outs.len() && #[trigger] operand_dependency(prog@, i as int, outs[m], true, j as int);
                assert(outs.contains(outs[m]));
                assert(conflict_on(prog@, i as int, j as int, outs[m]));
            }
            if is_dependency(prog@, i as int, j as int) {
                let o = choose|o: usize| #[trigger] conflict_on(prog@, i as int, j as int, o) && no_write_between(prog@, j as int, i as int, o);
                if writes(prog@, i as int, o) {
                    let m = choose|m: int| 0 <= m < outs.len() && outs[m] == o;
                    assert(operand_dependency(prog@, i as int, outs[m], true, j as int));
                    assert(covered(prog@, i as int, outs, true, outs.len() as int, j));
                } else {
                    let m = choose|m: int| 0 <= m < ins.len() && ins[m] == o;
                    assert(operand_dependency(prog@, i as int, ins[m], false, j as int));
                    assert(covered(prog@, i as int, ins, false, ins.len() as int, j));
                }
            }
        }
    }
    let mut r: Vec<usize> = Vec::new();
    let mut j: usize = 0;
    while j < i
        invariant
            j <= i,
            r@ == dependency_list(prog@, i as int, j as int),
            forall|x: usize| found@.contains(x) <==> is_dependency(prog@, i as int, x as int),
        decreases i - j,
    {
        if contains_name(found.as_slice(), j) {
            r.push(j);
        }
        j += 1;
    }
    r
}

} // verus!
