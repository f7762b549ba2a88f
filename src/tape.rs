//! The tape: the nodes that the loss depends on, in an order where each
//! node comes after its inputs.
use vstd::prelude::*;

use crate::device::{node_wf, Device, Node};
use crate::planner::strictly_increasing;

verus! {

/// `tape` holds `root` and, in increasing order, exactly the nodes that
/// `root` reaches through input edges.
pub open spec fn is_tape(nodes: Seq<Node>, root: int, tape: Seq<usize>) -> bool {
    &&& strictly_increasing(tape)
    &&& tape.len() > 0
    &&& tape.last() == root
    &&& forall|p: int, q: int| 0 <= p < tape.len() && 0 <= q < nodes[tape[p] as int].inputs@.len() ==>
        tape.contains(#[trigger] nodes[tape[p] as int].inputs@[q])
    &&& forall|p: int| 0 <= p < tape.len() - 1 ==> #[trigger] used_on_tape(nodes, tape, tape[p])
}

/// Some node of the tape takes `x` as an input.
pub open spec fn used_on_tape(nodes: Seq<Node>, tape: Seq<usize>, x: usize) -> bool {
    exists|p: int| 0 <= p < tape.len() && nodes[tape[p] as int].inputs@.contains(x)
}

/// Whether `x` is marked and some marked node above it takes it as an input.
spec fn used_by_marked(nodes: Seq<Node>, marks: Seq<bool>, x: int) -> bool {
    exists|y: int| x < y < marks.len() && marks[y] && nodes[y].inputs@.contains(x as usize)
}

/// The tape of `root`, found by a sweep from `root` down to the first node.
pub fn get_tape(device: &Device, root: usize) -> (r: Vec<usize>)
    requires
        device.wf(),
        root < device.nodes@.len(),
    ensures
        is_tape(device.nodes@, root as int, r@),
{
    let ghost nodes = device.nodes@;
    let n_nodes = device.nodes.len();
    let mut marks: Vec<bool> = Vec::new();
    let mut k: usize = 0;
    while k <= root
        invariant
            k <= root + 1,
            root < n_nodes,
            marks@.len() == k,
            forall|x: int| 0 <= x < k ==> marks@[x] == (x == root),
        decreases root + 1 - k,
    {
        marks.push(k == root);
        k += 1;
    }
    let mut m: usize = root + 1;
    while m > 0
        invariant
            m <= root + 1,
            root < nodes.len(),
            nodes == device.nodes@,
            device.wf(),
            marks@.len() == root + 1,
            marks@[root as int],
            forall|x: int, q: int| m <= x <= root && marks@[x] && 0 <= q < nodes[x].inputs@.len() ==>
                marks@[#[trigger] nodes[x].inputs@[q] as int],
            forall|x: int| 0 <= x < root && #[trigger] marks@[x] ==> used_by_marked(nodes, marks@, x),
            forall|x: int| m <= x <= root && marks@[x] ==> forall|q: int| 0 <= q < nodes[x].inputs@.len() ==> (#[trigger] nodes[x].inputs@[q]) < x,
        decreases m,
    {
        m -= 1;
        if marks[m] {
            assert(node_wf(device.tensors@, nodes, m as int));
            let n_inputs = device.nodes[m].inputs.len();
            let mut q: usize = 0;
            while q < n_inputs
                invariant
                    m <= root,
                    root < nodes.len(),
                    nodes == device.nodes@,
                    device.wf(),
                    node_wf(device.tensors@, nodes, m as int),
                    n_inputs == nodes[m as int].inputs@.len(),
                    q <= n_inputs,
                    marks@.len() == root + 1,
                    marks@[root as int],
                    marks@[m as int],
                    forall|x: int, q_other: int| m < x <= root && marks@[x] && 0 <= q_other < nodes[x].inputs@.len() ==>
                        marks@[#[trigger] nodes[x].inputs@[q_other] as int],
                    forall|q_other: int| 0 <= q_other < q ==> marks@[#[trigger] nodes[m as int].inputs@[q_other] as int],
                    forall|x: int| 0 <= x < root && #[trigger] marks@[x] ==> used_by_marked(nodes, marks@, x),
                    forall|x: int| m < x <= root && marks@[x] ==> forall|q: int| 0 <= q < nodes[x].inputs@.len() ==> (#[trigger] nodes[x].inputs@[q]) < x,
                decreases n_inputs - q,
            {
                let input = device.nodes[m].inputs[q];
                assert(input < m);
                let ghost before = marks@;
                marks.set(input, true);
                proof {
                    assert forall|x: int| 0 <= x < root && #[trigger] marks@[x] implies used_by_marked(nodes, marks@, x) by {
                        if x == input {
                            assert(nodes[m as int].inputs@[q as int] == input);
                            assert(nodes[m as int].inputs@.contains(x as usize));
                            assert(marks@[m as int]);
                        } else {
                            assert(before[x]);
                            assert(used_by_marked(nodes, before, x));
                            let y = choose|y: int| x < y < before.len() && before[y] && nodes[y].inputs@.contains(x as usize);
                            assert(marks@[y]);
                        }
                    }
                }
                q += 1;
            }
        }
    }
    let mut tape: Vec<usize> = Vec::new();
    let mut x: usize = 0;
    while x <= root
        invariant
            x <= root + 1,
            root < n_nodes,
            marks@.len() == root + 1,
            strictly_increasing(tape@),
            forall|p: int| 0 <= p < tape@.len() ==> (#[trigger] tape@[p]) < x,
            forall|y: usize| tape@.contains(y) <==> (y < x && marks@[y as int]),
        decreases root + 1 - x,
    {
        let ghost before = tape@;
        if marks[x] {
            tape.push(x);
            proof {
                assert forall|y: usize| tape@.contains(y) <==> (y < x + 1 && marks@[y as int]) by {
                    if tape@.contains(y) && y != x {
                        let p = choose|p: int| 0 <= p < tape@.len() && tape@[p] == y;
                        assert(before[p] == y);
                    }
                    if y < x && marks@[y as int] {
                        let p = choose|p: int| 0 <= p < before.len() && before[p] == y;
                        assert(tape@[p] == y);
                    }
                    if y == x {
                        assert(tape@[tape@.len() - 1] == x);
                    }
                }
            }
        }
        x += 1;
    }
    proof {
        assert(tape@.contains(root));
        let last = tape@.last();
        assert(tape@.contains(last));
        if last != root {
            let p = choose|p: int| 0 <= p < tape@.len() && tape@[p] == root;
            assert(tape@[p] <= last);
        }
        assert forall|p: int, q: int| 0 <= p < tape@.len() && 0 <= q < nodes[tape@[p] as int].inputs@.len() implies
            tape@.contains(#[trigger] nodes[tape@[p] as int].inputs@[q]) by {
            assert(tape@.contains(tape@[p]));
            let i = nodes[tape@[p] as int].inputs@[q];
            assert(marks@[i as int]);
            assert(i < tape@[p]);
        }
        assert forall|p: int| 0 <= p < tape@.len() - 1 implies #[trigger] used_on_tape(nodes, tape@, tape@[p]) by {
            let x = tape@[p];
            assert(tape@.contains(x));
            assert(x < root) by {
                assert(tape@[p] < tape@[tape@.len() - 1]);
            }
            assert(used_by_marked(nodes, marks@, x as int));
            let y = choose|y: int| x < y < marks@.len() && marks@[y] && nodes[y].inputs@.contains(x);
            assert(tape@.contains(y as usize));
            let py = choose|py: int| 0 <= py < tape@.len() && tape@[py] == y as usize;
        }
    }
    tape
}

/// Each node's inputs are earlier nodes.
pub open spec fn inputs_earlier(nodes: Seq<Node>) -> bool {
    forall|k: int, q: int| 0 <= k < nodes.len() && 0 <= q < nodes[k].inputs@.len() ==> (#[trigger] nodes[k].inputs@[q]) < k
}

proof fn lemma_tape_bounded(nodes: Seq<Node>, root: int, t: Seq<usize>, p: int)
    requires
        is_tape(nodes, root, t),
        0 <= p < t.len(),
    ensures
        t[p] <= root,
        t[p] == root ==> p == t.len() - 1,
{
    if p < t.len() - 1 {
        assert(t[p] < t[t.len() - 1]);
    }
}

proof fn lemma_tape_subset(nodes: Seq<Node>, root: int, t1: Seq<usize>, t2: Seq<usize>, x: usize)
    requires
        inputs_earlier(nodes),
        0 <= root < nodes.len(),
        is_tape(nodes, root, t1),
        is_tape(nodes, root, t2),
        t1.contains(x),
    ensures
        t2.contains(x),
    decreases root - x,
{
    let p = choose|p: int| 0 <= p < t1.len() && t1[p] == x;
    lemma_tape_bounded(nodes, root, t1, p);
    if x == root {
        assert(t2[t2.len() - 1] == x);
    } else {
        assert(p < t1.len() - 1);
        assert(used_on_tape(nodes, t1, t1[p]));
        let user_pos = choose|user_pos: int| 0 <= user_pos < t1.len() && nodes[t1[user_pos] as int].inputs@.contains(x);
        let y = t1[user_pos];
        lemma_tape_bounded(nodes, root, t1, user_pos);
        let q = choose|q: int| 0 <= q < nodes[y as int].inputs@.len() && nodes[y as int].inputs@[q] == x;
        assert(x < y);
        assert(t1.contains(y));
        lemma_tape_subset(nodes, root, t1, t2, y);
        let py = choose|py: int| 0 <= py < t2.len() && t2[py] == y;
        assert(t2.contains(nodes[t2[py] as int].inputs@[q]));
    }
}

proof fn lemma_increasing_unique(xs: Seq<usize>, ys: Seq<usize>)
    requires
        strictly_increasing(xs),
        strictly_increasing(ys),
        forall|x: usize| xs.contains(x) <==> ys.contains(x),
    ensures
        xs == ys,
    decreases xs.len(),
{
    if xs.len() == 0 {
        if ys.len() > 0 {
            assert(ys.contains(ys[0]));
        }
        assert(xs =~= ys);
    } else {
        assert(xs.contains(xs.last()));
        assert(ys.len() > 0);
        assert(ys.contains(ys.last()));
        let a = xs.last();
        let b = ys.last();
        let pa = choose|k: int| 0 <= k < ys.len() && ys[k] == a;
        let pb = choose|k: int| 0 <= k < xs.len() && xs[k] == b;
        if pa < ys.len() - 1 {
            assert(ys[pa] < ys[ys.len() - 1]);
        }
        if pb < xs.len() - 1 {
            assert(xs[pb] < xs[xs.len() - 1]);
        }
        assert(a == b);
        let d1 = xs.drop_last();
        let d2 = ys.drop_last();
        assert forall|x: usize| d1.contains(x) <==> d2.contains(x) by {
            if d1.contains(x) {
                let k = choose|k: int| 0 <= k < d1.len() && d1[k] == x;
                assert(xs[k] == x && xs[k] < a);
                assert(ys.contains(x));
                let j = choose|j: int| 0 <= j < ys.len() && ys[j] == x;
                assert(j != ys.len() - 1);
                assert(d2[j] == x);
            }
            if d2.contains(x) {
                let k = choose|k: int| 0 <= k < d2.len() && d2[k] == x;
                assert(ys[k] == x && ys[k] < b);
                assert(xs.contains(x));
                let j = choose|j: int| 0 <= j < xs.len() && xs[j] == x;
                assert(j != xs.len() - 1);
                assert(d1[j] == x);
            }
        }
        lemma_increasing_unique(d1, d2);
        assert(xs =~= d1.push(a));
        assert(ys =~= d2.push(b));
    }
}

/// A root has one tape only: building the same graph twice walks the same
/// nodes in the same order, so the program assembled from a graph and an
/// optimizer's instructions is determined by them.
pub proof fn lemma_tape_unique(device: &Device, root: int, t1: Seq<usize>, t2: Seq<usize>)
    requires
        device.wf(),
        0 <= root < device.nodes@.len(),
        is_tape(device.nodes@, root, t1),
        is_tape(device.nodes@, root, t2),
    ensures
        t1 == t2,
{
    let nodes = device.nodes@;
    assert forall|k: int, q: int| 0 <= k < nodes.len() && 0 <= q < nodes[k].inputs@.len() implies (#[trigger] nodes[k].inputs@[q]) < k by {
        assert(node_wf(device.tensors@, nodes, k));
    }
    assert forall|x: usize| t1.contains(x) <==> t2.contains(x) by {
        if t1.contains(x) {
            lemma_tape_subset(nodes, root, t1, t2, x);
        }
        if t2.contains(x) {
            lemma_tape_subset(nodes, root, t2, t1, x);
        }
    }
    lemma_increasing_unique(t1, t2);
}

} // verus!
