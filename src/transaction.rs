//! Operand transactions: each read and each write of a name by an
//! instruction, used to check that an execution keeps the accesses to every
//! operand in program order.
use vstd::prelude::*;

use crate::planner::SimpleInstruction;

verus! {

#[derive(Clone, Copy, Debug, PartialEq, Eq, Structural)]
pub enum Access {
    Read,
    Write,
}

/// One access of one instruction to one operand.
#[derive(Clone, Copy, Debug, PartialEq, Eq, Structural)]
pub struct Transaction {
    pub instruction: usize,
    pub operand: usize,
    pub access: Access,
}

/// The transactions of one instruction: a read of each input, then a write of each output.
pub open spec fn instruction_transactions(instruction: usize, inputs: Seq<usize>, outputs: Seq<usize>) -> Seq<Transaction> {
    inputs.map_values(|o: usize| Transaction { instruction, operand: o, access: Access::Read })
        + outputs.map_values(|o: usize| Transaction { instruction, operand: o, access: Access::Write })
}

/// The transactions of the instructions `executed`, run in that order.
pub open spec fn execution_transactions(prog: Seq<SimpleInstruction>, executed: Seq<usize>) -> Seq<Transaction>
    decreases executed.len(),
{
    if executed.len() == 0 {
        Seq::empty()
    } else {
        let last = executed.last();
        execution_transactions(prog, executed.drop_last())
            + instruction_transactions(last, prog[last as int].0@, prog[last as int].1@)
    }
}

/// The transactions of one instruction.
pub fn get_instruction_transactions(instruction: usize, inputs: &[usize], outputs: &[usize]) -> (r: Vec<Transaction>)
    ensures
        r@ == instruction_transactions(instruction, inputs@, outputs@),
{
    let mut r: Vec<Transaction> = Vec::new();
    let mut k: usize = 0;
    while k < inputs.len()
        invariant
            k <= inputs@.len(),
            r@ == inputs@.subrange(0, k as int).map_values(|o: usize| Transaction { instruction, operand: o, access: Access::Read }),
        decreases inputs@.len() - k,
    {
        r.push(Transaction { instruction, operand: inputs[k], access: Access::Read });
        k += 1;
        assert(r@ =~= inputs@.subrange(0, k as int).map_values(|o: usize| Transaction { instruction, operand: o, access: Access::Read }));
    }
    assert(inputs@.subrange(0, k as int) =~= inputs@);
    let ghost reads = r@;
    let mut k: usize = 0;
    while k < outputs.len()
        invariant
            k <= outputs@.len(),
            r@ == reads + outputs@.subrange(0, k as int).map_values(|o: usize| Transaction { instruction, operand: o, access: Access::Write }),
        decreases outputs@.len() - k,
    {
        r.push(Transaction { instruction, operand: outputs[k], access: Access::Write });
        k += 1;
        assert(r@ =~= reads + outputs@.subrange(0, k as int).map_values(|o: usize| Transaction { instruction, operand: o, access: Access::Write }));
    }
    assert(outputs@.subrange(0, k as int) =~= outputs@);
    r
}

/// The transactions of the instructions `executed`, run in that order.
pub fn get_execution_transactions(prog: &[SimpleInstruction], executed: &[usize]) -> (r: Vec<Transaction>)
    requires
        forall|k: int| 0 <= k < executed@.len() ==> (#[trigger] executed@[k]) < prog@.len(),
    ensures
        r@ == execution_transactions(prog@, executed@),
{
    let mut r: Vec<Transaction> = Vec::new();
    let mut k: usize = 0;
    while k < executed.len()
        invariant
            k <= executed@.len(),
            forall|k: int| 0 <= k < executed@.len() ==> (#[trigger] executed@[k]) < prog@.len(),
            r@ == execution_transactions(prog@, executed@.subrange(0, k as int)),
        decreases executed@.len() - k,
    {
        let i = executed[k];
        let mut t = get_instruction_transactions(i, prog[i].0.as_slice(), prog[i].1.as_slice());
        r.append(&mut t);
        let ghost next = executed@.subrange(0, k + 1);
        assert(next.drop_last() =~= executed@.subrange(0, k as int));
        k += 1;
    }
    assert(executed@.subrange(0, k as int) =~= executed@);
    r
}

/// The transactions of a program run in its own order.
pub fn get_all_instruction_transactions(instructions: &[SimpleInstruction]) -> (r: Vec<Transaction>)
    ensures
        r@ == execution_transactions(instructions@, Seq::new(instructions@.len(), |i: int| i as usize)),
{
    let n = instructions.len();
    let mut order: Vec<usize> = Vec::new();
    let mut i: usize = 0;
    while i < n
        invariant
            i <= n,
            n == instructions@.len(),
            order@ == Seq::new(i as nat, |k: int| k as usize),
        decreases n - i,
    {
        order.push(i);
        i += 1;
        assert(order@ =~= Seq::new(i as nat, |k: int| k as usize));
    }
    get_execution_transactions(instructions, order.as_slice())
}

/// Transaction `a` comes before transaction `b` on the same operand, from another instruction.
pub open spec fn is_ordered_pair(transactions: Seq<Transaction>, access: Access, prior_access: Access, p: int, q: int) -> bool {
    &&& 0 <= p < q < transactions.len()
    &&& transactions[p].access == prior_access
    &&& transactions[q].access == access
    &&& transactions[p].operand == transactions[q].operand
    &&& transactions[p].instruction != transactions[q].instruction
}

/// For each operand, the pairs `(operand, earlier, later)` of instructions
/// where `earlier` accesses the operand with `prior_access` before `later`
/// accesses it with `access`.
pub fn get_operand_transaction_pairs(access: Access, prior_access: Access, transactions: &[Transaction]) -> (r: Vec<(usize, usize, usize)>)
    ensures
        forall|o: usize, a: usize, b: usize| r@.contains((o, a, b)) <==> exists|p: int, q: int|
            #[trigger] is_ordered_pair(transactions@, access, prior_access, p, q)
                && transactions@[p].operand == o && transactions@[p].instruction == a && transactions@[q].instruction == b,
{
    let mut r: Vec<(usize, usize, usize)> = Vec::new();
    let mut q: usize = 0;
    while q < transactions.len()
        invariant
            q <= transactions@.len(),
            forall|o: usize, a: usize, b: usize| r@.contains((o, a, b)) <==> exists|p: int, later: int|
                later < q && #[trigger] is_ordered_pair(transactions@, access, prior_access, p, later)
                    && transactions@[p].operand == o && transactions@[p].instruction == a && transactions@[later].instruction == b,
        decreases transactions@.len() - q,
    {
        let mut p: usize = 0;
        while p < q
            invariant
                p <= q,
                q < transactions@.len(),
                forall|o: usize, a: usize, b: usize| r@.contains((o, a, b)) <==> exists|earlier: int, later: int|
                    (later < q || (later == q && earlier < p)) && #[trigger] is_ordered_pair(transactions@, access, prior_access, earlier, later)
                        && transactions@[earlier].operand == o && transactions@[earlier].instruction == a && transactions@[later].instruction == b,
            decreases q - p,
        {
            let tp = transactions[p];
            let tq = transactions[q];
            let ghost before = r@;
            if tp.access == prior_access && tq.access == access && tp.operand == tq.operand && tp.instruction != tq.instruction {
                r.push((tp.operand, tp.instruction, tq.instruction));
            }
            assert forall|o: usize, a: usize, b: usize| r@.contains((o, a, b)) <==> exists|earlier: int, later: int|
                (later < q || (later == q && earlier < p + 1)) && #[trigger] is_ordered_pair(transactions@, access, prior_access, earlier, later)
                    && transactions@[earlier].operand == o && transactions@[earlier].instruction == a && transactions@[later].instruction == b by {
                if r@.len() > before.len() {
                    assert(r@ == before.push((tp.operand, tp.instruction, tq.instruction)));
                    if r@.contains((o, a, b)) {
                        let k = choose|k: int| 0 <= k < r@.len() && r@[k] == (o, a, b);
                        if k < before.len() {
                            assert(before[k] == (o, a, b));
                            assert(before.contains((o, a, b)));
                        } else {
                            assert(is_ordered_pair(transactions@, access, prior_access, p as int, q as int));
                        }
                    }
                    if exists|earlier: int, later: int| (later < q || (later == q && earlier < p + 1)) && #[trigger] is_ordered_pair(transactions@, access, prior_access, earlier, later)
                        && transactions@[earlier].operand == o && transactions@[earlier].instruction == a && transactions@[later].instruction == b {
                        let (earlier, later) = choose|earlier: int, later: int| (later < q || (later == q && earlier < p + 1)) && #[trigger] is_ordered_pair(transactions@, access, prior_access, earlier, later)
                            && transactions@[earlier].operand == o && transactions@[earlier].instruction == a && transactions@[later].instruction == b;
                        if later == q && earlier == p {
                            assert(r@[r@.len() - 1] == (o, a, b));
                        } else {
                            assert(before.contains((o, a, b)));
                            let k = choose|k: int| 0 <= k < before.len() && before[k] == (o, a, b);
                            assert(r@[k] == (o, a, b));
                        }
                    }
                } else {
                    if exists|earlier: int, later: int| (later < q || (later == q && earlier < p + 1)) && #[trigger] is_ordered_pair(transactions@, access, prior_access, earlier, later)
                        && transactions@[earlier].operand == o && transactions@[earlier].instruction == a && transactions@[later].instruction == b {
                        let (earlier, later) = choose|earlier: int, later: int| (later < q || (later == q && earlier < p + 1)) && #[trigger] is_ordered_pair(transactions@, access, prior_access, earlier, later)
                            && transactions@[earlier].operand == o && transactions@[earlier].instruction == a && transactions@[later].instruction == b;
                        assert(!(later == q && earlier == p));
                    }
                }
            }
            p += 1;
        }
        q += 1;
    }
    r
}

} // verus!
