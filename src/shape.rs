//! The shape rule of each opcode: which input and output shapes an
//! instruction may have.
use vstd::prelude::*;

use crate::instruction::OpCode;

verus! {

/// A shape, `(rows, cols)`.
pub type Shape = (usize, usize);

/// The shape of a matrix, transposed when `t` holds.
pub open spec fn op_shape(t: bool, s: Shape) -> Shape {
    if t { (s.1, s.0) } else { s }
}

pub open spec fn all_equal(s: Seq<Shape>, x: Shape) -> bool {
    forall|k: int| 0 <= k < s.len() ==> s[k] == x
}

/// The shape rule of `op` on input shapes `ins` and output shapes `outs`.
pub open spec fn shape_rule(op: OpCode, ins: Seq<Shape>, outs: Seq<Shape>) -> bool {
    match op {
        OpCode::Gemm(ta, tb, tc) => {
            let a = op_shape(ta, ins[0]);
            let b = op_shape(tb, ins[1]);
            &&& ins.len() == 3
            &&& outs.len() == 1
            &&& a.1 == b.0
            &&& outs[0] == ins[2]
            &&& outs[0] == op_shape(tc, (a.0, b.1))
        },
        OpCode::ScalarMul | OpCode::ScalarAdd => {
            &&& ins.len() == 2
            &&& outs.len() == 1
            &&& ins[0] == (1usize, 1usize)
            &&& outs[0] == ins[1]
        },
        OpCode::Add | OpCode::Sub | OpCode::Mul | OpCode::Div => {
            &&& ins.len() == 2
            &&& outs.len() == 1
            &&& ins[1] == ins[0]
            &&& outs[0] == ins[0]
        },
        OpCode::Sqrt | OpCode::Sigmoid | OpCode::Softmax | OpCode::ClipNorm | OpCode::Mask | OpCode::Bernoulli => {
            &&& ins.len() == 1
            &&& outs.len() == 1
            &&& outs[0] == ins[0]
        },
        OpCode::SigmoidBackward | OpCode::SoftmaxBackward => {
            &&& ins.len() == 3
            &&& outs.len() == 1
            &&& ins[1] == ins[0]
            &&& ins[2] == ins[0]
            &&& outs[0] == ins[0]
        },
        OpCode::CrossEntropyLoss | OpCode::SoftmaxCrossEntropyLoss | OpCode::ResidualSumOfSquares => {
            &&& ins.len() == 2
            &&& outs.len() == 1
            &&& ins[1] == ins[0]
            &&& outs[0] == (1usize, 1usize)
        },
        OpCode::Concat => {
            &&& ins.len() >= 1
            &&& outs.len() == 1
            &&& all_equal(ins, ins[0])
            &&& outs[0].0 == ins[0].0
            &&& outs[0].1 == ins[0].1 * ins.len()
        },
        OpCode::Unconcat => {
            &&& ins.len() == 1
            &&& outs.len() >= 1
            &&& all_equal(outs, outs[0])
            &&& ins[0].0 == outs[0].0
            &&& ins[0].1 == outs[0].1 * outs.len()
        },
        OpCode::Reshape => {
            &&& ins.len() == 1
            &&& outs.len() == 1
            &&& outs[0].0 * outs[0].1 == ins[0].0 * ins[0].1
        },
        OpCode::AdamStep => {
            &&& ins.len() == 9
            &&& outs.len() == 4
            &&& ins[1] == ins[0]
            &&& ins[2] == ins[0]
            &&& ins[3] == ins[0]
            &&& all_equal(ins.subrange(4, 9), (1usize, 1usize))
            &&& outs[0] == ins[0]
            &&& outs[1] == ins[0]
            &&& outs[2] == ins[0]
            &&& outs[3] == (1usize, 1usize)
        },
    }
}

/// The product of two sizes, which always fits in 128 bits.
fn mul_wide(a: usize, b: usize) -> (r: u128)
    ensures
        r == a * b,
{
    assert(a * b <= usize::MAX * usize::MAX) by (nonlinear_arith)
        requires
            a <= usize::MAX,
            b <= usize::MAX,
    ;
    (a as u128) * (b as u128)
}

fn same(a: Shape, b: Shape) -> (r: bool)
    ensures
        r == (a == b),
{
    a.0 == b.0 && a.1 == b.1
}

fn all_equal_exec(s: &[Shape], x: Shape) -> (r: bool)
    ensures
        r == all_equal(s@, x),
{
    let mut k: usize = 0;
    while k < s.len()
        invariant
            k <= s@.len(),
            forall|m: int| 0 <= m < k ==> s@[m] == x,
        decreases s@.len() - k,
    {
        if s[k].0 != x.0 || s[k].1 != x.1 {
            return false;
        }
        k += 1;
    }
    true
}

/// Whether input shapes `ins` and output shapes `outs` follow the shape rule of `op`.
pub fn check_shapes(op: OpCode, ins: &[Shape], outs: &[Shape]) -> (r: bool)
    ensures
        r == shape_rule(op, ins@, outs@),
{
    match op {
        OpCode::Gemm(ta, tb, tc) => {
            if ins.len() != 3 || outs.len() != 1 {
                return false;
            }
            let a = if ta { (ins[0].1, ins[0].0) } else { ins[0] };
            let b = if tb { (ins[1].1, ins[1].0) } else { ins[1] };
            let c = if tc { (b.1, a.0) } else { (a.0, b.1) };
            a.1 == b.0 && same(outs[0], ins[2]) && same(outs[0], c)
        },
        OpCode::ScalarMul | OpCode::ScalarAdd => {
            ins.len() == 2 && outs.len() == 1 && same(ins[0], (1, 1)) && same(outs[0], ins[1])
        },
        OpCode::Add | OpCode::Sub | OpCode::Mul | OpCode::Div => {
            ins.len() == 2 && outs.len() == 1 && same(ins[1], ins[0]) && same(outs[0], ins[0])
        },
        OpCode::Sqrt | OpCode::Sigmoid | OpCode::Softmax | OpCode::ClipNorm | OpCode::Mask | OpCode::Bernoulli => {
            ins.len() == 1 && outs.len() == 1 && same(outs[0], ins[0])
        },
        OpCode::SigmoidBackward | OpCode::SoftmaxBackward => {
            ins.len() == 3 && outs.len() == 1 && same(ins[1], ins[0]) && same(ins[2], ins[0]) && same(outs[0], ins[0])
        },
        OpCode::CrossEntropyLoss | OpCode::SoftmaxCrossEntropyLoss | OpCode::ResidualSumOfSquares => {
            ins.len() == 2 && outs.len() == 1 && same(ins[1], ins[0]) && same(outs[0], (1, 1))
        },
        OpCode::Concat => {
            if ins.len() < 1 || outs.len() != 1 {
                return false;
            }
            all_equal_exec(ins, ins[0]) && outs[0].0 == ins[0].0
                && outs[0].1 as u128 == mul_wide(ins[0].1, ins.len())
        },
        OpCode::Unconcat => {
            if ins.len() != 1 || outs.len() < 1 {
                return false;
            }
            all_equal_exec(outs, outs[0]) && ins[0].0 == outs[0].0
                && ins[0].1 as u128 == mul_wide(outs[0].1, outs.len())
        },
        OpCode::AdamStep => {
            if ins.len() != 9 || outs.len() != 4 {
                return false;
            }
            let mut scalars = true;
            let mut k: usize = 4;
            while k < 9
                invariant
                    4 <= k <= 9,
                    ins@.len() == 9,
                    scalars <==> forall|m: int| 4 <= m < k ==> ins@[m] == (1usize, 1usize),
                decreases 9 - k,
            {
                if !same(ins[k], (1, 1)) {
                    scalars = false;
                }
                k += 1;
            }
            assert(scalars <==> all_equal(ins@.subrange(4, 9), (1usize, 1usize))) by {
                if !scalars {
                    let m = choose|m: int| 4 <= m < 9 && ins@[m] != (1usize, 1usize);
                    assert(ins@.subrange(4, 9)[m - 4] == ins@[m]);
                } else {
                    assert forall|m: int| 0 <= m < 5 implies ins@.subrange(4, 9)[m] == (1usize, 1usize) by {
                        assert(ins@.subrange(4, 9)[m] == ins@[m + 4]);
                    }
                }
            }
            scalars && same(ins[1], ins[0]) && same(ins[2], ins[0]) && same(ins[3], ins[0])
                && same(outs[0], ins[0]) && same(outs[1], ins[0]) && same(outs[2], ins[0]) && same(outs[3], (1, 1))
        },
        OpCode::Reshape => {
            ins.len() == 1 && outs.len() == 1
                && mul_wide(outs[0].0, outs[0].1) == mul_wide(ins[0].0, ins[0].1)
        },
    }
}

} // verus!
