//! Program assembly: the forward instructions of the tape in order, then its
//! gradient instructions in reverse order, each followed by a clip-norm of
//! every tensor it writes.
use vstd::prelude::*;

use crate::device::{push_instruction, views, well_shaped, Node, TensorInfo};
use crate::instruction::{instr, Category, Instruction, InstructionView, OpCode};

verus! {

/// The forward instructions of the nodes of `tape`, in tape order.
pub open spec fn forward_program(nodes: Seq<Node>, tape: Seq<usize>) -> Seq<InstructionView>
    decreases tape.len(),
{
    if tape.len() == 0 {
        Seq::empty()
    } else {
        forward_program(nodes, tape.drop_last()) + views(nodes[tape.last() as int].forward_instructions@)
    }
}

/// One clip-norm, in the gradient phase, of each name of `outputs`.
pub open spec fn clip_norms(outputs: Seq<usize>) -> Seq<InstructionView> {
    outputs.map_values(|o: usize| instr(OpCode::ClipNorm, seq![o], seq![o], Category::Gradient))
}

/// Each instruction of `s` followed by the clip-norms of what it writes.
pub open spec fn clipped(s: Seq<InstructionView>) -> Seq<InstructionView>
    decreases s.len(),
{
    if s.len() == 0 {
        Seq::empty()
    } else {
        clipped(s.drop_last()) + seq![s.last()] + clip_norms(s.last().outputs)
    }
}

/// The clipped gradient instructions of the nodes `tape[p..]`, last node first.
pub open spec fn reverse_gradients(nodes: Seq<Node>, tape: Seq<usize>, p: int) -> Seq<InstructionView>
    decreases tape.len() - p,
{
    if p >= tape.len() || p < 0 {
        Seq::empty()
    } else {
        reverse_gradients(nodes, tape, p + 1) + clipped(views(nodes[tape[p] as int].gradient_instructions@))
    }
}

/// The instructions of `s` of phase `c`, in order.
pub open spec fn of_category(s: Seq<InstructionView>, c: Category) -> Seq<InstructionView>
    decreases s.len(),
{
    if s.len() == 0 {
        Seq::empty()
    } else {
        let prev = of_category(s.drop_last(), c);
        if s.last().category == c {
            prev.push(s.last())
        } else {
            prev
        }
    }
}

pub open spec fn views_well_shaped(t: Seq<TensorInfo>, s: Seq<InstructionView>) -> bool {
    forall|q: int| 0 <= q < s.len() ==> well_shaped(t, #[trigger] s[q])
}

pub proof fn lemma_concat_well_shaped(t: Seq<TensorInfo>, a: Seq<InstructionView>, b: Seq<InstructionView>)
    requires
        views_well_shaped(t, a),
        views_well_shaped(t, b),
    ensures
        views_well_shaped(t, a + b),
{
    assert forall|q: int| 0 <= q < (a + b).len() implies well_shaped(t, #[trigger] (a + b)[q]) by {
        if q < a.len() {
            assert((a + b)[q] == a[q]);
        } else {
            assert((a + b)[q] == b[q - a.len()]);
        }
    }
}

pub proof fn lemma_clipped_well_shaped(t: Seq<TensorInfo>, s: Seq<InstructionView>)
    requires
        views_well_shaped(t, s),
    ensures
        views_well_shaped(t, clipped(s)),
    decreases s.len(),
{
    if s.len() > 0 {
        let p = s.drop_last();
        assert(views_well_shaped(t, p)) by {
            assert forall|q: int| 0 <= q < p.len() implies well_shaped(t, #[trigger] p[q]) by {
                assert(p[q] == s[q]);
            }
        }
        lemma_clipped_well_shaped(t, p);
        let last = s.last();
        assert(well_shaped(t, s[s.len() - 1]));
        let c = clip_norms(last.outputs);
        assert forall|q: int| 0 <= q < c.len() implies well_shaped(t, #[trigger] c[q]) by {
            let o = last.outputs[q];
            assert(o < t.len());
            assert(crate::device::shapes_of(t, seq![o]) =~= seq![crate::device::shape_of(t, o)]);
        }
        assert(views_well_shaped(t, seq![last])) by {
            assert forall|q: int| 0 <= q < 1 implies well_shaped(t, #[trigger] seq![last][q]) by {}
        }
        lemma_concat_well_shaped(t, clipped(p), seq![last]);
        lemma_concat_well_shaped(t, clipped(p) + seq![last], c);
    }
}

/// A copy, with the same view, of each instruction of `list`, appended to `all`.
pub fn append_instructions(all: &mut Vec<Instruction>, list: &Vec<Instruction>)
    ensures
        views(final(all)@) == views(old(all)@) + views(list@),
{
    let ghost base = views(all@);
    let mut q: usize = 0;
    while q < list.len()
        invariant
            q <= list@.len(),
            views(all@) == base + views(list@.subrange(0, q as int)),
        decreases list@.len() - q,
    {
        push_instruction(all, list[q].duplicate());
        assert(views(list@.subrange(0, q + 1)) =~= views(list@.subrange(0, q as int)).push(list@[q as int]@));
        q += 1;
    }
    assert(list@.subrange(0, q as int) =~= list@);
}

/// Each instruction of `list`, then a clip-norm of each tensor it writes, appended to `all`.
pub fn append_clipped(all: &mut Vec<Instruction>, list: &Vec<Instruction>)
    ensures
        views(final(all)@) == views(old(all)@) + clipped(views(list@)),
{
    let ghost base = views(all@);
    let mut q: usize = 0;
    while q < list.len()
        invariant
            q <= list@.len(),
            views(all@) == base + clipped(views(list@.subrange(0, q as int))),
        decreases list@.len() - q,
    {
        let instruction = list[q].duplicate();
        let outputs = crate::instruction::copy_names(instruction.outputs.as_slice());
        let ghost v = instruction@;
        push_instruction(all, instruction);
        let ghost mid = views(all@);
        let mut k: usize = 0;
        while k < outputs.len()
            invariant
                k <= outputs@.len(),
                views(all@) == mid + clip_norms(outputs@.subrange(0, k as int)),
            decreases outputs@.len() - k,
        {
            let o = outputs[k];
            let clip = Instruction::new(OpCode::ClipNorm, crate::instruction::copy_names(vec![o].as_slice()).as_slice(),
                vec![o].as_slice(), Category::Gradient);
            assert(clip@.inputs =~= seq![o]);
            assert(clip@.outputs =~= seq![o]);
            push_instruction(all, clip);
            assert(clip_norms(outputs@.subrange(0, k + 1)) =~= clip_norms(outputs@.subrange(0, k as int)).push(
                instr(OpCode::ClipNorm, seq![o], seq![o], Category::Gradient)));
            k += 1;
        }
        assert(outputs@.subrange(0, k as int) =~= outputs@);
        let ghost s = views(list@.subrange(0, q + 1));
        assert(s.drop_last() =~= views(list@.subrange(0, q as int)));
        assert(s.last() == v);
        q += 1;
    }
    assert(list@.subrange(0, q as int) =~= list@);
}

/// The instructions of `all` of phase `category`, in order.
pub fn select_category(all: &Vec<Instruction>, category: Category) -> (r: Vec<Instruction>)
    ensures
        views(r@) == of_category(views(all@), category),
{
    let mut r: Vec<Instruction> = Vec::new();
    let mut k: usize = 0;
    while k < all.len()
        invariant
            k <= all@.len(),
            views(r@) == of_category(views(all@.subrange(0, k as int)), category),
        decreases all@.len() - k,
    {
        let ghost s = views(all@.subrange(0, k + 1));
        assert(s.drop_last() =~= views(all@.subrange(0, k as int)));
        if all[k].category == category {
            push_instruction(&mut r, all[k].duplicate());
        }
        k += 1;
    }
    assert(all@.subrange(0, k as int) =~= all@);
    r
}

} // verus!
