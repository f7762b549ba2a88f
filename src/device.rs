//! The tensor store and the graph of differentiable tensors. A tensor is
//! known here by its name (its index), its shape and its flags; its values
//! live with the backend that runs the program.
use vstd::prelude::*;

use crate::instruction::{Instruction, InstructionView};
use crate::shape::{shape_rule, Shape};

verus! {

/// How the backend fills a tensor's values before the first run.
#[derive(Clone, Copy, Debug, PartialEq, Eq, Structural)]
pub enum Init {
    Zeros,
    /// Every value is `numerator / denominator`.
    Constant(i64, u64),
    /// Every value is `1 / sqrt(n)`.
    InverseSqrt(u64),
    /// Uniform in `[-sqrt(6 / (rows + cols)), sqrt(6 / (rows + cols))]`.
    XavierUniform,
    /// Uniform in `[0, 1)`.
    UniformUnit,
}

/// What the program knows of a tensor.
#[derive(Clone, Copy, Debug, PartialEq, Eq, Structural)]
pub struct TensorInfo {
    pub rows: usize,
    pub cols: usize,
    pub requires_grad: bool,
    pub is_parameter: bool,
    pub init: Init,
}

/// A handle on a node of the graph: its value and gradient tensors and their shape.
#[derive(Clone, Copy, Debug, PartialEq, Eq, Structural)]
pub struct TensorWithGrad {
    pub node: usize,
    pub value: usize,
    pub gradient: usize,
    pub rows: usize,
    pub cols: usize,
}

/// A differentiable tensor: the instructions that compute its value, the
/// instructions that carry its gradient back into its inputs' gradients,
/// and its inputs (earlier nodes).
pub struct Node {
    pub value: usize,
    pub gradient: usize,
    pub inputs: Vec<usize>,
    pub forward_instructions: Vec<Instruction>,
    pub gradient_instructions: Vec<Instruction>,
}

/// The tensors, the graph built over them, and the parameter registry (the
/// nodes whose value an optimizer updates).
pub struct Device {
    pub tensors: Vec<TensorInfo>,
    pub nodes: Vec<Node>,
    pub parameters: Vec<usize>,
}

pub open spec fn views(s: Seq<Instruction>) -> Seq<InstructionView> {
    s.map_values(|i: Instruction| i@)
}

/// Appends an instruction to a list.
pub fn push_instruction(list: &mut Vec<Instruction>, i: Instruction)
    ensures
        final(list)@ == old(list)@.push(i),
        views(final(list)@) == views(old(list)@).push(i@),
{
    let ghost v = i@;
    list.push(i);
    assert(views(list@) =~= views(old(list)@).push(v));
}

pub open spec fn shape_of(tensors: Seq<TensorInfo>, t: usize) -> Shape {
    (tensors[t as int].rows, tensors[t as int].cols)
}

pub open spec fn shapes_of(tensors: Seq<TensorInfo>, names: Seq<usize>) -> Seq<Shape> {
    names.map_values(|t: usize| shape_of(tensors, t))
}

pub open spec fn names_in(tensors: Seq<TensorInfo>, names: Seq<usize>) -> bool {
    forall|k: int| 0 <= k < names.len() ==> (#[trigger] names[k]) < tensors.len()
}

/// The instruction names existing tensors and follows the shape rule of its opcode.
pub open spec fn well_shaped(tensors: Seq<TensorInfo>, i: InstructionView) -> bool {
    &&& names_in(tensors, i.inputs)
    &&& names_in(tensors, i.outputs)
    &&& shape_rule(i.opcode, shapes_of(tensors, i.inputs), shapes_of(tensors, i.outputs))
}

pub open spec fn all_well_shaped(tensors: Seq<TensorInfo>, s: Seq<Instruction>) -> bool {
    forall|q: int| 0 <= q < s.len() ==> well_shaped(tensors, (#[trigger] s[q])@)
}

pub open spec fn node_wf(tensors: Seq<TensorInfo>, nodes: Seq<Node>, k: int) -> bool {
    let n = nodes[k];
    &&& n.value < tensors.len()
    &&& n.gradient < tensors.len()
    &&& n.value != n.gradient
    &&& shape_of(tensors, n.value) == shape_of(tensors, n.gradient)
    &&& forall|q: int| 0 <= q < n.inputs@.len() ==> (#[trigger] n.inputs@[q]) < k
    &&& all_well_shaped(tensors, n.forward_instructions@)
    &&& all_well_shaped(tensors, n.gradient_instructions@)
}

/// `t` is a well-shaped instruction over `tensors`, and stays one when tensors are added.
pub proof fn lemma_well_shaped_extends(tensors: Seq<TensorInfo>, more: Seq<TensorInfo>, i: InstructionView)
    requires
        well_shaped(tensors, i),
        tensors.len() <= more.len(),
        forall|t: int| 0 <= t < tensors.len() ==> more[t] == tensors[t],
    ensures
        well_shaped(more, i),
{
    assert(shapes_of(more, i.inputs) =~= shapes_of(tensors, i.inputs));
    assert(shapes_of(more, i.outputs) =~= shapes_of(tensors, i.outputs));
}

impl Device {
    pub open spec fn wf(&self) -> bool {
        &&& forall|k: int| 0 <= k < self.nodes@.len() ==> #[trigger] node_wf(self.tensors@, self.nodes@, k)
        &&& forall|p: int| 0 <= p < self.parameters@.len() ==> (#[trigger] self.parameters@[p]) < self.nodes@.len()
    }

    /// `t` names a node of this device with its value, gradient and shape.
    pub open spec fn valid(&self, t: TensorWithGrad) -> bool {
        &&& t.node < self.nodes@.len()
        &&& self.nodes@[t.node as int].value == t.value
        &&& self.nodes@[t.node as int].gradient == t.gradient
        &&& shape_of(self.tensors@, t.value) == (t.rows, t.cols)
    }

    /// Whether the gradient of `t` asks for gradient instructions.
    pub open spec fn wants_gradient(&self, t: TensorWithGrad) -> bool {
        self.tensors@[t.gradient as int].requires_grad
    }

    /// This device holds everything `old` held, unchanged.
    pub open spec fn extends(&self, old: &Device) -> bool {
        &&& old.tensors@.len() <= self.tensors@.len()
        &&& forall|t: int| 0 <= t < old.tensors@.len() ==> self.tensors@[t] == old.tensors@[t]
        &&& old.nodes@.len() <= self.nodes@.len()
        &&& forall|k: int| 0 <= k < old.nodes@.len() ==> self.nodes@[k] == old.nodes@[k]
        &&& old.parameters@.len() <= self.parameters@.len()
        &&& forall|p: int| 0 <= p < old.parameters@.len() ==> self.parameters@[p] == old.parameters@[p]
    }

    pub fn new() -> (r: Device)
        ensures
            r.wf(),
            r.tensors@.len() == 0,
            r.nodes@.len() == 0,
            r.parameters@.len() == 0,
    {
        Device { tensors: Vec::new(), nodes: Vec::new(), parameters: Vec::new() }
    }

    /// Allocates a tensor and returns its name.
    pub fn tensor(&mut self, rows: usize, cols: usize, requires_grad: bool, is_parameter: bool, init: Init) -> (r: usize)
        requires
            old(self).wf(),
        ensures
            final(self).wf(),
            r == old(self).tensors@.len(),
            final(self).tensors@ == old(self).tensors@.push(TensorInfo { rows, cols, requires_grad, is_parameter, init }),
            final(self).nodes@ == old(self).nodes@,
            final(self).parameters@ == old(self).parameters@,
            final(self).extends(old(self)),
    {
        let r = self.tensors.len();
        self.tensors.push(TensorInfo { rows, cols, requires_grad, is_parameter, init });
        proof {
            assert forall|k: int| 0 <= k < self.nodes@.len() implies #[trigger] node_wf(self.tensors@, self.nodes@, k) by {
                assert(node_wf(old(self).tensors@, old(self).nodes@, k));
                let n = self.nodes@[k];
                assert forall|q: int| 0 <= q < n.forward_instructions@.len() implies
                    well_shaped(self.tensors@, (#[trigger] n.forward_instructions@[q])@) by {
                    lemma_well_shaped_extends(old(self).tensors@, self.tensors@, n.forward_instructions@[q]@);
                }
                assert forall|q: int| 0 <= q < n.gradient_instructions@.len() implies
                    well_shaped(self.tensors@, (#[trigger] n.gradient_instructions@[q])@) by {
                    lemma_well_shaped_extends(old(self).tensors@, self.tensors@, n.gradient_instructions@[q]@);
                }
            }
        }
        r
    }

    /// Adds a node to the graph; a parameter node also joins the parameter registry.
    pub fn add_node(
        &mut self,
        value: usize,
        gradient: usize,
        inputs: Vec<usize>,
        forward_instructions: Vec<Instruction>,
        gradient_instructions: Vec<Instruction>,
        is_parameter: bool,
    ) -> (r: TensorWithGrad)
        requires
            old(self).wf(),
            value < old(self).tensors@.len(),
            gradient < old(self).tensors@.len(),
            value != gradient,
            shape_of(old(self).tensors@, value) == shape_of(old(self).tensors@, gradient),
            forall|q: int| 0 <= q < inputs@.len() ==> (#[trigger] inputs@[q]) < old(self).nodes@.len(),
            all_well_shaped(old(self).tensors@, forward_instructions@),
            all_well_shaped(old(self).tensors@, gradient_instructions@),
        ensures
            final(self).wf(),
            final(self).extends(old(self)),
            final(self).valid(r),
            r.node == old(self).nodes@.len(),
            r.value == value,
            r.gradient == gradient,
            (r.rows, r.cols) == shape_of(old(self).tensors@, value),
            final(self).tensors@ == old(self).tensors@,
            final(self).nodes@.len() == old(self).nodes@.len() + 1,
            final(self).nodes@[r.node as int].inputs@ == inputs@,
            views(final(self).nodes@[r.node as int].forward_instructions@) == views(forward_instructions@),
            views(final(self).nodes@[r.node as int].gradient_instructions@) == views(gradient_instructions@),
            final(self).parameters@ == if is_parameter {
                old(self).parameters@.push(r.node)
            } else {
                old(self).parameters@
            },
    {
        let node = self.nodes.len();
        let rows = self.tensors[value].rows;
        let cols = self.tensors[value].cols;
        self.nodes.push(Node { value, gradient, inputs, forward_instructions, gradient_instructions });
        if is_parameter {
            self.parameters.push(node);
        }
        proof {
            assert forall|k: int| 0 <= k < self.nodes@.len() implies #[trigger] node_wf(self.tensors@, self.nodes@, k) by {
                if k < node {
                    assert(node_wf(old(self).tensors@, old(self).nodes@, k));
                }
            }
        }
        TensorWithGrad { node, value, gradient, rows, cols }
    }
}

} // verus!
