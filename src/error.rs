use vstd::prelude::*;

verus! {

/// The errors that building and running a program can report.
#[derive(Clone, Copy, Debug, PartialEq, Eq, Structural)]
pub enum Error {
    /// A builder or a kernel was given tensors whose shapes do not fit.
    IncompatibleTensorShapes,
    /// The backend refuses an opcode, or an instruction has the wrong arity.
    UnsupportedOperation,
    /// An instruction of the program writes to a machine input.
    MachineInputWritten,
}

} // verus!
