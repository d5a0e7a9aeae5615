//! What can go wrong while a function is analysed.

use vstd::prelude::*;
use crate::codec::SerializationError;
use crate::instr::Instr;
use crate::parse::ParseError;

verus! {

/// Why the analysis of a function stopped.
#[derive(Clone, Copy, Debug, PartialEq, Eq, Structural)]
pub enum AnalysisError {
    /// The instruction has no entry in the table of stack effects.
    UnsupportedOpcode(Instr),
    /// An instruction takes more operands than the stack holds.
    StackUnderflow,
}

/// A failed analysis of one function: the offset at which the instruction
/// that could not be handled starts, and what was wrong with it.
#[derive(Clone, Copy, Debug, PartialEq, Eq, Structural)]
pub struct FunctionError {
    pub offset: u32,
    pub kind: AnalysisError,
}

/// A failed analysis of a module: the first function that failed, and how.
#[derive(Clone, Copy, Debug, PartialEq, Eq, Structural)]
pub struct ModuleError {
    pub func_index: usize,
    pub error: FunctionError,
}

/// Why the tables of a module could not be made from its binary form.
#[derive(Clone, Debug, PartialEq, Eq)]
pub enum Error {
    /// The bytes could not be read as a module.
    Parse(ParseError),
    /// A function of the module could not be analysed.
    Analysis(ModuleError),
    /// The tables could not be written.
    Serialization(SerializationError),
}

} // verus!
