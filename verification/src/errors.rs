use vstd::prelude::*;

verus! {

/// A fault in the byte-level encoding of a chunk: raised when an instruction
/// stream cannot be decoded, or when building one would break an invariant.
#[derive(Debug, PartialEq, Eq, Structural, Clone, Copy)]
pub enum Error {
    /// A byte that names no instruction was fetched where an opcode was due.
    UnknownOpCode,
    /// The constant pool is full: an operand byte could not address a new entry.
    TooManyConstants,
    /// The instruction stream ends in the middle of an instruction.
    TruncatedInstruction,
    /// A constant-load operand names no entry of the constant pool.
    BadConstantIndex,
}

/// A lexical fault as a plain record; the scanner's error tokens carry the
/// same message and line.
#[derive(Debug)]
pub struct ScannerError {
    pub message: String,
    pub line: usize,
}

} // verus!
